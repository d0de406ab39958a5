use kotlin_lsp::gradle::{parse_include_calls, parse_include_calls_with_separator};

#[test]
fn parses_colon_prefixed_includes() {
    let content = r#"include(":app", ":core", ":data")"#;
    let result = parse_include_calls(content);
    assert_eq!(result, vec!["app", "core", "data"]);
}

#[test]
fn parses_nested_module_paths() {
    let content = r#"include(":feature:login", ":feature:home")"#;
    let result = parse_include_calls(content);
    let sep = std::path::MAIN_SEPARATOR_STR;
    assert_eq!(result[0], format!("feature{sep}login"));
    assert_eq!(result[1], format!("feature{sep}home"));
}

#[test]
fn deduplicates_include_entries() {
    let content = "include(\":app\")\ninclude(\":app\")";
    let result = parse_include_calls(content);
    assert_eq!(result.len(), 1);
}

#[test]
fn parses_single_quoted_includes() {
    let content = "include(':app', ':core')";
    let result = parse_include_calls(content);
    assert_eq!(result, vec!["app", "core"]);
}

#[test]
fn ignores_include_build_lines() {
    let content = "includeBuild(\"../other-project\")\ninclude(\":app\")";
    let result = parse_include_calls(content);
    assert_eq!(result, vec!["app"]);
}

#[test]
fn include_lines_are_trimmed_and_crlf_tolerated() {
    let content = "  include(\":a\")\r\n\tinclude(':b')  \r\n";
    assert_eq!(parse_include_calls(content), vec!["a", "b"]);
}

#[test]
fn groovy_style_include_without_parentheses() {
    let content = "include ':app', ':core'\ninclude(':data')\nincludeFlat 'x'\ninclude\t\":lib\"";
    assert_eq!(parse_include_calls(content), vec!["app", "core", "data", "lib"]);
}

#[test]
fn unterminated_quote_runs_to_end_of_line() {
    let content = "include(\":app\", \":core)";
    assert_eq!(parse_include_calls(content), vec!["app", "core)"]);
}

#[test]
fn mixed_quotes_and_empty_names() {
    let content = "include(\"\", ':', \"::a:b\", 'x\"y')";
    assert_eq!(
        parse_include_calls_with_separator(content, '/'),
        vec!["a/b", "x\"y"]
    );
}

#[test]
fn backslash_separator_is_used_when_given() {
    let content = "include(':feature:login')";
    assert_eq!(
        parse_include_calls_with_separator(content, '\\'),
        vec!["feature\\login"]
    );
}

#[test]
fn empty_settings_file_names_nothing() {
    assert!(parse_include_calls("").is_empty());
    assert!(parse_include_calls("\n\n").is_empty());
}
