use kotlin_lsp::classify::{assert_token_at, decode_all, full_tokens_cst_only, range_tokens_cst_only};
use kotlin_lsp::encoding::{delta_decode, delta_encode, finish_tokens, sort_and_dedup, Position, Range, RawToken};
use kotlin_lsp::legend::{decode_modifiers, token_modifiers, token_types, TokenModifier, TokenType};
use kotlin_lsp::rows::{token_rows_of, type_label_of};
use kotlin_lsp::syntax::Language;
use kotlin_lsp::utf::byte_col_to_utf16;

fn raw(line: u32, col: u32, length: u32, token_type: u32, mods: u32) -> RawToken {
    RawToken { line, col, length, token_type, token_modifiers_bitset: mods }
}

#[test]
fn encode_then_decode_gives_back_sorted_tokens() {
    let tokens = vec![raw(0, 4, 3, 4, 1), raw(0, 10, 2, 8, 1), raw(2, 1, 5, 0, 0)];
    let encoded = delta_encode(&tokens);
    assert_eq!(encoded[0].delta_line, 0);
    assert_eq!(encoded[0].delta_start, 4);
    assert_eq!(encoded[1].delta_line, 0);
    assert_eq!(encoded[1].delta_start, 6);
    assert_eq!(encoded[2].delta_line, 2);
    assert_eq!(encoded[2].delta_start, 1);
    assert_eq!(delta_decode(&encoded), tokens);
}

#[test]
fn sort_and_dedup_keeps_first_token_per_position() {
    let tokens = vec![raw(1, 0, 3, 0, 1), raw(0, 2, 1, 4, 0), raw(1, 0, 3, 5, 0), raw(0, 1, 1, 7, 0)];
    let out = sort_and_dedup(&tokens);
    assert_eq!(out, vec![raw(0, 1, 1, 7, 0), raw(0, 2, 1, 4, 0), raw(1, 0, 3, 0, 1)]);
}

#[test]
fn finish_tokens_restricts_to_range_lines() {
    let tokens = vec![raw(3, 0, 1, 0, 0), raw(1, 0, 1, 0, 0), raw(2, 5, 1, 0, 0)];
    let range = Range { start: Position { line: 2, character: 0 }, end: Position { line: 3, character: 0 } };
    let encoded = finish_tokens(&tokens, Some(range));
    assert_eq!(delta_decode(&encoded), vec![raw(2, 5, 1, 0, 0), raw(3, 0, 1, 0, 0)]);
}

#[test]
fn range_response_is_full_response_on_those_lines() {
    let src = "class A\nfun b() {}\nval c = 1\n";
    let full = decode_all(src, Language::Kotlin).unwrap();
    let range = Range { start: Position { line: 1, character: 0 }, end: Position { line: 2, character: 3 } };
    let part = range_tokens_cst_only(src, Language::Kotlin, &range).unwrap();
    let mut line = 0u32;
    let mut col = 0u32;
    let mut decoded = Vec::new();
    for t in &part {
        line += t.delta_line;
        col = if t.delta_line > 0 { t.delta_start } else { col + t.delta_start };
        decoded.push((line, col, t.length, t.token_type, t.token_modifiers_bitset));
    }
    let expected: Vec<_> = full.into_iter().filter(|t| t.0 >= 1 && t.0 <= 2).collect();
    assert_eq!(decoded, expected);
}

#[test]
fn utf16_columns_count_surrogate_pairs() {
    let src = "ab\n\u{1F600}x\n";
    let bytes = src.as_bytes();
    assert_eq!(byte_col_to_utf16(bytes, 0, 1), 1);
    assert_eq!(byte_col_to_utf16(bytes, 1, 4), 2);
    assert_eq!(byte_col_to_utf16(bytes, 1, 5), 3);
    // beyond the end of the text: the rest of the text is counted
    assert_eq!(byte_col_to_utf16(bytes, 1, 50), 4);
    // a line that does not exist counts from the start of the text
    assert_eq!(byte_col_to_utf16(bytes, 7, 2), 2);
}

#[test]
fn utf16_column_of_cut_character_is_byte_column() {
    let src = "\u{e9}z";
    assert_eq!(byte_col_to_utf16(src.as_bytes(), 0, 1), 1);
    assert_eq!(byte_col_to_utf16(src.as_bytes(), 0, 2), 1);
}

#[test]
fn kotlin_token_after_emoji_string_has_utf16_column() {
    let tokens = decode_all("val s = \"\u{1F600}\"; val x = 1\n", Language::Kotlin).unwrap();
    let var_type = TokenType::Variable.index();
    assert_token_at(&tokens, 0, 18, var_type, "VARIABLE 'x'").unwrap();
}

#[test]
fn kotlin_destructuring_declares_each_name_readonly() {
    let tokens = decode_all("val (a, b) = p\n", Language::Kotlin).unwrap();
    let var_type = TokenType::Variable.index();
    assert_eq!(tokens, vec![(0, 5, 1, var_type, 0b11), (0, 8, 1, var_type, 0b11)]);
}

#[test]
fn kotlin_token_fields_exact() {
    let tokens = decode_all("class Foo\n", Language::Kotlin).unwrap();
    assert_eq!(tokens, vec![(0, 6, 3, TokenType::Class.index(), 1)]);
}

#[test]
fn java_annotation_type_and_marker_annotation() {
    let src = "@interface Ann {}\nclass C { @Override void run() {} }\n";
    let tokens = decode_all(src, Language::Java).unwrap();
    let deco = TokenType::Decorator.index();
    assert_token_at(&tokens, 0, 11, deco, "DECORATOR 'Ann'").unwrap();
    assert!(tokens.contains(&(0, 11, 3, deco, 1)), "{tokens:?}");
    assert!(tokens.contains(&(1, 11, 8, deco, 0)), "{tokens:?}");
    assert_token_at(&tokens, 1, 25, TokenType::Method.index(), "METHOD 'run'").unwrap();
}

#[test]
fn java_record_and_abstract_class() {
    let tokens = decode_all("record P(int x) {}\nabstract class Q {}\n", Language::Java).unwrap();
    let class = TokenType::Class.index();
    assert!(tokens.contains(&(0, 7, 1, class, 1)), "{tokens:?}");
    assert!(tokens.contains(&(1, 15, 1, class, 1 | 8)), "{tokens:?}");
    assert!(tokens.contains(&(0, 13, 1, TokenType::Parameter.index(), 1)), "{tokens:?}");
}

#[test]
fn swift_yields_no_tokens() {
    assert_eq!(full_tokens_cst_only("class A {}", Language::Swift).unwrap(), vec![]);
    assert_eq!(decode_all("class A {}", Language::Swift).unwrap(), vec![]);
}

#[test]
fn assert_token_at_names_missing_token() {
    let tokens = vec![(0, 1, 1, 0, 0)];
    assert!(assert_token_at(&tokens, 0, 1, 0, "x").is_ok());
    assert_eq!(assert_token_at(&tokens, 0, 2, 0, "CLASS 'A'"), Err("expected CLASS 'A' token".to_string()));
}

#[test]
fn legend_order_and_modifier_bits() {
    assert_eq!(token_types().len(), 15);
    assert_eq!(token_types()[10], TokenType::Decorator);
    assert_eq!(token_modifiers()[4], TokenModifier::Async);
    assert_eq!(decode_modifiers(0b101), vec![TokenModifier::Declaration, TokenModifier::Static]);
    assert_eq!(decode_modifiers(1 << 9), vec![]);
}

#[test]
fn token_rows_show_names_and_text() {
    let rows = token_rows_of("abstract class Foo\n", Language::Kotlin).unwrap();
    assert_eq!(rows.len(), 1);
    let row = &rows[0];
    assert_eq!((row.line, row.col, row.len), (0, 15, 3));
    assert_eq!(row.token_type, "SemanticTokenType(\"class\")");
    assert_eq!(
        row.modifiers,
        vec!["SemanticTokenModifier(\"declaration\")".to_string(), "SemanticTokenModifier(\"abstract\")".to_string()]
    );
    assert_eq!(row.text, "Foo");
}

#[test]
fn token_rows_text_after_wide_character() {
    let rows = token_rows_of("val s = \"\u{1F600}\"; val x = 1\r\n", Language::Kotlin).unwrap();
    let x = rows.iter().find(|r| r.col == 18).unwrap();
    assert_eq!(x.text, "x");
}

#[test]
fn type_labels_outside_the_legend() {
    assert_eq!(type_label_of(99), "#99");
    assert_eq!(type_label_of(0), "SemanticTokenType(\"class\")");
    assert_eq!(type_label_of(1234567), "#1234567");
}

#[test]
fn language_from_path() {
    assert_eq!(Language::for_path("a/b/Main.kt"), Some(Language::Kotlin));
    assert_eq!(Language::for_path("build.gradle.kts"), Some(Language::Kotlin));
    assert_eq!(Language::for_path("Foo.java"), Some(Language::Java));
    assert_eq!(Language::for_path("App.swift"), Some(Language::Swift));
    assert_eq!(Language::for_path("README.md"), None);
}

#[test]
fn decoded_modifiers_count_the_legend_bits_only() {
    assert_eq!(decode_modifiers(0xff).len(), 7);
    assert_eq!(decode_modifiers(1 << 7), vec![]);
    assert_eq!(decode_modifiers(0b1000_0011), decode_modifiers(0b11));
}
