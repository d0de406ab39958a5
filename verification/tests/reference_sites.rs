use kotlin_lsp::classify::decode_all;
use kotlin_lsp::encoding::{Position, Range, SemanticToken};
use kotlin_lsp::index::{
    extension_member_token_type, has_type_definition, owner_member_token_type, resolve_symbol_kind,
    Definitions, FileSymbols, KindFilter, Location, SymbolEntry, SymbolIndex,
};
use kotlin_lsp::legend::{
    TokenType, SYMBOL_CLASS, SYMBOL_ENUM, SYMBOL_ENUM_MEMBER, SYMBOL_FUNCTION, SYMBOL_INTERFACE, SYMBOL_METHOD,
    SYMBOL_OBJECT, SYMBOL_PROPERTY,
};
use kotlin_lsp::references::{full_tokens, lambda_use_token_type, member_access_token_type};
use kotlin_lsp::syntax::Language;

const URI: &str = "file:///refs.kt";

fn range(l0: u32, c0: u32, l1: u32, c1: u32) -> Range {
    Range { start: Position { line: l0, character: c0 }, end: Position { line: l1, character: c1 } }
}

fn symbol(name: &str, kind: i32, whole: Range, sel: Range, ext: &str) -> SymbolEntry {
    SymbolEntry { name: name.to_string(), kind, range: whole, selection_range: sel, extension_receiver: ext.to_string() }
}

fn index_of(symbols: Vec<SymbolEntry>) -> SymbolIndex {
    let mut definitions: Vec<Definitions> = Vec::new();
    for s in &symbols {
        let loc = Location { uri: URI.to_string(), range: s.selection_range };
        match definitions.iter_mut().find(|d| d.name == s.name) {
            Some(d) => d.locations.push(loc),
            None => definitions.push(Definitions { name: s.name.clone(), locations: vec![loc] }),
        }
    }
    SymbolIndex { files: vec![FileSymbols { uri: URI.to_string(), symbols }], definitions }
}

fn decode(data: &[SemanticToken]) -> Vec<(u32, u32, u32, u32, u32)> {
    let mut line = 0u32;
    let mut col = 0u32;
    data.iter()
        .map(|t| {
            line += t.delta_line;
            col = if t.delta_line > 0 { t.delta_start } else { col + t.delta_start };
            (line, col, t.length, t.token_type, t.token_modifiers_bitset)
        })
        .collect()
}

fn has(tokens: &[(u32, u32, u32, u32, u32)], line: u32, col: u32, tt: TokenType) -> bool {
    tokens.iter().any(|t| t.0 == line && t.1 == col && t.3 == tt.index())
}

#[test]
fn kotlin_reference_sites_resolve_types_functions_and_namespaces() {
    let src = "class User\nobject Utils { fun run() {} }\nfun greet(): User = User()\nfun use(): User {\n    greet()\n    Utils.run()\n    return User()\n}\n";
    let index = index_of(vec![
        symbol("User", SYMBOL_CLASS, range(0, 0, 0, 10), range(0, 6, 0, 10), ""),
        symbol("Utils", SYMBOL_OBJECT, range(1, 0, 1, 29), range(1, 7, 1, 12), ""),
        symbol("run", SYMBOL_FUNCTION, range(1, 15, 1, 27), range(1, 19, 1, 22), ""),
        symbol("greet", SYMBOL_FUNCTION, range(2, 0, 2, 26), range(2, 4, 2, 9), ""),
        symbol("use", SYMBOL_FUNCTION, range(3, 0, 7, 1), range(3, 4, 3, 7), ""),
    ]);
    let tokens = decode(&full_tokens(&index, src, Language::Kotlin).unwrap());
    assert!(has(&tokens, 2, 13, TokenType::Class), "CLASS return type: {tokens:?}");
    assert!(has(&tokens, 2, 20, TokenType::Class), "CLASS constructor call: {tokens:?}");
    assert!(has(&tokens, 3, 11, TokenType::Class), "CLASS function return type: {tokens:?}");
    assert!(has(&tokens, 4, 4, TokenType::Function), "FUNCTION call: {tokens:?}");
    assert!(has(&tokens, 5, 4, TokenType::Namespace), "NAMESPACE receiver: {tokens:?}");
    assert!(has(&tokens, 6, 11, TokenType::Class), "CLASS return expression: {tokens:?}");
    // declarations keep their own tokens
    assert!(tokens.contains(&(0, 6, 4, TokenType::Class.index(), 1)), "{tokens:?}");
}

#[test]
fn kotlin_reference_sites_resolve_annotations_and_enum_entries() {
    let src = "annotation class Fancy\nenum class Color { RED }\n@Fancy\nfun color(): Color = Color.RED\n";
    let index = index_of(vec![
        symbol("Fancy", SYMBOL_CLASS, range(0, 0, 0, 22), range(0, 17, 0, 22), ""),
        symbol("Color", SYMBOL_ENUM, range(1, 0, 1, 24), range(1, 11, 1, 16), ""),
        symbol("RED", SYMBOL_ENUM_MEMBER, range(1, 19, 1, 22), range(1, 19, 1, 22), ""),
        symbol("color", SYMBOL_FUNCTION, range(2, 0, 3, 30), range(3, 4, 3, 9), ""),
    ]);
    let tokens = decode(&full_tokens(&index, src, Language::Kotlin).unwrap());
    assert!(has(&tokens, 2, 1, TokenType::Decorator), "DECORATOR annotation reference: {tokens:?}");
    assert!(has(&tokens, 3, 13, TokenType::Enum), "ENUM return type: {tokens:?}");
    assert!(has(&tokens, 3, 27, TokenType::EnumMember), "ENUM_MEMBER reference: {tokens:?}");
}

#[test]
fn unknown_type_names_are_classes_and_unknown_calls_get_nothing() {
    let src = "fun f(): Missing = other()\n";
    let empty = SymbolIndex { files: vec![], definitions: vec![] };
    let with_index = decode(&full_tokens(&empty, src, Language::Kotlin).unwrap());
    let mut expected = decode_all(src, Language::Kotlin).unwrap();
    expected.push((0, 9, 7, TokenType::Class.index(), 0));
    expected.sort();
    assert_eq!(with_index, expected);
}

#[test]
fn java_references_are_not_resolved() {
    let src = "class A { B b; }";
    let index = index_of(vec![symbol("B", SYMBOL_CLASS, range(5, 0, 5, 9), range(5, 6, 5, 7), "")]);
    let tokens = decode(&full_tokens(&index, src, Language::Java).unwrap());
    assert_eq!(tokens, decode_all(src, Language::Java).unwrap());
}

fn shapes_index() -> SymbolIndex {
    index_of(vec![
        symbol("Shape", SYMBOL_CLASS, range(0, 0, 5, 1), range(0, 6, 0, 11), ""),
        symbol("area", SYMBOL_METHOD, range(1, 4, 1, 20), range(1, 8, 1, 12), ""),
        symbol("name", SYMBOL_PROPERTY, range(2, 4, 2, 20), range(2, 8, 2, 12), ""),
        symbol("Other", SYMBOL_CLASS, range(6, 0, 8, 1), range(6, 6, 6, 11), ""),
        symbol("scale", SYMBOL_FUNCTION, range(9, 0, 9, 30), range(9, 10, 9, 15), "Shape"),
    ])
}

#[test]
fn has_type_definition_finds_types_only() {
    let index = shapes_index();
    assert!(has_type_definition(&index, "Shape"));
    assert!(!has_type_definition(&index, "area"));
    assert!(!has_type_definition(&index, "Missing"));
}

#[test]
fn owner_member_token_type_uses_declaring_type() {
    let index = shapes_index();
    assert_eq!(owner_member_token_type(&index, "com.example.Shape", "area"), Some(TokenType::Method));
    assert_eq!(owner_member_token_type(&index, "Shape", "name"), Some(TokenType::Property));
    assert_eq!(owner_member_token_type(&index, "Other", "area"), None);
    assert_eq!(owner_member_token_type(&index, "Missing", "area"), None);
}

#[test]
fn extension_member_token_type_matches_receiver() {
    let index = shapes_index();
    assert_eq!(extension_member_token_type(&index, "Shape", "scale"), Some(TokenType::Method));
    assert_eq!(extension_member_token_type(&index, "geo.Shape", "scale"), Some(TokenType::Method));
    assert_eq!(extension_member_token_type(&index, "Other", "scale"), None);
}

#[test]
fn resolve_symbol_kind_applies_filter() {
    let index = shapes_index();
    let r = resolve_symbol_kind("Shape", &index, KindFilter::Type).unwrap();
    assert_eq!(r.kind, SYMBOL_CLASS);
    assert_eq!(r.uri, URI);
    assert_eq!(r.range, range(0, 0, 5, 1));
    assert!(resolve_symbol_kind("Shape", &index, KindFilter::Object).is_none());
    assert!(resolve_symbol_kind("nothing", &index, KindFilter::Any).is_none());
}

#[test]
fn lambda_parameters_are_declared() {
    let src = "val ys = xs.map { x -> x + 1 }\n";
    let empty = SymbolIndex { files: vec![], definitions: vec![] };
    let tokens = decode(&full_tokens(&empty, src, Language::Kotlin).unwrap());
    assert!(tokens.contains(&(0, 18, 1, TokenType::Parameter.index(), 1)), "{tokens:?}");
    let cst_only = decode_all(src, Language::Kotlin).unwrap();
    assert!(!cst_only.iter().any(|t| t.1 == 18), "{cst_only:?}");
}

#[test]
fn range_tokens_with_index_keep_range_lines() {
    let src = "class User\nfun f(): User = User()\n";
    let index = index_of(vec![symbol("User", SYMBOL_CLASS, range(0, 0, 0, 10), range(0, 6, 0, 10), "")]);
    let r = range(1, 0, 1, 5);
    let tokens = decode(&kotlin_lsp::references::range_tokens(&index, src, Language::Kotlin, &r).unwrap());
    assert!(tokens.iter().all(|t| t.0 == 1), "{tokens:?}");
    assert!(has(&tokens, 1, 9, TokenType::Class), "{tokens:?}");
}

fn indexed(src: &str, index: &SymbolIndex) -> Vec<(u32, u32, u32, u32, u32)> {
    decode(&full_tokens(index, src, Language::Kotlin).unwrap())
}

#[test]
fn ref_type_reference_in_return_type() {
    let src = "class User\nfun getUser(): User = User()\n";
    let index = index_of(vec![
        symbol("User", SYMBOL_CLASS, range(0, 0, 0, 10), range(0, 6, 0, 10), ""),
        symbol("getUser", SYMBOL_FUNCTION, range(1, 0, 1, 28), range(1, 4, 1, 11), ""),
    ]);
    let tokens = indexed(src, &index);
    assert!(has(&tokens, 1, 15, TokenType::Class), "CLASS return type ref: {tokens:?}");
}

#[test]
fn ref_type_reference_in_parameter_type() {
    let src = "class Config\nfun load(cfg: Config) {}\n";
    let index = index_of(vec![
        symbol("Config", SYMBOL_CLASS, range(0, 0, 0, 12), range(0, 6, 0, 12), ""),
        symbol("load", SYMBOL_FUNCTION, range(1, 0, 1, 24), range(1, 4, 1, 8), ""),
    ]);
    let tokens = indexed(src, &index);
    assert!(has(&tokens, 1, 14, TokenType::Class), "CLASS param type ref: {tokens:?}");
}

#[test]
fn ref_interface_type_reference() {
    let src = "interface Repo\nfun use(r: Repo) {}\n";
    let index = index_of(vec![
        symbol("Repo", SYMBOL_INTERFACE, range(0, 0, 0, 14), range(0, 10, 0, 14), ""),
        symbol("use", SYMBOL_FUNCTION, range(1, 0, 1, 19), range(1, 4, 1, 7), ""),
    ]);
    let tokens = indexed(src, &index);
    assert!(has(&tokens, 1, 11, TokenType::Interface), "INTERFACE type ref: {tokens:?}");
}

#[test]
fn ref_enum_type_reference() {
    let src = "enum class Dir { UP }\nfun go(): Dir = Dir.UP\n";
    let index = index_of(vec![
        symbol("Dir", SYMBOL_ENUM, range(0, 0, 0, 21), range(0, 11, 0, 14), ""),
        symbol("UP", SYMBOL_ENUM_MEMBER, range(0, 17, 0, 19), range(0, 17, 0, 19), ""),
        symbol("go", SYMBOL_FUNCTION, range(1, 0, 1, 22), range(1, 4, 1, 6), ""),
    ]);
    let tokens = indexed(src, &index);
    assert!(has(&tokens, 1, 10, TokenType::Enum), "ENUM type ref: {tokens:?}");
}

#[test]
fn ref_function_call_top_level() {
    let src = "fun helper() {}\nfun main() {\n    helper()\n}\n";
    let index = index_of(vec![
        symbol("helper", SYMBOL_FUNCTION, range(0, 0, 0, 15), range(0, 4, 0, 10), ""),
        symbol("main", SYMBOL_FUNCTION, range(1, 0, 3, 1), range(1, 4, 1, 8), ""),
    ]);
    let tokens = indexed(src, &index);
    assert!(has(&tokens, 2, 4, TokenType::Function), "FUNCTION call ref: {tokens:?}");
}

#[test]
fn ref_constructor_call_as_class() {
    let src = "class Item\nfun make() = Item()\n";
    let index = index_of(vec![
        symbol("Item", SYMBOL_CLASS, range(0, 0, 0, 10), range(0, 6, 0, 10), ""),
        symbol("make", SYMBOL_FUNCTION, range(1, 0, 1, 19), range(1, 4, 1, 8), ""),
    ]);
    let tokens = indexed(src, &index);
    assert!(has(&tokens, 1, 13, TokenType::Class), "CLASS constructor call: {tokens:?}");
}

#[test]
fn ref_object_as_namespace() {
    let src = "object Utils { fun run() {} }\nfun main() { Utils.run() }\n";
    let index = index_of(vec![
        symbol("Utils", SYMBOL_OBJECT, range(0, 0, 0, 29), range(0, 7, 0, 12), ""),
        symbol("run", SYMBOL_METHOD, range(0, 15, 0, 27), range(0, 19, 0, 22), ""),
        symbol("main", SYMBOL_FUNCTION, range(1, 0, 1, 26), range(1, 4, 1, 8), ""),
    ]);
    let tokens = indexed(src, &index);
    assert!(has(&tokens, 1, 13, TokenType::Namespace), "NAMESPACE object ref: {tokens:?}");
}

#[test]
fn ref_annotation_unresolved_still_decorator() {
    let src = "@Composable\nfun Screen() {}\n";
    let index = index_of(vec![symbol("Screen", SYMBOL_FUNCTION, range(0, 0, 1, 15), range(1, 4, 1, 10), "")]);
    let tokens = indexed(src, &index);
    assert!(has(&tokens, 0, 1, TokenType::Decorator), "DECORATOR unresolved annotation: {tokens:?}");
}

#[test]
fn ref_enum_member_via_dot() {
    let src = "enum class Color { RED, GREEN }\nval c = Color.RED\n";
    let index = index_of(vec![
        symbol("Color", SYMBOL_ENUM, range(0, 0, 0, 31), range(0, 11, 0, 16), ""),
        symbol("RED", SYMBOL_ENUM_MEMBER, range(0, 19, 0, 22), range(0, 19, 0, 22), ""),
        symbol("GREEN", SYMBOL_ENUM_MEMBER, range(0, 24, 0, 29), range(0, 24, 0, 29), ""),
        symbol("c", SYMBOL_PROPERTY, range(1, 0, 1, 17), range(1, 4, 1, 5), ""),
    ]);
    let tokens = indexed(src, &index);
    assert!(has(&tokens, 1, 14, TokenType::EnumMember), "ENUM_MEMBER dot access: {tokens:?}");
}

fn empty_index() -> SymbolIndex {
    SymbolIndex { files: vec![], definitions: vec![] }
}

fn keyword_present(src: &str) -> bool {
    indexed(src, &empty_index()).iter().any(|t| t.3 == TokenType::Keyword.index())
}

#[test]
fn keyword_by_delegation() {
    assert!(keyword_present("interface I\nclass Impl : I\nclass Wrapper(i: I) : I by i\n"));
}

#[test]
fn keyword_is_check() {
    let tokens = indexed("fun check(x: Any) {\n    if (x is String) {}\n}\n", &empty_index());
    assert!(tokens.contains(&(1, 10, 2, TokenType::Keyword.index(), 0)), "{tokens:?}");
}

#[test]
fn keyword_as_cast() {
    assert!(keyword_present("fun cast(x: Any) {\n    val s = x as String\n}\n"));
}

#[test]
fn keyword_in_loop() {
    assert!(keyword_present("fun loop() {\n    for (i in 1..10) {}\n}\n"));
}

#[test]
fn keyword_constructor() {
    assert!(keyword_present("class Foo @Inject constructor(val x: Int)\n"));
}

#[test]
fn named_arg_cst_detail() {
    let src = "fun main() { foo(name = 42) }\n";
    let nodes = kotlin_lsp::syntax::parse_nodes(src, Language::Kotlin).unwrap();
    let va = nodes.iter().position(|n| n.kind == "value_argument").unwrap();
    assert_eq!(nodes[va + 1].kind, "simple_identifier");
    assert_eq!(nodes[va + 2].kind, "=");
    assert!(!nodes[va + 2].named);
}

#[test]
fn named_arg_label_gets_property_token() {
    let src = "fun foo(name: Int) {}\nfun main() { foo(name = 42) }\n";
    let index = index_of(vec![
        symbol("foo", SYMBOL_FUNCTION, range(0, 0, 0, 21), range(0, 4, 0, 7), ""),
        symbol("main", SYMBOL_FUNCTION, range(1, 0, 1, 29), range(1, 4, 1, 8), ""),
    ]);
    let tokens = indexed(src, &index);
    assert!(has(&tokens, 1, 17, TokenType::Parameter), "named arg label: {tokens:?}");
}

#[test]
fn named_arg_multiline_call() {
    let src = "fun main() {\n    Scaffold(\n        modifier = 1,\n        topBar = 2\n    )\n}\n";
    let tokens = indexed(src, &empty_index());
    assert!(tokens.iter().any(|t| t.0 == 2 && t.3 == TokenType::Parameter.index()), "{tokens:?}");
    assert!(tokens.iter().any(|t| t.0 == 3 && t.3 == TokenType::Parameter.index()), "{tokens:?}");
}

#[test]
fn named_arg_simple_call() {
    let tokens = indexed("fun foo(x: Int) {}\nfun main() { foo(x = 1) }\n", &empty_index());
    assert!(has(&tokens, 1, 17, TokenType::Parameter), "{tokens:?}");
}

#[test]
fn named_arg_not_emitted_for_positional() {
    let tokens = indexed("fun foo(x: Int) {}\nfun main() { foo(42) }\n", &empty_index());
    assert!(!has(&tokens, 1, 17, TokenType::Parameter), "{tokens:?}");
    let tokens = indexed("fun foo(x: Int) {}\nfun main(y: Int) { foo(y) }\n", &empty_index());
    assert!(!tokens.iter().any(|t| t.0 == 1 && t.1 == 23), "{tokens:?}");
}

#[test]
fn named_arg_multiple_in_one_call() {
    let tokens = indexed("fun f(a: Int, b: Int) {}\nfun main() { f(a = 1, b = 2) }\n", &empty_index());
    assert!(has(&tokens, 1, 15, TokenType::Parameter), "{tokens:?}");
    assert!(has(&tokens, 1, 22, TokenType::Parameter), "{tokens:?}");
}

#[test]
fn ref_method_call_on_receiver() {
    let src = "class Svc { fun run() {} }\nfun use(s: Svc) {\n    s.run()\n}\n";
    let index = index_of(vec![
        symbol("Svc", SYMBOL_CLASS, range(0, 0, 0, 26), range(0, 6, 0, 9), ""),
        symbol("run", SYMBOL_METHOD, range(0, 12, 0, 24), range(0, 16, 0, 19), ""),
    ]);
    let tokens = indexed(src, &index);
    assert!(has(&tokens, 2, 6, TokenType::Method), "METHOD call on receiver: {tokens:?}");
}

#[test]
fn decl_extension_function_receiver_type_colored() {
    let tokens = indexed("fun String.capitalize(): String = this\n", &empty_index());
    assert!(has(&tokens, 0, 4, TokenType::Class), "extension receiver: {tokens:?}");
}

fn box_index() -> SymbolIndex {
    index_of(vec![
        symbol("Box", SYMBOL_CLASS, range(0, 0, 0, 32), range(0, 6, 0, 9), ""),
        symbol("value", SYMBOL_PROPERTY, range(0, 12, 0, 30), range(0, 16, 0, 21), ""),
        symbol("open", SYMBOL_METHOD, range(2, 0, 2, 20), range(2, 8, 2, 12), "Box"),
    ])
}

#[test]
fn member_read_on_a_typed_receiver_is_a_property() {
    let index = box_index();
    assert_eq!(member_access_token_type(&index, Some("Box"), "value", false, false), Some(TokenType::Property));
    assert_eq!(member_access_token_type(&index, Some("com.example.Box"), "value", false, false), Some(TokenType::Property));
}

#[test]
fn member_on_receiver_falls_back_to_extensions_fields_and_calls() {
    let index = box_index();
    assert_eq!(member_access_token_type(&index, Some("Box"), "open", false, true), Some(TokenType::Method));
    assert_eq!(member_access_token_type(&index, Some("Box"), "size", true, false), Some(TokenType::Property));
    assert_eq!(member_access_token_type(&index, Some("Box"), "size", false, false), None);
    assert_eq!(member_access_token_type(&index, None, "value", false, true), Some(TokenType::Method));
    assert_eq!(member_access_token_type(&index, None, "value", true, false), None);
}

#[test]
fn lambda_uses_are_colored_from_the_lookups() {
    let none: Vec<String> = Vec::new();
    let params = vec!["item".to_string(), "index".to_string()];
    assert_eq!(lambda_use_token_type("this_expression", "this", true, false, true, false, &none), Some(TokenType::Keyword));
    assert_eq!(lambda_use_token_type("this_expression", "this", false, false, true, false, &none), None);
    assert_eq!(lambda_use_token_type("simple_identifier", "it", true, false, false, true, &none), Some(TokenType::Parameter));
    assert_eq!(lambda_use_token_type("simple_identifier", "it", true, false, false, false, &none), None);
    assert_eq!(lambda_use_token_type("simple_identifier", "index", true, false, false, false, &params), Some(TokenType::Parameter));
    assert_eq!(lambda_use_token_type("simple_identifier", "index", true, true, false, false, &params), None);
    assert_eq!(lambda_use_token_type("simple_identifier", "other", true, false, false, false, &params), None);
    assert_eq!(lambda_use_token_type("simple_identifier", "index", false, false, false, false, &params), None);
}
