use kotlin_lsp::classify::{assert_token_at, decode_all, full_tokens_cst_only, range_tokens_cst_only};
use kotlin_lsp::encoding::{Position, Range};
use kotlin_lsp::legend::TokenType;
use kotlin_lsp::syntax::Language;

type Decoded = Vec<(u32, u32, u32, u32, u32)>;

fn type_id(t: TokenType) -> u32 {
    t.index()
}

fn kotlin(src: &str) -> Decoded {
    decode_all(src, Language::Kotlin).expect("parse failed")
}

fn java(src: &str) -> Decoded {
    decode_all(src, Language::Java).expect("parse failed")
}

fn decode_lines(data: &[kotlin_lsp::encoding::SemanticToken]) -> Vec<u32> {
    let mut line = 0u32;
    data.iter()
        .map(|t| {
            line += t.delta_line;
            line
        })
        .collect()
}

// ─── Kotlin tests ─────────────────────────────────────────────────────────────

#[test]
fn kotlin_class_decl() {
    let tokens = kotlin("class Foo");
    let class_id = type_id(TokenType::Class);
    let found = tokens.iter().any(|&(_, _, _, tt, _)| tt == class_id);
    assert!(found, "expected CLASS token for 'class Foo', got: {tokens:?}");
}

#[test]
fn kotlin_interface_decl() {
    let tokens = kotlin("interface Runnable");
    let iface_id = type_id(TokenType::Interface);
    assert!(
        tokens.iter().any(|&(_, _, _, tt, _)| tt == iface_id),
        "expected INTERFACE token, got: {tokens:?}"
    );
}

#[test]
fn kotlin_enum_class() {
    let tokens = kotlin("enum class Color { RED, GREEN, BLUE }");
    let enum_id = type_id(TokenType::Enum);
    let member_id = type_id(TokenType::EnumMember);
    assert!(
        tokens.iter().any(|&(_, _, _, tt, _)| tt == enum_id),
        "expected ENUM token, got: {tokens:?}"
    );
    assert!(
        tokens.iter().any(|&(_, _, _, tt, _)| tt == member_id),
        "expected ENUM_MEMBER token, got: {tokens:?}"
    );
}

#[test]
fn kotlin_top_level_function() {
    let tokens = kotlin("fun greet() {}");
    let fun_id = type_id(TokenType::Function);
    assert!(
        tokens.iter().any(|&(_, _, _, tt, _)| tt == fun_id),
        "expected FUNCTION token for top-level fun, got: {tokens:?}"
    );
}

#[test]
fn kotlin_method_vs_function() {
    let src = r#"
class Foo {
    fun bar() {}
}
fun topLevel() {}
"#;
    let tokens = kotlin(src);
    let method_id = type_id(TokenType::Method);
    let fun_id = type_id(TokenType::Function);
    assert!(
        tokens.iter().any(|&(_, _, _, tt, _)| tt == method_id),
        "expected METHOD token for class member fun, got: {tokens:?}"
    );
    assert!(
        tokens.iter().any(|&(_, _, _, tt, _)| tt == fun_id),
        "expected FUNCTION token for top-level fun, got: {tokens:?}"
    );
}

#[test]
fn kotlin_val_is_readonly() {
    let tokens = kotlin("val x: Int = 1");
    let readonly_bit = 1u32 << 1;
    assert!(
        tokens.iter().any(|&(_, _, _, _, mods)| mods & readonly_bit != 0),
        "expected READONLY modifier for val, got: {tokens:?}"
    );
}

#[test]
fn kotlin_var_not_readonly() {
    let tokens = kotlin("var x: Int = 1");
    let var_id = type_id(TokenType::Variable);
    let readonly_bit = 1u32 << 1;
    let x_token = tokens
        .iter()
        .find(|&&(line, col, _, tt, _)| line == 0 && col == 4 && tt == var_id);
    assert!(x_token.is_some(), "expected VARIABLE token for x at 0:4, got: {tokens:?}");
    let (_, _, _, _, mods) = *x_token.unwrap();
    assert_eq!(
        mods & readonly_bit,
        0,
        "var x should NOT have READONLY modifier, mods={mods:#b}"
    );
}

#[test]
fn kotlin_type_parameter() {
    let tokens = kotlin("fun <T> identity(x: T): T = x");
    let tp_id = type_id(TokenType::TypeParameter);
    assert!(
        tokens.iter().any(|&(_, _, _, tt, _)| tt == tp_id),
        "expected TYPE_PARAMETER token, got: {tokens:?}"
    );
}

#[test]
fn kotlin_companion_object() {
    let src = r#"
class Foo {
    companion object {
        val CONST = 1
    }
}
"#;
    let tokens = kotlin(src);
    let ns_id = type_id(TokenType::Namespace);
    assert!(
        tokens.iter().any(|&(_, _, _, tt, _)| tt == ns_id),
        "expected NAMESPACE token for companion object, got: {tokens:?}"
    );
}

#[test]
fn kotlin_object_decl() {
    let tokens = kotlin("object Singleton { val x = 1 }");
    let ns_id = type_id(TokenType::Namespace);
    assert!(
        tokens.iter().any(|&(_, _, _, tt, _)| tt == ns_id),
        "expected NAMESPACE token for object decl, got: {tokens:?}"
    );
}

#[test]
fn kotlin_range_restricts_to_range() {
    let src = r#"
class Foo
fun bar() {}
"#;
    let range = Range {
        start: Position { line: 1, character: 0 },
        end: Position { line: 1, character: 9 },
    };
    let tokens = range_tokens_cst_only(src, Language::Kotlin, &range).expect("parse failed");
    let decoded = decode_lines(&tokens);
    assert!(
        decoded.iter().all(|&l| l == 1),
        "range_tokens should only return tokens on line 1, got lines: {decoded:?}"
    );
}

// ─── Java tests ───────────────────────────────────────────────────────────────

#[test]
fn java_class_decl() {
    let tokens = java("class Foo {}");
    let class_id = type_id(TokenType::Class);
    assert!(
        tokens.iter().any(|&(_, _, _, tt, _)| tt == class_id),
        "expected CLASS token for Java class, got: {tokens:?}"
    );
}

#[test]
fn java_interface_decl() {
    let tokens = java("interface Runnable { void run(); }");
    let iface_id = type_id(TokenType::Interface);
    assert!(
        tokens.iter().any(|&(_, _, _, tt, _)| tt == iface_id),
        "expected INTERFACE token for Java interface, got: {tokens:?}"
    );
}

#[test]
fn java_method_decl() {
    let src = r#"
class Foo {
    void bar() {}
}
"#;
    let tokens = java(src);
    let method_id = type_id(TokenType::Method);
    assert!(
        tokens.iter().any(|&(_, _, _, tt, _)| tt == method_id),
        "expected METHOD token for Java method, got: {tokens:?}"
    );
}

#[test]
fn java_enum_constant() {
    let tokens = java("enum Color { RED, GREEN, BLUE }");
    let enum_id = type_id(TokenType::Enum);
    let member_id = type_id(TokenType::EnumMember);
    assert!(
        tokens.iter().any(|&(_, _, _, tt, _)| tt == enum_id),
        "expected ENUM token for Java enum, got: {tokens:?}"
    );
    assert!(
        tokens.iter().any(|&(_, _, _, tt, _)| tt == member_id),
        "expected ENUM_MEMBER token for Java enum constant, got: {tokens:?}"
    );
}

#[test]
fn java_type_parameter() {
    let src = r#"
class Box<T> {
    T value;
}
"#;
    let tokens = java(src);
    let tp_id = type_id(TokenType::TypeParameter);
    assert!(
        tokens.iter().any(|&(_, _, _, tt, _)| tt == tp_id),
        "expected TYPE_PARAMETER token for Java generic, got: {tokens:?}"
    );
}

#[test]
fn delta_encoding_is_sorted() {
    let src = r#"
class Foo {
    val x: Int = 1
    fun bar(): Int = x
}
"#;
    let tokens = full_tokens_cst_only(src, Language::Kotlin).expect("parse failed");
    let mut abs_line: u32 = 0;
    let mut abs_col: u32 = 0;
    for t in &tokens {
        if t.delta_line > 0 {
            abs_line += t.delta_line;
            abs_col = t.delta_start;
        } else {
            abs_col += t.delta_start;
        }
        assert!(
            t.delta_line < 0x8000_0000,
            "delta_line overflow suggests unsorted tokens: {t:?}"
        );
        if t.delta_line == 0 && abs_col > 0 {
            assert!(
                t.delta_start > 0 || abs_col == t.delta_start,
                "same-line delta_start=0 implies duplicate/unsorted at line {abs_line}: {t:?}"
            );
        }
    }
    assert!(abs_line > 0, "test should have tokens on multiple lines");
}

#[test]
fn empty_file_returns_no_tokens() {
    let tokens = full_tokens_cst_only("", Language::Kotlin).expect("parse failed");
    assert!(tokens.is_empty(), "empty file should produce no tokens");
}

// --- Declaration-site tokens (CST-only) ---

#[test]
fn decl_function_parameter() {
    let tokens = kotlin("fun greet(name: String, age: Int) {}\n");
    let param_type = type_id(TokenType::Parameter);
    assert!(tokens.iter().any(|t| t.0 == 0 && t.1 == 10 && t.3 == param_type),
        "Expected PARAMETER for 'name' at col 10, got: {tokens:?}");
    assert!(tokens.iter().any(|t| t.0 == 0 && t.1 == 24 && t.3 == param_type),
        "Expected PARAMETER for 'age' at col 24, got: {tokens:?}");
}

#[test]
fn decl_annotation_simple() {
    let tokens = kotlin("@Composable\nfun Screen() {}\n");
    let deco_type = type_id(TokenType::Decorator);
    assert!(tokens.iter().any(|t| t.0 == 0 && t.3 == deco_type),
        "Expected DECORATOR for @Composable, got: {tokens:?}");
}

#[test]
fn decl_annotation_with_args() {
    let tokens = kotlin("@Named(\"key\")\nfun provide() {}\n");
    let deco_type = type_id(TokenType::Decorator);
    assert!(tokens.iter().any(|t| t.0 == 0 && t.3 == deco_type),
        "Expected DECORATOR for @Named(...), got: {tokens:?}");
}

#[test]
fn decl_annotation_inline_on_parameter() {
    let tokens = kotlin("fun test(@Inject param: String) {}\n");
    let deco_type = type_id(TokenType::Decorator);
    assert!(tokens.iter().any(|t| t.0 == 0 && t.3 == deco_type),
        "Expected DECORATOR for inline @Inject on parameter, got: {tokens:?}");
}

#[test]
fn decl_annotation_inline_with_args_on_parameter() {
    let tokens = kotlin("fun test(@Named(\"key\") param: String) {}\n");
    let deco_type = type_id(TokenType::Decorator);
    assert!(tokens.iter().any(|t| t.0 == 0 && t.3 == deco_type),
        "Expected DECORATOR for inline @Named(\"key\") on param, got: {tokens:?}");
}

#[test]
fn decl_data_class_is_struct() {
    let tokens = kotlin("data class Point(val x: Int, val y: Int)\n");
    let struct_type = type_id(TokenType::Struct);
    assert!(tokens.iter().any(|t| t.3 == struct_type),
        "Expected STRUCT for data class, got: {tokens:?}");
}

#[test]
fn decl_operator_fun() {
    let tokens = kotlin("class Vec {\n    operator fun plus(other: Vec): Vec = this\n}\n");
    let op_type = type_id(TokenType::Operator);
    assert!(tokens.iter().any(|t| t.3 == op_type),
        "Expected OPERATOR for operator fun, got: {tokens:?}");
}

#[test]
fn decl_suspend_has_async_modifier() {
    let tokens = kotlin("suspend fun fetch() {}\n");
    let async_bit = 1u32 << 4;
    assert!(tokens.iter().any(|t| t.4 & async_bit != 0),
        "Expected ASYNC modifier for suspend fun, got: {tokens:?}");
}

#[test]
fn decl_abstract_has_abstract_modifier() {
    let tokens = kotlin("abstract class Base {\n    abstract fun compute(): Int\n}\n");
    let abstract_bit = 1u32 << 3;
    assert!(tokens.iter().any(|t| t.4 & abstract_bit != 0),
        "Expected ABSTRACT modifier, got: {tokens:?}");
}

#[test]
fn decl_class_property_vs_top_level_variable() {
    let tokens = kotlin("val top = 1\nclass C {\n    val member = 2\n}\n");
    let var_type = type_id(TokenType::Variable);
    let prop_type = type_id(TokenType::Property);
    assert!(tokens.iter().any(|t| t.0 == 0 && t.3 == var_type),
        "Expected VARIABLE for top-level val, got: {tokens:?}");
    assert!(tokens.iter().any(|t| t.0 == 2 && t.3 == prop_type),
        "Expected PROPERTY for class member val, got: {tokens:?}");
}

// --- byte_col_to_utf16 correctness ---

#[test]
fn single_line_columns_correct() {
    let tokens = kotlin("fun f(x: Int) {}\n");
    let fun_type = type_id(TokenType::Function);
    let param_type = type_id(TokenType::Parameter);
    assert_token_at(&tokens, 0, 4, fun_type, "FUNCTION 'f' at col 4").unwrap();
    assert_token_at(&tokens, 0, 6, param_type, "PARAMETER 'x' at col 6").unwrap();
}

#[test]
fn multiline_columns_correct() {
    let tokens = kotlin("class A\nclass B\n");
    let class_type = type_id(TokenType::Class);
    assert_token_at(&tokens, 0, 6, class_type, "CLASS 'A' at line 0 col 6").unwrap();
    assert_token_at(&tokens, 1, 6, class_type, "CLASS 'B' at line 1 col 6").unwrap();
}

// ─── Modifier coverage ────────────────────────────────────────────────────────

#[test]
fn companion_object_has_static_modifier() {
    let tokens = kotlin("class Foo {\n    companion object {}\n}\n");
    let ns_type = type_id(TokenType::Namespace);
    let static_bit = 1u32 << 2;
    let decl_bit = 1u32 << 0;
    let companion = tokens.iter().find(|&&(_, _, _, tt, _)| tt == ns_type);
    assert!(companion.is_some(), "expected NAMESPACE token for companion object");
    let (_, _, _, _, mods) = *companion.unwrap();
    assert_ne!(mods & static_bit, 0, "companion object should have STATIC modifier, mods={mods:#b}");
    assert_ne!(mods & decl_bit, 0, "companion object should have DECLARATION modifier, mods={mods:#b}");
}

#[test]
fn java_field_final_is_property_readonly() {
    let tokens = java("class Foo { private final int count = 0; }\n");
    let prop_type = type_id(TokenType::Property);
    let readonly_bit = 1u32 << 1;
    let decl_bit = 1u32 << 0;
    let field = tokens.iter().find(|&&(_, col, _, tt, _)| col == 30 && tt == prop_type);
    assert!(field.is_some(), "expected PROPERTY for 'count', tokens: {tokens:?}");
    let (_, _, _, _, mods) = *field.unwrap();
    assert_ne!(mods & readonly_bit, 0, "final field should have READONLY modifier, mods={mods:#b}");
    assert_ne!(mods & decl_bit, 0, "field should have DECLARATION modifier, mods={mods:#b}");
}

#[test]
fn java_field_static_has_static_modifier() {
    let tokens = java("class Foo { static int count = 0; }\n");
    let prop_type = type_id(TokenType::Property);
    let static_bit = 1u32 << 2;
    let field = tokens.iter().find(|&&(_, _, _, tt, _)| tt == prop_type);
    assert!(field.is_some(), "expected PROPERTY for 'count'");
    let (_, _, _, _, mods) = *field.unwrap();
    assert_ne!(mods & static_bit, 0, "static field should have STATIC modifier, mods={mods:#b}");
}

#[test]
fn java_field_non_final_non_static_has_no_readonly_static() {
    let tokens = java("class Foo { int count = 0; }\n");
    let prop_type = type_id(TokenType::Property);
    let readonly_bit = 1u32 << 1;
    let static_bit = 1u32 << 2;
    let field = tokens.iter().find(|&&(_, _, _, tt, _)| tt == prop_type);
    assert!(field.is_some(), "expected PROPERTY for 'count'");
    let (_, _, _, _, mods) = *field.unwrap();
    assert_eq!(mods & readonly_bit, 0, "mutable field should NOT have READONLY, mods={mods:#b}");
    assert_eq!(mods & static_bit, 0, "instance field should NOT have STATIC, mods={mods:#b}");
}

#[test]
fn deprecated_modifier_not_set_without_annotation() {
    let tokens = kotlin("fun normal(): Unit {}\n");
    let deprecated_bit = 1u32 << 5;
    for &(_, _, _, _, mods) in &tokens {
        assert_eq!(mods & deprecated_bit, 0, "DEPRECATED should not be set without @Deprecated, mods={mods:#b}");
    }
}

#[test]
fn abstract_class_method_both_abstract() {
    let tokens = kotlin("abstract class Base {\n    abstract fun doIt()\n}\n");
    let class_type = type_id(TokenType::Class);
    let method_type = type_id(TokenType::Method);
    let abstract_bit = 1u32 << 3;
    let decl_bit = 1u32 << 0;
    let cls = tokens.iter().find(|&&(_, _, _, tt, _)| tt == class_type);
    assert!(cls.is_some(), "expected CLASS token");
    let (_, _, _, _, class_mods) = *cls.unwrap();
    assert_ne!(class_mods & abstract_bit, 0, "abstract class should have ABSTRACT, mods={class_mods:#b}");
    let method = tokens.iter().find(|&&(_, _, _, tt, _)| tt == method_type);
    assert!(method.is_some(), "expected METHOD token");
    let (_, _, _, _, method_mods) = *method.unwrap();
    assert_ne!(method_mods & abstract_bit, 0, "abstract fun should have ABSTRACT, mods={method_mods:#b}");
    assert_ne!(method_mods & decl_bit, 0, "method should have DECLARATION, mods={method_mods:#b}");
}
