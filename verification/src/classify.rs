//! Declaration-site semantic tokens, read from the concrete syntax tree alone.
//!
//! Each declaration node of a Kotlin or Java tree yields a token for its name:
//! classes, interfaces, enums and their entries, functions and methods,
//! properties and variables, parameters, type parameters and annotations.
//! The token type says what the name declares, and the modifier bitset
//! carries `declaration` and what the node's modifiers say (`val`, `abstract`,
//! `suspend`, `static`, `final`).
use crate::encoding::{
    RawToken, SemanticToken, Range, encode, restrict, canonical, finish_tokens, delta_decode,
    is_sorted,
    law_decode_encode,
};
use crate::legend::{TokenType, TokenModifier, type_id, bit, modifier_bit, token_type_name, modifier_named, lemma_named_modifier_bits};
use crate::syntax::{
    FlatNode, FlatModel, Language, flat_models, syntax_of, parse_nodes, nonempty,
    child_end, first_of_kind, first_ident, node_text, as_index, has_modifier, has_java_modifier, span_of,
    kind_is, find_kind, find_ident, find_modifier, find_java_modifier, lemma_first_of_kind_in,
};
use crate::utf::{utf16_len, utf16_column, utf16_len_of_range, byte_col_to_utf16};
use crate::text::{str_chars, chars_to_string};
use vstd::utf8::encode_utf8;
use vstd::prelude::*;

verus! {

// ─── Tokens ─────────────────────────────────────────────────────────────────

/// The token for the name held by the node at `j`: at the node's line and
/// UTF-16 column, as long as its text in UTF-16 units; none when that length
/// (as a `u32`) is zero.
pub open spec fn token_at(ns: Seq<FlatModel>, src: Seq<u8>, j: int, tt: TokenType, mods: u32) -> Seq<RawToken> {
    let n = ns[j];
    let length = utf16_len(node_text(src, n)) as u32;
    if length == 0 {
        seq![]
    } else {
        seq![RawToken {
            line: n.row as u32,
            col: utf16_column(src, n.row, n.column),
            length: length,
            token_type: type_id(tt),
            token_modifiers_bitset: mods,
        }]
    }
}

/// The token for the node at `o`, if there is such a node.
pub open spec fn opt_token(ns: Seq<FlatModel>, src: Seq<u8>, o: Option<int>, tt: TokenType, mods: u32) -> Seq<RawToken> {
    match o {
        Some(j) => token_at(ns, src, j, tt, mods),
        None => seq![],
    }
}

/// The bit of `m` when `cond` holds, no bit otherwise.
pub open spec fn flag(cond: bool, m: TokenModifier) -> u32 {
    if cond {
        bit(m)
    } else {
        0
    }
}

/// The kinds of node whose children are members of a class, interface,
/// enum or object.
pub open spec fn is_body_kind(k: Seq<char>) -> bool {
    k == "class_body"@ || k == "interface_body"@ || k == "enum_class_body"@ || k == "object_body"@
}

/// The first `type_identifier` among the subtrees of `[from, end)`, or else
/// the first `simple_identifier`.
pub open spec fn first_type_name(ns: Seq<FlatModel>, from: int, end: int) -> Option<int> {
    match first_of_kind(ns, from, end, "type_identifier"@) {
        Some(j) => Some(j),
        None => first_of_kind(ns, from, end, "simple_identifier"@),
    }
}

/// Tokens for the names of the named subtrees of `[from, end)` (the
/// entries of a destructuring declaration).
pub open spec fn named_idents(ns: Seq<FlatModel>, src: Seq<u8>, from: int, end: int, tt: TokenType, mods: u32) -> Seq<RawToken>
    decreases end - from,
{
    if nonempty(ns, from, end) {
        let e = child_end(ns, from, end);
        (if ns[from].named {
            opt_token(ns, src, first_ident(ns, from + 1, e), tt, mods)
        } else {
            seq![]
        }) + named_idents(ns, src, e, end, tt, mods)
    } else {
        seq![]
    }
}

// ─── Kotlin ─────────────────────────────────────────────────────────────────

/// The token type of a Kotlin class whose children are `[a, b)`.
pub open spec fn kotlin_class_type(ns: Seq<FlatModel>, src: Seq<u8>, a: int, b: int) -> TokenType {
    if first_of_kind(ns, a, b, "interface"@) is Some {
        TokenType::Interface
    } else if first_of_kind(ns, a, b, "enum"@) is Some {
        TokenType::Enum
    } else if has_modifier(ns, src, a, b, "data"@) {
        TokenType::Struct
    } else {
        TokenType::Class
    }
}

/// The token type of a Kotlin function whose children are `[a, b)`.
pub open spec fn kotlin_fun_type(ns: Seq<FlatModel>, src: Seq<u8>, a: int, b: int, in_body: bool) -> TokenType {
    if has_modifier(ns, src, a, b, "operator"@) {
        TokenType::Operator
    } else if in_body {
        TokenType::Method
    } else {
        TokenType::Function
    }
}

/// Whether a Kotlin property whose children are `[a, b)` is a `val`.
pub open spec fn kotlin_is_val(ns: Seq<FlatModel>, a: int, b: int) -> bool {
    match first_of_kind(ns, a, b, "binding_pattern_kind"@) {
        Some(k) => first_of_kind(ns, k + 1, child_end(ns, k, b), "val"@) is Some,
        None => first_of_kind(ns, a, b, "val"@) is Some,
    }
}

/// The tokens of a Kotlin property whose children are `[a, b)`.
pub open spec fn kotlin_property_tokens(ns: Seq<FlatModel>, src: Seq<u8>, a: int, b: int, in_body: bool) -> Seq<RawToken> {
    let tt = if in_body {
        TokenType::Property
    } else {
        TokenType::Variable
    };
    let mods = bit(TokenModifier::Declaration) | flag(kotlin_is_val(ns, a, b), TokenModifier::Readonly);
    match first_of_kind(ns, a, b, "variable_declaration"@) {
        Some(v) => opt_token(ns, src, first_ident(ns, v + 1, child_end(ns, v, b)), tt, mods),
        None => match first_of_kind(ns, a, b, "multi_variable_declaration"@) {
            Some(m) => named_idents(ns, src, m + 1, child_end(ns, m, b), tt, mods),
            None => seq![],
        },
    }
}

/// The name of an annotation whose children are `[a, b)`: an identifier
/// among them, or else the name of the type that the annotation applies
/// (`@Type`, or `@Type(arguments)` through its constructor invocation).
pub open spec fn annotation_name(ns: Seq<FlatModel>, a: int, b: int) -> Option<int> {
    match first_type_name(ns, a, b) {
        Some(j) => Some(j),
        None => match first_of_kind(ns, a, b, "user_type"@) {
            Some(u) => first_type_name(ns, u + 1, child_end(ns, u, b)),
            None => match first_of_kind(ns, a, b, "constructor_invocation"@) {
                Some(c) => {
                    let ce = child_end(ns, c, b);
                    match first_of_kind(ns, c + 1, ce, "user_type"@) {
                        Some(u) => first_type_name(ns, u + 1, child_end(ns, u, ce)),
                        None => None,
                    }
                },
                None => None,
            },
        },
    }
}

/// The tokens that the Kotlin node at `i` yields by itself; its window ends
/// at `end`, and `in_body` tells whether its parent is a class body.
pub open spec fn kotlin_node_tokens(ns: Seq<FlatModel>, src: Seq<u8>, i: int, end: int, in_body: bool) -> Seq<RawToken> {
    let k = ns[i].kind;
    let a = i + 1;
    let b = child_end(ns, i, end);
    let decl = bit(TokenModifier::Declaration);
    if k == "class_declaration"@ {
        opt_token(
            ns,
            src,
            first_ident(ns, a, b),
            kotlin_class_type(ns, src, a, b),
            decl | flag(has_modifier(ns, src, a, b, "abstract"@), TokenModifier::Abstract),
        )
    } else if k == "object_declaration"@ {
        opt_token(ns, src, first_ident(ns, a, b), TokenType::Namespace, decl)
    } else if k == "companion_object"@ {
        let name = match first_ident(ns, a, b) {
            Some(j) => Some(j),
            None => first_of_kind(ns, a, b, "object"@),
        };
        opt_token(ns, src, name, TokenType::Namespace, decl | bit(TokenModifier::Static))
    } else if k == "function_declaration"@ {
        opt_token(
            ns,
            src,
            first_ident(ns, a, b),
            kotlin_fun_type(ns, src, a, b, in_body),
            decl | flag(has_modifier(ns, src, a, b, "suspend"@), TokenModifier::Async) | flag(
                has_modifier(ns, src, a, b, "abstract"@),
                TokenModifier::Abstract,
            ),
        )
    } else if k == "property_declaration"@ {
        kotlin_property_tokens(ns, src, a, b, in_body)
    } else if k == "type_parameter"@ {
        opt_token(ns, src, first_type_name(ns, a, b), TokenType::TypeParameter, decl)
    } else if k == "parameter"@ {
        opt_token(ns, src, first_ident(ns, a, b), TokenType::Parameter, decl)
    } else if k == "enum_entry"@ {
        opt_token(
            ns,
            src,
            first_ident(ns, a, b),
            TokenType::EnumMember,
            decl | bit(TokenModifier::Readonly),
        )
    } else if k == "annotation"@ || k == "multi_annotation"@ {
        opt_token(ns, src, annotation_name(ns, a, b), TokenType::Decorator, 0)
    } else {
        seq![]
    }
}

/// The tokens of the Kotlin subtrees of `[from, end)`, in preorder.
pub open spec fn kotlin_walk(ns: Seq<FlatModel>, src: Seq<u8>, from: int, end: int, in_body: bool) -> Seq<RawToken>
    decreases end - from,
{
    if nonempty(ns, from, end) {
        let e = child_end(ns, from, end);
        kotlin_node_tokens(ns, src, from, end, in_body) + kotlin_walk(
            ns,
            src,
            from + 1,
            e,
            is_body_kind(ns[from].kind),
        ) + kotlin_walk(ns, src, e, end, in_body)
    } else {
        seq![]
    }
}

// ─── Java ───────────────────────────────────────────────────────────────────

/// Tokens for the names of the `variable_declarator` subtrees of `[from, end)`.
pub open spec fn declarator_idents(ns: Seq<FlatModel>, src: Seq<u8>, from: int, end: int, mods: u32) -> Seq<RawToken>
    decreases end - from,
{
    if nonempty(ns, from, end) {
        let e = child_end(ns, from, end);
        (if ns[from].kind == "variable_declarator"@ {
            opt_token(ns, src, first_of_kind(ns, from + 1, e, "identifier"@), TokenType::Property, mods)
        } else {
            seq![]
        }) + declarator_idents(ns, src, e, end, mods)
    } else {
        seq![]
    }
}

/// The tokens that the Java node at `i` yields by itself; its window ends at `end`.
pub open spec fn java_node_tokens(ns: Seq<FlatModel>, src: Seq<u8>, i: int, end: int) -> Seq<RawToken> {
    let k = ns[i].kind;
    let a = i + 1;
    let b = child_end(ns, i, end);
    let decl = bit(TokenModifier::Declaration);
    let name = first_of_kind(ns, a, b, "identifier"@);
    if k == "class_declaration"@ || k == "record_declaration"@ {
        opt_token(
            ns,
            src,
            name,
            TokenType::Class,
            decl | flag(has_java_modifier(ns, src, a, b, "abstract"@), TokenModifier::Abstract),
        )
    } else if k == "interface_declaration"@ || k == "annotation_type_declaration"@ {
        let tt = if k == "annotation_type_declaration"@ {
            TokenType::Decorator
        } else {
            TokenType::Interface
        };
        opt_token(ns, src, name, tt, decl)
    } else if k == "enum_declaration"@ {
        opt_token(ns, src, name, TokenType::Enum, decl)
    } else if k == "method_declaration"@ {
        opt_token(
            ns,
            src,
            name,
            TokenType::Method,
            decl | flag(has_java_modifier(ns, src, a, b, "abstract"@), TokenModifier::Abstract),
        )
    } else if k == "field_declaration"@ {
        declarator_idents(
            ns,
            src,
            a,
            b,
            decl | flag(has_java_modifier(ns, src, a, b, "final"@), TokenModifier::Readonly) | flag(
                has_java_modifier(ns, src, a, b, "static"@),
                TokenModifier::Static,
            ),
        )
    } else if k == "formal_parameter"@ || k == "spread_parameter"@ {
        opt_token(ns, src, name, TokenType::Parameter, decl)
    } else if k == "enum_constant"@ {
        opt_token(ns, src, name, TokenType::EnumMember, decl | bit(TokenModifier::Readonly))
    } else if k == "type_parameter"@ {
        let tp = match first_of_kind(ns, a, b, "type_identifier"@) {
            Some(j) => Some(j),
            None => name,
        };
        opt_token(ns, src, tp, TokenType::TypeParameter, decl)
    } else if k == "marker_annotation"@ || k == "annotation"@ {
        opt_token(ns, src, name, TokenType::Decorator, 0)
    } else {
        seq![]
    }
}

/// The tokens of the Java subtrees of `[from, end)`, in preorder.
pub open spec fn java_walk(ns: Seq<FlatModel>, src: Seq<u8>, from: int, end: int) -> Seq<RawToken>
    decreases end - from,
{
    if nonempty(ns, from, end) {
        let e = child_end(ns, from, end);
        java_node_tokens(ns, src, from, end) + java_walk(ns, src, from + 1, e) + java_walk(
            ns,
            src,
            e,
            end,
        )
    } else {
        seq![]
    }
}

/// The declaration tokens of a whole tree of `language`, in preorder; a Swift
/// tree yields none.
pub open spec fn cst_tokens(ns: Seq<FlatModel>, src: Seq<u8>, language: Language) -> Seq<RawToken> {
    match language {
        Language::Kotlin => kotlin_walk(ns, src, 0, ns.len() as int, false),
        Language::Java => java_walk(ns, src, 0, ns.len() as int),
        Language::Swift => seq![],
    }
}

/// `t` is the token of a node of kind `k` in `[a, b)`, typed `tt` with
/// modifiers `mods`.
pub open spec fn token_in(ns: Seq<FlatModel>, src: Seq<u8>, t: RawToken, a: int, b: int, k: Seq<char>, tt: TokenType, mods: u32) -> bool {
    exists|j: int| a <= j < b && ns[j].kind == k && #[trigger] token_at(ns, src, j, tt, mods) == seq![t]
}

pub proof fn lemma_token_in_widen(ns: Seq<FlatModel>, src: Seq<u8>, t: RawToken, a: int, b: int, a2: int, b2: int, k: Seq<char>, tt: TokenType, mods: u32)
    requires
        token_in(ns, src, t, a, b, k, tt, mods),
        a2 <= a,
        b <= b2,
    ensures
        token_in(ns, src, t, a2, b2, k, tt, mods),
{
    let j = choose|j: int| a <= j < b && ns[j].kind == k && #[trigger] token_at(ns, src, j, tt, mods) == seq![t];
    assert(token_at(ns, src, j, tt, mods) == seq![t]);
}

/// The token of the node `o` is, when there is one, a token of a node of
/// kind `k` in `[a, b)`.
pub proof fn lemma_opt_token_in(ns: Seq<FlatModel>, src: Seq<u8>, o: Option<int>, a: int, b: int, k: Seq<char>, tt: TokenType, mods: u32)
    requires
        o matches Some(j) ==> a <= j < b && ns[j].kind == k,
    ensures
        forall|i: int|
            0 <= i < opt_token(ns, src, o, tt, mods).len() ==> token_in(
                ns,
                src,
                #[trigger] opt_token(ns, src, o, tt, mods)[i],
                a,
                b,
                k,
                tt,
                mods,
            ),
{
    match o {
        Some(j) => {
            let h = token_at(ns, src, j, tt, mods);
            if h.len() > 0 {
                assert(h =~= seq![h[0]]);
                assert(token_at(ns, src, j, tt, mods) == seq![h[0]]);
            }
        },
        None => {},
    }
}

// ─── Laws of the classification ─────────────────────────────────────────────

/// Every token of `s` has token type `tt`.
pub open spec fn all_of_type(s: Seq<RawToken>, tt: TokenType) -> bool {
    forall|k: int| 0 <= k < s.len() ==> (#[trigger] s[k]).token_type == type_id(tt)
}

proof fn lemma_opt_token_type(ns: Seq<FlatModel>, src: Seq<u8>, o: Option<int>, tt: TokenType, mods: u32)
    ensures
        all_of_type(opt_token(ns, src, o, tt, mods), tt),
{
}

proof fn lemma_named_idents_type(ns: Seq<FlatModel>, src: Seq<u8>, from: int, end: int, tt: TokenType, mods: u32)
    ensures
        all_of_type(named_idents(ns, src, from, end, tt, mods), tt),
    decreases end - from,
{
    if nonempty(ns, from, end) {
        let e = child_end(ns, from, end);
        let head = if ns[from].named {
            opt_token(ns, src, first_ident(ns, from + 1, e), tt, mods)
        } else {
            seq![]
        };
        lemma_named_idents_type(ns, src, e, end, tt, mods);
        let rest = named_idents(ns, src, e, end, tt, mods);
        assert forall|k: int| 0 <= k < (head + rest).len() implies (#[trigger] (head + rest)[k]).token_type
            == type_id(tt) by {
            if k < head.len() {
                assert((head + rest)[k] == head[k]);
            } else {
                assert((head + rest)[k] == rest[k - head.len()]);
            }
        }
    }
}

proof fn lemma_property_tokens_type(ns: Seq<FlatModel>, src: Seq<u8>, a: int, b: int, in_body: bool)
    ensures
        all_of_type(
            kotlin_property_tokens(ns, src, a, b, in_body),
            if in_body {
                TokenType::Property
            } else {
                TokenType::Variable
            },
        ),
{
    let tt = if in_body {
        TokenType::Property
    } else {
        TokenType::Variable
    };
    let mods = bit(TokenModifier::Declaration) | flag(kotlin_is_val(ns, a, b), TokenModifier::Readonly);
    match first_of_kind(ns, a, b, "variable_declaration"@) {
        Some(v) => {},
        None => match first_of_kind(ns, a, b, "multi_variable_declaration"@) {
            Some(m) => lemma_named_idents_type(ns, src, m + 1, child_end(ns, m, b), tt, mods),
            None => {},
        },
    }
}

/// Law: inside a class, interface, enum-class or object body a Kotlin
/// function declaration names a method (an operator when it is marked
/// `operator`) and a property declaration names properties; outside such a
/// body the function is a plain function and the properties are variables.
pub proof fn law_kotlin_members_and_top_level(ns: Seq<FlatModel>, src: Seq<u8>, i: int, end: int)
    requires
        nonempty(ns, i, end),
    ensures
        ({
            let a = i + 1;
            let b = child_end(ns, i, end);
            let op = has_modifier(ns, src, a, b, "operator"@);
            &&& ns[i].kind == "function_declaration"@ ==> all_of_type(
                kotlin_node_tokens(ns, src, i, end, true),
                if op {
                    TokenType::Operator
                } else {
                    TokenType::Method
                },
            ) && all_of_type(
                kotlin_node_tokens(ns, src, i, end, false),
                if op {
                    TokenType::Operator
                } else {
                    TokenType::Function
                },
            )
            &&& ns[i].kind == "property_declaration"@ ==> all_of_type(
                kotlin_node_tokens(ns, src, i, end, true),
                TokenType::Property,
            ) && all_of_type(kotlin_node_tokens(ns, src, i, end, false), TokenType::Variable)
        }),
{
    reveal_strlit("function_declaration");
    reveal_strlit("property_declaration");
    reveal_strlit("class_declaration");
    reveal_strlit("object_declaration");
    reveal_strlit("companion_object");
    assert("function_declaration"@[0] != "class_declaration"@[0]);
    assert("function_declaration"@[0] != "object_declaration"@[0]);
    assert("function_declaration"@[0] != "companion_object"@[0]);
    assert("property_declaration"@[0] != "class_declaration"@[0]);
    assert("property_declaration"@[0] != "object_declaration"@[0]);
    assert("property_declaration"@[0] != "companion_object"@[0]);
    assert("property_declaration"@[0] != "function_declaration"@[0]);
    let a = i + 1;
    let b = child_end(ns, i, end);
    lemma_property_tokens_type(ns, src, a, b, true);
    lemma_property_tokens_type(ns, src, a, b, false);
}

/// Every token of `s` carries exactly the modifiers `mods`.
pub open spec fn all_with_mods(s: Seq<RawToken>, mods: u32) -> bool {
    forall|k: int| 0 <= k < s.len() ==> (#[trigger] s[k]).token_modifiers_bitset == mods
}

proof fn lemma_named_idents_mods(ns: Seq<FlatModel>, src: Seq<u8>, from: int, end: int, tt: TokenType, mods: u32)
    ensures
        all_with_mods(named_idents(ns, src, from, end, tt, mods), mods),
    decreases end - from,
{
    if nonempty(ns, from, end) {
        let e = child_end(ns, from, end);
        let head = if ns[from].named {
            opt_token(ns, src, first_ident(ns, from + 1, e), tt, mods)
        } else {
            seq![]
        };
        lemma_named_idents_mods(ns, src, e, end, tt, mods);
        let rest = named_idents(ns, src, e, end, tt, mods);
        assert forall|k: int| 0 <= k < (head + rest).len() implies (#[trigger] (head + rest)[k]).token_modifiers_bitset
            == mods by {
            if k < head.len() {
                assert((head + rest)[k] == head[k]);
            } else {
                assert((head + rest)[k] == rest[k - head.len()]);
            }
        }
    }
}

/// Law: the modifiers of a Kotlin declaration's names are the legend
/// modifiers named after its keywords: every name carries `declaration`; a
/// function adds `async` when it is `suspend` and `abstract` when it is
/// `abstract`; a property adds `readonly` when it is a `val`; a companion
/// object adds `static`; an enum entry adds `readonly`.
pub proof fn law_kotlin_modifier_names(ns: Seq<FlatModel>, src: Seq<u8>, i: int, end: int, in_body: bool)
    requires
        nonempty(ns, i, end),
    ensures
        ({
            let k = ns[i].kind;
            let a = i + 1;
            let b = child_end(ns, i, end);
            let out = kotlin_node_tokens(ns, src, i, end, in_body);
            let decl = modifier_named("declaration"@);
            &&& k == "function_declaration"@ ==> all_with_mods(
                out,
                decl | (if has_modifier(ns, src, a, b, "suspend"@) {
                    modifier_named("async"@)
                } else {
                    0u32
                }) | (if has_modifier(ns, src, a, b, "abstract"@) {
                    modifier_named("abstract"@)
                } else {
                    0u32
                }),
            )
            &&& k == "property_declaration"@ ==> all_with_mods(
                out,
                decl | (if kotlin_is_val(ns, a, b) {
                    modifier_named("readonly"@)
                } else {
                    0u32
                }),
            )
            &&& k == "companion_object"@ ==> all_with_mods(out, decl | modifier_named("static"@))
            &&& k == "enum_entry"@ ==> all_with_mods(out, decl | modifier_named("readonly"@))
        }),
{
    lemma_bits();
    lemma_named_modifier_bits();
    let k = ns[i].kind;
    let a = i + 1;
    let b = child_end(ns, i, end);
    reveal_strlit("class_declaration");
    reveal_strlit("object_declaration");
    reveal_strlit("companion_object");
    reveal_strlit("function_declaration");
    reveal_strlit("property_declaration");
    reveal_strlit("type_parameter");
    reveal_strlit("parameter");
    reveal_strlit("enum_entry");
    if k == "companion_object"@ {
        assert(k != "class_declaration"@ && k != "object_declaration"@) by {
            assert(k.len() != "class_declaration"@.len());
            assert(k.len() != "object_declaration"@.len());
        }
    }
    if k == "function_declaration"@ {
        assert(k != "class_declaration"@ && k != "object_declaration"@ && k != "companion_object"@) by {
            assert(k[0] != "class_declaration"@[0]);
            assert(k[0] != "object_declaration"@[0]);
            assert(k[0] != "companion_object"@[0]);
        }
    }
    if k == "property_declaration"@ {
        assert(k != "class_declaration"@ && k != "object_declaration"@ && k != "companion_object"@ && k
            != "function_declaration"@) by {
            assert(k[0] != "class_declaration"@[0]);
            assert(k[0] != "object_declaration"@[0]);
            assert(k[0] != "companion_object"@[0]);
            assert(k[0] != "function_declaration"@[0]);
        }
        let tt = if in_body {
            TokenType::Property
        } else {
            TokenType::Variable
        };
        let mods = bit(TokenModifier::Declaration) | flag(kotlin_is_val(ns, a, b), TokenModifier::Readonly);
        match first_of_kind(ns, a, b, "variable_declaration"@) {
            Some(v) => {},
            None => match first_of_kind(ns, a, b, "multi_variable_declaration"@) {
                Some(m) => lemma_named_idents_mods(ns, src, m + 1, child_end(ns, m, b), tt, mods),
                None => {},
            },
        }
    }
    if k == "enum_entry"@ {
        assert(k != "class_declaration"@ && k != "object_declaration"@ && k != "companion_object"@ && k
            != "function_declaration"@ && k != "property_declaration"@ && k != "type_parameter"@ && k
            != "parameter"@) by {
            assert(k[0] != "class_declaration"@[0]);
            assert(k[0] != "object_declaration"@[0]);
            assert(k[0] != "companion_object"@[0]);
            assert(k[0] != "function_declaration"@[0]);
            assert(k[0] != "property_declaration"@[0]);
            assert(k[0] != "type_parameter"@[0]);
            assert(k[0] != "parameter"@[0]);
        }
    }
}

/// Law: the names a Kotlin declaration yields carry the token type whose
/// LSP name says what they are: `typeParameter` for a type parameter,
/// `parameter` for a parameter, `enumMember` for an enum entry, `decorator`
/// for an annotation, `namespace` for an object or companion object, and for
/// a class `interface`, `enum`, `struct` (a `data` class) or `class`.
pub proof fn law_kotlin_token_names(ns: Seq<FlatModel>, src: Seq<u8>, i: int, end: int, in_body: bool)
    requires
        nonempty(ns, i, end),
    ensures
        ({
            let k = ns[i].kind;
            let a = i + 1;
            let b = child_end(ns, i, end);
            let out = kotlin_node_tokens(ns, src, i, end, in_body);
            &&& k == "type_parameter"@ ==> all_of_type(out, TokenType::TypeParameter) && token_type_name(
                TokenType::TypeParameter,
            ) == "typeParameter"@
            &&& k == "parameter"@ ==> all_of_type(out, TokenType::Parameter) && token_type_name(
                TokenType::Parameter,
            ) == "parameter"@
            &&& k == "enum_entry"@ ==> all_of_type(out, TokenType::EnumMember) && token_type_name(
                TokenType::EnumMember,
            ) == "enumMember"@
            &&& (k == "annotation"@ || k == "multi_annotation"@) ==> all_of_type(out, TokenType::Decorator)
                && token_type_name(TokenType::Decorator) == "decorator"@
            &&& (k == "object_declaration"@ || k == "companion_object"@) ==> all_of_type(
                out,
                TokenType::Namespace,
            ) && token_type_name(TokenType::Namespace) == "namespace"@
            &&& k == "class_declaration"@ ==> all_of_type(out, kotlin_class_type(ns, src, a, b)) && (
            token_type_name(kotlin_class_type(ns, src, a, b)) == if first_of_kind(
                ns,
                a,
                b,
                "interface"@,
            ) is Some {
                "interface"@
            } else if first_of_kind(ns, a, b, "enum"@) is Some {
                "enum"@
            } else if has_modifier(ns, src, a, b, "data"@) {
                "struct"@
            } else {
                "class"@
            })
        }),
{
    reveal_strlit("class_declaration");
    reveal_strlit("object_declaration");
    reveal_strlit("companion_object");
    reveal_strlit("function_declaration");
    reveal_strlit("property_declaration");
    reveal_strlit("type_parameter");
    reveal_strlit("parameter");
    reveal_strlit("enum_entry");
    reveal_strlit("annotation");
    reveal_strlit("multi_annotation");
    let k = ns[i].kind;
    if k == "object_declaration"@ {
        assert(k != "class_declaration"@) by {
            assert(k.len() != "class_declaration"@.len() || k[0] != "class_declaration"@[0]);
        }
    }
    if k == "companion_object"@ {
        assert(k != "class_declaration"@ && k != "object_declaration"@) by {
            assert(k.len() != "class_declaration"@.len() || k[0] != "class_declaration"@[0]);
            assert(k.len() != "object_declaration"@.len() || k[0] != "object_declaration"@[0]);
        }
    }
    if k == "function_declaration"@ {
        assert(k != "class_declaration"@ && k != "object_declaration"@ && k != "companion_object"@) by {
            assert(k.len() != "class_declaration"@.len() || k[0] != "class_declaration"@[0]);
            assert(k.len() != "object_declaration"@.len() || k[0] != "object_declaration"@[0]);
            assert(k.len() != "companion_object"@.len() || k[0] != "companion_object"@[0]);
        }
    }
    if k == "property_declaration"@ {
        assert(k != "class_declaration"@ && k != "object_declaration"@ && k != "companion_object"@ && k != "function_declaration"@) by {
            assert(k.len() != "class_declaration"@.len() || k[0] != "class_declaration"@[0]);
            assert(k.len() != "object_declaration"@.len() || k[0] != "object_declaration"@[0]);
            assert(k.len() != "companion_object"@.len() || k[0] != "companion_object"@[0]);
            assert(k.len() != "function_declaration"@.len() || k[0] != "function_declaration"@[0]);
        }
    }
    if k == "type_parameter"@ {
        assert(k != "class_declaration"@ && k != "object_declaration"@ && k != "companion_object"@ && k != "function_declaration"@ && k != "property_declaration"@) by {
            assert(k.len() != "class_declaration"@.len() || k[0] != "class_declaration"@[0]);
            assert(k.len() != "object_declaration"@.len() || k[0] != "object_declaration"@[0]);
            assert(k.len() != "companion_object"@.len() || k[0] != "companion_object"@[0]);
            assert(k.len() != "function_declaration"@.len() || k[0] != "function_declaration"@[0]);
            assert(k.len() != "property_declaration"@.len() || k[0] != "property_declaration"@[0]);
        }
    }
    if k == "parameter"@ {
        assert(k != "class_declaration"@ && k != "object_declaration"@ && k != "companion_object"@ && k != "function_declaration"@ && k != "property_declaration"@ && k != "type_parameter"@) by {
            assert(k.len() != "class_declaration"@.len() || k[0] != "class_declaration"@[0]);
            assert(k.len() != "object_declaration"@.len() || k[0] != "object_declaration"@[0]);
            assert(k.len() != "companion_object"@.len() || k[0] != "companion_object"@[0]);
            assert(k.len() != "function_declaration"@.len() || k[0] != "function_declaration"@[0]);
            assert(k.len() != "property_declaration"@.len() || k[0] != "property_declaration"@[0]);
            assert(k.len() != "type_parameter"@.len() || k[0] != "type_parameter"@[0]);
        }
    }
    if k == "enum_entry"@ {
        assert(k != "class_declaration"@ && k != "object_declaration"@ && k != "companion_object"@ && k != "function_declaration"@ && k != "property_declaration"@ && k != "type_parameter"@ && k != "parameter"@) by {
            assert(k.len() != "class_declaration"@.len() || k[0] != "class_declaration"@[0]);
            assert(k.len() != "object_declaration"@.len() || k[0] != "object_declaration"@[0]);
            assert(k.len() != "companion_object"@.len() || k[0] != "companion_object"@[0]);
            assert(k.len() != "function_declaration"@.len() || k[0] != "function_declaration"@[0]);
            assert(k.len() != "property_declaration"@.len() || k[0] != "property_declaration"@[0]);
            assert(k.len() != "type_parameter"@.len() || k[0] != "type_parameter"@[0]);
            assert(k.len() != "parameter"@.len() || k[0] != "parameter"@[0]);
        }
    }
    if k == "annotation"@ {
        assert(k != "class_declaration"@ && k != "object_declaration"@ && k != "companion_object"@ && k != "function_declaration"@ && k != "property_declaration"@ && k != "type_parameter"@ && k != "parameter"@ && k != "enum_entry"@) by {
            assert(k.len() != "class_declaration"@.len() || k[0] != "class_declaration"@[0]);
            assert(k.len() != "object_declaration"@.len() || k[0] != "object_declaration"@[0]);
            assert(k.len() != "companion_object"@.len() || k[0] != "companion_object"@[0]);
            assert(k.len() != "function_declaration"@.len() || k[0] != "function_declaration"@[0]);
            assert(k.len() != "property_declaration"@.len() || k[0] != "property_declaration"@[0]);
            assert(k.len() != "type_parameter"@.len() || k[0] != "type_parameter"@[0]);
            assert(k.len() != "parameter"@.len() || k[0] != "parameter"@[0]);
            assert(k.len() != "enum_entry"@.len() || k[0] != "enum_entry"@[0]);
        }
    }
    if k == "multi_annotation"@ {
        assert(k != "class_declaration"@ && k != "object_declaration"@ && k != "companion_object"@ && k != "function_declaration"@ && k != "property_declaration"@ && k != "type_parameter"@ && k != "parameter"@ && k != "enum_entry"@ && k != "annotation"@) by {
            assert(k.len() != "class_declaration"@.len() || k[0] != "class_declaration"@[0]);
            assert(k.len() != "object_declaration"@.len() || k[0] != "object_declaration"@[0]);
            assert(k.len() != "companion_object"@.len() || k[0] != "companion_object"@[0]);
            assert(k.len() != "function_declaration"@.len() || k[0] != "function_declaration"@[0]);
            assert(k.len() != "property_declaration"@.len() || k[0] != "property_declaration"@[0]);
            assert(k.len() != "type_parameter"@.len() || k[0] != "type_parameter"@[0]);
            assert(k.len() != "parameter"@.len() || k[0] != "parameter"@[0]);
            assert(k.len() != "enum_entry"@.len() || k[0] != "enum_entry"@[0]);
            assert(k.len() != "annotation"@.len() || k[0] != "annotation"@[0]);
        }
    }
}

/// Law: the names a Java declaration yields carry the token type whose LSP
/// name says what they are: `class` for a class or record, `interface`,
/// `decorator` for an annotation type or an annotation, `enum`, `method`,
/// `parameter` for a formal or spread parameter, `enumMember` for an enum
/// constant and `typeParameter` for a type parameter.
pub proof fn law_java_token_names(ns: Seq<FlatModel>, src: Seq<u8>, i: int, end: int)
    requires
        nonempty(ns, i, end),
    ensures
        ({
            let k = ns[i].kind;
            let out = java_node_tokens(ns, src, i, end);
            &&& k == "class_declaration"@ ==> all_of_type(out, TokenType::Class) && token_type_name(TokenType::Class) == "class"@
            &&& k == "record_declaration"@ ==> all_of_type(out, TokenType::Class) && token_type_name(TokenType::Class) == "class"@
            &&& k == "interface_declaration"@ ==> all_of_type(out, TokenType::Interface) && token_type_name(TokenType::Interface) == "interface"@
            &&& k == "annotation_type_declaration"@ ==> all_of_type(out, TokenType::Decorator) && token_type_name(TokenType::Decorator) == "decorator"@
            &&& k == "enum_declaration"@ ==> all_of_type(out, TokenType::Enum) && token_type_name(TokenType::Enum) == "enum"@
            &&& k == "method_declaration"@ ==> all_of_type(out, TokenType::Method) && token_type_name(TokenType::Method) == "method"@
            &&& k == "formal_parameter"@ ==> all_of_type(out, TokenType::Parameter) && token_type_name(TokenType::Parameter) == "parameter"@
            &&& k == "spread_parameter"@ ==> all_of_type(out, TokenType::Parameter) && token_type_name(TokenType::Parameter) == "parameter"@
            &&& k == "enum_constant"@ ==> all_of_type(out, TokenType::EnumMember) && token_type_name(TokenType::EnumMember) == "enumMember"@
            &&& k == "type_parameter"@ ==> all_of_type(out, TokenType::TypeParameter) && token_type_name(TokenType::TypeParameter) == "typeParameter"@
            &&& k == "marker_annotation"@ ==> all_of_type(out, TokenType::Decorator) && token_type_name(TokenType::Decorator) == "decorator"@
            &&& k == "annotation"@ ==> all_of_type(out, TokenType::Decorator) && token_type_name(TokenType::Decorator) == "decorator"@
        }),
{
    reveal_strlit("class_declaration");
    reveal_strlit("record_declaration");
    reveal_strlit("interface_declaration");
    reveal_strlit("annotation_type_declaration");
    reveal_strlit("enum_declaration");
    reveal_strlit("method_declaration");
    reveal_strlit("field_declaration");
    reveal_strlit("formal_parameter");
    reveal_strlit("spread_parameter");
    reveal_strlit("enum_constant");
    reveal_strlit("type_parameter");
    reveal_strlit("marker_annotation");
    reveal_strlit("annotation");
    let k = ns[i].kind;
    if k == "record_declaration"@ {
        assert(k != "class_declaration"@) by {
            assert("record_declaration"@.len() != "class_declaration"@.len());
        }
    }
    if k == "interface_declaration"@ {
        assert(k != "class_declaration"@ && k != "record_declaration"@) by {
            assert("interface_declaration"@.len() != "class_declaration"@.len());
            assert("interface_declaration"@.len() != "record_declaration"@.len());
        }
    }
    if k == "annotation_type_declaration"@ {
        assert(k != "class_declaration"@ && k != "record_declaration"@ && k != "interface_declaration"@) by {
            assert("annotation_type_declaration"@.len() != "class_declaration"@.len());
            assert("annotation_type_declaration"@.len() != "record_declaration"@.len());
            assert("annotation_type_declaration"@.len() != "interface_declaration"@.len());
        }
    }
    if k == "enum_declaration"@ {
        assert(k != "class_declaration"@ && k != "record_declaration"@ && k != "interface_declaration"@ && k != "annotation_type_declaration"@) by {
            assert("enum_declaration"@.len() != "class_declaration"@.len());
            assert("enum_declaration"@.len() != "record_declaration"@.len());
            assert("enum_declaration"@.len() != "interface_declaration"@.len());
            assert("enum_declaration"@.len() != "annotation_type_declaration"@.len());
        }
    }
    if k == "method_declaration"@ {
        assert(k != "class_declaration"@ && k != "record_declaration"@ && k != "interface_declaration"@ && k != "annotation_type_declaration"@ && k != "enum_declaration"@) by {
            assert("method_declaration"@.len() != "class_declaration"@.len());
            assert("method_declaration"@[0] != "record_declaration"@[0]);
            assert("method_declaration"@.len() != "interface_declaration"@.len());
            assert("method_declaration"@.len() != "annotation_type_declaration"@.len());
            assert("method_declaration"@.len() != "enum_declaration"@.len());
        }
    }
    if k == "field_declaration"@ {
        assert(k != "class_declaration"@ && k != "record_declaration"@ && k != "interface_declaration"@ && k != "annotation_type_declaration"@ && k != "enum_declaration"@ && k != "method_declaration"@) by {
            assert("field_declaration"@[0] != "class_declaration"@[0]);
            assert("field_declaration"@.len() != "record_declaration"@.len());
            assert("field_declaration"@.len() != "interface_declaration"@.len());
            assert("field_declaration"@.len() != "annotation_type_declaration"@.len());
            assert("field_declaration"@.len() != "enum_declaration"@.len());
            assert("field_declaration"@.len() != "method_declaration"@.len());
        }
    }
    if k == "formal_parameter"@ {
        assert(k != "class_declaration"@ && k != "record_declaration"@ && k != "interface_declaration"@ && k != "annotation_type_declaration"@ && k != "enum_declaration"@ && k != "method_declaration"@ && k != "field_declaration"@) by {
            assert("formal_parameter"@.len() != "class_declaration"@.len());
            assert("formal_parameter"@.len() != "record_declaration"@.len());
            assert("formal_parameter"@.len() != "interface_declaration"@.len());
            assert("formal_parameter"@.len() != "annotation_type_declaration"@.len());
            assert("formal_parameter"@[0] != "enum_declaration"@[0]);
            assert("formal_parameter"@.len() != "method_declaration"@.len());
            assert("formal_parameter"@.len() != "field_declaration"@.len());
        }
    }
    if k == "spread_parameter"@ {
        assert(k != "class_declaration"@ && k != "record_declaration"@ && k != "interface_declaration"@ && k != "annotation_type_declaration"@ && k != "enum_declaration"@ && k != "method_declaration"@ && k != "field_declaration"@ && k != "formal_parameter"@) by {
            assert("spread_parameter"@.len() != "class_declaration"@.len());
            assert("spread_parameter"@.len() != "record_declaration"@.len());
            assert("spread_parameter"@.len() != "interface_declaration"@.len());
            assert("spread_parameter"@.len() != "annotation_type_declaration"@.len());
            assert("spread_parameter"@[0] != "enum_declaration"@[0]);
            assert("spread_parameter"@.len() != "method_declaration"@.len());
            assert("spread_parameter"@.len() != "field_declaration"@.len());
            assert("spread_parameter"@[0] != "formal_parameter"@[0]);
        }
    }
    if k == "enum_constant"@ {
        assert(k != "class_declaration"@ && k != "record_declaration"@ && k != "interface_declaration"@ && k != "annotation_type_declaration"@ && k != "enum_declaration"@ && k != "method_declaration"@ && k != "field_declaration"@ && k != "formal_parameter"@ && k != "spread_parameter"@) by {
            assert("enum_constant"@.len() != "class_declaration"@.len());
            assert("enum_constant"@.len() != "record_declaration"@.len());
            assert("enum_constant"@.len() != "interface_declaration"@.len());
            assert("enum_constant"@.len() != "annotation_type_declaration"@.len());
            assert("enum_constant"@.len() != "enum_declaration"@.len());
            assert("enum_constant"@.len() != "method_declaration"@.len());
            assert("enum_constant"@.len() != "field_declaration"@.len());
            assert("enum_constant"@.len() != "formal_parameter"@.len());
            assert("enum_constant"@.len() != "spread_parameter"@.len());
        }
    }
    if k == "type_parameter"@ {
        assert(k != "class_declaration"@ && k != "record_declaration"@ && k != "interface_declaration"@ && k != "annotation_type_declaration"@ && k != "enum_declaration"@ && k != "method_declaration"@ && k != "field_declaration"@ && k != "formal_parameter"@ && k != "spread_parameter"@ && k != "enum_constant"@) by {
            assert("type_parameter"@.len() != "class_declaration"@.len());
            assert("type_parameter"@.len() != "record_declaration"@.len());
            assert("type_parameter"@.len() != "interface_declaration"@.len());
            assert("type_parameter"@.len() != "annotation_type_declaration"@.len());
            assert("type_parameter"@.len() != "enum_declaration"@.len());
            assert("type_parameter"@.len() != "method_declaration"@.len());
            assert("type_parameter"@.len() != "field_declaration"@.len());
            assert("type_parameter"@.len() != "formal_parameter"@.len());
            assert("type_parameter"@.len() != "spread_parameter"@.len());
            assert("type_parameter"@.len() != "enum_constant"@.len());
        }
    }
    if k == "marker_annotation"@ {
        assert(k != "class_declaration"@ && k != "record_declaration"@ && k != "interface_declaration"@ && k != "annotation_type_declaration"@ && k != "enum_declaration"@ && k != "method_declaration"@ && k != "field_declaration"@ && k != "formal_parameter"@ && k != "spread_parameter"@ && k != "enum_constant"@ && k != "type_parameter"@) by {
            assert("marker_annotation"@[0] != "class_declaration"@[0]);
            assert("marker_annotation"@.len() != "record_declaration"@.len());
            assert("marker_annotation"@.len() != "interface_declaration"@.len());
            assert("marker_annotation"@.len() != "annotation_type_declaration"@.len());
            assert("marker_annotation"@.len() != "enum_declaration"@.len());
            assert("marker_annotation"@.len() != "method_declaration"@.len());
            assert("marker_annotation"@[0] != "field_declaration"@[0]);
            assert("marker_annotation"@.len() != "formal_parameter"@.len());
            assert("marker_annotation"@.len() != "spread_parameter"@.len());
            assert("marker_annotation"@.len() != "enum_constant"@.len());
            assert("marker_annotation"@.len() != "type_parameter"@.len());
        }
    }
    if k == "annotation"@ {
        assert(k != "class_declaration"@ && k != "record_declaration"@ && k != "interface_declaration"@ && k != "annotation_type_declaration"@ && k != "enum_declaration"@ && k != "method_declaration"@ && k != "field_declaration"@ && k != "formal_parameter"@ && k != "spread_parameter"@ && k != "enum_constant"@ && k != "type_parameter"@ && k != "marker_annotation"@) by {
            assert("annotation"@.len() != "class_declaration"@.len());
            assert("annotation"@.len() != "record_declaration"@.len());
            assert("annotation"@.len() != "interface_declaration"@.len());
            assert("annotation"@.len() != "annotation_type_declaration"@.len());
            assert("annotation"@.len() != "enum_declaration"@.len());
            assert("annotation"@.len() != "method_declaration"@.len());
            assert("annotation"@.len() != "field_declaration"@.len());
            assert("annotation"@.len() != "formal_parameter"@.len());
            assert("annotation"@.len() != "spread_parameter"@.len());
            assert("annotation"@.len() != "enum_constant"@.len());
            assert("annotation"@.len() != "type_parameter"@.len());
            assert("annotation"@.len() != "marker_annotation"@.len());
        }
    }
}

/// Law: the children of a class, interface, enum-class or object body are
/// classified as members of that body, and the children of any other node
/// are not.
pub proof fn law_body_children_are_members(ns: Seq<FlatModel>, src: Seq<u8>, p: int, end: int, in_body: bool)
    requires
        nonempty(ns, p, end),
    ensures
        ({
            let k = ns[p].kind;
            let members = k == "class_body"@ || k == "interface_body"@ || k == "enum_class_body"@ || k
                == "object_body"@;
            kotlin_walk(ns, src, p, end, in_body) == kotlin_node_tokens(ns, src, p, end, in_body) + kotlin_walk(
                ns,
                src,
                p + 1,
                child_end(ns, p, end),
                members,
            ) + kotlin_walk(ns, src, child_end(ns, p, end), end, in_body)
        }),
{
}

/// The modifiers of the names a Java field declaration declares:
/// `declaration`, with `readonly` when it is `final` and `static` when it is
/// `static`.
pub open spec fn java_field_modifiers(is_final: bool, is_static: bool) -> u32 {
    modifier_named("declaration"@) | (if is_final {
        modifier_named("readonly"@)
    } else {
        0u32
    }) | (if is_static {
        modifier_named("static"@)
    } else {
        0u32
    })
}

proof fn lemma_declarator_idents_sites(ns: Seq<FlatModel>, src: Seq<u8>, from: int, end: int, mods: u32)
    ensures
        forall|i: int|
            0 <= i < declarator_idents(ns, src, from, end, mods).len() ==> token_in(
                ns,
                src,
                #[trigger] declarator_idents(ns, src, from, end, mods)[i],
                from,
                end,
                "identifier"@,
                TokenType::Property,
                mods,
            ),
    decreases end - from,
{
    if nonempty(ns, from, end) {
        let e = child_end(ns, from, end);
        let o = if ns[from].kind == "variable_declarator"@ {
            first_of_kind(ns, from + 1, e, "identifier"@)
        } else {
            None
        };
        let head = opt_token(ns, src, o, TokenType::Property, mods);
        lemma_first_of_kind_in(ns, from + 1, e, "identifier"@);
        lemma_opt_token_in(ns, src, o, from, end, "identifier"@, TokenType::Property, mods);
        lemma_declarator_idents_sites(ns, src, e, end, mods);
        let rest = declarator_idents(ns, src, e, end, mods);
        let all = declarator_idents(ns, src, from, end, mods);
        if ns[from].kind == "variable_declarator"@ {
            assert(all == head + rest);
        } else {
            assert(all =~= rest);
            assert(head =~= Seq::<RawToken>::empty());
        }
        assert forall|i: int| 0 <= i < all.len() implies token_in(
            ns,
            src,
            #[trigger] all[i],
            from,
            end,
            "identifier"@,
            TokenType::Property,
            mods,
        ) by {
            if i < head.len() {
                assert(all[i] == head[i]);
            } else {
                assert(all[i] == rest[i - head.len()]);
                lemma_token_in_widen(ns, src, all[i], e, end, from, end, "identifier"@, TokenType::Property, mods);
            }
        }
    }
}

/// Law: a Java field declaration yields, for each of its
/// `variable_declarator`s in order, one property token at the declarator's
/// name, whose modifiers are `declaration`, `readonly` when the field is
/// `final` and `static` when it is `static`.
pub proof fn law_java_field_tokens(ns: Seq<FlatModel>, src: Seq<u8>, i: int, end: int)
    requires
        nonempty(ns, i, end),
        ns[i].kind == "field_declaration"@,
    ensures
        ({
            let a = i + 1;
            let b = child_end(ns, i, end);
            let mods = java_field_modifiers(
                has_java_modifier(ns, src, a, b, "final"@),
                has_java_modifier(ns, src, a, b, "static"@),
            );
            &&& java_node_tokens(ns, src, i, end) == declarator_idents(ns, src, a, b, mods)
            &&& forall|k: int|
                0 <= k < java_node_tokens(ns, src, i, end).len() ==> token_in(
                    ns,
                    src,
                    #[trigger] java_node_tokens(ns, src, i, end)[k],
                    a,
                    b,
                    "identifier"@,
                    TokenType::Property,
                    mods,
                )
        }),
{
    let a = i + 1;
    let b = child_end(ns, i, end);
    let f = has_java_modifier(ns, src, a, b, "final"@);
    let st = has_java_modifier(ns, src, a, b, "static"@);
    lemma_bits();
    lemma_named_modifier_bits();
    reveal_strlit("field_declaration");
    reveal_strlit("class_declaration");
    reveal_strlit("record_declaration");
    reveal_strlit("interface_declaration");
    reveal_strlit("annotation_type_declaration");
    reveal_strlit("enum_declaration");
    reveal_strlit("method_declaration");
    let mods = java_field_modifiers(f, st);
    assert(bit(TokenModifier::Declaration) | flag(f, TokenModifier::Readonly) | flag(st, TokenModifier::Static)
        == mods);
    assert("field_declaration"@[0] != "class_declaration"@[0]);
    assert("field_declaration"@[0] != "record_declaration"@[0]);
    assert("field_declaration"@[0] != "interface_declaration"@[0]);
    assert("field_declaration"@[0] != "annotation_type_declaration"@[0]);
    assert("field_declaration"@[0] != "enum_declaration"@[0]);
    assert("field_declaration"@[0] != "method_declaration"@[0]);
    assert(java_node_tokens(ns, src, i, end) == declarator_idents(ns, src, a, b, bit(TokenModifier::Declaration)
        | flag(f, TokenModifier::Readonly) | flag(st, TokenModifier::Static)));
    lemma_declarator_idents_sites(ns, src, a, b, mods);
}


/// A token that the tree walk can yield: its type is in the legend, it covers
/// at least one UTF-16 unit, its modifiers are among `declaration`,
/// `readonly`, `static`, `abstract` and `async` (never `deprecated` nor
/// `defaultLibrary`), and every token but an annotation's carries
/// `declaration`.
pub open spec fn declaration_token(t: RawToken) -> bool {
    &&& t.token_type < 15
    &&& t.length > 0
    &&& t.token_modifiers_bitset < 32
    &&& (t.token_type != type_id(TokenType::Decorator) ==> t.token_modifiers_bitset & 1 == 1)
}

/// Every token of `s` is a [`declaration_token`].
pub open spec fn all_declaration_tokens(s: Seq<RawToken>) -> bool {
    forall|k: int| 0 <= k < s.len() ==> declaration_token(#[trigger] s[k])
}

/// Modifiers that a token of type `tt` may carry.
pub open spec fn mods_ok(tt: TokenType, mods: u32) -> bool {
    &&& mods < 32
    &&& (type_id(tt) != type_id(TokenType::Decorator) ==> mods & 1 == 1)
}

proof fn lemma_bits()
    ensures
        bit(TokenModifier::Declaration) == 1,
        bit(TokenModifier::Readonly) == 2,
        bit(TokenModifier::Static) == 4,
        bit(TokenModifier::Abstract) == 8,
        bit(TokenModifier::Async) == 16,
{
    assert(1u32 << 0u32 == 1) by (bit_vector);
    assert(1u32 << 1u32 == 2) by (bit_vector);
    assert(1u32 << 2u32 == 4) by (bit_vector);
    assert(1u32 << 3u32 == 8) by (bit_vector);
    assert(1u32 << 4u32 == 16) by (bit_vector);
}

/// One of the small modifier bits, or none.
spec fn small_bit(x: u32) -> bool {
    x == 0 || x == 2 || x == 4 || x == 8 || x == 16
}

proof fn lemma_decl_mods(x: u32, y: u32)
    requires
        small_bit(x),
        small_bit(y),
    ensures
        (1u32 | x | y) < 32,
        (1u32 | x | y) & 1 == 1,
        (1u32 | x) < 32,
        (1u32 | x) & 1 == 1,
{
    assert(small_bit(x) && small_bit(y) ==> (1u32 | x | y) < 32 && (1u32 | x | y) & 1 == 1 && (1u32
        | x) < 32 && (1u32 | x) & 1 == 1) by (bit_vector);
}

proof fn lemma_flag_small(c: bool, m: TokenModifier)
    requires
        m != TokenModifier::Declaration,
        m != TokenModifier::Deprecated,
        m != TokenModifier::DefaultLibrary,
    ensures
        small_bit(flag(c, m)),
        small_bit(bit(m)),
{
    lemma_bits();
}

proof fn lemma_opt_token_ok(ns: Seq<FlatModel>, src: Seq<u8>, o: Option<int>, tt: TokenType, mods: u32)
    requires
        mods_ok(tt, mods),
    ensures
        all_declaration_tokens(opt_token(ns, src, o, tt, mods)),
{
}

proof fn lemma_concat_ok(a: Seq<RawToken>, b: Seq<RawToken>)
    requires
        all_declaration_tokens(a),
        all_declaration_tokens(b),
    ensures
        all_declaration_tokens(a + b),
{
    assert forall|k: int| 0 <= k < (a + b).len() implies declaration_token(#[trigger] (a + b)[k]) by {
        if k < a.len() {
            assert((a + b)[k] == a[k]);
        } else {
            assert((a + b)[k] == b[k - a.len()]);
        }
    }
}

proof fn lemma_named_idents_ok(ns: Seq<FlatModel>, src: Seq<u8>, from: int, end: int, tt: TokenType, mods: u32)
    requires
        mods_ok(tt, mods),
    ensures
        all_declaration_tokens(named_idents(ns, src, from, end, tt, mods)),
    decreases end - from,
{
    if nonempty(ns, from, end) {
        let e = child_end(ns, from, end);
        lemma_opt_token_ok(ns, src, first_ident(ns, from + 1, e), tt, mods);
        lemma_named_idents_ok(ns, src, e, end, tt, mods);
        let head = if ns[from].named {
            opt_token(ns, src, first_ident(ns, from + 1, e), tt, mods)
        } else {
            seq![]
        };
        lemma_concat_ok(head, named_idents(ns, src, e, end, tt, mods));
    }
}

proof fn lemma_declarator_idents_ok(ns: Seq<FlatModel>, src: Seq<u8>, from: int, end: int, mods: u32)
    requires
        mods_ok(TokenType::Property, mods),
    ensures
        all_declaration_tokens(declarator_idents(ns, src, from, end, mods)),
    decreases end - from,
{
    if nonempty(ns, from, end) {
        let e = child_end(ns, from, end);
        lemma_opt_token_ok(ns, src, first_of_kind(ns, from + 1, e, "identifier"@), TokenType::Property, mods);
        lemma_declarator_idents_ok(ns, src, e, end, mods);
        let head = if ns[from].kind == "variable_declarator"@ {
            opt_token(ns, src, first_of_kind(ns, from + 1, e, "identifier"@), TokenType::Property, mods)
        } else {
            seq![]
        };
        lemma_concat_ok(head, declarator_idents(ns, src, e, end, mods));
    }
}

proof fn lemma_kotlin_node_ok(ns: Seq<FlatModel>, src: Seq<u8>, i: int, end: int, in_body: bool)
    ensures
        all_declaration_tokens(kotlin_node_tokens(ns, src, i, end, in_body)),
{
    let a = i + 1;
    let b = child_end(ns, i, end);
    lemma_bits();
    lemma_flag_small(has_modifier(ns, src, a, b, "abstract"@), TokenModifier::Abstract);
    lemma_flag_small(has_modifier(ns, src, a, b, "suspend"@), TokenModifier::Async);
    lemma_flag_small(kotlin_is_val(ns, a, b), TokenModifier::Readonly);
    lemma_flag_small(true, TokenModifier::Static);
    let fa = flag(has_modifier(ns, src, a, b, "abstract"@), TokenModifier::Abstract);
    let fs = flag(has_modifier(ns, src, a, b, "suspend"@), TokenModifier::Async);
    let fv = flag(kotlin_is_val(ns, a, b), TokenModifier::Readonly);
    lemma_decl_mods(fa, 0);
    lemma_decl_mods(fs, fa);
    lemma_decl_mods(fv, 0);
    lemma_decl_mods(4, 0);
    lemma_decl_mods(2, 0);
    lemma_decl_mods(0, 0);
    assert(0u32 < 32 && 0u32 & 1 == 0 && 1u32 & 1 == 1) by (bit_vector);
    let k = ns[i].kind;
    let decl = bit(TokenModifier::Declaration);
    if k == "class_declaration"@ {
        lemma_opt_token_ok(ns, src, first_ident(ns, a, b), kotlin_class_type(ns, src, a, b), decl | fa);
    } else if k == "object_declaration"@ {
        lemma_opt_token_ok(ns, src, first_ident(ns, a, b), TokenType::Namespace, decl);
    } else if k == "companion_object"@ {
        let name = match first_ident(ns, a, b) {
            Some(j) => Some(j),
            None => first_of_kind(ns, a, b, "object"@),
        };
        lemma_opt_token_ok(ns, src, name, TokenType::Namespace, decl | bit(TokenModifier::Static));
    } else if k == "function_declaration"@ {
        lemma_opt_token_ok(ns, src, first_ident(ns, a, b), kotlin_fun_type(ns, src, a, b, in_body), decl | fs | fa);
    } else if k == "property_declaration"@ {
        let tt = if in_body {
            TokenType::Property
        } else {
            TokenType::Variable
        };
        let mods = decl | fv;
        match first_of_kind(ns, a, b, "variable_declaration"@) {
            Some(v) => lemma_opt_token_ok(ns, src, first_ident(ns, v + 1, child_end(ns, v, b)), tt, mods),
            None => match first_of_kind(ns, a, b, "multi_variable_declaration"@) {
                Some(m) => lemma_named_idents_ok(ns, src, m + 1, child_end(ns, m, b), tt, mods),
                None => {},
            },
        }
    } else if k == "type_parameter"@ {
        lemma_opt_token_ok(ns, src, first_type_name(ns, a, b), TokenType::TypeParameter, decl);
    } else if k == "parameter"@ {
        lemma_opt_token_ok(ns, src, first_ident(ns, a, b), TokenType::Parameter, decl);
    } else if k == "enum_entry"@ {
        lemma_opt_token_ok(ns, src, first_ident(ns, a, b), TokenType::EnumMember, decl | bit(TokenModifier::Readonly));
    } else if k == "annotation"@ || k == "multi_annotation"@ {
        lemma_opt_token_ok(ns, src, annotation_name(ns, a, b), TokenType::Decorator, 0);
    }
}

proof fn lemma_kotlin_walk_ok(ns: Seq<FlatModel>, src: Seq<u8>, from: int, end: int, in_body: bool)
    ensures
        all_declaration_tokens(kotlin_walk(ns, src, from, end, in_body)),
    decreases end - from,
{
    if nonempty(ns, from, end) {
        let e = child_end(ns, from, end);
        lemma_kotlin_node_ok(ns, src, from, end, in_body);
        lemma_kotlin_walk_ok(ns, src, from + 1, e, is_body_kind(ns[from].kind));
        lemma_kotlin_walk_ok(ns, src, e, end, in_body);
        lemma_concat_ok(
            kotlin_node_tokens(ns, src, from, end, in_body),
            kotlin_walk(ns, src, from + 1, e, is_body_kind(ns[from].kind)),
        );
        lemma_concat_ok(
            kotlin_node_tokens(ns, src, from, end, in_body) + kotlin_walk(
                ns,
                src,
                from + 1,
                e,
                is_body_kind(ns[from].kind),
            ),
            kotlin_walk(ns, src, e, end, in_body),
        );
    }
}

proof fn lemma_java_node_ok(ns: Seq<FlatModel>, src: Seq<u8>, i: int, end: int)
    ensures
        all_declaration_tokens(java_node_tokens(ns, src, i, end)),
{
    let a = i + 1;
    let b = child_end(ns, i, end);
    lemma_bits();
    lemma_flag_small(has_java_modifier(ns, src, a, b, "abstract"@), TokenModifier::Abstract);
    lemma_flag_small(has_java_modifier(ns, src, a, b, "final"@), TokenModifier::Readonly);
    lemma_flag_small(has_java_modifier(ns, src, a, b, "static"@), TokenModifier::Static);
    let fa = flag(has_java_modifier(ns, src, a, b, "abstract"@), TokenModifier::Abstract);
    let ff = flag(has_java_modifier(ns, src, a, b, "final"@), TokenModifier::Readonly);
    let fst = flag(has_java_modifier(ns, src, a, b, "static"@), TokenModifier::Static);
    lemma_decl_mods(fa, 0);
    lemma_decl_mods(ff, fst);
    lemma_decl_mods(2, 0);
    lemma_decl_mods(0, 0);
    assert(0u32 < 32 && 0u32 & 1 == 0 && 1u32 & 1 == 1) by (bit_vector);
    let k = ns[i].kind;
    let decl = bit(TokenModifier::Declaration);
    let name = first_of_kind(ns, a, b, "identifier"@);
    if k == "class_declaration"@ || k == "record_declaration"@ {
        lemma_opt_token_ok(ns, src, name, TokenType::Class, decl | fa);
    } else if k == "interface_declaration"@ || k == "annotation_type_declaration"@ {
        let tt = if k == "annotation_type_declaration"@ {
            TokenType::Decorator
        } else {
            TokenType::Interface
        };
        lemma_opt_token_ok(ns, src, name, tt, decl);
    } else if k == "enum_declaration"@ {
        lemma_opt_token_ok(ns, src, name, TokenType::Enum, decl);
    } else if k == "method_declaration"@ {
        lemma_opt_token_ok(ns, src, name, TokenType::Method, decl | fa);
    } else if k == "field_declaration"@ {
        lemma_declarator_idents_ok(ns, src, a, b, decl | ff | fst);
    } else if k == "formal_parameter"@ || k == "spread_parameter"@ {
        lemma_opt_token_ok(ns, src, name, TokenType::Parameter, decl);
    } else if k == "enum_constant"@ {
        lemma_opt_token_ok(ns, src, name, TokenType::EnumMember, decl | bit(TokenModifier::Readonly));
    } else if k == "type_parameter"@ {
        let tp = match first_of_kind(ns, a, b, "type_identifier"@) {
            Some(j) => Some(j),
            None => name,
        };
        lemma_opt_token_ok(ns, src, tp, TokenType::TypeParameter, decl);
    } else if k == "marker_annotation"@ || k == "annotation"@ {
        lemma_opt_token_ok(ns, src, name, TokenType::Decorator, 0);
    }
}

proof fn lemma_java_walk_ok(ns: Seq<FlatModel>, src: Seq<u8>, from: int, end: int)
    ensures
        all_declaration_tokens(java_walk(ns, src, from, end)),
    decreases end - from,
{
    if nonempty(ns, from, end) {
        let e = child_end(ns, from, end);
        lemma_java_node_ok(ns, src, from, end);
        lemma_java_walk_ok(ns, src, from + 1, e);
        lemma_java_walk_ok(ns, src, e, end);
        lemma_concat_ok(java_node_tokens(ns, src, from, end), java_walk(ns, src, from + 1, e));
        lemma_concat_ok(
            java_node_tokens(ns, src, from, end) + java_walk(ns, src, from + 1, e),
            java_walk(ns, src, e, end),
        );
    }
}

/// Law: every token that the classification of a tree yields has a type of
/// the legend, a length of at least one UTF-16 unit, and modifiers among
/// `declaration`, `readonly`, `static`, `abstract` and `async` (so never
/// `deprecated`); every token but an annotation's carries `declaration`.
pub proof fn law_cst_tokens_in_legend(ns: Seq<FlatModel>, src: Seq<u8>, language: Language)
    ensures
        all_declaration_tokens(cst_tokens(ns, src, language)),
{
    match language {
        Language::Kotlin => lemma_kotlin_walk_ok(ns, src, 0, ns.len() as int, false),
        Language::Java => lemma_java_walk_ok(ns, src, 0, ns.len() as int),
        Language::Swift => {},
    }
}

// ─── Executable classification ──────────────────────────────────────────────

/// Appends the token for the node at `j`.
pub(crate) fn push_token(nodes: &Vec<FlatNode>, src: &[u8], j: usize, tt: TokenType, mods: u32, out: &mut Vec<RawToken>)
    requires
        j < nodes@.len(),
    ensures
        final(out)@ == old(out)@ + token_at(flat_models(nodes@), src@, j as int, tt, mods),
{
    let ghost ns = flat_models(nodes@);
    let n = &nodes[j];
    assert(ns[j as int] == n@);
    let units: usize = if n.start_byte <= n.end_byte && n.end_byte <= src.len() {
        match utf16_len_of_range(src, n.start_byte, n.end_byte) {
            Some(c) => c,
            None => 0,
        }
    } else {
        0
    };
    assert(units == utf16_len(node_text(src@, ns[j as int]))) by {
        reveal_with_fuel(utf16_len, 1);
    }
    let length = #[verifier::truncate] (units as u32);
    if length == 0 {
        assert(out@ + seq![] =~= out@);
        return ;
    }
    let col = byte_col_to_utf16(src, n.row, n.column);
    let t = RawToken {
        line: #[verifier::truncate] (n.row as u32),
        col: col,
        length: length,
        token_type: tt.index(),
        token_modifiers_bitset: mods,
    };
    out.push(t);
}

/// Appends the token for the node at `o`, if there is one.
pub(crate) fn push_opt(nodes: &Vec<FlatNode>, src: &[u8], o: Option<usize>, tt: TokenType, mods: u32, out: &mut Vec<RawToken>)
    requires
        o matches Some(j) ==> j < nodes@.len(),
    ensures
        final(out)@ == old(out)@ + opt_token(flat_models(nodes@), src@, as_index(o), tt, mods),
{
    match o {
        Some(j) => push_token(nodes, src, j, tt, mods, out),
        None => {
            assert(out@ + seq![] =~= out@);
        },
    }
}

/// The bit of `m` when `cond` holds, no bit otherwise.
fn flag_bit(cond: bool, m: TokenModifier) -> (r: u32)
    ensures
        r == flag(cond, m),
{
    if cond {
        modifier_bit(m)
    } else {
        0
    }
}

/// Appends the tokens for the names of the named subtrees of `[from, end)`.
fn push_named_idents(
    nodes: &Vec<FlatNode>,
    src: &[u8],
    from: usize,
    end: usize,
    tt: TokenType,
    mods: u32,
    out: &mut Vec<RawToken>,
)
    requires
        end <= nodes@.len(),
    ensures
        final(out)@ == old(out)@ + named_idents(flat_models(nodes@), src@, from as int, end as int, tt, mods),
{
    let ghost ns = flat_models(nodes@);
    let ghost start = out@;
    let mut j = from;
    while j < end
        invariant
            from <= j,
            end <= nodes@.len(),
            ns == flat_models(nodes@),
            out@ + named_idents(ns, src@, j as int, end as int, tt, mods) == start + named_idents(
                ns,
                src@,
                from as int,
                end as int,
                tt,
                mods,
            ),
        decreases end - j,
    {
        let e = j + span_of(nodes, j, end);
        let ghost before = out@;
        let ghost rest = named_idents(ns, src@, e as int, end as int, tt, mods);
        if nodes[j].named {
            assert(ns[j as int].named == nodes@[j as int].named);
            push_opt(nodes, src, find_ident(nodes, j + 1, e), tt, mods, out);
        } else {
            assert(!ns[j as int].named);
            assert(out@ + seq![] =~= out@);
        }
        assert(before + named_idents(ns, src@, j as int, end as int, tt, mods) =~= out@ + rest);
        j = e;
    }
    assert(out@ + named_idents(ns, src@, j as int, end as int, tt, mods) =~= out@);
}

/// Appends the tokens of a Kotlin property whose children are `[a, b)`.
fn push_kotlin_property(nodes: &Vec<FlatNode>, src: &[u8], a: usize, b: usize, in_body: bool, out: &mut Vec<RawToken>)
    requires
        b <= nodes@.len(),
    ensures
        final(out)@ == old(out)@ + kotlin_property_tokens(flat_models(nodes@), src@, a as int, b as int, in_body),
{
    let tt = if in_body {
        TokenType::Property
    } else {
        TokenType::Variable
    };
    let is_val = match find_kind(nodes, a, b, "binding_pattern_kind") {
        Some(k) => {
            let ke = k + span_of(nodes, k, b);
            find_kind(nodes, k + 1, ke, "val").is_some()
        },
        None => find_kind(nodes, a, b, "val").is_some(),
    };
    let mods = modifier_bit(TokenModifier::Declaration) | flag_bit(is_val, TokenModifier::Readonly);
    match find_kind(nodes, a, b, "variable_declaration") {
        Some(v) => {
            let ve = v + span_of(nodes, v, b);
            push_opt(nodes, src, find_ident(nodes, v + 1, ve), tt, mods, out);
        },
        None => match find_kind(nodes, a, b, "multi_variable_declaration") {
            Some(m) => {
                let me = m + span_of(nodes, m, b);
                push_named_idents(nodes, src, m + 1, me, tt, mods, out);
            },
            None => {
                assert(out@ + seq![] =~= out@);
            },
        },
    }
}

/// The first `type_identifier` among the subtrees of `[from, end)`, or else
/// the first `simple_identifier`.
fn find_type_name(nodes: &Vec<FlatNode>, from: usize, end: usize) -> (r: Option<usize>)
    requires
        end <= nodes@.len(),
    ensures
        as_index(r) == first_type_name(flat_models(nodes@), from as int, end as int),
        r matches Some(j) ==> j < end,
{
    match find_kind(nodes, from, end, "type_identifier") {
        Some(j) => Some(j),
        None => find_kind(nodes, from, end, "simple_identifier"),
    }
}

/// The name of an annotation whose children are `[a, b)`.
fn find_annotation_name(nodes: &Vec<FlatNode>, a: usize, b: usize) -> (r: Option<usize>)
    requires
        b <= nodes@.len(),
    ensures
        as_index(r) == annotation_name(flat_models(nodes@), a as int, b as int),
        r matches Some(j) ==> j < b,
{
    match find_type_name(nodes, a, b) {
        Some(j) => Some(j),
        None => match find_kind(nodes, a, b, "user_type") {
            Some(u) => {
                let ue = u + span_of(nodes, u, b);
                find_type_name(nodes, u + 1, ue)
            },
            None => match find_kind(nodes, a, b, "constructor_invocation") {
                Some(c) => {
                    let ce = c + span_of(nodes, c, b);
                    match find_kind(nodes, c + 1, ce, "user_type") {
                        Some(u) => {
                            let ue = u + span_of(nodes, u, ce);
                            find_type_name(nodes, u + 1, ue)
                        },
                        None => None,
                    }
                },
                None => None,
            },
        },
    }
}

/// Appends the tokens that the Kotlin node at `i` yields by itself.
fn kotlin_node(nodes: &Vec<FlatNode>, src: &[u8], i: usize, end: usize, in_body: bool, out: &mut Vec<RawToken>)
    requires
        i < end <= nodes@.len(),
    ensures
        final(out)@ == old(out)@ + kotlin_node_tokens(flat_models(nodes@), src@, i as int, end as int, in_body),
{
    let a = i + 1;
    let b = i + span_of(nodes, i, end);
    let decl = modifier_bit(TokenModifier::Declaration);
    if kind_is(nodes, i, "class_declaration") {
        let tt = if find_kind(nodes, a, b, "interface").is_some() {
            TokenType::Interface
        } else if find_kind(nodes, a, b, "enum").is_some() {
            TokenType::Enum
        } else if find_modifier(nodes, src, a, b, "data") {
            TokenType::Struct
        } else {
            TokenType::Class
        };
        let mods = decl | flag_bit(find_modifier(nodes, src, a, b, "abstract"), TokenModifier::Abstract);
        push_opt(nodes, src, find_ident(nodes, a, b), tt, mods, out);
    } else if kind_is(nodes, i, "object_declaration") {
        push_opt(nodes, src, find_ident(nodes, a, b), TokenType::Namespace, decl, out);
    } else if kind_is(nodes, i, "companion_object") {
        let name = match find_ident(nodes, a, b) {
            Some(j) => Some(j),
            None => find_kind(nodes, a, b, "object"),
        };
        let mods = decl | modifier_bit(TokenModifier::Static);
        push_opt(nodes, src, name, TokenType::Namespace, mods, out);
    } else if kind_is(nodes, i, "function_declaration") {
        let tt = if find_modifier(nodes, src, a, b, "operator") {
            TokenType::Operator
        } else if in_body {
            TokenType::Method
        } else {
            TokenType::Function
        };
        let mods = decl | flag_bit(find_modifier(nodes, src, a, b, "suspend"), TokenModifier::Async)
            | flag_bit(find_modifier(nodes, src, a, b, "abstract"), TokenModifier::Abstract);
        push_opt(nodes, src, find_ident(nodes, a, b), tt, mods, out);
    } else if kind_is(nodes, i, "property_declaration") {
        push_kotlin_property(nodes, src, a, b, in_body, out);
    } else if kind_is(nodes, i, "type_parameter") {
        push_opt(nodes, src, find_type_name(nodes, a, b), TokenType::TypeParameter, decl, out);
    } else if kind_is(nodes, i, "parameter") {
        push_opt(nodes, src, find_ident(nodes, a, b), TokenType::Parameter, decl, out);
    } else if kind_is(nodes, i, "enum_entry") {
        let mods = decl | modifier_bit(TokenModifier::Readonly);
        push_opt(nodes, src, find_ident(nodes, a, b), TokenType::EnumMember, mods, out);
    } else if kind_is(nodes, i, "annotation") || kind_is(nodes, i, "multi_annotation") {
        push_opt(nodes, src, find_annotation_name(nodes, a, b), TokenType::Decorator, 0, out);
    } else {
        assert(out@ + seq![] =~= out@);
    }
}

/// Whether the node at `i` is a class, interface, enum or object body.
fn is_body(nodes: &Vec<FlatNode>, i: usize) -> (r: bool)
    requires
        i < nodes@.len(),
    ensures
        r == is_body_kind(flat_models(nodes@)[i as int].kind),
{
    kind_is(nodes, i, "class_body") || kind_is(nodes, i, "interface_body") || kind_is(
        nodes,
        i,
        "enum_class_body",
    ) || kind_is(nodes, i, "object_body")
}

/// Appends the tokens of the Kotlin subtrees of `[from, end)`, in preorder.
fn kotlin_tree(nodes: &Vec<FlatNode>, src: &[u8], from: usize, end: usize, in_body: bool, out: &mut Vec<RawToken>)
    requires
        end <= nodes@.len(),
    ensures
        final(out)@ == old(out)@ + kotlin_walk(flat_models(nodes@), src@, from as int, end as int, in_body),
    decreases end - from,
{
    let ghost ns = flat_models(nodes@);
    let ghost start = out@;
    let mut j = from;
    while j < end
        invariant
            from <= j,
            end <= nodes@.len(),
            ns == flat_models(nodes@),
            out@ + kotlin_walk(ns, src@, j as int, end as int, in_body) == start + kotlin_walk(
                ns,
                src@,
                from as int,
                end as int,
                in_body,
            ),
        decreases end - j,
    {
        let e = j + span_of(nodes, j, end);
        let ghost before = out@;
        kotlin_node(nodes, src, j, end, in_body, out);
        let inner = is_body(nodes, j);
        kotlin_tree(nodes, src, j + 1, e, inner, out);
        assert(before + kotlin_walk(ns, src@, j as int, end as int, in_body) =~= out@ + kotlin_walk(
            ns,
            src@,
            e as int,
            end as int,
            in_body,
        ));
        j = e;
    }
    assert(out@ + kotlin_walk(ns, src@, j as int, end as int, in_body) =~= out@);
}

/// Appends the tokens for the names of the `variable_declarator` subtrees of `[from, end)`.
fn push_declarators(nodes: &Vec<FlatNode>, src: &[u8], from: usize, end: usize, mods: u32, out: &mut Vec<RawToken>)
    requires
        end <= nodes@.len(),
    ensures
        final(out)@ == old(out)@ + declarator_idents(flat_models(nodes@), src@, from as int, end as int, mods),
{
    let ghost ns = flat_models(nodes@);
    let ghost start = out@;
    let mut j = from;
    while j < end
        invariant
            from <= j,
            end <= nodes@.len(),
            ns == flat_models(nodes@),
            out@ + declarator_idents(ns, src@, j as int, end as int, mods) == start
                + declarator_idents(ns, src@, from as int, end as int, mods),
        decreases end - j,
    {
        let e = j + span_of(nodes, j, end);
        let ghost before = out@;
        if kind_is(nodes, j, "variable_declarator") {
            push_opt(nodes, src, find_kind(nodes, j + 1, e, "identifier"), TokenType::Property, mods, out);
        } else {
            assert(out@ + seq![] =~= out@);
        }
        assert(before + declarator_idents(ns, src@, j as int, end as int, mods) =~= out@
            + declarator_idents(ns, src@, e as int, end as int, mods));
        j = e;
    }
    assert(out@ + declarator_idents(ns, src@, j as int, end as int, mods) =~= out@);
}

/// Appends the tokens that the Java node at `i` yields by itself.
fn java_node(nodes: &Vec<FlatNode>, src: &[u8], i: usize, end: usize, out: &mut Vec<RawToken>)
    requires
        i < end <= nodes@.len(),
    ensures
        final(out)@ == old(out)@ + java_node_tokens(flat_models(nodes@), src@, i as int, end as int),
{
    let a = i + 1;
    let b = i + span_of(nodes, i, end);
    let decl = modifier_bit(TokenModifier::Declaration);
    let name = find_kind(nodes, a, b, "identifier");
    if kind_is(nodes, i, "class_declaration") || kind_is(nodes, i, "record_declaration") {
        let mods = decl | flag_bit(find_java_modifier(nodes, src, a, b, "abstract"), TokenModifier::Abstract);
        push_opt(nodes, src, name, TokenType::Class, mods, out);
    } else if kind_is(nodes, i, "interface_declaration") || kind_is(nodes, i, "annotation_type_declaration") {
        let tt = if kind_is(nodes, i, "annotation_type_declaration") {
            TokenType::Decorator
        } else {
            TokenType::Interface
        };
        push_opt(nodes, src, name, tt, decl, out);
    } else if kind_is(nodes, i, "enum_declaration") {
        push_opt(nodes, src, name, TokenType::Enum, decl, out);
    } else if kind_is(nodes, i, "method_declaration") {
        let mods = decl | flag_bit(find_java_modifier(nodes, src, a, b, "abstract"), TokenModifier::Abstract);
        push_opt(nodes, src, name, TokenType::Method, mods, out);
    } else if kind_is(nodes, i, "field_declaration") {
        let mods = decl | flag_bit(find_java_modifier(nodes, src, a, b, "final"), TokenModifier::Readonly)
            | flag_bit(find_java_modifier(nodes, src, a, b, "static"), TokenModifier::Static);
        push_declarators(nodes, src, a, b, mods, out);
    } else if kind_is(nodes, i, "formal_parameter") || kind_is(nodes, i, "spread_parameter") {
        push_opt(nodes, src, name, TokenType::Parameter, decl, out);
    } else if kind_is(nodes, i, "enum_constant") {
        let mods = decl | modifier_bit(TokenModifier::Readonly);
        push_opt(nodes, src, name, TokenType::EnumMember, mods, out);
    } else if kind_is(nodes, i, "type_parameter") {
        let tp = match find_kind(nodes, a, b, "type_identifier") {
            Some(j) => Some(j),
            None => name,
        };
        push_opt(nodes, src, tp, TokenType::TypeParameter, decl, out);
    } else if kind_is(nodes, i, "marker_annotation") || kind_is(nodes, i, "annotation") {
        push_opt(nodes, src, name, TokenType::Decorator, 0, out);
    } else {
        assert(out@ + seq![] =~= out@);
    }
}

/// Appends the tokens of the Java subtrees of `[from, end)`, in preorder.
fn java_tree(nodes: &Vec<FlatNode>, src: &[u8], from: usize, end: usize, out: &mut Vec<RawToken>)
    requires
        end <= nodes@.len(),
    ensures
        final(out)@ == old(out)@ + java_walk(flat_models(nodes@), src@, from as int, end as int),
    decreases end - from,
{
    let ghost ns = flat_models(nodes@);
    let ghost start = out@;
    let mut j = from;
    while j < end
        invariant
            from <= j,
            end <= nodes@.len(),
            ns == flat_models(nodes@),
            out@ + java_walk(ns, src@, j as int, end as int) == start + java_walk(
                ns,
                src@,
                from as int,
                end as int,
            ),
        decreases end - j,
    {
        let e = j + span_of(nodes, j, end);
        let ghost before = out@;
        java_node(nodes, src, j, end, out);
        java_tree(nodes, src, j + 1, e, out);
        assert(before + java_walk(ns, src@, j as int, end as int) =~= out@ + java_walk(
            ns,
            src@,
            e as int,
            end as int,
        ));
        j = e;
    }
    assert(out@ + java_walk(ns, src@, j as int, end as int) =~= out@);
}

/// The declaration tokens of a whole tree of `language`, in preorder.
pub fn classify_tree(nodes: &Vec<FlatNode>, src: &[u8], language: Language) -> (r: Vec<RawToken>)
    ensures
        r@ == cst_tokens(flat_models(nodes@), src@, language),
{
    let mut out: Vec<RawToken> = Vec::new();
    match language {
        Language::Kotlin => kotlin_tree(nodes, src, 0, nodes.len(), false, &mut out),
        Language::Java => java_tree(nodes, src, 0, nodes.len(), &mut out),
        Language::Swift => {},
    }
    assert(out@ =~= cst_tokens(flat_models(nodes@), src@, language));
    out
}

// ─── Responses ──────────────────────────────────────────────────────────────

/// The semantic-token response for a parsed tree: its declaration tokens,
/// ordered by position with the first token kept at each position, limited to
/// the lines of `range` when one is given, and delta-encoded.
pub fn tokens_from_nodes(nodes: &Vec<FlatNode>, src: &[u8], language: Language, range: Option<Range>) -> (r: Vec<SemanticToken>)
    ensures
        r@ == encode(restrict(canonical(cst_tokens(flat_models(nodes@), src@, language)), range)),
        is_sorted(restrict(canonical(cst_tokens(flat_models(nodes@), src@, language)), range)),
{
    let raw = classify_tree(nodes, src, language);
    finish_tokens(&raw, range)
}

/// The declaration tokens of the source text `text` of `language`: none for
/// Swift, and `None` when the parser gives no tree.
pub open spec fn cst_raw(text: Seq<char>, language: Language) -> Option<Seq<RawToken>> {
    match language {
        Language::Swift => Some(seq![]),
        _ => match syntax_of(text, language) {
            Some(ns) => Some(cst_tokens(ns, encode_utf8(text), language)),
            None => None,
        },
    }
}

/// The semantic-token response for the source text `text`.
pub open spec fn cst_response(text: Seq<char>, language: Language, range: Option<Range>) -> Option<Seq<SemanticToken>> {
    match cst_raw(text, language) {
        Some(raw) => Some(encode(restrict(canonical(raw), range))),
        None => None,
    }
}

/// The values of an optional token vector.
pub open spec fn token_option(o: Option<Vec<SemanticToken>>) -> Option<Seq<SemanticToken>> {
    match o {
        Some(v) => Some(v@),
        None => None,
    }
}

/// Collects the declaration tokens of `text`, limited to the lines of
/// `range` when one is given, delta-encoded; `None` when the text cannot be
/// parsed.
pub fn collect_tokens(text: &str, language: Language, range: Option<Range>) -> (r: Option<Vec<SemanticToken>>)
    ensures
        token_option(r) == cst_response(text@, language, range),
        r is Some ==> is_sorted(restrict(canonical(cst_raw(text@, language)->Some_0), range)),
{
    match language {
        Language::Swift => {
            let none: Vec<RawToken> = Vec::new();
            assert(none@ =~= seq![]);
            Some(finish_tokens(&none, range))
        },
        _ => match parse_nodes(text, language) {
            Some(nodes) => {
                let src = text.as_bytes();
                assert(src@ == encode_utf8(text@));
                Some(tokens_from_nodes(&nodes, src, language, range))
            },
            None => None,
        },
    }
}

/// The tokens of the whole document.
pub fn full_tokens_cst_only(text: &str, language: Language) -> (r: Option<Vec<SemanticToken>>)
    ensures
        token_option(r) == cst_response(text@, language, None),
        r is Some ==> is_sorted(restrict(canonical(cst_raw(text@, language)->Some_0), None)),
{
    collect_tokens(text, language, None)
}

/// The tokens on the lines of `range`.
pub fn range_tokens_cst_only(text: &str, language: Language, range: &Range) -> (r: Option<Vec<SemanticToken>>)
    ensures
        token_option(r) == cst_response(text@, language, Some(*range)),
{
    collect_tokens(text, language, Some(*range))
}

/// A token at an absolute position, as `(line, column, length, type, modifiers)`.
pub open spec fn as_tuple(t: RawToken) -> (u32, u32, u32, u32, u32) {
    (t.line, t.col, t.length, t.token_type, t.token_modifiers_bitset)
}

/// The tokens of the whole document at absolute positions, as tuples.
pub open spec fn decoded_tuples(text: Seq<char>, language: Language) -> Option<Seq<(u32, u32, u32, u32, u32)>> {
    match cst_raw(text, language) {
        Some(raw) => Some(restrict(canonical(raw), None).map_values(|t: RawToken| as_tuple(t))),
        None => None,
    }
}

/// Decodes the token stream of the whole document back to absolute
/// positions: `(line, column, length, type, modifiers)` for each token.
pub fn decode_all(text: &str, language: Language) -> (r: Option<Vec<(u32, u32, u32, u32, u32)>>)
    ensures
        match r {
            Some(v) => decoded_tuples(text@, language) == Some(v@),
            None => decoded_tuples(text@, language) is None,
        },
{
    match full_tokens_cst_only(text, language) {
        None => None,
        Some(encoded) => {
            let ghost raw = cst_raw(text@, language)->Some_0;
            let ghost kept = restrict(canonical(raw), None);
            proof {
                law_decode_encode(kept);
            }
            let decoded = delta_decode(&encoded);
            let mut out: Vec<(u32, u32, u32, u32, u32)> = Vec::new();
            let mut i: usize = 0;
            while i < decoded.len()
                invariant
                    i <= decoded@.len(),
                    decoded@ == kept,
                    out@ =~= kept.take(i as int).map_values(|t: RawToken| as_tuple(t)),
                decreases decoded@.len() - i,
            {
                let t = decoded[i];
                out.push((t.line, t.col, t.length, t.token_type, t.token_modifiers_bitset));
                assert(kept.take(i + 1).map_values(|t: RawToken| as_tuple(t)) =~= kept.take(
                    i as int,
                ).map_values(|t: RawToken| as_tuple(t)).push(as_tuple(t)));
                i = i + 1;
            }
            assert(kept.take(i as int) =~= kept);
            Some(out)
        },
    }
}

/// Whether some token lies at `line`:`col` with type `token_type`.
pub open spec fn token_present(tokens: Seq<(u32, u32, u32, u32, u32)>, line: u32, col: u32, token_type: u32) -> bool {
    exists|i: int|
        0 <= i < tokens.len() && (#[trigger] tokens[i]).0 == line && tokens[i].1 == col
            && tokens[i].3 == token_type
}

/// Checks that some token lies at `line`:`col` with type `token_type`; the
/// error names the expected token by `label`.
pub fn assert_token_at(
    tokens: &Vec<(u32, u32, u32, u32, u32)>,
    line: u32,
    col: u32,
    token_type: u32,
    label: &str,
) -> (r: Result<(), String>)
    ensures
        r is Ok <==> token_present(tokens@, line, col, token_type),
        r matches Err(m) ==> m@ == "expected "@ + label@ + " token"@,
{
    let mut i: usize = 0;
    while i < tokens.len()
        invariant
            i <= tokens@.len(),
            forall|k: int|
                0 <= k < i ==> !((#[trigger] tokens@[k]).0 == line && tokens@[k].1 == col
                    && tokens@[k].3 == token_type),
        decreases tokens@.len() - i,
    {
        let t = tokens[i];
        if t.0 == line && t.1 == col && t.3 == token_type {
            return Ok(());
        }
        i = i + 1;
    }
    let mut msg = str_chars("expected ");
    let mut rest = str_chars(label);
    msg.append(&mut rest);
    let mut tail = str_chars(" token");
    msg.append(&mut tail);
    Err(chars_to_string(msg.as_slice()))
}

} // verus!
