//! Reference-site semantic tokens: identifiers that are not declarations,
//! colored by what the symbol index says they name (types, calls, object
//! receivers, annotations and enum entries).
use crate::classify::{
    push_token, cst_tokens, token_at, opt_token, token_in, lemma_token_in_widen, lemma_opt_token_in, classify_tree, token_option, push_opt, declaration_token,
    law_cst_tokens_in_legend,
};
use crate::encoding::{
    RawToken, SemanticToken, Range, encode, restrict, canonical, finish_tokens, key, has_key,
    first_occurrence, is_first, law_canonical, decode, law_response,
};
use crate::index::{
    SymbolIndex, IndexModel, KindFilter, Query, SymbolQuery, resolve, file_in, first_match,
    receiver_member_type, member_token_type_for_receiver,
    resolve_symbol_kind, };
use crate::legend::{TokenType, TokenModifier, bit, type_id, token_type_name, symbol_kind_name, SYMBOL_METHOD, SYMBOL_FUNCTION, modifier_bit, symbol_type_of, symbol_kind_to_token_type, call_symbol_kind_to_token_type, SYMBOL_CLASS, SYMBOL_STRUCT};
use crate::syntax::{
    FlatNode, FlatModel, Language, flat_models, span, nonempty, child_end, node_text, span_of, kind_is,
    text_of, as_index, syntax_of, parse_nodes, first_of_kind, find_kind, lemma_first_of_kind_in,
};
use crate::text::chars_to_string;
use crate::cli::text_is;
use crate::gradle::string_views;
use vstd::prelude::*;
use vstd::utf8::encode_utf8;

verus! {

/// The first named node among the subtrees of `[from, end)`.
pub open spec fn first_named(ns: Seq<FlatModel>, from: int, end: int) -> Option<int>
    decreases end - from,
{
    if nonempty(ns, from, end) {
        if ns[from].named {
            Some(from)
        } else {
            first_named(ns, from + span(ns, from, end), end)
        }
    } else {
        None
    }
}

/// The kind of an ancestor given as (index, end of its window); nothing for none.
pub open spec fn kind_of(ns: Seq<FlatModel>, a: Option<(int, int)>) -> Seq<char> {
    match a {
        Some((i, _)) => ns[i].kind,
        None => seq![],
    }
}

/// Whether node `j` is the first named child of the ancestor `a`.
pub open spec fn first_named_child_is(ns: Seq<FlatModel>, a: Option<(int, int)>, j: int) -> bool {
    match a {
        Some((i, e)) => first_named(ns, i + 1, child_end(ns, i, e)) == Some(j),
        None => false,
    }
}

/// Whether identifier `j`, whose parent is `p`, is the name that a
/// declaration declares.
pub open spec fn declaration_site(ns: Seq<FlatModel>, j: int, p: Option<(int, int)>) -> bool {
    let k = ns[j].kind;
    let pk = kind_of(ns, p);
    if pk == "class_declaration"@ || pk == "object_declaration"@ || pk == "companion_object"@ || pk
        == "type_alias"@ {
        k == "type_identifier"@
    } else if pk == "function_declaration"@ || pk == "parameter"@ || pk == "enum_entry"@ || pk
        == "variable_declaration"@ || pk == "class_parameter"@ {
        k == "simple_identifier"@
    } else if pk == "type_parameter"@ {
        k == "simple_identifier"@ || k == "type_identifier"@
    } else {
        false
    }
}

/// Whether an identifier with parent `p` and grandparent `g` names the type
/// of an annotation.
pub open spec fn annotation_reference(ns: Seq<FlatModel>, p: Option<(int, int)>, g: Option<(int, int)>) -> bool {
    kind_of(ns, p) == "user_type"@ && (kind_of(ns, g) == "annotation"@ || kind_of(ns, g) == "multi_annotation"@)
}

/// Whether an identifier with parent `p` stands where a type is named.
pub open spec fn type_reference(ns: Seq<FlatModel>, p: Option<(int, int)>) -> bool {
    let pk = kind_of(ns, p);
    pk == "user_type"@ || pk == "function_declaration"@ || pk == "property_declaration"@ || pk
        == "class_parameter"@
}

/// The token type of the entry `j` of an enum named by the receiver of a
/// navigation (`Color.RED`), when the index records that enum and entry.
pub open spec fn enum_entry_reference(
    ns: Seq<FlatModel>,
    src: Seq<u8>,
    idx: IndexModel,
    j: int,
    p: Option<(int, int)>,
    g: Option<(int, int)>,
) -> Option<TokenType> {
    if kind_of(ns, p) == "navigation_suffix"@ && kind_of(ns, g) == "navigation_expression"@ {
        match g {
            Some((gi, ge)) => match first_named(ns, gi + 1, child_end(ns, gi, ge)) {
                Some(r) => match resolve(idx, node_text(src, ns[r]), KindFilter::Enum) {
                    Some(res) => match file_in(idx.files, res.uri) {
                        Some(f) => if first_match(f.symbols, Query::EnumMemberIn(node_text(src, ns[j]), res.range)) is Some {
                            Some(TokenType::EnumMember)
                        } else {
                            None
                        },
                        None => None,
                    },
                    None => None,
                },
                None => None,
            },
            None => None,
        }
    } else {
        None
    }
}

/// The token type of a call whose callee resolves to a symbol of this kind.
pub open spec fn call_type_of(kind: i32) -> Option<TokenType> {
    if kind == SYMBOL_CLASS || kind == SYMBOL_STRUCT {
        Some(TokenType::Class)
    } else {
        symbol_type_of(kind)
    }
}

/// The token type of the identifier at `j` (parent `p`, grandparent `g`) as
/// a reference: none for other nodes and for declaration names; a type name
/// that the index does not know is taken for a class.
pub open spec fn reference_type(
    ns: Seq<FlatModel>,
    src: Seq<u8>,
    idx: IndexModel,
    j: int,
    p: Option<(int, int)>,
    g: Option<(int, int)>,
) -> Option<TokenType> {
    let k = ns[j].kind;
    let text = node_text(src, ns[j]);
    if !(k == "simple_identifier"@ || k == "type_identifier"@) || declaration_site(ns, j, p) {
        None
    } else if annotation_reference(ns, p, g) {
        match resolve(idx, text, KindFilter::Any) {
            Some(_) => Some(TokenType::Decorator),
            None => None,
        }
    } else if enum_entry_reference(ns, src, idx, j, p, g) is Some {
        enum_entry_reference(ns, src, idx, j, p, g)
    } else if k == "type_identifier"@ && type_reference(ns, p) {
        match resolve(idx, text, KindFilter::Type) {
            Some(r) => symbol_type_of(r.kind),
            None => Some(TokenType::Class),
        }
    } else if kind_of(ns, p) == "call_expression"@ && first_named_child_is(ns, p, j) {
        match resolve(idx, text, KindFilter::Callable) {
            Some(r) => call_type_of(r.kind),
            None => None,
        }
    } else if kind_of(ns, p) == "navigation_expression"@ && first_named_child_is(ns, p, j) {
        match resolve(idx, text, KindFilter::Object) {
            Some(_) => Some(TokenType::Namespace),
            None => None,
        }
    } else {
        None
    }
}

/// Law: the callee name of a call is colored after the kind of symbol it
/// resolves to: a method as the legend's `method`, a function as its
/// `function`, and a class or struct (a constructor call) as its `class`.
pub proof fn law_call_colored_like_callee(
    ns: Seq<FlatModel>,
    src: Seq<u8>,
    idx: IndexModel,
    j: int,
    p: Option<(int, int)>,
    g: Option<(int, int)>,
)
    requires
        0 <= j < ns.len(),
        ns[j].kind == "simple_identifier"@,
        !declaration_site(ns, j, p),
        !annotation_reference(ns, p, g),
        enum_entry_reference(ns, src, idx, j, p, g) is None,
        kind_of(ns, p) == "call_expression"@,
        first_named_child_is(ns, p, j),
    ensures
        resolve(idx, node_text(src, ns[j]), KindFilter::Callable) matches Some(r) ==> ((r.kind
            == SYMBOL_METHOD || r.kind == SYMBOL_FUNCTION) ==> (reference_type(ns, src, idx, j, p, g) matches Some(
            t,
        ) && token_type_name(t) == symbol_kind_name(r.kind))),
        resolve(idx, node_text(src, ns[j]), KindFilter::Callable) matches Some(r) ==> ((r.kind
            == SYMBOL_CLASS || r.kind == SYMBOL_STRUCT) ==> (reference_type(ns, src, idx, j, p, g) matches Some(
            t,
        ) && token_type_name(t) == symbol_kind_name(SYMBOL_CLASS))),
{
    reveal_strlit("simple_identifier");
    reveal_strlit("type_identifier");
    assert("simple_identifier"@[0] != "type_identifier"@[0]);
}

/// The reference tokens of the subtrees of `[from, end)`, whose parent is `p`
/// and grandparent `g`, in preorder.
pub open spec fn reference_walk(
    ns: Seq<FlatModel>,
    src: Seq<u8>,
    idx: IndexModel,
    from: int,
    end: int,
    p: Option<(int, int)>,
    g: Option<(int, int)>,
) -> Seq<RawToken>
    decreases end - from,
{
    if nonempty(ns, from, end) {
        let e = child_end(ns, from, end);
        let own = match reference_type(ns, src, idx, from, p, g) {
            Some(t) => token_at(ns, src, from, t, 0),
            None => seq![],
        };
        own + reference_walk(ns, src, idx, from + 1, e, Some((from, end)), p) + reference_walk(
            ns,
            src,
            idx,
            e,
            end,
            p,
            g,
        )
    } else {
        seq![]
    }
}

/// The reference tokens of a whole tree: Kotlin trees only.
pub open spec fn reference_tokens(ns: Seq<FlatModel>, src: Seq<u8>, idx: IndexModel, language: Language) -> Seq<RawToken> {
    match language {
        Language::Kotlin => reference_walk(ns, src, idx, 0, ns.len() as int, None, None),
        _ => seq![],
    }
}

/// Tokens for the parameters that the `variable_declaration` subtrees of
/// `[from, end)` declare (the children of a lambda's parameter list).
pub open spec fn lambda_param_decls(ns: Seq<FlatModel>, src: Seq<u8>, from: int, end: int) -> Seq<RawToken>
    decreases end - from,
{
    if nonempty(ns, from, end) {
        let e = child_end(ns, from, end);
        (if ns[from].kind == "variable_declaration"@ {
            opt_token(
                ns,
                src,
                first_of_kind(ns, from + 1, e, "simple_identifier"@),
                TokenType::Parameter,
                bit(TokenModifier::Declaration),
            )
        } else {
            seq![]
        }) + lambda_param_decls(ns, src, e, end)
    } else {
        seq![]
    }
}

/// The lambda-parameter declaration tokens of the subtrees of `[from, end)`,
/// in preorder: each `lambda_literal` declares the names of the
/// `variable_declaration`s of its `lambda_parameters`.
pub open spec fn lambda_walk(ns: Seq<FlatModel>, src: Seq<u8>, from: int, end: int) -> Seq<RawToken>
    decreases end - from,
{
    if nonempty(ns, from, end) {
        let e = child_end(ns, from, end);
        let own = if ns[from].kind == "lambda_literal"@ {
            match first_of_kind(ns, from + 1, e, "lambda_parameters"@) {
                Some(lp) => lambda_param_decls(ns, src, lp + 1, child_end(ns, lp, e)),
                None => seq![],
            }
        } else {
            seq![]
        };
        own + lambda_walk(ns, src, from + 1, e) + lambda_walk(ns, src, e, end)
    } else {
        seq![]
    }
}

/// The lambda-parameter declaration tokens of a whole tree: Kotlin trees only.
pub open spec fn lambda_tokens(ns: Seq<FlatModel>, src: Seq<u8>, language: Language) -> Seq<RawToken> {
    match language {
        Language::Kotlin => lambda_walk(ns, src, 0, ns.len() as int),
        _ => seq![],
    }
}

/// The soft keywords colored as keywords: `is`, `as`, `in`, `by`, `constructor`.
pub open spec fn is_keyword_kind(k: Seq<char>) -> bool {
    k == "is"@ || k == "as"@ || k == "in"@ || k == "by"@ || k == "constructor"@
}

/// The first `simple_identifier` or `type_identifier` among the subtrees of `[from, end)`.
pub open spec fn first_name(ns: Seq<FlatModel>, from: int, end: int) -> Option<int>
    decreases end - from,
{
    if nonempty(ns, from, end) {
        if ns[from].kind == "simple_identifier"@ || ns[from].kind == "type_identifier"@ {
            Some(from)
        } else {
            first_name(ns, from + span(ns, from, end), end)
        }
    } else {
        None
    }
}

/// The label of a named argument whose children are `[a, b)`: its first
/// `simple_identifier`, when an `=` follows it.
pub open spec fn argument_label(ns: Seq<FlatModel>, a: int, b: int) -> Option<int> {
    match first_of_kind(ns, a, b, "simple_identifier"@) {
        Some(l) => {
            let n = l + span(ns, l, b);
            if n < b && ns[n].kind == "="@ {
                Some(l)
            } else {
                None
            }
        },
        None => None,
    }
}

/// The member named by the callee of a call whose children are `[a, b)`,
/// when that callee is a navigation (`receiver.member(...)`): the name in its
/// `navigation_suffix`.
pub open spec fn callee_member(ns: Seq<FlatModel>, a: int, b: int) -> Option<int> {
    if nonempty(ns, a, b) && ns[a].kind == "navigation_expression"@ {
        let ce = child_end(ns, a, b);
        match first_of_kind(ns, a + 1, ce, "navigation_suffix"@) {
            Some(sfx) => first_name(ns, sfx + 1, child_end(ns, sfx, ce)),
            None => None,
        }
    } else {
        None
    }
}

/// The syntax tokens that node `i` (window ending at `end`) yields: a
/// keyword for the soft keywords `is`, `as`, `in`, `by` and `constructor`; a
/// parameter for the label of a named argument; a method for the member
/// called on a receiver whose type is not known here.
pub open spec fn mark_node_tokens(ns: Seq<FlatModel>, src: Seq<u8>, i: int, end: int) -> Seq<RawToken> {
    let k = ns[i].kind;
    let a = i + 1;
    let b = child_end(ns, i, end);
    if !ns[i].named && is_keyword_kind(k) {
        token_at(ns, src, i, TokenType::Keyword, 0)
    } else if k == "value_argument"@ {
        opt_token(ns, src, argument_label(ns, a, b), TokenType::Parameter, 0)
    } else if k == "call_expression"@ {
        opt_token(ns, src, callee_member(ns, a, b), TokenType::Method, 0)
    } else {
        seq![]
    }
}

/// The syntax tokens of the subtrees of `[from, end)`, in preorder.
pub open spec fn mark_walk(ns: Seq<FlatModel>, src: Seq<u8>, from: int, end: int) -> Seq<RawToken>
    decreases end - from,
{
    if nonempty(ns, from, end) {
        let e = child_end(ns, from, end);
        mark_node_tokens(ns, src, from, end) + mark_walk(ns, src, from + 1, e) + mark_walk(ns, src, e, end)
    } else {
        seq![]
    }
}

/// The syntax tokens of a whole tree: Kotlin trees only.
pub open spec fn mark_tokens(ns: Seq<FlatModel>, src: Seq<u8>, language: Language) -> Seq<RawToken> {
    match language {
        Language::Kotlin => mark_walk(ns, src, 0, ns.len() as int),
        _ => seq![],
    }
}

// ─── Executable walk ────────────────────────────────────────────────────────

/// An ancestor given as (index, end of its window), as the model sees it.
pub open spec fn ctx(a: Option<(usize, usize)>) -> Option<(int, int)> {
    match a {
        Some((i, e)) => Some((i as int, e as int)),
        None => None,
    }
}

/// An ancestor given as (index, end of its window) lies within the list.
pub open spec fn ctx_ok(a: Option<(usize, usize)>, len: nat) -> bool {
    match a {
        Some((i, e)) => i < e <= len,
        None => true,
    }
}

/// The first named node among the subtrees of `[from, end)`.
fn find_named(nodes: &Vec<FlatNode>, from: usize, end: usize) -> (r: Option<usize>)
    requires
        end <= nodes@.len(),
    ensures
        as_index(r) == first_named(flat_models(nodes@), from as int, end as int),
        r matches Some(j) ==> from <= j < end,
{
    let ghost ns = flat_models(nodes@);
    let mut j = from;
    while j < end
        invariant
            from <= j,
            end <= nodes@.len(),
            ns == flat_models(nodes@),
            first_named(ns, from as int, end as int) == first_named(ns, j as int, end as int),
        decreases end - j,
    {
        assert(ns[j as int].named == nodes@[j as int].named);
        if nodes[j].named {
            return Some(j);
        }
        j = j + span_of(nodes, j, end);
    }
    None
}

/// Whether the ancestor `a` is of kind `k`.
fn ctx_kind_is(nodes: &Vec<FlatNode>, a: Option<(usize, usize)>, k: &str) -> (r: bool)
    requires
        ctx_ok(a, nodes@.len()),
    ensures
        r == (a is Some && kind_of(flat_models(nodes@), ctx(a)) == k@),
{
    match a {
        Some((i, _)) => kind_is(nodes, i, k),
        None => false,
    }
}

/// Whether node `j` is the first named child of the ancestor `a`.
fn is_first_named_child(nodes: &Vec<FlatNode>, a: Option<(usize, usize)>, j: usize) -> (r: bool)
    requires
        ctx_ok(a, nodes@.len()),
    ensures
        r == first_named_child_is(flat_models(nodes@), ctx(a), j as int),
{
    match a {
        Some((i, e)) => {
            let ce = i + span_of(nodes, i, e);
            match find_named(nodes, i + 1, ce) {
                Some(f) => f == j,
                None => false,
            }
        },
        None => false,
    }
}

/// The characters of the node at `j`, as a `String`.
fn node_string(nodes: &Vec<FlatNode>, src: &[u8], j: usize) -> (r: String)
    requires
        j < nodes@.len(),
    ensures
        r@ == node_text(src@, flat_models(nodes@)[j as int]),
{
    let v = text_of(nodes, src, j);
    chars_to_string(v.as_slice())
}

/// Whether identifier `j`, whose parent is `p`, is the name that a
/// declaration declares.
fn is_declaration_site(nodes: &Vec<FlatNode>, j: usize, p: Option<(usize, usize)>) -> (r: bool)
    requires
        j < nodes@.len(),
        ctx_ok(p, nodes@.len()),
    ensures
        r == declaration_site(flat_models(nodes@), j as int, ctx(p)),
{
    let ghost ns = flat_models(nodes@);
    proof {
        if p is None {
            assert(kind_of(ns, ctx(p)) =~= Seq::<char>::empty());
            reveal_strlit("class_declaration");
            reveal_strlit("object_declaration");
            reveal_strlit("companion_object");
            reveal_strlit("type_alias");
            reveal_strlit("function_declaration");
            reveal_strlit("parameter");
            reveal_strlit("enum_entry");
            reveal_strlit("variable_declaration");
            reveal_strlit("class_parameter");
            reveal_strlit("type_parameter");
        }
    }
    if ctx_kind_is(nodes, p, "class_declaration") || ctx_kind_is(nodes, p, "object_declaration")
        || ctx_kind_is(nodes, p, "companion_object") || ctx_kind_is(nodes, p, "type_alias") {
        kind_is(nodes, j, "type_identifier")
    } else if ctx_kind_is(nodes, p, "function_declaration") || ctx_kind_is(nodes, p, "parameter")
        || ctx_kind_is(nodes, p, "enum_entry") || ctx_kind_is(nodes, p, "variable_declaration")
        || ctx_kind_is(nodes, p, "class_parameter") {
        kind_is(nodes, j, "simple_identifier")
    } else if ctx_kind_is(nodes, p, "type_parameter") {
        kind_is(nodes, j, "simple_identifier") || kind_is(nodes, j, "type_identifier")
    } else {
        false
    }
}

/// The token type of the entry `j` of an enum named by the receiver of a navigation.
fn enum_entry_reference_token(
    nodes: &Vec<FlatNode>,
    src: &[u8],
    index: &SymbolIndex,
    j: usize,
    p: Option<(usize, usize)>,
    g: Option<(usize, usize)>,
) -> (r: Option<TokenType>)
    requires
        j < nodes@.len(),
        ctx_ok(p, nodes@.len()),
        ctx_ok(g, nodes@.len()),
    ensures
        r == enum_entry_reference(flat_models(nodes@), src@, index@, j as int, ctx(p), ctx(g)),
{
    let ghost ns = flat_models(nodes@);
    proof {
        if p is None || g is None {
            reveal_strlit("navigation_suffix");
            reveal_strlit("navigation_expression");
            assert(kind_of(ns, None) =~= Seq::<char>::empty());
        }
    }
    if !(ctx_kind_is(nodes, p, "navigation_suffix") && ctx_kind_is(nodes, g, "navigation_expression")) {
        return None;
    }
    let (gi, ge) = match g {
        Some(x) => x,
        None => return None,
    };
    let ce = gi + span_of(nodes, gi, ge);
    let receiver = match find_named(nodes, gi + 1, ce) {
        Some(r) => r,
        None => return None,
    };
    let receiver_name = node_string(nodes, src, receiver);
    let resolved = match resolve_symbol_kind(receiver_name.as_str(), index, KindFilter::Enum) {
        Some(res) => res,
        None => return None,
    };
    let data = match index.file(resolved.uri.as_str()) {
        Some(f) => f,
        None => return None,
    };
    let name = node_string(nodes, src, j);
    let q = SymbolQuery::EnumMemberIn(name, resolved.range);
    if crate::index::find_symbol(data, &q).is_some() {
        Some(TokenType::EnumMember)
    } else {
        None
    }
}

/// The token type of the identifier at `j` as a reference.
fn classify_kotlin_reference(
    nodes: &Vec<FlatNode>,
    src: &[u8],
    index: &SymbolIndex,
    j: usize,
    p: Option<(usize, usize)>,
    g: Option<(usize, usize)>,
) -> (r: Option<TokenType>)
    requires
        j < nodes@.len(),
        ctx_ok(p, nodes@.len()),
        ctx_ok(g, nodes@.len()),
    ensures
        r == reference_type(flat_models(nodes@), src@, index@, j as int, ctx(p), ctx(g)),
{
    let ghost ns = flat_models(nodes@);
    proof {
        if p is None || g is None {
            assert(kind_of(ns, None) =~= Seq::<char>::empty());
            reveal_strlit("user_type");
            reveal_strlit("annotation");
            reveal_strlit("multi_annotation");
            reveal_strlit("function_declaration");
            reveal_strlit("property_declaration");
            reveal_strlit("class_parameter");
            reveal_strlit("call_expression");
            reveal_strlit("navigation_expression");
        }
    }
    let is_simple = kind_is(nodes, j, "simple_identifier");
    let is_type = kind_is(nodes, j, "type_identifier");
    if !(is_simple || is_type) || is_declaration_site(nodes, j, p) {
        return None;
    }
    let text = node_string(nodes, src, j);
    if ctx_kind_is(nodes, p, "user_type") && (ctx_kind_is(nodes, g, "annotation") || ctx_kind_is(
        nodes,
        g,
        "multi_annotation",
    )) {
        return match resolve_symbol_kind(text.as_str(), index, KindFilter::Any) {
            Some(_) => Some(TokenType::Decorator),
            None => None,
        };
    }
    let entry = enum_entry_reference_token(nodes, src, index, j, p, g);
    if entry.is_some() {
        return entry;
    }
    if is_type && (ctx_kind_is(nodes, p, "user_type") || ctx_kind_is(nodes, p, "function_declaration")
        || ctx_kind_is(nodes, p, "property_declaration") || ctx_kind_is(nodes, p, "class_parameter")) {
        return match resolve_symbol_kind(text.as_str(), index, KindFilter::Type) {
            Some(res) => symbol_kind_to_token_type(res.kind),
            None => Some(TokenType::Class),
        };
    }
    if ctx_kind_is(nodes, p, "call_expression") && is_first_named_child(nodes, p, j) {
        return match resolve_symbol_kind(text.as_str(), index, KindFilter::Callable) {
            Some(res) => call_symbol_kind_to_token_type(res.kind),
            None => None,
        };
    }
    if ctx_kind_is(nodes, p, "navigation_expression") && is_first_named_child(nodes, p, j) {
        return match resolve_symbol_kind(text.as_str(), index, KindFilter::Object) {
            Some(_) => Some(TokenType::Namespace),
            None => None,
        };
    }
    None
}

/// Appends the reference tokens of the subtrees of `[from, end)`, in preorder.
fn walk_kotlin_references(
    nodes: &Vec<FlatNode>,
    src: &[u8],
    index: &SymbolIndex,
    from: usize,
    end: usize,
    p: Option<(usize, usize)>,
    g: Option<(usize, usize)>,
    out: &mut Vec<RawToken>,
)
    requires
        end <= nodes@.len(),
        ctx_ok(p, nodes@.len()),
        ctx_ok(g, nodes@.len()),
    ensures
        final(out)@ == old(out)@ + reference_walk(flat_models(nodes@), src@, index@, from as int, end as int, ctx(p), ctx(g)),
    decreases end - from,
{
    let ghost ns = flat_models(nodes@);
    let ghost start = out@;
    let mut j = from;
    while j < end
        invariant
            from <= j,
            end <= nodes@.len(),
            ns == flat_models(nodes@),
            ctx_ok(p, nodes@.len()),
            ctx_ok(g, nodes@.len()),
            out@ + reference_walk(ns, src@, index@, j as int, end as int, ctx(p), ctx(g)) == start
                + reference_walk(ns, src@, index@, from as int, end as int, ctx(p), ctx(g)),
        decreases end - j,
    {
        let e = j + span_of(nodes, j, end);
        let ghost before = out@;
        match classify_kotlin_reference(nodes, src, index, j, p, g) {
            Some(t) => crate::classify::push_token(nodes, src, j, t, 0, out),
            None => {
                assert(out@ + seq![] =~= out@);
            },
        }
        walk_kotlin_references(nodes, src, index, j + 1, e, Some((j, end)), p, out);
        assert(ctx(Some((j, end))) == Some((j as int, end as int)));
        assert(before + reference_walk(ns, src@, index@, j as int, end as int, ctx(p), ctx(g)) =~= out@
            + reference_walk(ns, src@, index@, e as int, end as int, ctx(p), ctx(g)));
        j = e;
    }
    assert(out@ + reference_walk(ns, src@, index@, j as int, end as int, ctx(p), ctx(g)) =~= out@);
}

/// The first `simple_identifier` or `type_identifier` among the subtrees of `[from, end)`.
fn find_name(nodes: &Vec<FlatNode>, from: usize, end: usize) -> (r: Option<usize>)
    requires
        end <= nodes@.len(),
    ensures
        as_index(r) == first_name(flat_models(nodes@), from as int, end as int),
        r matches Some(j) ==> from <= j < end,
{
    let ghost ns = flat_models(nodes@);
    let mut j = from;
    while j < end
        invariant
            from <= j,
            end <= nodes@.len(),
            ns == flat_models(nodes@),
            first_name(ns, from as int, end as int) == first_name(ns, j as int, end as int),
        decreases end - j,
    {
        if kind_is(nodes, j, "simple_identifier") || kind_is(nodes, j, "type_identifier") {
            return Some(j);
        }
        j = j + span_of(nodes, j, end);
    }
    None
}

/// Appends the syntax tokens that node `i` yields.
fn mark_node(nodes: &Vec<FlatNode>, src: &[u8], i: usize, end: usize, out: &mut Vec<RawToken>)
    requires
        i < end <= nodes@.len(),
    ensures
        final(out)@ == old(out)@ + mark_node_tokens(flat_models(nodes@), src@, i as int, end as int),
{
    let ghost ns = flat_models(nodes@);
    let a = i + 1;
    let b = i + span_of(nodes, i, end);
    assert(ns[i as int].named == nodes@[i as int].named);
    let keyword = kind_is(nodes, i, "is") || kind_is(nodes, i, "as") || kind_is(nodes, i, "in") || kind_is(
        nodes,
        i,
        "by",
    ) || kind_is(nodes, i, "constructor");
    if !nodes[i].named && keyword {
        push_token(nodes, src, i, TokenType::Keyword, 0, out);
    } else if kind_is(nodes, i, "value_argument") {
        let label = match find_kind(nodes, a, b, "simple_identifier") {
            Some(l) => {
                let n = l + span_of(nodes, l, b);
                if n < b && kind_is(nodes, n, "=") {
                    Some(l)
                } else {
                    None
                }
            },
            None => None,
        };
        push_opt(nodes, src, label, TokenType::Parameter, 0, out);
    } else if kind_is(nodes, i, "call_expression") {
        let member = if a < b && kind_is(nodes, a, "navigation_expression") {
            let ce = a + span_of(nodes, a, b);
            match find_kind(nodes, a + 1, ce, "navigation_suffix") {
                Some(sfx) => {
                    let se = sfx + span_of(nodes, sfx, ce);
                    find_name(nodes, sfx + 1, se)
                },
                None => None,
            }
        } else {
            None
        };
        push_opt(nodes, src, member, TokenType::Method, 0, out);
    } else {
        assert(out@ + seq![] =~= out@);
    }
}

/// Appends the syntax tokens of the subtrees of `[from, end)`, in preorder.
fn walk_marks(nodes: &Vec<FlatNode>, src: &[u8], from: usize, end: usize, out: &mut Vec<RawToken>)
    requires
        end <= nodes@.len(),
    ensures
        final(out)@ == old(out)@ + mark_walk(flat_models(nodes@), src@, from as int, end as int),
    decreases end - from,
{
    let ghost ns = flat_models(nodes@);
    let ghost start = out@;
    let mut j = from;
    while j < end
        invariant
            from <= j,
            end <= nodes@.len(),
            ns == flat_models(nodes@),
            out@ + mark_walk(ns, src@, j as int, end as int) == start + mark_walk(
                ns,
                src@,
                from as int,
                end as int,
            ),
        decreases end - j,
    {
        let e = j + span_of(nodes, j, end);
        let ghost before = out@;
        mark_node(nodes, src, j, end, out);
        walk_marks(nodes, src, j + 1, e, out);
        assert(before + mark_walk(ns, src@, j as int, end as int) =~= out@ + mark_walk(
            ns,
            src@,
            e as int,
            end as int,
        ));
        j = e;
    }
    assert(out@ + mark_walk(ns, src@, j as int, end as int) =~= out@);
}

/// Appends the parameter declarations of the `variable_declaration` subtrees of `[from, end)`.
fn push_lambda_param_decls(nodes: &Vec<FlatNode>, src: &[u8], from: usize, end: usize, out: &mut Vec<RawToken>)
    requires
        end <= nodes@.len(),
    ensures
        final(out)@ == old(out)@ + lambda_param_decls(flat_models(nodes@), src@, from as int, end as int),
{
    let ghost ns = flat_models(nodes@);
    let ghost start = out@;
    let decl = modifier_bit(TokenModifier::Declaration);
    let mut j = from;
    while j < end
        invariant
            from <= j,
            end <= nodes@.len(),
            ns == flat_models(nodes@),
            decl == bit(TokenModifier::Declaration),
            out@ + lambda_param_decls(ns, src@, j as int, end as int) == start + lambda_param_decls(
                ns,
                src@,
                from as int,
                end as int,
            ),
        decreases end - j,
    {
        let e = j + span_of(nodes, j, end);
        let ghost before = out@;
        if kind_is(nodes, j, "variable_declaration") {
            push_opt(nodes, src, find_kind(nodes, j + 1, e, "simple_identifier"), TokenType::Parameter, decl, out);
        } else {
            assert(out@ + seq![] =~= out@);
        }
        assert(before + lambda_param_decls(ns, src@, j as int, end as int) =~= out@ + lambda_param_decls(
            ns,
            src@,
            e as int,
            end as int,
        ));
        j = e;
    }
    assert(out@ + lambda_param_decls(ns, src@, j as int, end as int) =~= out@);
}

/// Appends the lambda-parameter declaration tokens of the subtrees of `[from, end)`.
fn walk_lambdas(nodes: &Vec<FlatNode>, src: &[u8], from: usize, end: usize, out: &mut Vec<RawToken>)
    requires
        end <= nodes@.len(),
    ensures
        final(out)@ == old(out)@ + lambda_walk(flat_models(nodes@), src@, from as int, end as int),
    decreases end - from,
{
    let ghost ns = flat_models(nodes@);
    let ghost start = out@;
    let mut j = from;
    while j < end
        invariant
            from <= j,
            end <= nodes@.len(),
            ns == flat_models(nodes@),
            out@ + lambda_walk(ns, src@, j as int, end as int) == start + lambda_walk(
                ns,
                src@,
                from as int,
                end as int,
            ),
        decreases end - j,
    {
        let e = j + span_of(nodes, j, end);
        let ghost before = out@;
        if kind_is(nodes, j, "lambda_literal") {
            match find_kind(nodes, j + 1, e, "lambda_parameters") {
                Some(lp) => {
                    let le = lp + span_of(nodes, lp, e);
                    push_lambda_param_decls(nodes, src, lp + 1, le, out);
                },
                None => {
                    assert(out@ + seq![] =~= out@);
                },
            }
        } else {
            assert(out@ + seq![] =~= out@);
        }
        walk_lambdas(nodes, src, j + 1, e, out);
        assert(before + lambda_walk(ns, src@, j as int, end as int) =~= out@ + lambda_walk(
            ns,
            src@,
            e as int,
            end as int,
        ));
        j = e;
    }
    assert(out@ + lambda_walk(ns, src@, j as int, end as int) =~= out@);
}

/// The tokens of a tree with its references resolved against `index`:
/// declaration tokens first, then reference tokens, then syntax tokens
/// (soft keywords, named-argument labels, members called on receivers), then
/// the parameters that lambdas declare (all three Kotlin only), ordered by
/// position with the first token kept at each position (so a declaration
/// wins over a reference), limited to the lines of `range`, delta-encoded.
pub fn tokens_with_references(
    nodes: &Vec<FlatNode>,
    src: &[u8],
    language: Language,
    index: &SymbolIndex,
    range: Option<Range>,
) -> (r: Vec<SemanticToken>)
    ensures
        r@ == encode(
            restrict(
                canonical(
                    cst_tokens(flat_models(nodes@), src@, language) + reference_tokens(
                        flat_models(nodes@),
                        src@,
                        index@,
                        language,
                    ) + mark_tokens(flat_models(nodes@), src@, language) + lambda_tokens(
                        flat_models(nodes@),
                        src@,
                        language,
                    ),
                ),
                range,
            ),
        ),
{
    let mut raw = classify_tree(nodes, src, language);
    let ghost decl = raw@;
    match language {
        Language::Kotlin => {
            walk_kotlin_references(nodes, src, index, 0, nodes.len(), None, None, &mut raw);
            walk_marks(nodes, src, 0, nodes.len(), &mut raw);
            walk_lambdas(nodes, src, 0, nodes.len(), &mut raw);
        },
        _ => {
            assert(raw@ =~= decl + Seq::<RawToken>::empty() + Seq::<RawToken>::empty() + Seq::<RawToken>::empty());
        },
    }
    finish_tokens(&raw, range)
}

/// The classified tokens of the source text `text` with references
/// resolved against `idx`: declarations first, then references, then syntax
/// tokens, then lambda parameter declarations; none for Swift, `None` when
/// the parser gives no tree.
pub open spec fn indexed_raw(text: Seq<char>, language: Language, idx: IndexModel) -> Option<Seq<RawToken>> {
    match language {
        Language::Swift => Some(seq![]),
        _ => match syntax_of(text, language) {
            Some(ns) => Some(
                cst_tokens(ns, encode_utf8(text), language) + reference_tokens(ns, encode_utf8(text), idx, language)
                    + mark_tokens(ns, encode_utf8(text), language) + lambda_tokens(ns, encode_utf8(text), language),
            ),
            None => None,
        },
    }
}

/// The semantic-token response for `text` with references resolved against `idx`.
pub open spec fn indexed_response(text: Seq<char>, language: Language, idx: IndexModel, range: Option<Range>) -> Option<Seq<SemanticToken>> {
    match indexed_raw(text, language, idx) {
        Some(raw) => Some(encode(restrict(canonical(raw), range))),
        None => None,
    }
}

/// Collects the tokens of `text` with references resolved against `index`,
/// limited to the lines of `range` when one is given; `None` when the text
/// cannot be parsed.  A member called on a receiver is colored as a method
/// (the receiver's type is not inferred here, so a property read on it gets
/// no token), and the uses of lambda parameters (`it`, `this`, named ones)
/// are not colored.
pub fn collect_tokens_with_index(text: &str, language: Language, index: &SymbolIndex, range: Option<Range>) -> (r: Option<Vec<SemanticToken>>)
    ensures
        token_option(r) == indexed_response(text@, language, index@, range),
{
    match language {
        Language::Swift => {
            let none: Vec<RawToken> = Vec::new();
            assert(none@ =~= seq![]);
            Some(finish_tokens(&none, range))
        },
        _ => match parse_nodes(text, language) {
            Some(nodes) => {
                let src = text.as_bytes();
                assert(src@ == encode_utf8(text@));
                Some(tokens_with_references(&nodes, src, language, index, range))
            },
            None => None,
        },
    }
}

/// The tokens of the whole document, with references resolved against `index`.
pub fn full_tokens(index: &SymbolIndex, text: &str, language: Language) -> (r: Option<Vec<SemanticToken>>)
    ensures
        token_option(r) == indexed_response(text@, language, index@, None),
{
    collect_tokens_with_index(text, language, index, None)
}

/// The tokens on the lines of `range`, with references resolved against `index`.
pub fn range_tokens(index: &SymbolIndex, text: &str, language: Language, range: &Range) -> (r: Option<Vec<SemanticToken>>)
    ensures
        token_option(r) == indexed_response(text@, language, index@, Some(*range)),
{
    collect_tokens_with_index(text, language, index, Some(*range))
}

/// The first token of `decl + refs` at a position that `decl` holds is the
/// first token of `decl` there.
proof fn lemma_first_in_prefix(decl: Seq<RawToken>, refs: Seq<RawToken>, t: RawToken)
    requires
        first_occurrence(decl + refs, t, (decl + refs).len() as int),
        has_key(decl, key(t)),
    ensures
        first_occurrence(decl, t, decl.len() as int),
{
    let raw = decl + refs;
    let j = choose|j: int| 0 <= j < raw.len() && raw[j] == t && is_first(raw, j);
    let q = choose|q: int| 0 <= q < decl.len() && key(#[trigger] decl[q]) == key(t);
    assert(raw[q] == decl[q]);
    if j > q {
        assert(key(raw[q]) != key(raw[j]));
    }
    assert(raw[j] == decl[j]);
    assert forall|m: int| 0 <= m < j implies key(#[trigger] decl[m]) != key(decl[j]) by {
        assert(raw[m] == decl[m]);
        assert(key(raw[m]) != key(raw[j]));
    }
}

/// Law: where a declaration token and a reference token share a position,
/// the response keeps the declaration: every kept token at a position that
/// some declaration token holds is the first declaration token there.
pub proof fn law_declarations_take_priority(decl: Seq<RawToken>, refs: Seq<RawToken>)
    ensures
        forall|k: int|
            0 <= k < canonical(decl + refs).len() && has_key(decl, key(#[trigger] canonical(decl + refs)[k]))
                ==> first_occurrence(decl, canonical(decl + refs)[k], decl.len() as int),
{
    let raw = decl + refs;
    law_canonical(raw);
    let c = canonical(raw);
    assert forall|k: int|
        0 <= k < c.len() && has_key(decl, key(#[trigger] c[k])) implies first_occurrence(
        decl,
        c[k],
        decl.len() as int,
    ) by {
        assert(first_occurrence(raw, c[k], raw.len() as int));
        lemma_first_in_prefix(decl, refs, c[k]);
    }
}

/// Law: in the response with references resolved, a position that the syntax
/// classification colors keeps that color: each token of the decoded response
/// at a position where the syntax classification has a token is the first
/// such token, whatever the index resolves there.
pub proof fn law_indexed_response_keeps_declarations(text: Seq<char>, language: Language, idx: IndexModel, range: Option<Range>)
    requires
        language != Language::Swift,
        syntax_of(text, language) is Some,
    ensures
        ({
            let ns = syntax_of(text, language)->0;
            let cst = cst_tokens(ns, encode_utf8(text), language);
            let out = decode(indexed_response(text, language, idx, range)->0);
            forall|k: int|
                0 <= k < out.len() && has_key(cst, key(#[trigger] out[k])) ==> first_occurrence(
                    cst,
                    out[k],
                    cst.len() as int,
                )
        }),
{
    let ns = syntax_of(text, language)->0;
    let src = encode_utf8(text);
    let cst = cst_tokens(ns, src, language);
    let others = reference_tokens(ns, src, idx, language) + mark_tokens(ns, src, language) + lambda_tokens(ns, src, language);
    let raw = indexed_raw(text, language, idx)->0;
    assert(raw =~= cst + others);
    law_response(raw, range);
    let out = restrict(canonical(raw), range);
    assert forall|k: int|
        0 <= k < out.len() && has_key(cst, key(#[trigger] out[k])) implies first_occurrence(
        cst,
        out[k],
        cst.len() as int,
    ) by {
        lemma_first_in_prefix(cst, others, out[k]);
    }
}

/// A token whose type and modifiers lie in the legend and that covers at
/// least one UTF-16 unit.
pub open spec fn legend_token(t: RawToken) -> bool {
    &&& t.token_type < 15
    &&& t.length > 0
    &&& t.token_modifiers_bitset < 32
}

/// Every token of `s` is a [`legend_token`].
pub open spec fn all_legend_tokens(s: Seq<RawToken>) -> bool {
    forall|k: int| 0 <= k < s.len() ==> legend_token(#[trigger] s[k])
}

proof fn lemma_concat_legend(a: Seq<RawToken>, b: Seq<RawToken>)
    requires
        all_legend_tokens(a),
        all_legend_tokens(b),
    ensures
        all_legend_tokens(a + b),
{
    assert forall|k: int| 0 <= k < (a + b).len() implies legend_token(#[trigger] (a + b)[k]) by {
        if k < a.len() {
            assert((a + b)[k] == a[k]);
        } else {
            assert((a + b)[k] == b[k - a.len()]);
        }
    }
}

proof fn lemma_reference_walk_legend(
    ns: Seq<FlatModel>,
    src: Seq<u8>,
    idx: IndexModel,
    from: int,
    end: int,
    p: Option<(int, int)>,
    g: Option<(int, int)>,
)
    ensures
        all_legend_tokens(reference_walk(ns, src, idx, from, end, p, g)),
    decreases end - from,
{
    if nonempty(ns, from, end) {
        let e = child_end(ns, from, end);
        let own = match reference_type(ns, src, idx, from, p, g) {
            Some(t) => token_at(ns, src, from, t, 0),
            None => seq![],
        };
        assert(0u32 < 32) by (bit_vector);
        lemma_reference_walk_legend(ns, src, idx, from + 1, e, Some((from, end)), p);
        lemma_reference_walk_legend(ns, src, idx, e, end, p, g);
        lemma_concat_legend(own, reference_walk(ns, src, idx, from + 1, e, Some((from, end)), p));
        lemma_concat_legend(
            own + reference_walk(ns, src, idx, from + 1, e, Some((from, end)), p),
            reference_walk(ns, src, idx, e, end, p, g),
        );
    }
}

proof fn lemma_lambda_param_decls_legend(ns: Seq<FlatModel>, src: Seq<u8>, from: int, end: int)
    ensures
        all_legend_tokens(lambda_param_decls(ns, src, from, end)),
    decreases end - from,
{
    if nonempty(ns, from, end) {
        let e = child_end(ns, from, end);
        assert(bit(TokenModifier::Declaration) == 1) by {
            assert(1u32 << 0u32 == 1) by (bit_vector);
        }
        let head = if ns[from].kind == "variable_declaration"@ {
            opt_token(
                ns,
                src,
                first_of_kind(ns, from + 1, e, "simple_identifier"@),
                TokenType::Parameter,
                bit(TokenModifier::Declaration),
            )
        } else {
            seq![]
        };
        lemma_lambda_param_decls_legend(ns, src, e, end);
        lemma_concat_legend(head, lambda_param_decls(ns, src, e, end));
    }
}

proof fn lemma_lambda_walk_legend(ns: Seq<FlatModel>, src: Seq<u8>, from: int, end: int)
    ensures
        all_legend_tokens(lambda_walk(ns, src, from, end)),
    decreases end - from,
{
    if nonempty(ns, from, end) {
        let e = child_end(ns, from, end);
        let own = if ns[from].kind == "lambda_literal"@ {
            match first_of_kind(ns, from + 1, e, "lambda_parameters"@) {
                Some(lp) => lambda_param_decls(ns, src, lp + 1, child_end(ns, lp, e)),
                None => seq![],
            }
        } else {
            seq![]
        };
        if ns[from].kind == "lambda_literal"@ {
            match first_of_kind(ns, from + 1, e, "lambda_parameters"@) {
                Some(lp) => lemma_lambda_param_decls_legend(ns, src, lp + 1, child_end(ns, lp, e)),
                None => {},
            }
        }
        lemma_lambda_walk_legend(ns, src, from + 1, e);
        lemma_lambda_walk_legend(ns, src, e, end);
        lemma_concat_legend(own, lambda_walk(ns, src, from + 1, e));
        lemma_concat_legend(own + lambda_walk(ns, src, from + 1, e), lambda_walk(ns, src, e, end));
    }
}

/// The characters of an optional string slice.
pub open spec fn str_option(o: Option<&str>) -> Option<Seq<char>> {
    match o {
        Some(s) => Some(s@),
        None => None,
    }
}

/// The token type of the member of a navigation expression: what the type of
/// its receiver declares, when that type is known (`receiver_type`), else a
/// method when the expression is the callee of a call, else none.
/// `field_found` is the answer of the receiver type's field lookup.
pub open spec fn member_access_type(idx: IndexModel, receiver_type: Option<Seq<char>>, member: Seq<char>, field_found: bool, is_callee: bool) -> Option<TokenType> {
    let resolved = match receiver_type {
        Some(rt) => receiver_member_type(idx, rt, member, field_found),
        None => None,
    };
    match resolved {
        Some(t) => Some(t),
        None => if is_callee {
            Some(TokenType::Method)
        } else {
            None
        },
    }
}

/// The token type of member `member_name` of a navigation expression whose
/// receiver has the inferred type `receiver_type` (`None` when it could not
/// be inferred); `is_callee` tells whether the expression is the callee of
/// a call, `field_found` whether the receiver type declares a field so named.
pub fn member_access_token_type(index: &SymbolIndex, receiver_type: Option<&str>, member_name: &str, field_found: bool, is_callee: bool) -> (r: Option<TokenType>)
    ensures
        r == member_access_type(index@, str_option(receiver_type), member_name@, field_found, is_callee),
{
    let resolved = match receiver_type {
        Some(rt) => member_token_type_for_receiver(index, rt, member_name, field_found),
        None => None,
    };
    match resolved {
        Some(t) => Some(t),
        None => if is_callee {
            Some(TokenType::Method)
        } else {
            None
        },
    }
}

/// The token type of a use of a lambda parameter, decided for one node:
/// `this` inside a lambda whose receiver type is known (`this_found`) is a
/// keyword; an identifier outside the lambda's parameter list is a parameter
/// when it is `it` inside a lambda whose element type is known (`it_found`),
/// or when it names one of the parameters in scope at its position
/// (`params_here`, the lambda parameters visible there).
pub open spec fn lambda_use_type(kind: Seq<char>, name: Seq<char>, in_lambda: bool, in_lambda_parameters: bool, this_found: bool, it_found: bool, params_here: Seq<Seq<char>>) -> Option<TokenType> {
    if kind == "this_expression"@ {
        if in_lambda && this_found {
            Some(TokenType::Keyword)
        } else {
            None
        }
    } else if kind != "simple_identifier"@ || in_lambda_parameters {
        None
    } else if name == "it"@ {
        if in_lambda && it_found {
            Some(TokenType::Parameter)
        } else {
            None
        }
    } else if in_lambda && params_here.contains(name) {
        Some(TokenType::Parameter)
    } else {
        None
    }
}

/// The token type of a use of a lambda parameter at a node of kind `kind`
/// with text `name`.  `in_lambda` tells whether a lambda literal encloses
/// the node, `in_lambda_parameters` whether it stands in a lambda's
/// parameter list; `this_found`, `it_found` and `params_here` are what the
/// index infers at its position (the receiver type of `this`, the element
/// type of `it`, the lambda parameter names in scope).
pub fn lambda_use_token_type(
    kind: &str,
    name: &str,
    in_lambda: bool,
    in_lambda_parameters: bool,
    this_found: bool,
    it_found: bool,
    params_here: &Vec<String>,
) -> (r: Option<TokenType>)
    ensures
        r == lambda_use_type(kind@, name@, in_lambda, in_lambda_parameters, this_found, it_found, string_views(params_here@)),
{
    if text_is(kind, "this_expression") {
        if in_lambda && this_found {
            Some(TokenType::Keyword)
        } else {
            None
        }
    } else if !text_is(kind, "simple_identifier") || in_lambda_parameters {
        None
    } else if text_is(name, "it") {
        if in_lambda && it_found {
            Some(TokenType::Parameter)
        } else {
            None
        }
    } else if in_lambda {
        let ghost views = string_views(params_here@);
        let mut k: usize = 0;
        while k < params_here.len()
            invariant
                k <= params_here@.len(),
                views == string_views(params_here@),
                views.len() == params_here@.len(),
                forall|m: int| 0 <= m < k ==> views[m] != name@,
                in_lambda,
                !in_lambda_parameters,
                kind@ == "simple_identifier"@,
                kind@ != "this_expression"@,
                name@ != "it"@,
            decreases params_here@.len() - k,
        {
            assert(views[k as int] == params_here@[k as int]@);
            if text_is(params_here[k].as_str(), name) {
                assert(views.contains(name@));
                return Some(TokenType::Parameter);
            }
            k = k + 1;
        }
        None
    } else {
        None
    }
}

/// Every token of `s` colors a parameter at its declaration.
pub open spec fn all_parameter_declarations(s: Seq<RawToken>) -> bool {
    forall|k: int|
        0 <= k < s.len() ==> (#[trigger] s[k]).token_type == type_id(TokenType::Parameter)
            && s[k].token_modifiers_bitset == bit(TokenModifier::Declaration)
}

proof fn lemma_concat_parameter_declarations(a: Seq<RawToken>, b: Seq<RawToken>)
    requires
        all_parameter_declarations(a),
        all_parameter_declarations(b),
    ensures
        all_parameter_declarations(a + b),
{
    assert forall|k: int| 0 <= k < (a + b).len() implies (#[trigger] (a + b)[k]).token_type == type_id(
        TokenType::Parameter,
    ) && (a + b)[k].token_modifiers_bitset == bit(TokenModifier::Declaration) by {
        if k < a.len() {
            assert((a + b)[k] == a[k]);
        } else {
            assert((a + b)[k] == b[k - a.len()]);
        }
    }
}

proof fn lemma_lambda_param_decls_kind(ns: Seq<FlatModel>, src: Seq<u8>, from: int, end: int)
    ensures
        all_parameter_declarations(lambda_param_decls(ns, src, from, end)),
    decreases end - from,
{
    if nonempty(ns, from, end) {
        let e = child_end(ns, from, end);
        let head = if ns[from].kind == "variable_declaration"@ {
            opt_token(
                ns,
                src,
                first_of_kind(ns, from + 1, e, "simple_identifier"@),
                TokenType::Parameter,
                bit(TokenModifier::Declaration),
            )
        } else {
            seq![]
        };
        lemma_lambda_param_decls_kind(ns, src, e, end);
        lemma_concat_parameter_declarations(head, lambda_param_decls(ns, src, e, end));
    }
}

proof fn lemma_lambda_walk_kind(ns: Seq<FlatModel>, src: Seq<u8>, from: int, end: int)
    ensures
        all_parameter_declarations(lambda_walk(ns, src, from, end)),
    decreases end - from,
{
    if nonempty(ns, from, end) {
        let e = child_end(ns, from, end);
        let own = if ns[from].kind == "lambda_literal"@ {
            match first_of_kind(ns, from + 1, e, "lambda_parameters"@) {
                Some(lp) => lambda_param_decls(ns, src, lp + 1, child_end(ns, lp, e)),
                None => seq![],
            }
        } else {
            seq![]
        };
        if ns[from].kind == "lambda_literal"@ {
            match first_of_kind(ns, from + 1, e, "lambda_parameters"@) {
                Some(lp) => lemma_lambda_param_decls_kind(ns, src, lp + 1, child_end(ns, lp, e)),
                None => {},
            }
        }
        lemma_lambda_walk_kind(ns, src, from + 1, e);
        lemma_lambda_walk_kind(ns, src, e, end);
        lemma_concat_parameter_declarations(own, lambda_walk(ns, src, from + 1, e));
        lemma_concat_parameter_declarations(own + lambda_walk(ns, src, from + 1, e), lambda_walk(ns, src, e, end));
    }
}

/// `t` is the declaration token of a name inside the subtree of a lambda
/// literal.
pub open spec fn lambda_site(ns: Seq<FlatModel>, src: Seq<u8>, t: RawToken, from: int, end: int) -> bool {
    exists|l: int|
        from <= l < end && ns[l].kind == "lambda_literal"@ && #[trigger] token_in(
            ns,
            src,
            t,
            l + 1,
            l + ns[l].descendants,
            "simple_identifier"@,
            TokenType::Parameter,
            bit(TokenModifier::Declaration),
        )
}

proof fn lemma_lambda_param_decls_sites(ns: Seq<FlatModel>, src: Seq<u8>, from: int, end: int)
    ensures
        forall|i: int|
            0 <= i < lambda_param_decls(ns, src, from, end).len() ==> token_in(
                ns,
                src,
                #[trigger] lambda_param_decls(ns, src, from, end)[i],
                from,
                end,
                "simple_identifier"@,
                TokenType::Parameter,
                bit(TokenModifier::Declaration),
            ),
    decreases end - from,
{
    if nonempty(ns, from, end) {
        let e = child_end(ns, from, end);
        let o = if ns[from].kind == "variable_declaration"@ {
            first_of_kind(ns, from + 1, e, "simple_identifier"@)
        } else {
            None
        };
        let head = opt_token(ns, src, o, TokenType::Parameter, bit(TokenModifier::Declaration));
        lemma_first_of_kind_in(ns, from + 1, e, "simple_identifier"@);
        lemma_opt_token_in(ns, src, o, from, end, "simple_identifier"@, TokenType::Parameter, bit(TokenModifier::Declaration));
        lemma_lambda_param_decls_sites(ns, src, e, end);
        let rest = lambda_param_decls(ns, src, e, end);
        let all = lambda_param_decls(ns, src, from, end);
        if ns[from].kind == "variable_declaration"@ {
            assert(all == head + rest);
        } else {
            assert(all =~= rest);
            assert(head =~= Seq::<RawToken>::empty());
        }
        assert forall|i: int| 0 <= i < all.len() implies token_in(
            ns,
            src,
            #[trigger] all[i],
            from,
            end,
            "simple_identifier"@,
            TokenType::Parameter,
            bit(TokenModifier::Declaration),
        ) by {
            if i < head.len() {
                assert(all[i] == head[i]);
            } else {
                assert(all[i] == rest[i - head.len()]);
                lemma_token_in_widen(ns, src, all[i], e, end, from, end, "simple_identifier"@, TokenType::Parameter, bit(TokenModifier::Declaration));
            }
        }
    }
}

proof fn lemma_lambda_walk_sites(ns: Seq<FlatModel>, src: Seq<u8>, from: int, end: int)
    requires
        0 <= from,
    ensures
        forall|i: int|
            0 <= i < lambda_walk(ns, src, from, end).len() ==> lambda_site(
                ns,
                src,
                #[trigger] lambda_walk(ns, src, from, end)[i],
                from,
                end,
            ),
    decreases end - from,
{
    if nonempty(ns, from, end) {
        let e = child_end(ns, from, end);
        let own = if ns[from].kind == "lambda_literal"@ {
            match first_of_kind(ns, from + 1, e, "lambda_parameters"@) {
                Some(lp) => lambda_param_decls(ns, src, lp + 1, child_end(ns, lp, e)),
                None => seq![],
            }
        } else {
            seq![]
        };
        lemma_first_of_kind_in(ns, from + 1, e, "lambda_parameters"@);
        if ns[from].kind == "lambda_literal"@ {
            match first_of_kind(ns, from + 1, e, "lambda_parameters"@) {
                Some(lp) => lemma_lambda_param_decls_sites(ns, src, lp + 1, child_end(ns, lp, e)),
                None => {},
            }
        }
        lemma_lambda_walk_sites(ns, src, from + 1, e);
        lemma_lambda_walk_sites(ns, src, e, end);
        let inner = lambda_walk(ns, src, from + 1, e);
        let rest = lambda_walk(ns, src, e, end);
        let all = lambda_walk(ns, src, from, end);
        assert(all == own + inner + rest);
        assert forall|i: int| 0 <= i < all.len() implies lambda_site(ns, src, #[trigger] all[i], from, end) by {
            if i < own.len() {
                assert(all[i] == own[i]);
                let lp = first_of_kind(ns, from + 1, e, "lambda_parameters"@)->0;
                assert(token_in(
                    ns,
                    src,
                    own[i],
                    lp + 1,
                    child_end(ns, lp, e),
                    "simple_identifier"@,
                    TokenType::Parameter,
                    bit(TokenModifier::Declaration),
                ));
                lemma_token_in_widen(
                    ns,
                    src,
                    own[i],
                    lp + 1,
                    child_end(ns, lp, e),
                    from + 1,
                    from + ns[from].descendants,
                    "simple_identifier"@,
                    TokenType::Parameter,
                    bit(TokenModifier::Declaration),
                );
            } else if i < own.len() + inner.len() {
                assert(all[i] == inner[i - own.len()]);
                let l = choose|l: int|
                    from + 1 <= l < e && ns[l].kind == "lambda_literal"@ && #[trigger] token_in(
                        ns,
                        src,
                        all[i],
                        l + 1,
                        l + ns[l].descendants,
                        "simple_identifier"@,
                        TokenType::Parameter,
                        bit(TokenModifier::Declaration),
                    );
                assert(from <= l < end);
            } else {
                assert(all[i] == rest[i - own.len() - inner.len()]);
                let l = choose|l: int|
                    e <= l < end && ns[l].kind == "lambda_literal"@ && #[trigger] token_in(
                        ns,
                        src,
                        all[i],
                        l + 1,
                        l + ns[l].descendants,
                        "simple_identifier"@,
                        TokenType::Parameter,
                        bit(TokenModifier::Declaration),
                    );
                assert(from <= l < end);
            }
        }
    }
}

/// Law: every lambda-parameter token is the declaration token of a name
/// (`simple_identifier`) inside the subtree of a lambda literal.
pub proof fn law_lambda_tokens_at_lambda_names(ns: Seq<FlatModel>, src: Seq<u8>, language: Language)
    ensures
        forall|i: int|
            0 <= i < lambda_tokens(ns, src, language).len() ==> lambda_site(
                ns,
                src,
                #[trigger] lambda_tokens(ns, src, language)[i],
                0,
                ns.len() as int,
            ),
{
    if language == Language::Kotlin {
        lemma_lambda_walk_sites(ns, src, 0, ns.len() as int);
    }
}

/// `t` is the token that node `j` yields as a mark: a soft keyword colored as
/// a keyword, a name colored as a parameter (a named-argument label), or a
/// name colored as a method (a called member); never with modifiers.
pub open spec fn mark_at(ns: Seq<FlatModel>, src: Seq<u8>, j: int, t: RawToken) -> bool {
    ||| (!ns[j].named && is_keyword_kind(ns[j].kind) && token_at(ns, src, j, TokenType::Keyword, 0)
        == seq![t])
    ||| (ns[j].kind == "simple_identifier"@ && token_at(ns, src, j, TokenType::Parameter, 0) == seq![t])
    ||| ((ns[j].kind == "simple_identifier"@ || ns[j].kind == "type_identifier"@) && token_at(
        ns,
        src,
        j,
        TokenType::Method,
        0,
    ) == seq![t])
}

/// `t` is the mark token of a node in `[from, end)`.
pub open spec fn mark_site(ns: Seq<FlatModel>, src: Seq<u8>, t: RawToken, from: int, end: int) -> bool {
    exists|j: int| from <= j < end && #[trigger] mark_at(ns, src, j, t)
}

proof fn lemma_first_name_in(ns: Seq<FlatModel>, from: int, end: int)
    ensures
        first_name(ns, from, end) matches Some(j) ==> from <= j < end && end <= ns.len() && (ns[j].kind
            == "simple_identifier"@ || ns[j].kind == "type_identifier"@),
    decreases end - from,
{
    if nonempty(ns, from, end) && !(ns[from].kind == "simple_identifier"@ || ns[from].kind == "type_identifier"@) {
        lemma_first_name_in(ns, from + span(ns, from, end), end);
    }
}

proof fn lemma_mark_node_sites(ns: Seq<FlatModel>, src: Seq<u8>, i: int, end: int)
    requires
        nonempty(ns, i, end),
    ensures
        forall|k: int|
            0 <= k < mark_node_tokens(ns, src, i, end).len() ==> mark_site(
                ns,
                src,
                #[trigger] mark_node_tokens(ns, src, i, end)[k],
                i,
                end,
            ),
{
    let kind = ns[i].kind;
    let a = i + 1;
    let b = child_end(ns, i, end);
    let out = mark_node_tokens(ns, src, i, end);
    if !ns[i].named && is_keyword_kind(kind) {
        let h = token_at(ns, src, i, TokenType::Keyword, 0);
        if h.len() > 0 {
            assert(h =~= seq![h[0]]);
            assert(mark_at(ns, src, i, out[0]));
        }
    } else if kind == "value_argument"@ {
        lemma_first_of_kind_in(ns, a, b, "simple_identifier"@);
        match argument_label(ns, a, b) {
            Some(l) => {
                let h = token_at(ns, src, l, TokenType::Parameter, 0);
                if h.len() > 0 {
                    assert(h =~= seq![h[0]]);
                    assert(mark_at(ns, src, l, out[0]));
                }
            },
            None => {},
        }
    } else if kind == "call_expression"@ {
        if nonempty(ns, a, b) && ns[a].kind == "navigation_expression"@ {
            let ce = child_end(ns, a, b);
            lemma_first_of_kind_in(ns, a + 1, ce, "navigation_suffix"@);
            match first_of_kind(ns, a + 1, ce, "navigation_suffix"@) {
                Some(sfx) => lemma_first_name_in(ns, sfx + 1, child_end(ns, sfx, ce)),
                None => {},
            }
        }
        match callee_member(ns, a, b) {
            Some(m) => {
                let h = token_at(ns, src, m, TokenType::Method, 0);
                if h.len() > 0 {
                    assert(h =~= seq![h[0]]);
                    assert(mark_at(ns, src, m, out[0]));
                }
            },
            None => {},
        }
    }
}

proof fn lemma_mark_walk_sites(ns: Seq<FlatModel>, src: Seq<u8>, from: int, end: int)
    ensures
        forall|k: int|
            0 <= k < mark_walk(ns, src, from, end).len() ==> mark_site(
                ns,
                src,
                #[trigger] mark_walk(ns, src, from, end)[k],
                from,
                end,
            ),
    decreases end - from,
{
    if nonempty(ns, from, end) {
        let e = child_end(ns, from, end);
        lemma_mark_node_sites(ns, src, from, end);
        lemma_mark_walk_sites(ns, src, from + 1, e);
        lemma_mark_walk_sites(ns, src, e, end);
        let own = mark_node_tokens(ns, src, from, end);
        let inner = mark_walk(ns, src, from + 1, e);
        let rest = mark_walk(ns, src, e, end);
        let all = mark_walk(ns, src, from, end);
        assert(all == own + inner + rest);
        assert forall|k: int| 0 <= k < all.len() implies mark_site(ns, src, #[trigger] all[k], from, end) by {
            if k < own.len() {
                assert(all[k] == own[k]);
            } else if k < own.len() + inner.len() {
                assert(all[k] == inner[k - own.len()]);
                let j = choose|j: int| from + 1 <= j < e && #[trigger] mark_at(ns, src, j, all[k]);
                assert(from <= j < end);
            } else {
                assert(all[k] == rest[k - own.len() - inner.len()]);
                let j = choose|j: int| e <= j < end && #[trigger] mark_at(ns, src, j, all[k]);
                assert(from <= j < end);
            }
        }
    }
}

/// Law: every syntax mark is the token of one node of the tree, without
/// modifiers: a soft keyword as a keyword, a name as a parameter (the label
/// of a named argument), or a name as a method (a member called on a
/// receiver).
pub proof fn law_marks_at_nodes(ns: Seq<FlatModel>, src: Seq<u8>, language: Language)
    ensures
        forall|k: int|
            0 <= k < mark_tokens(ns, src, language).len() ==> mark_site(
                ns,
                src,
                #[trigger] mark_tokens(ns, src, language)[k],
                0,
                ns.len() as int,
            ),
{
    if language == Language::Kotlin {
        lemma_mark_walk_sites(ns, src, 0, ns.len() as int);
    }
}

/// Law: every lambda-parameter token colors a parameter at its declaration.
pub proof fn law_lambda_tokens_are_parameter_declarations(ns: Seq<FlatModel>, src: Seq<u8>, language: Language)
    ensures
        all_parameter_declarations(lambda_tokens(ns, src, language)),
{
    if language == Language::Kotlin {
        lemma_lambda_walk_kind(ns, src, 0, ns.len() as int);
    }
}

proof fn lemma_mark_walk_legend(ns: Seq<FlatModel>, src: Seq<u8>, from: int, end: int)
    ensures
        all_legend_tokens(mark_walk(ns, src, from, end)),
    decreases end - from,
{
    if nonempty(ns, from, end) {
        let e = child_end(ns, from, end);
        assert(0u32 < 32) by (bit_vector);
        lemma_mark_walk_legend(ns, src, from + 1, e);
        lemma_mark_walk_legend(ns, src, e, end);
        lemma_concat_legend(mark_node_tokens(ns, src, from, end), mark_walk(ns, src, from + 1, e));
        lemma_concat_legend(
            mark_node_tokens(ns, src, from, end) + mark_walk(ns, src, from + 1, e),
            mark_walk(ns, src, e, end),
        );
    }
}

/// Law: every token that classification with an index yields (declarations,
/// references, syntax tokens and lambda parameters) has a type of the legend, modifiers of
/// the legend and a length of at least one UTF-16 unit.
pub proof fn law_indexed_tokens_in_legend(ns: Seq<FlatModel>, src: Seq<u8>, idx: IndexModel, language: Language)
    ensures
        all_legend_tokens(
            cst_tokens(ns, src, language) + reference_tokens(ns, src, idx, language) + mark_tokens(
                ns,
                src,
                language,
            ) + lambda_tokens(ns, src, language),
        ),
{
    law_cst_tokens_in_legend(ns, src, language);
    let c = cst_tokens(ns, src, language);
    assert(all_legend_tokens(c)) by {
        assert forall|k: int| 0 <= k < c.len() implies legend_token(#[trigger] c[k]) by {
            assert(declaration_token(c[k]));
        }
    }
    match language {
        Language::Kotlin => {
            lemma_reference_walk_legend(ns, src, idx, 0, ns.len() as int, None, None);
            lemma_lambda_walk_legend(ns, src, 0, ns.len() as int);
            lemma_mark_walk_legend(ns, src, 0, ns.len() as int);
        },
        _ => {},
    }
    lemma_concat_legend(c, reference_tokens(ns, src, idx, language));
    lemma_concat_legend(c + reference_tokens(ns, src, idx, language), mark_tokens(ns, src, language));
    lemma_concat_legend(
        c + reference_tokens(ns, src, idx, language) + mark_tokens(ns, src, language),
        lambda_tokens(ns, src, language),
    );
}

} // verus!
