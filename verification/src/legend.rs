//! The semantic-token legend (token types and modifiers), and how index
//! symbol kinds map onto token types.
use crate::encoding::{Position, Range};
use crate::text::{str_chars, chars_equal};
use vstd::prelude::*;

verus! {

/// Token types, in legend order: the index of a type is its LSP token type id.
#[derive(Clone, Copy, Debug, PartialEq, Eq)]
pub enum TokenType {
    Class,
    Interface,
    Enum,
    TypeParameter,
    Function,
    Method,
    Property,
    Variable,
    Parameter,
    EnumMember,
    /// Annotations.
    Decorator,
    /// Objects and companion objects used as namespaces.
    Namespace,
    /// Data classes.
    Struct,
    /// `operator fun`.
    Operator,
    /// Implicit `it` / `this`.
    Keyword,
}

/// Token modifiers, in legend order: modifier `i` is bit `i` of a bitset.
#[derive(Clone, Copy, Debug, PartialEq, Eq)]
pub enum TokenModifier {
    Declaration,
    Readonly,
    /// Companion object members.
    Static,
    Abstract,
    /// `suspend` functions.
    Async,
    Deprecated,
    /// Standard library symbols.
    DefaultLibrary,
}

/// The legend position of a token type.
pub open spec fn type_id(t: TokenType) -> u32 {
    match t {
        TokenType::Class => 0,
        TokenType::Interface => 1,
        TokenType::Enum => 2,
        TokenType::TypeParameter => 3,
        TokenType::Function => 4,
        TokenType::Method => 5,
        TokenType::Property => 6,
        TokenType::Variable => 7,
        TokenType::Parameter => 8,
        TokenType::EnumMember => 9,
        TokenType::Decorator => 10,
        TokenType::Namespace => 11,
        TokenType::Struct => 12,
        TokenType::Operator => 13,
        TokenType::Keyword => 14,
    }
}

/// The legend position of a token modifier.
pub open spec fn modifier_id(m: TokenModifier) -> u32 {
    match m {
        TokenModifier::Declaration => 0,
        TokenModifier::Readonly => 1,
        TokenModifier::Static => 2,
        TokenModifier::Abstract => 3,
        TokenModifier::Async => 4,
        TokenModifier::Deprecated => 5,
        TokenModifier::DefaultLibrary => 6,
    }
}

/// Number of token types in the legend.
pub const TOKEN_TYPE_COUNT: u32 = 15;

/// Number of token modifiers in the legend.
pub const TOKEN_MODIFIER_COUNT: u32 = 7;

impl TokenType {
    /// The LSP token type id of this type (its legend position).
    pub fn index(self) -> (r: u32)
        ensures
            r == type_id(self),
            r < TOKEN_TYPE_COUNT,
    {
        match self {
            TokenType::Class => 0,
            TokenType::Interface => 1,
            TokenType::Enum => 2,
            TokenType::TypeParameter => 3,
            TokenType::Function => 4,
            TokenType::Method => 5,
            TokenType::Property => 6,
            TokenType::Variable => 7,
            TokenType::Parameter => 8,
            TokenType::EnumMember => 9,
            TokenType::Decorator => 10,
            TokenType::Namespace => 11,
            TokenType::Struct => 12,
            TokenType::Operator => 13,
            TokenType::Keyword => 14,
        }
    }

    /// The token type with legend position `i`, if there is one.
    pub fn from_index(i: u32) -> (r: Option<TokenType>)
        ensures
            r matches Some(t) ==> type_id(t) == i,
            r is None <==> i >= TOKEN_TYPE_COUNT,
            i < TOKEN_TYPE_COUNT ==> r == Some(type_at(i)),
    {
        match i {
            0 => Some(TokenType::Class),
            1 => Some(TokenType::Interface),
            2 => Some(TokenType::Enum),
            3 => Some(TokenType::TypeParameter),
            4 => Some(TokenType::Function),
            5 => Some(TokenType::Method),
            6 => Some(TokenType::Property),
            7 => Some(TokenType::Variable),
            8 => Some(TokenType::Parameter),
            9 => Some(TokenType::EnumMember),
            10 => Some(TokenType::Decorator),
            11 => Some(TokenType::Namespace),
            12 => Some(TokenType::Struct),
            13 => Some(TokenType::Operator),
            14 => Some(TokenType::Keyword),
            _ => None,
        }
    }

    /// The name LSP clients know this token type by.
    pub fn lsp_name(self) -> (r: &'static str)
        ensures
            r@ == token_type_name(self),
    {
        match self {
            TokenType::Class => "class",
            TokenType::Interface => "interface",
            TokenType::Enum => "enum",
            TokenType::TypeParameter => "typeParameter",
            TokenType::Function => "function",
            TokenType::Method => "method",
            TokenType::Property => "property",
            TokenType::Variable => "variable",
            TokenType::Parameter => "parameter",
            TokenType::EnumMember => "enumMember",
            TokenType::Decorator => "decorator",
            TokenType::Namespace => "namespace",
            TokenType::Struct => "struct",
            TokenType::Operator => "operator",
            TokenType::Keyword => "keyword",
        }
    }
}

/// The token type at legend position `i < TOKEN_TYPE_COUNT`.
pub open spec fn type_at(i: u32) -> TokenType {
    if i == 0 {
        TokenType::Class
    } else if i == 1 {
        TokenType::Interface
    } else if i == 2 {
        TokenType::Enum
    } else if i == 3 {
        TokenType::TypeParameter
    } else if i == 4 {
        TokenType::Function
    } else if i == 5 {
        TokenType::Method
    } else if i == 6 {
        TokenType::Property
    } else if i == 7 {
        TokenType::Variable
    } else if i == 8 {
        TokenType::Parameter
    } else if i == 9 {
        TokenType::EnumMember
    } else if i == 10 {
        TokenType::Decorator
    } else if i == 11 {
        TokenType::Namespace
    } else if i == 12 {
        TokenType::Struct
    } else if i == 13 {
        TokenType::Operator
    } else {
        TokenType::Keyword
    }
}

/// The LSP name of a token type.
pub open spec fn token_type_name(t: TokenType) -> Seq<char> {
    match t {
        TokenType::Class => "class"@,
        TokenType::Interface => "interface"@,
        TokenType::Enum => "enum"@,
        TokenType::TypeParameter => "typeParameter"@,
        TokenType::Function => "function"@,
        TokenType::Method => "method"@,
        TokenType::Property => "property"@,
        TokenType::Variable => "variable"@,
        TokenType::Parameter => "parameter"@,
        TokenType::EnumMember => "enumMember"@,
        TokenType::Decorator => "decorator"@,
        TokenType::Namespace => "namespace"@,
        TokenType::Struct => "struct"@,
        TokenType::Operator => "operator"@,
        TokenType::Keyword => "keyword"@,
    }
}

/// The LSP name of a token modifier.
pub open spec fn modifier_name(m: TokenModifier) -> Seq<char> {
    match m {
        TokenModifier::Declaration => "declaration"@,
        TokenModifier::Readonly => "readonly"@,
        TokenModifier::Static => "static"@,
        TokenModifier::Abstract => "abstract"@,
        TokenModifier::Async => "async"@,
        TokenModifier::Deprecated => "deprecated"@,
        TokenModifier::DefaultLibrary => "defaultLibrary"@,
    }
}

/// The modifier at legend position `i < TOKEN_MODIFIER_COUNT`.
pub open spec fn modifier_at(i: u32) -> TokenModifier {
    if i == 0 {
        TokenModifier::Declaration
    } else if i == 1 {
        TokenModifier::Readonly
    } else if i == 2 {
        TokenModifier::Static
    } else if i == 3 {
        TokenModifier::Abstract
    } else if i == 4 {
        TokenModifier::Async
    } else if i == 5 {
        TokenModifier::Deprecated
    } else {
        TokenModifier::DefaultLibrary
    }
}

impl TokenModifier {
    /// The legend position of this modifier.
    pub fn index(self) -> (r: u32)
        ensures
            r == modifier_id(self),
            r < TOKEN_MODIFIER_COUNT,
    {
        match self {
            TokenModifier::Declaration => 0,
            TokenModifier::Readonly => 1,
            TokenModifier::Static => 2,
            TokenModifier::Abstract => 3,
            TokenModifier::Async => 4,
            TokenModifier::Deprecated => 5,
            TokenModifier::DefaultLibrary => 6,
        }
    }

    /// The name LSP clients know this modifier by.
    pub fn lsp_name(self) -> (r: &'static str)
        ensures
            r@ == modifier_name(self),
    {
        match self {
            TokenModifier::Declaration => "declaration",
            TokenModifier::Readonly => "readonly",
            TokenModifier::Static => "static",
            TokenModifier::Abstract => "abstract",
            TokenModifier::Async => "async",
            TokenModifier::Deprecated => "deprecated",
            TokenModifier::DefaultLibrary => "defaultLibrary",
        }
    }

    /// The modifier at legend position `i`.
    pub fn from_index(i: u32) -> (r: TokenModifier)
        requires
            i < TOKEN_MODIFIER_COUNT,
        ensures
            r == modifier_at(i),
            modifier_id(r) == i,
    {
        if i == 0 {
            TokenModifier::Declaration
        } else if i == 1 {
            TokenModifier::Readonly
        } else if i == 2 {
            TokenModifier::Static
        } else if i == 3 {
            TokenModifier::Abstract
        } else if i == 4 {
            TokenModifier::Async
        } else if i == 5 {
            TokenModifier::Deprecated
        } else {
            TokenModifier::DefaultLibrary
        }
    }
}

/// The token types in legend order.
pub fn token_types() -> (r: Vec<TokenType>)
    ensures
        r@.len() == TOKEN_TYPE_COUNT,
        forall|i: int| 0 <= i < r@.len() ==> type_id(#[trigger] r@[i]) == i,
{
    let mut r: Vec<TokenType> = Vec::new();
    let mut i: u32 = 0;
    while i < TOKEN_TYPE_COUNT
        invariant
            i <= TOKEN_TYPE_COUNT,
            r@.len() == i,
            forall|k: int| 0 <= k < r@.len() ==> type_id(#[trigger] r@[k]) == k,
        decreases TOKEN_TYPE_COUNT - i,
    {
        match TokenType::from_index(i) {
            Some(t) => r.push(t),
            None => {},
        }
        i = i + 1;
    }
    r
}

/// The token modifiers in legend order.
pub fn token_modifiers() -> (r: Vec<TokenModifier>)
    ensures
        r@.len() == TOKEN_MODIFIER_COUNT,
        forall|i: int| 0 <= i < r@.len() ==> modifier_id(#[trigger] r@[i]) == i,
{
    let mut r: Vec<TokenModifier> = Vec::new();
    let mut i: u32 = 0;
    while i < TOKEN_MODIFIER_COUNT
        invariant
            i <= TOKEN_MODIFIER_COUNT,
            r@.len() == i,
            forall|k: int| 0 <= k < r@.len() ==> modifier_id(#[trigger] r@[k]) == k,
        decreases TOKEN_MODIFIER_COUNT - i,
    {
        r.push(TokenModifier::from_index(i));
        i = i + 1;
    }
    r
}

/// The bit of a modifier in a modifier bitset.
pub open spec fn bit(m: TokenModifier) -> u32 {
    1u32 << modifier_id(m)
}

/// The bit that stands for modifier `m` in a token's modifier bitset.
pub fn modifier_bit(m: TokenModifier) -> (r: u32)
    ensures
        r == bit(m),
{
    1u32 << m.index()
}

/// Whether modifier bit `i` is set in `bits`.
pub open spec fn has_bit(bits: u32, i: u32) -> bool {
    bits & (1u32 << i) != 0
}

/// The modifiers among the first `n` legend positions whose bit is set in `bits`, in legend order.
pub open spec fn modifiers_in(bits: u32, n: u32) -> Seq<TokenModifier>
    decreases n,
{
    if n == 0 {
        seq![]
    } else {
        let rest = modifiers_in(bits, (n - 1) as u32);
        if has_bit(bits, (n - 1) as u32) {
            rest.push(modifier_at((n - 1) as u32))
        } else {
            rest
        }
    }
}

/// The legend modifiers set in a bitset, in legend order.
pub fn decode_modifiers(bits: u32) -> (r: Vec<TokenModifier>)
    ensures
        r@ == modifiers_in(bits, TOKEN_MODIFIER_COUNT),
{
    let mut r: Vec<TokenModifier> = Vec::new();
    let mut i: u32 = 0;
    while i < TOKEN_MODIFIER_COUNT
        invariant
            i <= TOKEN_MODIFIER_COUNT,
            r@ == modifiers_in(bits, i),
        decreases TOKEN_MODIFIER_COUNT - i,
    {
        if bits & (1u32 << i) != 0 {
            r.push(TokenModifier::from_index(i));
        }
        i = i + 1;
    }
    r
}

/// How many of the first `n` bits of `bits` are set.
pub open spec fn set_bits_below(bits: u32, n: u32) -> nat
    decreases n,
{
    if n == 0 {
        0
    } else {
        set_bits_below(bits, (n - 1) as u32) + if has_bit(bits, (n - 1) as u32) {
            1nat
        } else {
            0nat
        }
    }
}

proof fn lemma_modifiers_in(bits: u32, n: u32)
    requires
        n <= TOKEN_MODIFIER_COUNT,
    ensures
        modifiers_in(bits, n).len() == set_bits_below(bits, n),
        modifiers_in(bits, n) == modifiers_in(bits & 0x7f, n),
    decreases n,
{
    if n > 0 {
        let i = (n - 1) as u32;
        lemma_modifiers_in(bits, i);
        assert((bits & 0x7f) & (1u32 << i) == bits & (1u32 << i)) by (bit_vector)
            requires
                i < 7,
        ;
    }
}

/// Law: the decoded modifiers are as many as the set bits among the seven
/// legend positions, and bits above the legend are ignored.
pub proof fn law_decoded_modifiers(bits: u32)
    ensures
        modifiers_in(bits, TOKEN_MODIFIER_COUNT).len() == set_bits_below(bits, TOKEN_MODIFIER_COUNT),
        modifiers_in(bits, TOKEN_MODIFIER_COUNT) == modifiers_in(bits & 0x7f, TOKEN_MODIFIER_COUNT),
{
    lemma_modifiers_in(bits, TOKEN_MODIFIER_COUNT);
}

// ─── Symbol kinds ────────────────────────────────────────────────────────────
/// LSP symbol kind codes used by the index.
pub const SYMBOL_NAMESPACE: i32 = 3;

pub const SYMBOL_CLASS: i32 = 5;

pub const SYMBOL_METHOD: i32 = 6;

pub const SYMBOL_PROPERTY: i32 = 7;

pub const SYMBOL_FIELD: i32 = 8;

pub const SYMBOL_ENUM: i32 = 10;

pub const SYMBOL_INTERFACE: i32 = 11;

pub const SYMBOL_FUNCTION: i32 = 12;

pub const SYMBOL_VARIABLE: i32 = 13;

pub const SYMBOL_CONSTANT: i32 = 14;

pub const SYMBOL_OBJECT: i32 = 19;

pub const SYMBOL_ENUM_MEMBER: i32 = 22;

pub const SYMBOL_STRUCT: i32 = 23;

pub const SYMBOL_OPERATOR: i32 = 25;

/// Kinds of symbols that own members: classes, interfaces, enums, objects, structs.
pub open spec fn owner_type_kind(kind: i32) -> bool {
    kind == SYMBOL_CLASS || kind == SYMBOL_INTERFACE || kind == SYMBOL_ENUM || kind == SYMBOL_OBJECT
        || kind == SYMBOL_STRUCT
}

/// Whether a symbol of this kind owns members.
pub fn is_owner_type_symbol(kind: i32) -> (r: bool)
    ensures
        r == owner_type_kind(kind),
{
    kind == SYMBOL_CLASS || kind == SYMBOL_INTERFACE || kind == SYMBOL_ENUM || kind == SYMBOL_OBJECT
        || kind == SYMBOL_STRUCT
}

/// Whether a symbol of this kind is a type.
pub fn is_type_symbol(kind: i32) -> (r: bool)
    ensures
        r == owner_type_kind(kind),
{
    is_owner_type_symbol(kind)
}

/// Kinds of symbols that are members of a type.
pub open spec fn member_kind(kind: i32) -> bool {
    kind == SYMBOL_METHOD || kind == SYMBOL_FUNCTION || kind == SYMBOL_OPERATOR || kind
        == SYMBOL_PROPERTY || kind == SYMBOL_FIELD || kind == SYMBOL_CONSTANT || kind
        == SYMBOL_VARIABLE
}

/// Whether a symbol of this kind is a member.
pub fn is_member_symbol(kind: i32) -> (r: bool)
    ensures
        r == member_kind(kind),
{
    kind == SYMBOL_METHOD || kind == SYMBOL_FUNCTION || kind == SYMBOL_OPERATOR || kind
        == SYMBOL_PROPERTY || kind == SYMBOL_FIELD || kind == SYMBOL_CONSTANT || kind
        == SYMBOL_VARIABLE
}

/// Callable members color as methods, the others as properties.
pub open spec fn member_type_of(kind: i32) -> Option<TokenType> {
    if kind == SYMBOL_METHOD || kind == SYMBOL_FUNCTION || kind == SYMBOL_OPERATOR {
        Some(TokenType::Method)
    } else if kind == SYMBOL_PROPERTY || kind == SYMBOL_FIELD || kind == SYMBOL_CONSTANT || kind
        == SYMBOL_VARIABLE {
        Some(TokenType::Property)
    } else {
        None
    }
}

/// The token type of a member reference of this symbol kind.
pub fn member_token_type(kind: i32) -> (r: Option<TokenType>)
    ensures
        r == member_type_of(kind),
{
    if kind == SYMBOL_METHOD || kind == SYMBOL_FUNCTION || kind == SYMBOL_OPERATOR {
        Some(TokenType::Method)
    } else if kind == SYMBOL_PROPERTY || kind == SYMBOL_FIELD || kind == SYMBOL_CONSTANT || kind
        == SYMBOL_VARIABLE {
        Some(TokenType::Property)
    } else {
        None
    }
}

/// The token type of a reference to a symbol of this kind.
pub open spec fn symbol_type_of(kind: i32) -> Option<TokenType> {
    if kind == SYMBOL_CLASS || kind == SYMBOL_STRUCT {
        Some(TokenType::Class)
    } else if kind == SYMBOL_INTERFACE {
        Some(TokenType::Interface)
    } else if kind == SYMBOL_ENUM {
        Some(TokenType::Enum)
    } else if kind == SYMBOL_FUNCTION {
        Some(TokenType::Function)
    } else if kind == SYMBOL_METHOD {
        Some(TokenType::Method)
    } else if kind == SYMBOL_PROPERTY || kind == SYMBOL_FIELD {
        Some(TokenType::Property)
    } else if kind == SYMBOL_VARIABLE {
        Some(TokenType::Variable)
    } else if kind == SYMBOL_ENUM_MEMBER {
        Some(TokenType::EnumMember)
    } else if kind == SYMBOL_OBJECT {
        Some(TokenType::Namespace)
    } else {
        None
    }
}

/// The token type of a reference to a symbol of this kind.
pub fn symbol_kind_to_token_type(kind: i32) -> (r: Option<TokenType>)
    ensures
        r == symbol_type_of(kind),
{
    if kind == SYMBOL_CLASS || kind == SYMBOL_STRUCT {
        Some(TokenType::Class)
    } else if kind == SYMBOL_INTERFACE {
        Some(TokenType::Interface)
    } else if kind == SYMBOL_ENUM {
        Some(TokenType::Enum)
    } else if kind == SYMBOL_FUNCTION {
        Some(TokenType::Function)
    } else if kind == SYMBOL_METHOD {
        Some(TokenType::Method)
    } else if kind == SYMBOL_PROPERTY || kind == SYMBOL_FIELD {
        Some(TokenType::Property)
    } else if kind == SYMBOL_VARIABLE {
        Some(TokenType::Variable)
    } else if kind == SYMBOL_ENUM_MEMBER {
        Some(TokenType::EnumMember)
    } else if kind == SYMBOL_OBJECT {
        Some(TokenType::Namespace)
    } else {
        None
    }
}

/// The token type of a call whose callee is a symbol of this kind: calling a
/// class or struct constructs it.
pub fn call_symbol_kind_to_token_type(kind: i32) -> (r: Option<TokenType>)
    ensures
        r == (if kind == SYMBOL_CLASS || kind == SYMBOL_STRUCT {
            Some(TokenType::Class)
        } else {
            symbol_type_of(kind)
        }),
{
    if kind == SYMBOL_CLASS || kind == SYMBOL_STRUCT {
        Some(TokenType::Class)
    } else {
        symbol_kind_to_token_type(kind)
    }
}

// ─── Ranges and receivers ────────────────────────────────────────────────────
/// Whether the lines of `inner` lie within the lines of `outer`.
pub fn range_within(inner: &Range, outer: &Range) -> (r: bool)
    ensures
        r == (inner.start.line >= outer.start.line && inner.end.line <= outer.end.line),
{
    inner.start.line >= outer.start.line && inner.end.line <= outer.end.line
}

/// `a` comes no later than `b` in a document.
pub open spec fn position_le(a: Position, b: Position) -> bool {
    a.line < b.line || (a.line == b.line && a.character <= b.character)
}

/// Whether `position` lies within `range`, both ends included.
pub fn range_contains(range: &Range, position: &Position) -> (r: bool)
    ensures
        r == (position_le(range.start, *position) && position_le(*position, range.end)),
{
    let after_start = range.start.line < position.line || (range.start.line == position.line
        && range.start.character <= position.character);
    let before_end = position.line < range.end.line || (position.line == range.end.line
        && position.character <= range.end.character);
    after_start && before_end
}

/// The last `.`-separated segment of a qualified name (the whole name when it has no `.`).
pub open spec fn last_segment(s: Seq<char>) -> Seq<char>
    decreases s.len(),
{
    if s.len() == 0 {
        s
    } else if s.last() == '.' {
        seq![]
    } else {
        last_segment(s.drop_last()).push(s.last())
    }
}

/// Whether an extension declared on `extension_receiver` applies to a
/// receiver of type `receiver_type`: the same name, or its last segment.
pub open spec fn receiver_matches(extension_receiver: Seq<char>, receiver_type: Seq<char>) -> bool {
    extension_receiver == receiver_type || extension_receiver == last_segment(receiver_type)
}

/// Whether an extension declared on `extension_receiver` applies to a
/// receiver of type `receiver_type` (matched in full or by its simple name).
pub fn matches_receiver_type(extension_receiver: &str, receiver_type: &str) -> (r: bool)
    ensures
        r == receiver_matches(extension_receiver@, receiver_type@),
{
    let ext = str_chars(extension_receiver);
    let recv = str_chars(receiver_type);
    let leaf = last_segment_chars(&recv);
    chars_equal(&ext, &recv) || chars_equal(&ext, &leaf)
}

/// The last `.`-separated segment of a qualified name.
pub fn last_segment_chars(recv: &Vec<char>) -> (leaf: Vec<char>)
    ensures
        leaf@ == last_segment(recv@),
{
    let mut start = recv.len();
    proof {
        assert(recv@.take(start as int) =~= recv@);
        assert(last_segment(recv@) + recv@.subrange(start as int, recv@.len() as int) =~= last_segment(recv@));
    }
    while start > 0 && recv[start - 1] != '.'
        invariant
            start <= recv@.len(),
            last_segment(recv@) == last_segment(recv@.take(start as int)) + recv@.subrange(
                start as int,
                recv@.len() as int,
            ),
        decreases start,
    {
        proof {
            let t = recv@.take(start as int);
            assert(t.drop_last() =~= recv@.take(start - 1));
            assert(last_segment(t) == last_segment(t.drop_last()).push(t.last()));
            assert(last_segment(recv@.take(start - 1)) + recv@.subrange(start - 1, recv@.len() as int)
                =~= last_segment(recv@.take(start - 1)).push(t.last()) + recv@.subrange(
                start as int,
                recv@.len() as int,
            ));
        }
        start = start - 1;
    }
    proof {
        let t = recv@.take(start as int);
        assert(last_segment(t) =~= Seq::<char>::empty());
        assert(last_segment(recv@) =~= recv@.subrange(start as int, recv@.len() as int));
    }
    let mut leaf: Vec<char> = Vec::new();
    let mut i = start;
    while i < recv.len()
        invariant
            start <= i <= recv@.len(),
            leaf@ == recv@.subrange(start as int, i as int),
        decreases recv@.len() - i,
    {
        leaf.push(recv[i]);
        assert(leaf@ =~= recv@.subrange(start as int, i + 1));
        i = i + 1;
    }
    leaf
}

/// The name that the LSP specification gives a symbol kind (`SymbolKind`),
/// with a lower-case first letter, for the kinds the index records.
pub open spec fn symbol_kind_name(kind: i32) -> Seq<char> {
    if kind == 3 {
        "namespace"@
    } else if kind == 5 {
        "class"@
    } else if kind == 6 {
        "method"@
    } else if kind == 7 {
        "property"@
    } else if kind == 8 {
        "field"@
    } else if kind == 10 {
        "enum"@
    } else if kind == 11 {
        "interface"@
    } else if kind == 12 {
        "function"@
    } else if kind == 13 {
        "variable"@
    } else if kind == 14 {
        "constant"@
    } else if kind == 19 {
        "object"@
    } else if kind == 22 {
        "enumMember"@
    } else if kind == 23 {
        "struct"@
    } else if kind == 25 {
        "operator"@
    } else {
        seq![]
    }
}

/// Law: a reference to a class, interface, enum, function, method,
/// property, variable or enum member is colored with the token type of the
/// same name; a struct is colored as a class, a field as a property and an
/// object as a namespace.
pub proof fn law_symbol_types_named_like_kinds(kind: i32)
    ensures
        (kind == SYMBOL_CLASS || kind == SYMBOL_INTERFACE || kind == SYMBOL_ENUM || kind == SYMBOL_FUNCTION
            || kind == SYMBOL_METHOD || kind == SYMBOL_PROPERTY || kind == SYMBOL_VARIABLE || kind
            == SYMBOL_ENUM_MEMBER) ==> (symbol_type_of(kind) matches Some(t) && token_type_name(t)
            == symbol_kind_name(kind)),
        kind == SYMBOL_STRUCT ==> (symbol_type_of(kind) matches Some(t) && token_type_name(t)
            == symbol_kind_name(SYMBOL_CLASS)),
        kind == SYMBOL_FIELD ==> (symbol_type_of(kind) matches Some(t) && token_type_name(t)
            == symbol_kind_name(SYMBOL_PROPERTY)),
        kind == SYMBOL_OBJECT ==> (symbol_type_of(kind) matches Some(t) && token_type_name(t)
            == symbol_kind_name(SYMBOL_NAMESPACE)),
{
}

/// Law: legend positions and token types correspond one to one, and so do
/// modifier positions and modifiers.
pub proof fn law_legend_positions(t: TokenType, m: TokenModifier, i: u32)
    ensures
        type_id(t) < TOKEN_TYPE_COUNT,
        type_at(type_id(t)) == t,
        i < TOKEN_TYPE_COUNT ==> type_id(type_at(i)) == i,
        modifier_id(m) < TOKEN_MODIFIER_COUNT,
        modifier_at(modifier_id(m)) == m,
        i < TOKEN_MODIFIER_COUNT ==> modifier_id(modifier_at(i)) == i,
{
}

/// The bit of the legend modifier that LSP clients know by `name` (0 when no
/// legend modifier has that name).
pub open spec fn modifier_named(name: Seq<char>) -> u32 {
    if modifier_name(modifier_at(0)) == name {
        1
    } else if modifier_name(modifier_at(1)) == name {
        2
    } else if modifier_name(modifier_at(2)) == name {
        4
    } else if modifier_name(modifier_at(3)) == name {
        8
    } else if modifier_name(modifier_at(4)) == name {
        16
    } else if modifier_name(modifier_at(5)) == name {
        32
    } else if modifier_name(modifier_at(6)) == name {
        64
    } else {
        0
    }
}

/// Law: the bit of each modifier is the bit at which the legend announces
/// its name.
pub proof fn law_modifier_bits_named(m: TokenModifier)
    ensures
        bit(m) == modifier_named(modifier_name(m)),
{
    reveal_strlit("declaration");
    reveal_strlit("readonly");
    reveal_strlit("static");
    reveal_strlit("abstract");
    reveal_strlit("async");
    reveal_strlit("deprecated");
    reveal_strlit("defaultLibrary");
    assert(1u32 << 0u32 == 1) by (bit_vector);
    assert(1u32 << 1u32 == 2) by (bit_vector);
    assert(1u32 << 2u32 == 4) by (bit_vector);
    assert(1u32 << 3u32 == 8) by (bit_vector);
    assert(1u32 << 4u32 == 16) by (bit_vector);
    assert(1u32 << 5u32 == 32) by (bit_vector);
    assert(1u32 << 6u32 == 64) by (bit_vector);
    match m {
        TokenModifier::Declaration => {

        },
        TokenModifier::Readonly => {
            assert("declaration"@.len() != "readonly"@.len() || "declaration"@[0] != "readonly"@[0]);
        },
        TokenModifier::Static => {
            assert("declaration"@.len() != "static"@.len() || "declaration"@[0] != "static"@[0]);
            assert("readonly"@.len() != "static"@.len() || "readonly"@[0] != "static"@[0]);
        },
        TokenModifier::Abstract => {
            assert("declaration"@.len() != "abstract"@.len() || "declaration"@[0] != "abstract"@[0]);
            assert("readonly"@.len() != "abstract"@.len() || "readonly"@[0] != "abstract"@[0]);
            assert("static"@.len() != "abstract"@.len() || "static"@[0] != "abstract"@[0]);
        },
        TokenModifier::Async => {
            assert("declaration"@.len() != "async"@.len() || "declaration"@[0] != "async"@[0]);
            assert("readonly"@.len() != "async"@.len() || "readonly"@[0] != "async"@[0]);
            assert("static"@.len() != "async"@.len() || "static"@[0] != "async"@[0]);
            assert("abstract"@.len() != "async"@.len() || "abstract"@[0] != "async"@[0]);
        },
        TokenModifier::Deprecated => {
            assert("declaration"@.len() != "deprecated"@.len() || "declaration"@[0] != "deprecated"@[0]);
            assert("readonly"@.len() != "deprecated"@.len() || "readonly"@[0] != "deprecated"@[0]);
            assert("static"@.len() != "deprecated"@.len() || "static"@[0] != "deprecated"@[0]);
            assert("abstract"@.len() != "deprecated"@.len() || "abstract"@[0] != "deprecated"@[0]);
            assert("async"@.len() != "deprecated"@.len() || "async"@[0] != "deprecated"@[0]);
        },
        TokenModifier::DefaultLibrary => {
            assert("declaration"@.len() != "defaultLibrary"@.len() || "declaration"@[0] != "defaultLibrary"@[0]);
            assert("readonly"@.len() != "defaultLibrary"@.len() || "readonly"@[0] != "defaultLibrary"@[0]);
            assert("static"@.len() != "defaultLibrary"@.len() || "static"@[0] != "defaultLibrary"@[0]);
            assert("abstract"@.len() != "defaultLibrary"@.len() || "abstract"@[0] != "defaultLibrary"@[0]);
            assert("async"@.len() != "defaultLibrary"@.len() || "async"@[0] != "defaultLibrary"@[0]);
            assert("deprecated"@.len() != "defaultLibrary"@.len() || "deprecated"@[0] != "defaultLibrary"@[0]);
        },
    }
}

/// Law: a member reference to a method, function or operator is colored as
/// the legend's `method`, one to a property, field, constant or variable as
/// its `property`; members of other kinds get no color.
pub proof fn law_member_types_named(kind: i32)
    ensures
        (kind == SYMBOL_METHOD || kind == SYMBOL_FUNCTION || kind == SYMBOL_OPERATOR) ==> (member_type_of(
            kind,
        ) matches Some(t) && token_type_name(t) == symbol_kind_name(SYMBOL_METHOD)),
        (kind == SYMBOL_PROPERTY || kind == SYMBOL_FIELD || kind == SYMBOL_CONSTANT || kind
            == SYMBOL_VARIABLE) ==> (member_type_of(kind) matches Some(t) && token_type_name(t)
            == symbol_kind_name(SYMBOL_PROPERTY)),
        member_type_of(kind) is Some <==> member_kind(kind),
{
}

/// The bits of the modifiers the classification uses, found by name.
pub proof fn lemma_named_modifier_bits()
    ensures
        modifier_named("declaration"@) == 1,
        modifier_named("readonly"@) == 2,
        modifier_named("static"@) == 4,
        modifier_named("abstract"@) == 8,
        modifier_named("async"@) == 16,
{
    reveal_strlit("declaration");
    reveal_strlit("readonly");
    reveal_strlit("static");
    reveal_strlit("abstract");
    reveal_strlit("async");
    reveal_strlit("deprecated");
    reveal_strlit("defaultLibrary");
    assert("declaration"@.len() != "readonly"@.len() || "declaration"@[0] != "readonly"@[0]);
    assert("declaration"@.len() != "static"@.len() || "declaration"@[0] != "static"@[0]);
    assert("readonly"@.len() != "static"@.len() || "readonly"@[0] != "static"@[0]);
    assert("declaration"@.len() != "abstract"@.len() || "declaration"@[0] != "abstract"@[0]);
    assert("readonly"@.len() != "abstract"@.len() || "readonly"@[0] != "abstract"@[0]);
    assert("static"@.len() != "abstract"@.len() || "static"@[0] != "abstract"@[0]);
    assert("declaration"@.len() != "async"@.len() || "declaration"@[0] != "async"@[0]);
    assert("readonly"@.len() != "async"@.len() || "readonly"@[0] != "async"@[0]);
    assert("static"@.len() != "async"@.len() || "static"@[0] != "async"@[0]);
    assert("abstract"@.len() != "async"@.len() || "abstract"@[0] != "async"@[0]);
}

} // verus!
