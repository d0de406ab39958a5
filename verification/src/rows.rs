//! Token rows: the semantic tokens of a document at absolute positions, with
//! the names of their type and modifiers and the text they cover, as the
//! `tokens` debug subcommand lists them.
use crate::classify::{cst_raw, cst_tokens, tokens_from_nodes};
use crate::encoding::{RawToken, canonical, restrict, delta_decode, law_response, law_canonical, first_occurrence};
use crate::gradle::string_views;
use crate::legend::{
    TokenType, TokenModifier, TOKEN_MODIFIER_COUNT, TOKEN_TYPE_COUNT, type_at, token_type_name,
    modifier_name, modifiers_in, decode_modifiers,
};
use crate::syntax::{FlatNode, FlatModel, Language, flat_models, parse_nodes};
use crate::text::{char_views, chars_to_string, lines, split_lines, str_chars};
use crate::utf::utf16_width;
use vstd::prelude::*;
use vstd::utf8::encode_utf8;

verus! {

/// One token of a document at its absolute position.
pub struct TokenRow {
    pub line: u32,
    pub col: u32,
    pub len: u32,
    /// The token type as `SemanticTokenType("class")`, or `#id` outside the legend.
    pub token_type: String,
    /// The modifiers as `SemanticTokenModifier("declaration")`, in legend order.
    pub modifiers: Vec<String>,
    /// The characters of the line that the token covers.
    pub text: String,
}

/// The mathematical value of a [`TokenRow`].
pub struct RowModel {
    pub line: u32,
    pub col: u32,
    pub len: u32,
    pub token_type: Seq<char>,
    pub modifiers: Seq<Seq<char>>,
    pub text: Seq<char>,
}

impl View for TokenRow {
    type V = RowModel;

    open spec fn view(&self) -> RowModel {
        RowModel {
            line: self.line,
            col: self.col,
            len: self.len,
            token_type: self.token_type@,
            modifiers: string_views(self.modifiers@),
            text: self.text@,
        }
    }
}

/// The decimal digit `d < 10`.
pub open spec fn digit(d: int) -> char {
    if d == 0 {
        '0'
    } else if d == 1 {
        '1'
    } else if d == 2 {
        '2'
    } else if d == 3 {
        '3'
    } else if d == 4 {
        '4'
    } else if d == 5 {
        '5'
    } else if d == 6 {
        '6'
    } else if d == 7 {
        '7'
    } else if d == 8 {
        '8'
    } else {
        '9'
    }
}

/// The decimal notation of `n`.
pub open spec fn decimal(n: nat) -> Seq<char>
    decreases n,
{
    if n < 10 {
        seq![digit(n as int)]
    } else {
        decimal(n / 10) + seq![digit((n % 10) as int)]
    }
}

/// How a token type id is shown: the `Debug` form of the legend's type, or
/// `#` and the id when it lies outside the legend.
pub open spec fn type_label(id: u32) -> Seq<char> {
    if id < TOKEN_TYPE_COUNT {
        "SemanticTokenType(\""@ + token_type_name(type_at(id)) + "\")"@
    } else {
        "#"@ + decimal(id as nat)
    }
}

/// How a modifier is shown: its `Debug` form.
pub open spec fn modifier_label(m: TokenModifier) -> Seq<char> {
    "SemanticTokenModifier(\""@ + modifier_name(m) + "\")"@
}

/// How many characters of `line` start before UTF-16 column `col`: the
/// characters are taken while fewer than `col` UTF-16 units precede them.
pub open spec fn col_chars(line: Seq<char>, col: int) -> int
    decreases line.len(),
{
    if line.len() == 0 || col <= 0 {
        0
    } else {
        1 + col_chars(line.drop_first(), col - utf16_width(line[0]))
    }
}

/// The characters of its line that a token covers: from its column to its
/// column plus its length (UTF-16 units); nothing when its line does not exist.
pub open spec fn covered_text(ls: Seq<Seq<char>>, t: RawToken) -> Seq<char> {
    if t.line < ls.len() {
        let l = ls[t.line as int];
        l.subrange(col_chars(l, t.col as int), col_chars(l, t.col + t.length))
    } else {
        seq![]
    }
}

/// The row of token `t` of a document whose lines are `ls`.
pub open spec fn row_of(t: RawToken, ls: Seq<Seq<char>>) -> RowModel {
    RowModel {
        line: t.line,
        col: t.col,
        len: t.length,
        token_type: type_label(t.token_type),
        modifiers: modifiers_in(t.token_modifiers_bitset, TOKEN_MODIFIER_COUNT).map_values(
            |m: TokenModifier| modifier_label(m),
        ),
        text: covered_text(ls, t),
    }
}

/// The rows of the declaration tokens of `text`: one per token of the
/// response for the whole document, in order.
pub open spec fn rows_of(text: Seq<char>, language: Language) -> Option<Seq<RowModel>> {
    match cst_raw(text, language) {
        Some(raw) => Some(restrict(canonical(raw), None).map_values(|t: RawToken| row_of(t, lines(text)))),
        None => None,
    }
}

/// The values of optional rows.
pub open spec fn rows_option(o: Option<Vec<TokenRow>>) -> Option<Seq<RowModel>> {
    match o {
        Some(v) => Some(v@.map_values(|r: TokenRow| r@)),
        None => None,
    }
}

proof fn lemma_col_chars_bounds(line: Seq<char>, a: int, b: int)
    requires
        a <= b,
    ensures
        0 <= col_chars(line, a) <= col_chars(line, b) <= line.len(),
    decreases line.len(),
{
    if line.len() > 0 && a > 0 {
        lemma_col_chars_bounds(line.drop_first(), a - utf16_width(line[0]), b - utf16_width(line[0]));
    } else if line.len() > 0 && b > 0 {
        lemma_col_chars_bounds(line.drop_first(), b - utf16_width(line[0]), b - utf16_width(line[0]));
    }
}

/// The decimal digit `d < 10`.
fn digit_char(d: u32) -> (c: char)
    requires
        d < 10,
    ensures
        c == digit(d as int),
{
    if d == 0 {
        '0'
    } else if d == 1 {
        '1'
    } else if d == 2 {
        '2'
    } else if d == 3 {
        '3'
    } else if d == 4 {
        '4'
    } else if d == 5 {
        '5'
    } else if d == 6 {
        '6'
    } else if d == 7 {
        '7'
    } else if d == 8 {
        '8'
    } else {
        '9'
    }
}

/// The decimal notation of `n`.
fn decimal_chars(n: u32) -> (r: Vec<char>)
    ensures
        r@ == decimal(n as nat),
    decreases n,
{
    if n < 10 {
        let mut v: Vec<char> = Vec::new();
        v.push(digit_char(n));
        assert(v@ =~= seq![digit(n as int)]);
        v
    } else {
        let mut v = decimal_chars(n / 10);
        v.push(digit_char(n % 10));
        assert(v@ =~= decimal((n / 10) as nat) + seq![digit((n % 10) as int)]);
        v
    }
}

/// The characters of `a`, then `b`, then `c`.
fn concat3(a: &str, b: &str, c: &str) -> (r: String)
    ensures
        r@ == a@ + b@ + c@,
{
    let mut v = str_chars(a);
    let mut w = str_chars(b);
    let mut x = str_chars(c);
    v.append(&mut w);
    v.append(&mut x);
    chars_to_string(v.as_slice())
}

/// How a token type id is shown.
pub fn type_label_of(id: u32) -> (r: String)
    ensures
        r@ == type_label(id),
{
    match TokenType::from_index(id) {
        Some(t) => concat3("SemanticTokenType(\"", t.lsp_name(), "\")"),
        None => {
            let mut v = str_chars("#");
            let mut d = decimal_chars(id);
            v.append(&mut d);
            chars_to_string(v.as_slice())
        },
    }
}

/// How the modifiers of a bitset are shown, in legend order.
pub fn modifier_labels(bits: u32) -> (r: Vec<String>)
    ensures
        string_views(r@) == modifiers_in(bits, TOKEN_MODIFIER_COUNT).map_values(
            |m: TokenModifier| modifier_label(m),
        ),
{
    let ms = decode_modifiers(bits);
    let mut out: Vec<String> = Vec::new();
    let mut i: usize = 0;
    while i < ms.len()
        invariant
            i <= ms@.len(),
            string_views(out@) =~= ms@.take(i as int).map_values(|m: TokenModifier| modifier_label(m)),
        decreases ms@.len() - i,
    {
        let s = concat3("SemanticTokenModifier(\"", ms[i].lsp_name(), "\")");
        let ghost before = out@;
        out.push(s);
        assert(string_views(out@) =~= string_views(before).push(s@));
        assert(ms@.take(i + 1).map_values(|m: TokenModifier| modifier_label(m)) =~= ms@.take(
            i as int,
        ).map_values(|m: TokenModifier| modifier_label(m)).push(modifier_label(ms@[i as int])));
        i = i + 1;
    }
    assert(ms@.take(ms@.len() as int) =~= ms@);
    out
}

/// How many characters of `line` start before UTF-16 column `col`.
fn col_chars_of(line: &Vec<char>, col: u64) -> (r: usize)
    ensures
        r == col_chars(line@, col as int),
{
    let mut i: usize = 0;
    let mut remaining: u64 = col;
    proof {
        assert(line@.subrange(0, line@.len() as int) =~= line@);
    }
    while i < line.len() && remaining > 0
        invariant
            i <= line@.len(),
            col_chars(line@, col as int) == i + col_chars(
                line@.subrange(i as int, line@.len() as int),
                remaining as int,
            ),
        decreases line@.len() - i,
    {
        let ghost rest = line@.subrange(i as int, line@.len() as int);
        let c = line[i];
        let w: u64 = if (c as u32) >= 0x10000 {
            2
        } else {
            1
        };
        proof {
            assert(rest[0] == c);
            assert(rest.drop_first() =~= line@.subrange(i + 1, line@.len() as int));
            assert(w == utf16_width(c));
        }
        if remaining <= w {
            proof {
                let next = line@.subrange(i + 1, line@.len() as int);
                assert(col_chars(next, remaining - w) == 0);
                assert(col_chars(next, 0) == 0);
            }
            remaining = 0;
        } else {
            remaining = remaining - w;
        }
        i = i + 1;
    }
    i
}

/// The characters of `line[from..to]`, as a `String`.
fn slice_string(line: &Vec<char>, from: usize, to: usize) -> (r: String)
    requires
        from <= to <= line@.len(),
    ensures
        r@ == line@.subrange(from as int, to as int),
{
    let v = crate::text::copy_range(line, from, to);
    chars_to_string(v.as_slice())
}

/// The row of token `t` of a document whose lines are `ls`.
fn row_for(t: RawToken, ls: &Vec<Vec<char>>) -> (r: TokenRow)
    ensures
        r@ == row_of(t, char_views(ls@)),
{
    let text = if (t.line as usize) < ls.len() {
        let l = &ls[t.line as usize];
        assert(char_views(ls@)[t.line as int] == l@);
        let a = col_chars_of(l, t.col as u64);
        let b = col_chars_of(l, t.col as u64 + t.length as u64);
        proof {
            lemma_col_chars_bounds(l@, t.col as int, t.col + t.length);
        }
        slice_string(l, a, b)
    } else {
        let e = String::new();
        assert(e@ =~= Seq::<char>::empty());
        e
    };
    TokenRow {
        line: t.line,
        col: t.col,
        len: t.length,
        token_type: type_label_of(t.token_type),
        modifiers: modifier_labels(t.token_modifiers_bitset),
        text: text,
    }
}

/// The rows of the declaration tokens of a tree of the document `text`.
pub open spec fn rows_for(ns: Seq<FlatModel>, text: Seq<char>, language: Language) -> Seq<RowModel> {
    restrict(canonical(cst_tokens(ns, encode_utf8(text), language)), None).map_values(
        |t: RawToken| row_of(t, lines(text)),
    )
}

/// The rows of the declaration tokens of a parsed document `content`, in
/// position order.
pub fn rows_from_nodes(nodes: &Vec<FlatNode>, content: &str, language: Language) -> (r: Vec<TokenRow>)
    ensures
        r@.map_values(|x: TokenRow| x@) == rows_for(flat_models(nodes@), content@, language),
{
    let src = content.as_bytes();
    assert(src@ == encode_utf8(content@));
    let ghost raw = cst_tokens(flat_models(nodes@), src@, language);
    let ghost kept = restrict(canonical(raw), None);
    let encoded = tokens_from_nodes(nodes, src, language, None);
    proof {
        law_response(raw, None);
    }
    let decoded = delta_decode(&encoded);
    let ls = split_lines(&str_chars(content));
    let mut out: Vec<TokenRow> = Vec::new();
    let mut i: usize = 0;
    while i < decoded.len()
        invariant
            i <= decoded@.len(),
            decoded@ == kept,
            char_views(ls@) == lines(content@),
            out@.map_values(|x: TokenRow| x@) =~= kept.take(i as int).map_values(
                |t: RawToken| row_of(t, lines(content@)),
            ),
        decreases decoded@.len() - i,
    {
        let row = row_for(decoded[i], &ls);
        let ghost before = out@;
        out.push(row);
        assert(out@.map_values(|x: TokenRow| x@) =~= before.map_values(|x: TokenRow| x@).push(row@));
        assert(kept.take(i + 1).map_values(|t: RawToken| row_of(t, lines(content@))) =~= kept.take(
            i as int,
        ).map_values(|t: RawToken| row_of(t, lines(content@))).push(row_of(kept[i as int], lines(content@))));
        i = i + 1;
    }
    assert(kept.take(i as int) =~= kept);
    out
}

/// The rows of the declaration tokens of `content`, in position order;
/// `None` when the content cannot be parsed.
pub fn token_rows_of(content: &str, language: Language) -> (r: Option<Vec<TokenRow>>)
    ensures
        rows_option(r) == rows_of(content@, language),
{
    match language {
        Language::Swift => {
            let out: Vec<TokenRow> = Vec::new();
            proof {
                let raw: Seq<RawToken> = seq![];
                law_canonical(raw);
                let c = canonical(raw);
                if c.len() > 0 {
                    assert(first_occurrence(raw, c[0], 0));
                }
                assert(restrict(c, None).map_values(|t: RawToken| row_of(t, lines(content@))) =~= Seq::<
                    RowModel,
                >::empty());
                assert(out@.map_values(|x: TokenRow| x@) =~= Seq::<RowModel>::empty());
            }
            Some(out)
        },
        _ => match parse_nodes(content, language) {
            Some(nodes) => Some(rows_from_nodes(&nodes, content, language)),
            None => None,
        },
    }
}

} // verus!
