//! Semantic tokens at absolute positions, and their LSP delta encoding.
//!
//! LSP semantic tokens are delta-encoded: each token stores the line delta
//! from the previous token and the column delta (from the previous token on
//! the same line, or from column 0 on a new line).  Tokens must be sorted by
//! (line, col) before encoding.
use vstd::prelude::*;

verus! {

/// A classified token at an absolute position (line, UTF-16 column).
#[derive(Clone, Copy, Debug, PartialEq, Eq)]
pub struct RawToken {
    pub line: u32,
    pub col: u32,
    pub length: u32,
    pub token_type: u32,
    pub token_modifiers_bitset: u32,
}

/// A delta-encoded token, as carried in an LSP semantic-tokens response.
#[derive(Clone, Copy, Debug, PartialEq, Eq)]
pub struct SemanticToken {
    pub delta_line: u32,
    pub delta_start: u32,
    pub length: u32,
    pub token_type: u32,
    pub token_modifiers_bitset: u32,
}

/// The position of a token as one integer: tokens are ordered by line, then column.
pub open spec fn key(t: RawToken) -> int {
    t.line as int * 0x1_0000_0000 + t.col as int
}

/// Each token starts at or after the previous one.
pub open spec fn is_sorted(s: Seq<RawToken>) -> bool {
    forall|i: int| 0 < i < s.len() ==> key(#[trigger] s[i - 1]) <= key(s[i])
}

/// The delta encoding of token `i` of `s`, relative to token `i - 1`
/// (or to line 0, column 0 for the first token).
pub open spec fn encode_at(s: Seq<RawToken>, i: int) -> SemanticToken {
    let prev_line: int = if i == 0 { 0 } else { s[i - 1].line as int };
    let prev_col: int = if i == 0 { 0 } else { s[i - 1].col as int };
    let delta_line = s[i].line - prev_line;
    SemanticToken {
        delta_line: delta_line as u32,
        delta_start: (if delta_line == 0 { s[i].col - prev_col } else { s[i].col as int }) as u32,
        length: s[i].length,
        token_type: s[i].token_type,
        token_modifiers_bitset: s[i].token_modifiers_bitset,
    }
}

/// The delta encoding of a token sequence.
pub open spec fn encode(s: Seq<RawToken>) -> Seq<SemanticToken> {
    Seq::new(s.len(), |i: int| encode_at(s, i))
}

/// The absolute (line, column) reached after reading the first `n` encoded tokens.
pub open spec fn decoded_position(e: Seq<SemanticToken>, n: nat) -> (int, int)
    decreases n,
{
    if n == 0 || n > e.len() {
        (0, 0)
    } else {
        let prev = decoded_position(e, (n - 1) as nat);
        let t = e[n - 1];
        (
            prev.0 + t.delta_line,
            if t.delta_line > 0 { t.delta_start as int } else { prev.1 + t.delta_start },
        )
    }
}

/// Decoding cannot leave the range of `u32`.
pub open spec fn decodable(e: Seq<SemanticToken>) -> bool {
    forall|n: nat|
        n <= e.len() ==> {
            &&& 0 <= #[trigger] decoded_position(e, n).0 <= u32::MAX
            &&& 0 <= decoded_position(e, n).1 <= u32::MAX
        }
}

/// The token at index `i` of the decoded sequence.
pub open spec fn decode_at(e: Seq<SemanticToken>, i: int) -> RawToken {
    let p = decoded_position(e, (i + 1) as nat);
    RawToken {
        line: p.0 as u32,
        col: p.1 as u32,
        length: e[i].length,
        token_type: e[i].token_type,
        token_modifiers_bitset: e[i].token_modifiers_bitset,
    }
}

/// The absolute tokens that a delta-encoded sequence stands for.
pub open spec fn decode(e: Seq<SemanticToken>) -> Seq<RawToken> {
    Seq::new(e.len(), |i: int| decode_at(e, i))
}

/// Delta-encodes tokens that are sorted by position.
pub fn delta_encode(sorted: &Vec<RawToken>) -> (result: Vec<SemanticToken>)
    requires
        is_sorted(sorted@),
    ensures
        result@ == encode(sorted@),
{
    let mut result: Vec<SemanticToken> = Vec::with_capacity(sorted.len());
    let mut prev_line: u32 = 0;
    let mut prev_start: u32 = 0;
    let mut i: usize = 0;
    while i < sorted.len()
        invariant
            i <= sorted.len(),
            is_sorted(sorted@),
            result@.len() == i,
            forall|k: int| 0 <= k < i ==> result@[k] == encode_at(sorted@, k),
            i == 0 ==> prev_line == 0 && prev_start == 0,
            i > 0 ==> prev_line == sorted@[i - 1].line && prev_start == sorted@[i - 1].col,
        decreases sorted.len() - i,
    {
        let tok = sorted[i];
        proof {
            if i > 0 {
                assert(key(sorted@[i - 1]) <= key(sorted@[i as int]));
            }
        }
        let delta_line = tok.line - prev_line;
        let delta_start = if delta_line == 0 {
            tok.col - prev_start
        } else {
            tok.col
        };
        result.push(
            SemanticToken {
                delta_line,
                delta_start,
                length: tok.length,
                token_type: tok.token_type,
                token_modifiers_bitset: tok.token_modifiers_bitset,
            },
        );
        prev_line = tok.line;
        prev_start = tok.col;
        i = i + 1;
    }
    result
}

/// Reads a delta-encoded token stream back into absolute positions.
pub fn delta_decode(encoded: &Vec<SemanticToken>) -> (result: Vec<RawToken>)
    requires
        decodable(encoded@),
    ensures
        result@ == decode(encoded@),
{
    let mut result: Vec<RawToken> = Vec::with_capacity(encoded.len());
    let mut line: u32 = 0;
    let mut col: u32 = 0;
    let mut i: usize = 0;
    while i < encoded.len()
        invariant
            i <= encoded.len(),
            decodable(encoded@),
            result@.len() == i,
            forall|k: int| 0 <= k < i ==> result@[k] == decode_at(encoded@, k),
            line as int == decoded_position(encoded@, i as nat).0,
            col as int == decoded_position(encoded@, i as nat).1,
        decreases encoded.len() - i,
    {
        let t = encoded[i];
        assert(0 <= decoded_position(encoded@, (i + 1) as nat).0 <= u32::MAX);
        assert(0 <= decoded_position(encoded@, (i + 1) as nat).1 <= u32::MAX);
        line = line + t.delta_line;
        if t.delta_line > 0 {
            col = t.delta_start;
        } else {
            col = col + t.delta_start;
        }
        result.push(
            RawToken {
                line,
                col,
                length: t.length,
                token_type: t.token_type,
                token_modifiers_bitset: t.token_modifiers_bitset,
            },
        );
        i = i + 1;
    }
    result
}

proof fn lemma_decode_encode_positions(s: Seq<RawToken>, n: nat)
    requires
        is_sorted(s),
        1 <= n <= s.len(),
    ensures
        decoded_position(encode(s), n) == (s[n - 1].line as int, s[n - 1].col as int),
    decreases n,
{
    let e = encode(s);
    assert(e[n - 1] == encode_at(s, n - 1));
    let t = e[n - 1];
    let prev = decoded_position(e, (n - 1) as nat);
    assert(decoded_position(e, n) == (
        prev.0 + t.delta_line,
        if t.delta_line > 0 { t.delta_start as int } else { prev.1 + t.delta_start },
    ));
    if n > 1 {
        lemma_decode_encode_positions(s, (n - 1) as nat);
        assert(key(s[n - 2]) <= key(s[n - 1]));
        assert(s[n - 2].line <= s[n - 1].line);
        assert(s[n - 2].line == s[n - 1].line ==> s[n - 2].col <= s[n - 1].col);
        assert(prev == (s[n - 2].line as int, s[n - 2].col as int));
        assert(t.delta_line == s[n - 1].line - s[n - 2].line);
    } else {
        assert(prev == (0int, 0int));
        assert(t.delta_line == s[0].line);
    }
}

/// Decoding the encoding of a sorted token sequence gives back the same tokens.
pub proof fn law_decode_encode(s: Seq<RawToken>)
    requires
        is_sorted(s),
    ensures
        decodable(encode(s)),
        decode(encode(s)) == s,
{
    assert forall|n: nat| n <= encode(s).len() implies {
        &&& 0 <= #[trigger] decoded_position(encode(s), n).0 <= u32::MAX
        &&& 0 <= decoded_position(encode(s), n).1 <= u32::MAX
    } by {
        if n >= 1 {
            lemma_decode_encode_positions(s, n);
        }
    }
    assert forall|i: int| 0 <= i < s.len() implies #[trigger] decode(encode(s))[i] == s[i] by {
        lemma_decode_encode_positions(s, (i + 1) as nat);
    }
    assert(decode(encode(s)) =~= s);
}

proof fn lemma_decoded_positions_sorted(e: Seq<SemanticToken>, i: int)
    requires
        decodable(e),
        0 < i < e.len(),
    ensures
        key(decode(e)[i - 1]) <= key(decode(e)[i]),
{
    let a = decoded_position(e, i as nat);
    let b = decoded_position(e, (i + 1) as nat);
    assert(0 <= a.0 <= u32::MAX && 0 <= a.1 <= u32::MAX);
    assert(0 <= b.0 <= u32::MAX && 0 <= b.1 <= u32::MAX);
}

/// Every stream that decodes within range decodes to sorted tokens.
pub proof fn law_decode_is_sorted(e: Seq<SemanticToken>)
    requires
        decodable(e),
    ensures
        is_sorted(decode(e)),
{
    assert forall|i: int| 0 < i < decode(e).len() implies key(#[trigger] decode(e)[i - 1]) <= key(
        decode(e)[i],
    ) by {
        lemma_decoded_positions_sorted(e, i);
    }
}

/// Encoding the decoding of a stream gives back the same stream.
pub proof fn law_encode_decode(e: Seq<SemanticToken>)
    requires
        decodable(e),
    ensures
        encode(decode(e)) == e,
{
    law_decode_is_sorted(e);
    assert forall|i: int| 0 <= i < e.len() implies #[trigger] encode(decode(e))[i] == e[i] by {
        let b = decoded_position(e, (i + 1) as nat);
        assert(0 <= b.0 <= u32::MAX && 0 <= b.1 <= u32::MAX);
        if i > 0 {
            let a = decoded_position(e, i as nat);
            assert(0 <= a.0 <= u32::MAX && 0 <= a.1 <= u32::MAX);
        }
    }
    assert(encode(decode(e)) =~= e);
}


/// A position in a document: zero-based line and UTF-16 character offset.
#[derive(Clone, Copy, Debug, PartialEq, Eq)]
pub struct Position {
    pub line: u32,
    pub character: u32,
}

/// A span of a document between two positions.
#[derive(Clone, Copy, Debug, PartialEq, Eq)]
pub struct Range {
    pub start: Position,
    pub end: Position,
}

/// Keys strictly increase along `s`: no two tokens share a position.
pub open spec fn strictly_sorted(s: Seq<RawToken>) -> bool {
    forall|i: int, j: int| 0 <= i < j < s.len() ==> key(#[trigger] s[i]) < key(#[trigger] s[j])
}

/// Some token of `s` sits at position `x`.
pub open spec fn has_key(s: Seq<RawToken>, x: int) -> bool {
    exists|q: int| 0 <= q < s.len() && key(#[trigger] s[q]) == x
}

/// No token before index `j` of `raw` sits at the position of `raw[j]`.
pub open spec fn is_first(raw: Seq<RawToken>, j: int) -> bool {
    forall|m: int| 0 <= m < j ==> key(#[trigger] raw[m]) != key(raw[j])
}

/// `t` is, among the first `bound` tokens of `raw`, the first one at its position.
pub open spec fn first_occurrence(raw: Seq<RawToken>, t: RawToken, bound: int) -> bool {
    exists|j: int| 0 <= j < bound && raw[j] == t && is_first(raw, j)
}

/// `c` lists, by increasing position, the first token of `raw` at each position
/// that occurs in `raw`: what a stable sort by (line, col) followed by dropping
/// all but the first token at each position produces.
pub open spec fn first_per_position(raw: Seq<RawToken>, c: Seq<RawToken>) -> bool {
    &&& strictly_sorted(c)
    &&& forall|k: int| 0 <= k < c.len() ==> first_occurrence(raw, #[trigger] c[k], raw.len() as int)
    &&& forall|j: int| 0 <= j < raw.len() ==> has_key(c, key(#[trigger] raw[j]))
}

/// The tokens of `raw`, ordered by position, keeping the first token at each position.
pub open spec fn canonical(raw: Seq<RawToken>) -> Seq<RawToken> {
    choose|c: Seq<RawToken>| first_per_position(raw, c)
}

/// The tokens of `s` whose line lies within the lines of `range`, when one is given.
pub open spec fn restrict(s: Seq<RawToken>, range: Option<Range>) -> Seq<RawToken> {
    match range {
        None => s,
        Some(r) => s.filter(|t: RawToken| r.start.line <= t.line && t.line <= r.end.line),
    }
}

proof fn lemma_same_keys_same_order(c1: Seq<RawToken>, c2: Seq<RawToken>)
    requires
        strictly_sorted(c1),
        strictly_sorted(c2),
        forall|i: int| 0 <= i < c1.len() ==> has_key(c2, key(#[trigger] c1[i])),
        forall|i: int| 0 <= i < c2.len() ==> has_key(c1, key(#[trigger] c2[i])),
    ensures
        c1.len() == c2.len(),
        forall|i: int| 0 <= i < c1.len() ==> key(#[trigger] c1[i]) == key(c2[i]),
    decreases c1.len(),
{
    if c1.len() == 0 {
        if c2.len() > 0 {
            assert(has_key(c1, key(c2[0])));
        }
    } else {
        assert(has_key(c2, key(c1[0])));
        let m = choose|q: int| 0 <= q < c2.len() && key(#[trigger] c2[q]) == key(c1[0]);
        assert(has_key(c1, key(c2[0])));
        let m2 = choose|q: int| 0 <= q < c1.len() && key(#[trigger] c1[q]) == key(c2[0]);
        if m > 0 {
            assert(key(c2[0]) < key(c2[m]));
            if m2 > 0 {
                assert(key(c1[0]) < key(c1[m2]));
            }
            assert(false);
        }
        let d1 = c1.drop_first();
        let d2 = c2.drop_first();
        assert forall|i: int| 0 <= i < d1.len() implies has_key(d2, key(#[trigger] d1[i])) by {
            assert(d1[i] == c1[i + 1]);
            assert(has_key(c2, key(c1[i + 1])));
            let q = choose|q: int| 0 <= q < c2.len() && key(#[trigger] c2[q]) == key(c1[i + 1]);
            assert(key(c1[0]) < key(c1[i + 1]));
            assert(q != 0);
            assert(d2[q - 1] == c2[q]);
        }
        assert forall|i: int| 0 <= i < d2.len() implies has_key(d1, key(#[trigger] d2[i])) by {
            assert(d2[i] == c2[i + 1]);
            assert(has_key(c1, key(c2[i + 1])));
            let q = choose|q: int| 0 <= q < c1.len() && key(#[trigger] c1[q]) == key(c2[i + 1]);
            assert(key(c2[0]) < key(c2[i + 1]));
            assert(q != 0);
            assert(d1[q - 1] == c1[q]);
        }
        assert forall|i: int, j: int| 0 <= i < j < d1.len() implies key(#[trigger] d1[i]) < key(
            #[trigger] d1[j],
        ) by {
            assert(d1[i] == c1[i + 1] && d1[j] == c1[j + 1]);
        }
        assert forall|i: int, j: int| 0 <= i < j < d2.len() implies key(#[trigger] d2[i]) < key(
            #[trigger] d2[j],
        ) by {
            assert(d2[i] == c2[i + 1] && d2[j] == c2[j + 1]);
        }
        lemma_same_keys_same_order(d1, d2);
        assert forall|i: int| 0 <= i < c1.len() implies key(#[trigger] c1[i]) == key(c2[i]) by {
            if i > 0 {
                assert(c1[i] == d1[i - 1] && c2[i] == d2[i - 1]);
            }
        }
    }
}

/// Distinct positions pin down distinct tokens: keys equal iff line and column equal.
proof fn lemma_key_injective(a: RawToken, b: RawToken)
    ensures
        key(a) == key(b) <==> (a.line == b.line && a.col == b.col),
        key(a) < key(b) <==> (a.line < b.line || (a.line == b.line && a.col < b.col)),
{
}

/// There is exactly one sequence listing, by position, the first token of `raw`
/// at each of its positions.
pub proof fn law_first_per_position_unique(raw: Seq<RawToken>, c1: Seq<RawToken>, c2: Seq<RawToken>)
    requires
        first_per_position(raw, c1),
        first_per_position(raw, c2),
    ensures
        c1 == c2,
{
    assert forall|i: int| 0 <= i < c1.len() implies has_key(c2, key(#[trigger] c1[i])) by {
        assert(first_occurrence(raw, c1[i], raw.len() as int));
        let j = choose|j: int| 0 <= j < raw.len() && raw[j] == c1[i] && is_first(raw, j);
        assert(has_key(c2, key(raw[j])));
    }
    assert forall|i: int| 0 <= i < c2.len() implies has_key(c1, key(#[trigger] c2[i])) by {
        assert(first_occurrence(raw, c2[i], raw.len() as int));
        let j = choose|j: int| 0 <= j < raw.len() && raw[j] == c2[i] && is_first(raw, j);
        assert(has_key(c1, key(raw[j])));
    }
    lemma_same_keys_same_order(c1, c2);
    assert forall|i: int| 0 <= i < c1.len() implies #[trigger] c1[i] == c2[i] by {
        assert(first_occurrence(raw, c1[i], raw.len() as int));
        assert(first_occurrence(raw, c2[i], raw.len() as int));
        let j1 = choose|j: int| 0 <= j < raw.len() && raw[j] == c1[i] && is_first(raw, j);
        let j2 = choose|j: int| 0 <= j < raw.len() && raw[j] == c2[i] && is_first(raw, j);
        assert(key(raw[j1]) == key(raw[j2]));
        if j1 < j2 {
            assert(key(raw[j1]) != key(raw[j2]));
        } else if j2 < j1 {
            assert(key(raw[j2]) != key(raw[j1]));
        }
    }
    assert(c1 =~= c2);
}

/// Orders tokens by position and keeps, at each position, the token that came
/// first in `raw` (a stable sort by (line, col) followed by removing later
/// duplicates).
pub fn sort_and_dedup(raw: &Vec<RawToken>) -> (out: Vec<RawToken>)
    ensures
        first_per_position(raw@, out@),
        out@ == canonical(raw@),
{
    let mut out: Vec<RawToken> = Vec::new();
    let mut i: usize = 0;
    while i < raw.len()
        invariant
            i <= raw.len(),
            strictly_sorted(out@),
            forall|k: int| 0 <= k < out@.len() ==> first_occurrence(raw@, #[trigger] out@[k], i as int),
            forall|j: int| 0 <= j < i ==> has_key(out@, key(#[trigger] raw@[j])),
        decreases raw.len() - i,
    {
        let t = raw[i];
        let mut p: usize = out.len();
        while p > 0 && (out[p - 1].line > t.line || (out[p - 1].line == t.line && out[p - 1].col > t.col))
            invariant
                p <= out@.len(),
                forall|q: int| p <= q < out@.len() ==> key(#[trigger] out@[q]) > key(t),
            decreases p,
        {
            proof {
                lemma_key_injective(out@[p - 1], t);
            }
            p = p - 1;
        }
        proof {
            if p > 0 {
                lemma_key_injective(out@[p - 1], t);
            }
        }
        if p > 0 && out[p - 1].line == t.line && out[p - 1].col == t.col {
            assert(key(out@[p - 1]) == key(raw@[i as int]));
            assert forall|j: int| 0 <= j < i + 1 implies has_key(out@, key(#[trigger] raw@[j])) by {
                if j == i {
                    assert(key(out@[p - 1]) == key(raw@[j]));
                }
            }
            assert forall|k: int| 0 <= k < out@.len() implies first_occurrence(
                raw@,
                #[trigger] out@[k],
                i + 1,
            ) by {
                assert(first_occurrence(raw@, out@[k], i as int));
            }
        } else {
            let ghost old_out = out@;
            proof {
                // t's position is not yet in `out`, so no earlier token shares it.
                assert(p > 0 ==> key(old_out[p - 1]) < key(t));
                assert forall|m: int| 0 <= m < i implies key(#[trigger] raw@[m]) != key(raw@[i as int]) by {
                    assert(has_key(old_out, key(raw@[m])));
                    let q = choose|q: int| 0 <= q < old_out.len() && key(#[trigger] old_out[q]) == key(raw@[m]);
                    if q < p {
                        if q < p - 1 {
                            assert(key(old_out[q]) < key(old_out[p - 1]));
                        }
                    }
                }
                assert(is_first(raw@, i as int));
            }
            out.insert(p, t);
            proof {
                assert(out@ == old_out.insert(p as int, t));
                assert forall|a: int, b: int| 0 <= a < b < out@.len() implies key(#[trigger] out@[a]) < key(
                    #[trigger] out@[b],
                ) by {
                    if a < p && b < p {
                        assert(out@[a] == old_out[a] && out@[b] == old_out[b]);
                    } else if a < p && b == p {
                        assert(out@[a] == old_out[a]);
                        if a < p - 1 {
                            assert(key(old_out[a]) < key(old_out[p - 1]));
                        }
                    } else if a < p && b > p {
                        assert(out@[a] == old_out[a] && out@[b] == old_out[b - 1]);
                        if b - 1 > a {
                            assert(key(old_out[a]) < key(old_out[b - 1]));
                        }
                    } else if a == p {
                        assert(out@[b] == old_out[b - 1]);
                    } else {
                        assert(out@[a] == old_out[a - 1] && out@[b] == old_out[b - 1]);
                    }
                }
                assert forall|k: int| 0 <= k < out@.len() implies first_occurrence(
                    raw@,
                    #[trigger] out@[k],
                    i + 1,
                ) by {
                    if k < p {
                        assert(out@[k] == old_out[k]);
                        assert(first_occurrence(raw@, old_out[k], i as int));
                    } else if k == p {
                        assert(raw@[i as int] == out@[k]);
                    } else {
                        assert(out@[k] == old_out[k - 1]);
                        assert(first_occurrence(raw@, old_out[k - 1], i as int));
                    }
                }
                assert forall|j: int| 0 <= j < i + 1 implies has_key(out@, key(#[trigger] raw@[j])) by {
                    if j == i {
                        assert(out@[p as int] == raw@[j]);
                    } else {
                        assert(has_key(old_out, key(raw@[j])));
                        let q = choose|q: int| 0 <= q < old_out.len() && key(#[trigger] old_out[q]) == key(raw@[j]);
                        if q < p {
                            assert(out@[q] == old_out[q]);
                        } else {
                            assert(out@[q + 1] == old_out[q]);
                        }
                    }
                }
            }
        }
        i = i + 1;
    }
    proof {
        assert(first_per_position(raw@, out@));
        law_first_per_position_unique(raw@, out@, canonical(raw@));
    }
    out
}


/// Keeps the tokens whose line lies within the lines of `range`, when one is given.
pub fn restrict_to_range(sorted: Vec<RawToken>, range: Option<Range>) -> (out: Vec<RawToken>)
    requires
        strictly_sorted(sorted@),
    ensures
        out@ == restrict(sorted@, range),
        strictly_sorted(out@),
{
    match range {
        None => sorted,
        Some(r) => {
            let ghost pred = |t: RawToken| r.start.line <= t.line && t.line <= r.end.line;
            let mut out: Vec<RawToken> = Vec::new();
            let mut i: usize = 0;
            let ghost mut last: int = -1;
            while i < sorted.len()
                invariant
                    i <= sorted.len(),
                    strictly_sorted(sorted@),
                    pred == (|t: RawToken| r.start.line <= t.line && t.line <= r.end.line),
                    out@ == sorted@.take(i as int).filter(pred),
                    strictly_sorted(out@),
                    -1 <= last < i,
                    out@.len() > 0 ==> 0 <= last && out@.last() == sorted@[last],
                decreases sorted.len() - i,
            {
                proof {
                    reveal_with_fuel(Seq::<_>::filter, 1);
                    assert(sorted@.take(i + 1).drop_last() =~= sorted@.take(i as int));
                }
                let t = sorted[i];
                if r.start.line <= t.line && t.line <= r.end.line {
                    let ghost old_out = out@;
                    out.push(t);
                    proof {
                        assert forall|a: int, b: int| 0 <= a < b < out@.len() implies key(
                            #[trigger] out@[a],
                        ) < key(#[trigger] out@[b]) by {
                            if b < out@.len() - 1 {
                                assert(out@[a] == old_out[a] && out@[b] == old_out[b]);
                            } else {
                                assert(out@[a] == old_out[a]);
                                if a < old_out.len() - 1 {
                                    assert(key(old_out[a]) < key(old_out.last()));
                                }
                                assert(key(sorted@[last]) < key(sorted@[i as int]));
                            }
                        }
                        last = i as int;
                    }
                }
                i = i + 1;
            }
            proof {
                assert(sorted@.take(sorted@.len() as int) =~= sorted@);
            }
            out
        },
    }
}

/// Turns classified tokens into the LSP response stream: order them by
/// position, keep the first token at each position, keep only the lines of
/// `range` when one is given, and delta-encode the rest.
pub fn finish_tokens(raw: &Vec<RawToken>, range: Option<Range>) -> (result: Vec<SemanticToken>)
    ensures
        result@ == encode(restrict(canonical(raw@), range)),
        is_sorted(restrict(canonical(raw@), range)),
{
    let sorted = sort_and_dedup(raw);
    let kept = restrict_to_range(sorted, range);
    assert(is_sorted(kept@)) by {
        assert forall|i: int| 0 < i < kept@.len() implies key(#[trigger] kept@[i - 1]) <= key(
            kept@[i],
        ) by {
            assert(key(kept@[i - 1]) < key(kept@[i]));
        }
    }
    delta_encode(&kept)
}

// ─── Laws of the response ───────────────────────────────────────────────────

/// Where a token not yet listed in a sorted sequence goes: after the tokens
/// before it and before the tokens after it.
proof fn lemma_insertion_point(c: Seq<RawToken>, x: int) -> (p: int)
    requires
        strictly_sorted(c),
        !has_key(c, x),
    ensures
        0 <= p <= c.len(),
        forall|q: int| 0 <= q < p ==> key(#[trigger] c[q]) < x,
        forall|q: int| p <= q < c.len() ==> key(#[trigger] c[q]) > x,
    decreases c.len(),
{
    if c.len() == 0 {
        0
    } else {
        let n = c.len() - 1;
        assert(key(c[n]) != x);
        if key(c[n]) < x {
            assert forall|q: int| 0 <= q < c.len() implies key(#[trigger] c[q]) < x by {
                if q < n {
                    assert(key(c[q]) < key(c[n]));
                }
            }
            c.len() as int
        } else {
            let d = c.drop_last();
            assert forall|i: int, j: int| 0 <= i < j < d.len() implies key(#[trigger] d[i]) < key(
                #[trigger] d[j],
            ) by {
                assert(d[i] == c[i] && d[j] == c[j]);
            }
            assert(!has_key(d, x)) by {
                if has_key(d, x) {
                    let q = choose|q: int| 0 <= q < d.len() && key(#[trigger] d[q]) == x;
                    assert(c[q] == d[q]);
                }
            }
            let p = lemma_insertion_point(d, x);
            assert forall|q: int| 0 <= q < p implies key(#[trigger] c[q]) < x by {
                assert(c[q] == d[q]);
            }
            assert forall|q: int| p <= q < c.len() implies key(#[trigger] c[q]) > x by {
                if q < n {
                    assert(c[q] == d[q]);
                }
            }
            p
        }
    }
}

/// Every token sequence has a canonical form, built by adding its tokens one
/// by one.
proof fn lemma_first_per_position_exists(raw: Seq<RawToken>) -> (c: Seq<RawToken>)
    ensures
        first_per_position(raw, c),
    decreases raw.len(),
{
    if raw.len() == 0 {
        seq![]
    } else {
        let i = raw.len() - 1;
        let prev = raw.drop_last();
        let c0 = lemma_first_per_position_exists(prev);
        let t = raw[i];
        assert forall|k: int| 0 <= k < c0.len() implies first_occurrence(raw, #[trigger] c0[k], i + 1) by {
            assert(first_occurrence(prev, c0[k], prev.len() as int));
            let j = choose|j: int| 0 <= j < prev.len() && prev[j] == c0[k] && is_first(prev, j);
            assert(raw[j] == prev[j]);
            assert forall|m: int| 0 <= m < j implies key(#[trigger] raw[m]) != key(raw[j]) by {
                assert(raw[m] == prev[m]);
                assert(key(prev[m]) != key(prev[j]));
            }
        }
        if has_key(c0, key(t)) {
            assert forall|j: int| 0 <= j < raw.len() implies has_key(c0, key(#[trigger] raw[j])) by {
                if j < i {
                    assert(raw[j] == prev[j]);
                    assert(has_key(c0, key(prev[j])));
                }
            }
            c0
        } else {
            let p = lemma_insertion_point(c0, key(t));
            assert(is_first(raw, i)) by {
                assert forall|m: int| 0 <= m < i implies key(#[trigger] raw[m]) != key(raw[i]) by {
                    assert(raw[m] == prev[m]);
                    assert(has_key(c0, key(prev[m])));
                }
            }
            let c = c0.insert(p, t);
            assert forall|a: int, b: int| 0 <= a < b < c.len() implies key(#[trigger] c[a]) < key(
                #[trigger] c[b],
            ) by {
                if a < p && b < p {
                    assert(c[a] == c0[a] && c[b] == c0[b]);
                } else if a < p && b == p {
                    assert(c[a] == c0[a]);
                } else if a < p && b > p {
                    assert(c[a] == c0[a] && c[b] == c0[b - 1]);
                } else if a == p {
                    assert(c[b] == c0[b - 1]);
                } else {
                    assert(c[a] == c0[a - 1] && c[b] == c0[b - 1]);
                }
            }
            assert forall|k: int| 0 <= k < c.len() implies first_occurrence(raw, #[trigger] c[k], raw.len() as int) by {
                if k < p {
                    assert(c[k] == c0[k]);
                } else if k == p {
                    assert(raw[i] == c[k]);
                } else {
                    assert(c[k] == c0[k - 1]);
                }
            }
            assert forall|j: int| 0 <= j < raw.len() implies has_key(c, key(#[trigger] raw[j])) by {
                if j == i {
                    assert(c[p] == raw[j]);
                } else {
                    assert(raw[j] == prev[j]);
                    assert(has_key(c0, key(prev[j])));
                    let q = choose|q: int| 0 <= q < c0.len() && key(#[trigger] c0[q]) == key(prev[j]);
                    if q < p {
                        assert(c[q] == c0[q]);
                    } else {
                        assert(c[q + 1] == c0[q]);
                    }
                }
            }
            c
        }
    }
}

/// Law: `canonical` lists, by increasing position, the first token of `raw`
/// at each position that occurs in `raw`, and nothing else.
pub proof fn law_canonical(raw: Seq<RawToken>)
    ensures
        first_per_position(raw, canonical(raw)),
{
    let c = lemma_first_per_position_exists(raw);
    assert(first_per_position(raw, c));
}

/// Whether `t` lies on the lines of `range`, when one is given.
pub open spec fn in_lines(t: RawToken, range: Option<Range>) -> bool {
    match range {
        None => true,
        Some(r) => r.start.line <= t.line && t.line <= r.end.line,
    }
}

/// A sorted sequence stays sorted under filtering, and keeps only its own tokens.
proof fn lemma_filter_sorted(s: Seq<RawToken>, pred: spec_fn(RawToken) -> bool)
    requires
        strictly_sorted(s),
    ensures
        strictly_sorted(s.filter(pred)),
        forall|k: int| 0 <= k < s.filter(pred).len() ==> s.contains(#[trigger] s.filter(pred)[k]),
        forall|k: int| 0 <= k < s.filter(pred).len() ==> pred(#[trigger] s.filter(pred)[k]),
        forall|j: int| 0 <= j < s.len() && pred(s[j]) ==> s.filter(pred).contains(#[trigger] s[j]),
    decreases s.len(),
{
    reveal_with_fuel(Seq::<_>::filter, 1);
    if s.len() > 0 {
        let d = s.drop_last();
        let n = s.len() - 1;
        assert forall|i: int, j: int| 0 <= i < j < d.len() implies key(#[trigger] d[i]) < key(
            #[trigger] d[j],
        ) by {
            assert(d[i] == s[i] && d[j] == s[j]);
        }
        lemma_filter_sorted(d, pred);
        let f0 = d.filter(pred);
        let f = s.filter(pred);
        assert forall|k: int| 0 <= k < f0.len() implies key(#[trigger] f0[k]) < key(s[n]) by {
            assert(d.contains(f0[k]));
            let q = choose|q: int| 0 <= q < d.len() && d[q] == f0[k];
            assert(s[q] == d[q]);
        }
        assert forall|k: int| 0 <= k < f.len() implies s.contains(#[trigger] f[k]) by {
            if k < f0.len() {
                assert(f[k] == f0[k]);
                assert(d.contains(f0[k]));
                let q = choose|q: int| 0 <= q < d.len() && d[q] == f0[k];
                assert(s[q] == d[q]);
            } else {
                assert(f[k] == s[n]);
            }
        }
        assert forall|k: int| 0 <= k < f.len() implies pred(#[trigger] f[k]) by {
            if k < f0.len() {
                assert(f[k] == f0[k]);
            }
        }
        assert forall|a: int, b: int| 0 <= a < b < f.len() implies key(#[trigger] f[a]) < key(
            #[trigger] f[b],
        ) by {
            if b < f0.len() {
                assert(f[a] == f0[a] && f[b] == f0[b]);
            } else {
                assert(f[a] == f0[a] && f[b] == s[n]);
            }
        }
        assert forall|j: int| 0 <= j < s.len() && pred(s[j]) implies f.contains(#[trigger] s[j]) by {
            if j < n {
                assert(d[j] == s[j]);
                assert(f0.contains(d[j]));
                let q = choose|q: int| 0 <= q < f0.len() && f0[q] == d[j];
                assert(f[q] == f0[q]);
            } else {
                assert(f[f.len() - 1] == s[n]);
            }
        }
    }
}

/// Law: the response for classified tokens `raw` decodes back to the first
/// token of `raw` at each position on the lines of `range`, by increasing
/// position and one token per position; every position of `raw` on those
/// lines is present.
pub proof fn law_response(raw: Seq<RawToken>, range: Option<Range>)
    ensures
        decodable(encode(restrict(canonical(raw), range))),
        decode(encode(restrict(canonical(raw), range))) == restrict(canonical(raw), range),
        strictly_sorted(restrict(canonical(raw), range)),
        forall|k: int|
            0 <= k < restrict(canonical(raw), range).len() ==> first_occurrence(
                raw,
                #[trigger] restrict(canonical(raw), range)[k],
                raw.len() as int,
            ) && in_lines(restrict(canonical(raw), range)[k], range),
        forall|j: int|
            0 <= j < raw.len() && in_lines(raw[j], range) ==> has_key(
                restrict(canonical(raw), range),
                key(#[trigger] raw[j]),
            ),
{
    law_canonical(raw);
    let c = canonical(raw);
    let s = restrict(c, range);
    match range {
        None => {},
        Some(r) => {
            let pred = |t: RawToken| r.start.line <= t.line && t.line <= r.end.line;
            lemma_filter_sorted(c, pred);
            assert forall|k: int| 0 <= k < s.len() implies first_occurrence(raw, #[trigger] s[k], raw.len() as int)
                && in_lines(s[k], range) by {
                assert(c.contains(s[k]));
                let q = choose|q: int| 0 <= q < c.len() && c[q] == s[k];
                assert(first_occurrence(raw, c[q], raw.len() as int));
                assert(pred(s[k]));
            }
            assert forall|j: int| 0 <= j < raw.len() && in_lines(raw[j], range) implies has_key(s, key(#[trigger] raw[j])) by {
                assert(has_key(c, key(raw[j])));
                let q = choose|q: int| 0 <= q < c.len() && key(#[trigger] c[q]) == key(raw[j]);
                lemma_key_injective(c[q], raw[j]);
                assert(pred(c[q]));
                assert(s.contains(c[q]));
                let m = choose|m: int| 0 <= m < s.len() && s[m] == c[q];
                assert(key(s[m]) == key(raw[j]));
            }
        },
    }
    assert forall|i: int| 0 < i < s.len() implies key(#[trigger] s[i - 1]) <= key(s[i]) by {
        assert(key(s[i - 1]) < key(s[i]));
    }
    law_decode_encode(s);
}

/// Law: the response for a range holds exactly the tokens of the response for
/// the whole document that lie on the lines of the range.
pub proof fn law_range_within_full(raw: Seq<RawToken>, r: Range)
    ensures
        decode(encode(restrict(canonical(raw), Some(r)))) == decode(encode(restrict(canonical(raw), None))).filter(
            |t: RawToken| r.start.line <= t.line && t.line <= r.end.line,
        ),
{
    law_response(raw, Some(r));
    law_response(raw, None);
}

} // verus!
