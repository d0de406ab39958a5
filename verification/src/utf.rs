//! UTF-8 decoding and UTF-16 column arithmetic.
//!
//! Tree-sitter reports columns in bytes; the LSP protocol counts UTF-16 code
//! units.  These functions convert between the two.
use vstd::prelude::*;
use vstd::utf8::*;

verus! {

/// Number of UTF-16 code units that encode `c`.
pub open spec fn utf16_width(c: char) -> nat {
    if c as u32 >= 0x10000 {
        2
    } else {
        1
    }
}

/// Number of UTF-16 code units that encode `s`.
pub open spec fn utf16_len(s: Seq<char>) -> nat
    decreases s.len(),
{
    if s.len() == 0 {
        0
    } else {
        utf16_width(s[0]) + utf16_len(s.drop_first())
    }
}

/// What `std::str::from_utf8` gives for `bytes`: the decoded characters when
/// the bytes are well-formed UTF-8.
pub open spec fn utf8_chars(bytes: Seq<u8>) -> Option<Seq<char>> {
    if valid_utf8(bytes) {
        Some(decode_utf8(bytes))
    } else {
        None
    }
}

/// `char::from_u32`: the character with scalar value `v`, if `v` is a Unicode scalar value.
#[verifier::external_body]
fn char_from_scalar(v: u32) -> (c: Option<char>)
    ensures
        is_scalar(v) ==> c == Some(v as char),
        !is_scalar(v) ==> c is None,
{
    char::from_u32(v)
}

proof fn lemma_width_2_bound(b1: u8, b2: u8)
    ensures
        codepoint_width_2(b1, b2) <= 0x7ff,
{
    assert((((b1 & 0x1F) as u32) << 6u32) | ((b2 & 0x3f) as u32) <= 0x7ff) by (bit_vector);
}

proof fn lemma_width_3_bound(b1: u8, b2: u8, b3: u8)
    ensures
        codepoint_width_3(b1, b2, b3) <= 0xffff,
{
    assert((((b1 & 0x0F) as u32) << 12u32) | (((b2 & 0x3f) as u32) << 6u32) | ((b3 & 0x3f) as u32)
        <= 0xffff) by (bit_vector);
}

proof fn lemma_width_1_bound(b1: u8)
    ensures
        codepoint_width_1(b1) <= 0x7f,
{
    assert(((b1 & 0x7F) as u32) <= 0x7f) by (bit_vector);
}

/// A well-formed first scalar is a Unicode scalar value, and needs two UTF-16
/// units exactly when its encoding takes four bytes.
proof fn lemma_first_scalar_facts(bytes: Seq<u8>)
    requires
        valid_first_scalar(bytes),
    ensures
        is_scalar(decode_first_scalar(bytes)),
        (decode_first_scalar(bytes) >= 0x10000) <==> (length_of_first_scalar(bytes) == 4),
        1 <= length_of_first_scalar(bytes) <= bytes.len(),
{
    if is_leading_byte_width_1(bytes[0]) {
        lemma_width_1_bound(bytes[0]);
    } else if is_leading_byte_width_2(bytes[0]) {
        lemma_width_2_bound(bytes[0], bytes[1]);
    } else if is_leading_byte_width_3(bytes[0]) {
        lemma_width_3_bound(bytes[0], bytes[1], bytes[2]);
    }
}

/// Checks the encoding of the first scalar of `bytes[pos..end]`, giving its
/// length in bytes and its value when it is well formed.
fn first_scalar(bytes: &[u8], pos: usize, end: usize) -> (r: Option<(usize, u32)>)
    requires
        pos < end <= bytes@.len(),
    ensures
        r is Some <==> valid_first_scalar(bytes@.subrange(pos as int, end as int)),
        r matches Some((w, v)) ==> w == length_of_first_scalar(bytes@.subrange(pos as int, end as int))
            && v == decode_first_scalar(bytes@.subrange(pos as int, end as int)),
{
    let ghost rest = bytes@.subrange(pos as int, end as int);
    let b0 = bytes[pos];
    let n = end - pos;
    assert(rest[0] == b0);
    if b0 <= 0x7f {
        let v = ((b0 & 0x7F) as u32);
        Some((1, v))
    } else if 0xc0 <= b0 && b0 <= 0xdf {
        if n < 2 {
            return None;
        }
        let b1 = bytes[pos + 1];
        assert(rest[1] == b1);
        if !(0x80 <= b1 && b1 <= 0xbf) {
            return None;
        }
        let v = (((b0 & 0x1F) as u32) << 6u32) | ((b1 & 0x3f) as u32);
        if v < 0x80 || (0xD800 <= v && v <= 0xDFFF) {
            return None;
        }
        Some((2, v))
    } else if 0xe0 <= b0 && b0 <= 0xef {
        if n < 3 {
            return None;
        }
        let b1 = bytes[pos + 1];
        let b2 = bytes[pos + 2];
        assert(rest[1] == b1 && rest[2] == b2);
        if !(0x80 <= b1 && b1 <= 0xbf) || !(0x80 <= b2 && b2 <= 0xbf) {
            return None;
        }
        let v = (((b0 & 0x0F) as u32) << 12u32) | (((b1 & 0x3f) as u32) << 6u32) | ((b2
            & 0x3f) as u32);
        if v < 0x800 || (0xD800 <= v && v <= 0xDFFF) {
            return None;
        }
        Some((3, v))
    } else if 0xf0 <= b0 && b0 <= 0xf7 {
        if n < 4 {
            return None;
        }
        let b1 = bytes[pos + 1];
        let b2 = bytes[pos + 2];
        let b3 = bytes[pos + 3];
        assert(rest[1] == b1 && rest[2] == b2 && rest[3] == b3);
        if !(0x80 <= b1 && b1 <= 0xbf) || !(0x80 <= b2 && b2 <= 0xbf) || !(0x80 <= b3 && b3
            <= 0xbf) {
            return None;
        }
        let v = (((b0 & 0x07) as u32) << 18u32) | (((b1 & 0x3f) as u32) << 12u32) | (((b2
            & 0x3f) as u32) << 6u32) | ((b3 & 0x3f) as u32);
        if v < 0x10000 || v > 0x10ffff || (0xD800 <= v && v <= 0xDFFF) {
            return None;
        }
        Some((4, v))
    } else {
        None
    }
}

/// Unfolds `valid_utf8` and `decode_utf8` by one scalar.
proof fn lemma_utf8_step(rest: Seq<u8>)
    requires
        rest.len() > 0,
    ensures
        valid_utf8(rest) <==> (valid_first_scalar(rest) && valid_utf8(pop_first_scalar(rest))),
        valid_utf8(rest) ==> decode_utf8(rest) == seq![decode_first_scalar(rest) as char]
            + decode_utf8(pop_first_scalar(rest)),
{
}

/// `std::str::from_utf8(&bytes[start..end])`, as characters: the decoded
/// characters when the bytes are well-formed UTF-8, `None` otherwise.
pub fn decode_utf8_range(bytes: &[u8], start: usize, end: usize) -> (r: Option<Vec<char>>)
    requires
        start <= end <= bytes@.len(),
    ensures
        r matches Some(v) ==> utf8_chars(bytes@.subrange(start as int, end as int)) == Some(v@),
        r is None ==> utf8_chars(bytes@.subrange(start as int, end as int)) is None,
{
    let ghost sub = bytes@.subrange(start as int, end as int);
    let mut out: Vec<char> = Vec::new();
    let mut pos = start;
    while pos < end
        invariant
            start <= pos <= end <= bytes@.len(),
            sub == bytes@.subrange(start as int, end as int),
            valid_utf8(sub) <==> valid_utf8(bytes@.subrange(pos as int, end as int)),
            valid_utf8(sub) ==> decode_utf8(sub) == out@ + decode_utf8(
                bytes@.subrange(pos as int, end as int),
            ),
        decreases end - pos,
    {
        let ghost rest = bytes@.subrange(pos as int, end as int);
        proof {
            lemma_utf8_step(rest);
        }
        match first_scalar(bytes, pos, end) {
            None => {
                return None;
            },
            Some((w, v)) => {
                proof {
                    lemma_first_scalar_facts(rest);
                    assert(pop_first_scalar(rest) =~= bytes@.subrange(pos + w, end as int));
                }
                let c = char_from_scalar(v);
                match c {
                    Some(ch) => {
                        let ghost old_out = out@;
                        out.push(ch);
                        proof {
                            if valid_utf8(sub) {
                                assert(decode_utf8(rest) == seq![ch] + decode_utf8(
                                    pop_first_scalar(rest),
                                ));
                                assert(out@ + decode_utf8(pop_first_scalar(rest)) =~= old_out
                                    + decode_utf8(rest));
                            }
                        }
                    },
                    None => {
                        return None;
                    },
                }
                pos = pos + w;
            },
        }
    }
    proof {
        assert(bytes@.subrange(pos as int, end as int) =~= Seq::<u8>::empty());
        assert(out@ + Seq::<char>::empty() =~= out@);
    }
    Some(out)
}


/// The number of UTF-16 code units of `std::str::from_utf8(&bytes[start..end])`,
/// when those bytes are well-formed UTF-8.
pub fn utf16_len_of_range(bytes: &[u8], start: usize, end: usize) -> (r: Option<usize>)
    requires
        start <= end <= bytes@.len(),
    ensures
        r matches Some(n) ==> utf8_chars(bytes@.subrange(start as int, end as int)) matches Some(cs)
            && n == utf16_len(cs),
        r is None ==> utf8_chars(bytes@.subrange(start as int, end as int)) is None,
{
    let ghost sub = bytes@.subrange(start as int, end as int);
    let mut count: usize = 0;
    let mut pos = start;
    while pos < end
        invariant
            start <= pos <= end <= bytes@.len(),
            count <= pos - start,
            sub == bytes@.subrange(start as int, end as int),
            valid_utf8(sub) <==> valid_utf8(bytes@.subrange(pos as int, end as int)),
            valid_utf8(sub) ==> utf16_len(decode_utf8(sub)) == count + utf16_len(
                decode_utf8(bytes@.subrange(pos as int, end as int)),
            ),
        decreases end - pos,
    {
        let ghost rest = bytes@.subrange(pos as int, end as int);
        proof {
            lemma_utf8_step(rest);
        }
        match first_scalar(bytes, pos, end) {
            None => {
                return None;
            },
            Some((w, v)) => {
                proof {
                    lemma_first_scalar_facts(rest);
                    assert(pop_first_scalar(rest) =~= bytes@.subrange(pos + w, end as int));
                    if valid_utf8(sub) {
                        let cs = decode_utf8(rest);
                        assert(cs[0] == v as char);
                        assert(cs.drop_first() =~= decode_utf8(pop_first_scalar(rest)));
                        assert((v as char) as u32 == v) by {
                            vstd::utf8::char_is_scalar(v as char);
                        }
                    }
                }
                if w == 4 {
                    count = count + 2;
                } else {
                    count = count + 1;
                }
                pos = pos + w;
            },
        }
    }
    proof {
        assert(bytes@.subrange(pos as int, end as int) =~= Seq::<u8>::empty());
    }
    Some(count)
}

/// The index in `src` of the `(k + 1)`-th newline byte at or after `from`.
pub open spec fn find_newline(src: Seq<u8>, from: int, k: nat) -> Option<int>
    decreases src.len() - from,
{
    if from < 0 || from >= src.len() {
        None
    } else if src[from] == 10 {
        if k == 0 {
            Some(from)
        } else {
            find_newline(src, from + 1, (k - 1) as nat)
        }
    } else {
        find_newline(src, from + 1, k)
    }
}

/// The byte offset where line `row` of `src` starts: 0 for the first line,
/// just after the `row`-th newline otherwise, and 0 when `src` has fewer lines.
pub open spec fn line_start(src: Seq<u8>, row: nat) -> int {
    if row == 0 {
        0
    } else {
        match find_newline(src, 0, (row - 1) as nat) {
            Some(p) => p + 1,
            None => 0,
        }
    }
}

/// The UTF-16 column of byte column `byte_col` on line `row` of `src`: the
/// UTF-16 length of the bytes from the start of the line up to `byte_col`
/// (or to the end of `src`), or `byte_col` itself when those bytes are not
/// well-formed UTF-8; truncated to `u32`.
pub open spec fn utf16_column(src: Seq<u8>, row: nat, byte_col: nat) -> u32 {
    let start = line_start(src, row);
    let rest = src.subrange(start, src.len() as int);
    let prefix = if byte_col <= rest.len() {
        rest.take(byte_col as int)
    } else {
        rest
    };
    match utf8_chars(prefix) {
        Some(cs) => utf16_len(cs) as u32,
        None => byte_col as u32,
    }
}

/// A newline found from `from` lies at or after `from` and inside `src`.
proof fn lemma_find_newline_bounds(src: Seq<u8>, from: int, k: nat)
    ensures
        find_newline(src, from, k) matches Some(p) ==> from <= p < src.len(),
    decreases src.len() - from,
{
    if from < 0 || from >= src.len() {
    } else if src[from] == 10 {
        if k > 0 {
            lemma_find_newline_bounds(src, from + 1, (k - 1) as nat);
        }
    } else {
        lemma_find_newline_bounds(src, from + 1, k);
    }
}

/// Every line starts inside `src` or at its end.
proof fn lemma_line_start_bounds(src: Seq<u8>, row: nat)
    ensures
        0 <= line_start(src, row) <= src.len(),
{
    if row > 0 {
        lemma_find_newline_bounds(src, 0, (row - 1) as nat);
    }
}

/// Well-formed UTF-8 never takes fewer bytes than UTF-16 code units, and
/// takes exactly as many when every byte is ASCII.
proof fn lemma_utf16_len_of_utf8(bytes: Seq<u8>)
    requires
        valid_utf8(bytes),
    ensures
        utf16_len(decode_utf8(bytes)) <= bytes.len(),
        (forall|i: int| 0 <= i < bytes.len() ==> bytes[i] < 0x80) ==> utf16_len(decode_utf8(bytes))
            == bytes.len(),
    decreases bytes.len(),
{
    if bytes.len() > 0 {
        lemma_first_scalar_facts(bytes);
        let rest = pop_first_scalar(bytes);
        lemma_utf16_len_of_utf8(rest);
        let cs = decode_utf8(bytes);
        let v = decode_first_scalar(bytes);
        assert(cs[0] == v as char);
        assert(cs.drop_first() =~= decode_utf8(rest));
        assert((v as char) as u32 == v) by {
            vstd::utf8::char_is_scalar(v as char);
        }
        if forall|i: int| 0 <= i < bytes.len() ==> bytes[i] < 0x80 {
            assert(bytes[0] < 0x80);
            assert(length_of_first_scalar(bytes) == 1);
            assert forall|i: int| 0 <= i < rest.len() implies rest[i] < 0x80 by {
                assert(rest[i] == bytes[i + 1]);
            }
        }
    }
}

/// ASCII bytes are well-formed UTF-8.
proof fn lemma_ascii_is_utf8(bytes: Seq<u8>)
    requires
        forall|i: int| 0 <= i < bytes.len() ==> bytes[i] < 0x80,
    ensures
        valid_utf8(bytes),
    decreases bytes.len(),
{
    if bytes.len() > 0 {
        lemma_width_1_bound(bytes[0]);
        assert(is_leading_byte_width_1(bytes[0]));
        let rest = pop_first_scalar(bytes);
        assert(rest =~= bytes.subrange(1, bytes.len() as int));
        assert forall|i: int| 0 <= i < rest.len() implies rest[i] < 0x80 by {
            assert(rest[i] == bytes[i + 1]);
        }
        lemma_ascii_is_utf8(rest);
    }
}

/// Law: a UTF-16 column never exceeds the byte column it comes from, and
/// equals it when the line up to that column is ASCII.
pub proof fn law_utf16_column_at_most_byte_column(src: Seq<u8>, row: nat, byte_col: nat)
    requires
        byte_col <= u32::MAX,
    ensures
        utf16_column(src, row, byte_col) <= byte_col,
        ({
            let rest = src.subrange(line_start(src, row), src.len() as int);
            byte_col <= rest.len() && (forall|i: int| 0 <= i < byte_col ==> #[trigger] rest[i] < 0x80)
        }) ==> utf16_column(src, row, byte_col) == byte_col,
{
    lemma_line_start_bounds(src, row);
    let start = line_start(src, row);
    let rest = src.subrange(start, src.len() as int);
    let prefix = if byte_col <= rest.len() {
        rest.take(byte_col as int)
    } else {
        rest
    };
    if valid_utf8(prefix) {
        lemma_utf16_len_of_utf8(prefix);
    }
    if byte_col <= rest.len() && (forall|i: int| 0 <= i < byte_col ==> #[trigger] rest[i] < 0x80) {
        assert forall|i: int| 0 <= i < prefix.len() implies prefix[i] < 0x80 by {
            assert(prefix[i] == rest[i]);
        }
        lemma_ascii_is_utf8(prefix);
        lemma_utf16_len_of_utf8(prefix);
    }
}

/// Converts a tree-sitter byte column on line `row` to a UTF-16 column for LSP.
pub fn byte_col_to_utf16(src: &[u8], row: usize, byte_col: usize) -> (col: u32)
    ensures
        col == utf16_column(src@, row as nat, byte_col as nat),
{
    let mut line_start_idx: usize = 0;
    if row > 0 {
        let mut remaining: usize = row - 1;
        let mut i: usize = 0;
        let mut found = false;
        while i < src.len() && !found
            invariant
                i <= src@.len(),
                row > 0,
                !found ==> find_newline(src@, 0, (row - 1) as nat) == find_newline(
                    src@,
                    i as int,
                    remaining as nat,
                ),
                found ==> line_start(src@, row as nat) == line_start_idx && line_start_idx
                    <= src@.len(),
            decreases src@.len() - i,
        {
            if src[i] == 10u8 {
                if remaining == 0 {
                    line_start_idx = i + 1;
                    found = true;
                } else {
                    remaining = remaining - 1;
                }
            }
            i = i + 1;
        }
        if !found {
            assert(find_newline(src@, i as int, remaining as nat) is None);
            line_start_idx = 0;
        }
    }
    assert(line_start_idx as int == line_start(src@, row as nat));
    let line_len = src.len() - line_start_idx;
    let end = if byte_col <= line_len {
        line_start_idx + byte_col
    } else {
        src.len()
    };
    proof {
        let rest = src@.subrange(line_start_idx as int, src@.len() as int);
        if byte_col <= line_len {
            assert(rest.take(byte_col as int) =~= src@.subrange(line_start_idx as int, end as int));
        } else {
            assert(rest =~= src@.subrange(line_start_idx as int, end as int));
        }
    }
    match utf16_len_of_range(src, line_start_idx, end) {
        Some(n) => #[verifier::truncate] (n as u32),
        None => #[verifier::truncate] (byte_col as u32),
    }
}

} // verus!
