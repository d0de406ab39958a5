//! Character-level text operations: whitespace, trimming, line splitting.
use vstd::prelude::*;

verus! {

/// `char::is_whitespace`: the Unicode `White_Space` property.
pub open spec fn is_whitespace(c: char) -> bool {
    ||| ('\u{9}' <= c && c <= '\u{d}')
    ||| c == ' '
    ||| c == '\u{85}'
    ||| c == '\u{a0}'
    ||| c == '\u{1680}'
    ||| ('\u{2000}' <= c && c <= '\u{200a}')
    ||| c == '\u{2028}'
    ||| c == '\u{2029}'
    ||| c == '\u{202f}'
    ||| c == '\u{205f}'
    ||| c == '\u{3000}'
}

/// Whether `c` is Unicode white space.
pub fn is_whitespace_char(c: char) -> (r: bool)
    ensures
        r == is_whitespace(c),
{
    ('\u{9}' <= c && c <= '\u{d}') || c == ' ' || c == '\u{85}' || c == '\u{a0}' || c == '\u{1680}'
        || ('\u{2000}' <= c && c <= '\u{200a}') || c == '\u{2028}' || c == '\u{2029}' || c
        == '\u{202f}' || c == '\u{205f}' || c == '\u{3000}'
}

/// The characters of a string slice, in order.
pub fn str_chars(s: &str) -> (v: Vec<char>)
    ensures
        v@ == s@,
{
    broadcast use vstd::string::axiom_spec_iter;
    let mut v: Vec<char> = Vec::new();
    for c in it: s.chars()
        invariant
            it.seq() == s@,
            v@ == it.seq().take(it.index() as int),
    {
        assert(it.seq().take(it.index() as int).push(c) =~= it.seq().take(it.index() + 1));
        v.push(c);
    }
    assert(v@ =~= s@);
    v
}

/// Builds a `String` from characters (`FromIterator<char>` for `String`).
#[verifier::external_body]
pub fn chars_to_string(cs: &[char]) -> (s: String)
    ensures
        s@ == cs@,
{
    cs.iter().collect()
}

/// The characters of each vector.
pub open spec fn char_views(v: Seq<Vec<char>>) -> Seq<Seq<char>> {
    v.map_values(|c: Vec<char>| c@)
}

/// `s` with its leading white space removed.
pub open spec fn trim_start(s: Seq<char>) -> Seq<char>
    decreases s.len(),
{
    if s.len() > 0 && is_whitespace(s[0]) {
        trim_start(s.drop_first())
    } else {
        s
    }
}

/// `s` with its trailing white space removed.
pub open spec fn trim_end(s: Seq<char>) -> Seq<char>
    decreases s.len(),
{
    if s.len() > 0 && is_whitespace(s.last()) {
        trim_end(s.drop_last())
    } else {
        s
    }
}

/// `str::trim`: `s` without leading and trailing white space.
pub open spec fn trim(s: Seq<char>) -> Seq<char> {
    trim_end(trim_start(s))
}

/// Whether `s` begins with `prefix`.
pub open spec fn starts_with(s: Seq<char>, prefix: Seq<char>) -> bool {
    prefix.len() <= s.len() && s.take(prefix.len() as int) == prefix
}

/// The index of the first occurrence of `c` in `s`, if any.
pub open spec fn index_of(s: Seq<char>, c: char) -> Option<int>
    decreases s.len(),
{
    if s.len() == 0 {
        None
    } else if s[0] == c {
        Some(0)
    } else {
        match index_of(s.drop_first(), c) {
            Some(i) => Some(i + 1),
            None => None,
        }
    }
}

/// A line as `str::lines` yields it: without its `'\n'` and, when the line
/// was ended by `"\r\n"`, without the `'\r'`.
pub open spec fn strip_cr(line: Seq<char>) -> Seq<char> {
    if line.len() > 0 && line.last() == '\r' {
        line.drop_last()
    } else {
        line
    }
}

/// `str::lines`: the lines of `s`, split at `'\n'`; a final line ending adds
/// no empty line.
pub open spec fn lines(s: Seq<char>) -> Seq<Seq<char>>
    decreases s.len(),
{
    if s.len() == 0 {
        seq![]
    } else {
        match index_of(s, '\n') {
            Some(i) => {
                proof {
                    lemma_index_of_bounds(s, '\n');
                }
                seq![strip_cr(s.take(i))] + lines(s.skip(i + 1))
            },
            None => seq![s],
        }
    }
}

pub proof fn lemma_index_of_bounds(s: Seq<char>, c: char)
    ensures
        index_of(s, c) matches Some(i) ==> 0 <= i < s.len() && s[i] == c && forall|j: int|
            0 <= j < i ==> s[j] != c,
        index_of(s, c) is None ==> forall|j: int| 0 <= j < s.len() ==> s[j] != c,
    decreases s.len(),
{
    if s.len() > 0 {
        lemma_index_of_bounds(s.drop_first(), c);
        if s[0] != c {
            assert forall|j: int| 0 < j < s.len() implies s[j] == s.drop_first()[j - 1] by {}
        }
    }
}

/// Index of the first `c` in `v[from..to]`, as an index into `v`.
pub fn find_char(v: &Vec<char>, from: usize, to: usize, c: char) -> (r: Option<usize>)
    requires
        from <= to <= v@.len(),
    ensures
        r matches Some(i) ==> from <= i < to && index_of(v@.subrange(from as int, to as int), c)
            == Some(i - from),
        r is None ==> index_of(v@.subrange(from as int, to as int), c) is None,
{
    let mut i = from;
    while i < to
        invariant
            from <= i <= to <= v@.len(),
            forall|j: int| from <= j < i ==> v@[j] != c,
        decreases to - i,
    {
        if v[i] == c {
            proof {
                let sub = v@.subrange(from as int, to as int);
                lemma_index_of_bounds(sub, c);
                match index_of(sub, c) {
                    Some(k) => {
                        assert(sub[(i - from) as int] == c);
                        assert(sub[k] == v@[from + k]);
                    },
                    None => {
                        assert(sub[(i - from) as int] == c);
                    },
                }
            }
            return Some(i);
        }
        i = i + 1;
    }
    proof {
        let sub = v@.subrange(from as int, to as int);
        lemma_index_of_bounds(sub, c);
        if let Some(k) = index_of(sub, c) {
            assert(sub[k] == v@[from + k]);
        }
    }
    None
}

proof fn lemma_trim_start_skip(s: Seq<char>, a: int)
    requires
        0 <= a <= s.len(),
        forall|j: int| 0 <= j < a ==> is_whitespace(s[j]),
    ensures
        trim_start(s) == trim_start(s.skip(a)),
    decreases a,
{
    if a > 0 {
        assert(s.drop_first().skip(a - 1) =~= s.skip(a));
        lemma_trim_start_skip(s.drop_first(), a - 1);
    } else {
        assert(s.skip(0) =~= s);
    }
}

proof fn lemma_trim_end_take(s: Seq<char>, b: int)
    requires
        0 <= b <= s.len(),
        forall|j: int| b <= j < s.len() ==> is_whitespace(s[j]),
    ensures
        trim_end(s) == trim_end(s.take(b)),
    decreases s.len() - b,
{
    if b < s.len() {
        assert(s.drop_last().take(b) =~= s.take(b));
        lemma_trim_end_take(s.drop_last(), b);
    } else {
        assert(s.take(b) =~= s);
    }
}

/// The bounds of `v[from..to]` with leading and trailing white space removed.
pub fn trim_bounds(v: &Vec<char>, from: usize, to: usize) -> (r: (usize, usize))
    requires
        from <= to <= v@.len(),
    ensures
        from <= r.0 <= r.1 <= to,
        v@.subrange(r.0 as int, r.1 as int) == trim(v@.subrange(from as int, to as int)),
{
    let ghost s = v@.subrange(from as int, to as int);
    let mut a = from;
    while a < to && is_whitespace_char(v[a])
        invariant
            from <= a <= to <= v@.len(),
            s == v@.subrange(from as int, to as int),
            forall|j: int| from <= j < a ==> is_whitespace(v@[j]),
        decreases to - a,
    {
        a = a + 1;
    }
    proof {
        lemma_trim_start_skip(s, a - from);
        assert(s.skip(a - from) =~= v@.subrange(a as int, to as int));
        let t = v@.subrange(a as int, to as int);
        if t.len() > 0 {
            assert(!is_whitespace(t[0]));
        }
        assert(trim_start(s) == t);
    }
    let mut b = to;
    while b > a && is_whitespace_char(v[b - 1])
        invariant
            from <= a <= b <= to <= v@.len(),
            forall|j: int| b <= j < to ==> is_whitespace(v@[j]),
        decreases b,
    {
        b = b - 1;
    }
    proof {
        let t = v@.subrange(a as int, to as int);
        lemma_trim_end_take(t, b - a);
        assert(t.take(b - a) =~= v@.subrange(a as int, b as int));
        let u = v@.subrange(a as int, b as int);
        if u.len() > 0 {
            assert(!is_whitespace(u.last()));
        }
    }
    (a, b)
}

/// Whether `v[from..to]` begins with the characters of `prefix`.
pub fn starts_with_at(v: &Vec<char>, from: usize, to: usize, prefix: &Vec<char>) -> (r: bool)
    requires
        from <= to <= v@.len(),
    ensures
        r == starts_with(v@.subrange(from as int, to as int), prefix@),
{
    if prefix.len() > to - from {
        return false;
    }
    let mut i: usize = 0;
    while i < prefix.len()
        invariant
            i <= prefix@.len() <= to - from,
            from <= to <= v@.len(),
            forall|j: int| 0 <= j < i ==> v@[from + j] == prefix@[j],
        decreases prefix@.len() - i,
    {
        if v[from + i] != prefix[i] {
            proof {
                let s = v@.subrange(from as int, to as int);
                assert(s.take(prefix@.len() as int)[i as int] != prefix@[i as int]);
            }
            return false;
        }
        i = i + 1;
    }
    proof {
        let s = v@.subrange(from as int, to as int);
        assert(s.take(prefix@.len() as int) =~= prefix@);
    }
    true
}

/// Whether two character vectors hold the same characters.
pub fn chars_equal(a: &Vec<char>, b: &Vec<char>) -> (r: bool)
    ensures
        r == (a@ == b@),
{
    if a.len() != b.len() {
        return false;
    }
    let mut i: usize = 0;
    while i < a.len()
        invariant
            i <= a@.len() == b@.len(),
            forall|j: int| 0 <= j < i ==> a@[j] == b@[j],
        decreases a@.len() - i,
    {
        if a[i] != b[i] {
            return false;
        }
        i = i + 1;
    }
    assert(a@ =~= b@);
    true
}

/// A copy of `v[from..to]`.
pub fn copy_range(v: &Vec<char>, from: usize, to: usize) -> (r: Vec<char>)
    requires
        from <= to <= v@.len(),
    ensures
        r@ == v@.subrange(from as int, to as int),
{
    let mut r: Vec<char> = Vec::new();
    let mut i = from;
    while i < to
        invariant
            from <= i <= to <= v@.len(),
            r@ == v@.subrange(from as int, i as int),
        decreases to - i,
    {
        r.push(v[i]);
        assert(r@ =~= v@.subrange(from as int, i + 1));
        i = i + 1;
    }
    r
}

/// One step of `lines`: the first line, then the lines of the rest.
pub proof fn lemma_lines_step(rest: Seq<char>)
    requires
        rest.len() > 0,
    ensures
        lines(rest) == (match index_of(rest, '\n') {
            Some(i) => seq![strip_cr(rest.take(i))] + lines(rest.skip(i + 1)),
            None => seq![rest],
        }),
{
}

/// The lines of `cs`, as `str::lines` splits them.
pub fn split_lines(cs: &Vec<char>) -> (r: Vec<Vec<char>>)
    ensures
        char_views(r@) == lines(cs@),
{
    let mut result: Vec<Vec<char>> = Vec::new();
    let mut pos: usize = 0;
    proof {
        assert(cs@.subrange(0, cs@.len() as int) =~= cs@);
        assert(char_views(result@) =~= Seq::<Seq<char>>::empty());
    }
    while pos < cs.len()
        invariant
            pos <= cs@.len(),
            lines(cs@) == char_views(result@) + lines(cs@.subrange(pos as int, cs@.len() as int)),
        decreases cs@.len() - pos,
    {
        let ghost rest = cs@.subrange(pos as int, cs@.len() as int);
        proof {
            lemma_lines_step(rest);
        }
        let (line_end, next) = match find_char(cs, pos, cs.len(), '\n') {
            Some(i) => {
                if i > pos && cs[i - 1] == '\r' {
                    (i - 1, i + 1)
                } else {
                    (i, i + 1)
                }
            },
            None => (cs.len(), cs.len()),
        };
        let ghost line = cs@.subrange(pos as int, line_end as int);
        proof {
            match index_of(rest, '\n') {
                Some(k) => {
                    let i = pos + k;
                    assert(next == i + 1);
                    if line_end < i {
                        assert(strip_cr(rest.take(k)) =~= line);
                    } else {
                        assert(rest.take(k) =~= line);
                    }
                    assert(rest.skip(k + 1) =~= cs@.subrange(next as int, cs@.len() as int));
                },
                None => {
                    assert(rest =~= line);
                    assert(cs@.subrange(next as int, cs@.len() as int) =~= Seq::<char>::empty());
                    assert(lines(cs@.subrange(next as int, cs@.len() as int)) =~= Seq::<Seq<char>>::empty());
                    assert(seq![line] + Seq::<Seq<char>>::empty() =~= seq![line]);
                },
            }
            assert(lines(rest) == seq![line] + lines(cs@.subrange(next as int, cs@.len() as int)));
        }
        let ghost before = char_views(result@);
        let l = copy_range(cs, pos, line_end);
        result.push(l);
        proof {
            assert(char_views(result@) =~= before.push(line));
            assert(lines(cs@) =~= char_views(result@) + lines(cs@.subrange(next as int, cs@.len() as int)));
        }
        pos = next;
    }
    proof {
        assert(cs@.subrange(pos as int, cs@.len() as int) =~= Seq::<char>::empty());
        assert(char_views(result@) + Seq::<Seq<char>>::empty() =~= char_views(result@));
    }
    result
}

} // verus!
