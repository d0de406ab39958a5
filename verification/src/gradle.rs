//! Subproject discovery from `settings.gradle` / `settings.gradle.kts`.
//!
//! `include(":app", ":core")` lines (or Groovy `include ':app'`) name subprojects; `":feature:login"`
//! stands for the directory `feature/login`.
use crate::text::{
    char_views, chars_equal, chars_to_string, find_char, index_of, lemma_index_of_bounds, lemma_lines_step, lines,
    starts_with,
    starts_with_at, str_chars, strip_cr, trim, trim_bounds, is_whitespace, is_whitespace_char,
};
use vstd::prelude::*;

verus! {

/// Whether `c` opens a quoted project name.
pub open spec fn is_quote(c: char) -> bool {
    c == '"' || c == '\''
}

/// The quoted strings of `t`, read left to right: a string runs from an
/// opening `"` or `'` to the next occurrence of the same quote character, or
/// to the end of `t` when there is none.
pub open spec fn quoted_names(t: Seq<char>) -> Seq<Seq<char>>
    decreases t.len(),
{
    if t.len() == 0 {
        seq![]
    } else if is_quote(t[0]) {
        let r = t.drop_first();
        match index_of(r, t[0]) {
            Some(k) => {
                proof {
                    lemma_index_of_bounds(r, t[0]);
                }
                seq![r.take(k)] + quoted_names(r.skip(k + 1))
            },
            None => seq![r],
        }
    } else {
        quoted_names(t.drop_first())
    }
}

/// `s` without its leading `':'` characters.
pub open spec fn strip_colons(s: Seq<char>) -> Seq<char>
    decreases s.len(),
{
    if s.len() > 0 && s[0] == ':' {
        strip_colons(s.drop_first())
    } else {
        s
    }
}

/// The directory of a Gradle project path: leading colons dropped, the
/// remaining colons replaced by the path separator `sep`.
pub open spec fn project_dir(name: Seq<char>, sep: char) -> Seq<char> {
    strip_colons(name).map_values(|c: char| if c == ':' { sep } else { c })
}

/// Whether a trimmed line is an `include` call: `include(` in the Kotlin
/// DSL, or `include` followed by white space in Groovy (`include ':app'`);
/// `includeBuild` and `includeFlat` are not.
pub open spec fn is_include_line(t: Seq<char>) -> bool {
    starts_with(t, "include("@) || (starts_with(t, "include"@) && t.len() > 7 && is_whitespace(t[7]))
}

/// The project directories named by one line: those of its quoted strings
/// when the trimmed line is an `include` call, none otherwise (so
/// `includeBuild(` and `includeFlat(` lines name none).
pub open spec fn line_dirs(line: Seq<char>, sep: char) -> Seq<Seq<char>> {
    let t = trim(line);
    if is_include_line(t) {
        quoted_names(t).map_values(|n: Seq<char>| project_dir(n, sep))
    } else {
        seq![]
    }
}

/// The project directories named by all `lines`, in order.
pub open spec fn candidate_dirs(ls: Seq<Seq<char>>, sep: char) -> Seq<Seq<char>>
    decreases ls.len(),
{
    if ls.len() == 0 {
        seq![]
    } else {
        candidate_dirs(ls.drop_last(), sep) + line_dirs(ls.last(), sep)
    }
}

/// The non-empty entries of `c`, each kept at its first occurrence only.
pub open spec fn first_nonempty(c: Seq<Seq<char>>) -> Seq<Seq<char>>
    decreases c.len(),
{
    if c.len() == 0 {
        seq![]
    } else {
        let r = first_nonempty(c.drop_last());
        let x = c.last();
        if x.len() > 0 && !r.contains(x) {
            r.push(x)
        } else {
            r
        }
    }
}

/// The subproject directories that `include` lines of a settings file
/// name, in order of first appearance, without duplicates.
pub open spec fn include_dirs(content: Seq<char>, sep: char) -> Seq<Seq<char>> {
    first_nonempty(candidate_dirs(lines(content), sep))
}

/// The characters of each string.
pub open spec fn string_views(v: Seq<String>) -> Seq<Seq<char>> {
    v.map_values(|s: String| s@)
}

/// `std::path::MAIN_SEPARATOR`: the platform's path separator.
#[verifier::external_body]
pub fn main_separator() -> (c: char)
    ensures
        c == '/' || c == '\\',
{
    std::path::MAIN_SEPARATOR
}

/// The project directory of the name `v[from..to]`.
fn project_dir_exec(v: &Vec<char>, from: usize, to: usize, sep: char) -> (r: Vec<char>)
    requires
        from <= to <= v@.len(),
    ensures
        r@ == project_dir(v@.subrange(from as int, to as int), sep),
{
    let ghost name = v@.subrange(from as int, to as int);
    let mut s = from;
    while s < to && v[s] == ':'
        invariant
            from <= s <= to <= v@.len(),
            name == v@.subrange(from as int, to as int),
            strip_colons(name) == strip_colons(v@.subrange(s as int, to as int)),
        decreases to - s,
    {
        proof {
            assert(v@.subrange(s as int, to as int).drop_first() =~= v@.subrange(s + 1, to as int));
        }
        s = s + 1;
    }
    let ghost stripped = v@.subrange(s as int, to as int);
    assert(strip_colons(stripped) == stripped);
    let mut r: Vec<char> = Vec::new();
    let mut i = s;
    while i < to
        invariant
            s <= i <= to <= v@.len(),
            stripped == v@.subrange(s as int, to as int),
            r@ == v@.subrange(s as int, i as int).map_values(
                |c: char| if c == ':' { sep } else { c },
            ),
        decreases to - i,
    {
        let c = v[i];
        if c == ':' {
            r.push(sep);
        } else {
            r.push(c);
        }
        assert(r@ =~= v@.subrange(s as int, i + 1).map_values(
            |c: char| if c == ':' { sep } else { c },
        ));
        i = i + 1;
    }
    r
}

/// Whether `v` holds an entry with the characters of `x`.
fn contains_chars(v: &Vec<Vec<char>>, x: &Vec<char>) -> (r: bool)
    ensures
        r == char_views(v@).contains(x@),
{
    let mut i: usize = 0;
    while i < v.len()
        invariant
            i <= v@.len(),
            forall|j: int| 0 <= j < i ==> v@[j]@ != x@,
        decreases v@.len() - i,
    {
        if chars_equal(&v[i], x) {
            assert(char_views(v@)[i as int] == x@);
            return true;
        }
        i = i + 1;
    }
    proof {
        if char_views(v@).contains(x@) {
            let j = choose|j: int| 0 <= j < char_views(v@).len() && char_views(v@)[j] == x@;
            assert(v@[j]@ == x@);
        }
    }
    false
}

/// Adds `dir` to `result` unless it is empty or already there.
fn keep_if_new(result: &mut Vec<Vec<char>>, dir: Vec<char>, Ghost(seen): Ghost<Seq<Seq<char>>>)
    requires
        char_views(old(result)@) == first_nonempty(seen),
    ensures
        char_views(final(result)@) == first_nonempty(seen.push(dir@)),
{
    proof {
        assert(seen.push(dir@).drop_last() =~= seen);
    }
    if dir.len() > 0 && !contains_chars(result, &dir) {
        let ghost before = char_views(result@);
        result.push(dir);
        assert(char_views(result@) =~= before.push(dir@));
    }
}

proof fn lemma_quoted_names_step_quote(t: Seq<char>, k: int)
    requires
        t.len() > 0,
        is_quote(t[0]),
        index_of(t.drop_first(), t[0]) == Some(k),
    ensures
        0 <= k < t.len() - 1,
        quoted_names(t) == seq![t.drop_first().take(k)] + quoted_names(t.skip(k + 2)),
{
    lemma_index_of_bounds(t.drop_first(), t[0]);
    assert(t.drop_first().skip(k + 1) =~= t.skip(k + 2));
}

/// The project directories of the quoted names in `v[from..to]`, each added
/// to `result` as `keep_if_new` would.
fn collect_quoted(
    v: &Vec<char>,
    from: usize,
    to: usize,
    sep: char,
    result: &mut Vec<Vec<char>>,
    Ghost(seen): Ghost<Seq<Seq<char>>>,
)
    requires
        from <= to <= v@.len(),
        char_views(old(result)@) == first_nonempty(seen),
    ensures
        char_views(final(result)@) == first_nonempty(
            seen + quoted_names(v@.subrange(from as int, to as int)).map_values(
                |n: Seq<char>| project_dir(n, sep),
            ),
        ),
{
    let ghost whole = quoted_names(v@.subrange(from as int, to as int));
    let ghost mut found: Seq<Seq<char>> = seq![];
    let mut q = from;
    while q < to
        invariant
            from <= q <= to <= v@.len(),
            whole == quoted_names(v@.subrange(from as int, to as int)),
            whole == found + quoted_names(v@.subrange(q as int, to as int)),
            char_views(result@) == first_nonempty(
                seen + found.map_values(|n: Seq<char>| project_dir(n, sep)),
            ),
        decreases to - q,
    {
        let ghost rest = v@.subrange(q as int, to as int);
        let c = v[q];
        assert(rest[0] == c);
        if c == '"' || c == '\'' {
            let (name_end, next) = match find_char(v, q + 1, to, c) {
                Some(j) => (j, j + 1),
                None => (to, to),
            };
            let dir = project_dir_exec(v, q + 1, name_end, sep);
            let ghost name = v@.subrange(q + 1, name_end as int);
            proof {
                assert(rest.drop_first() =~= v@.subrange(q + 1, to as int));
                if next == to && name_end == to {
                    if let Some(k) = index_of(rest.drop_first(), c) {
                        lemma_index_of_bounds(rest.drop_first(), c);
                    }
                    assert(quoted_names(rest) == seq![rest.drop_first()]);
                    assert(rest.drop_first() =~= name);
                    assert(v@.subrange(to as int, to as int) =~= Seq::<char>::empty());
                    assert(quoted_names(v@.subrange(next as int, to as int)) =~= Seq::<Seq<char>>::empty());
                    assert(seq![name] + Seq::<Seq<char>>::empty() =~= seq![name]);
                } else {
                    let k = name_end - q - 1;
                    lemma_quoted_names_step_quote(rest, k);
                    assert(rest.drop_first().take(k) =~= name);
                    assert(rest.skip(k + 2) =~= v@.subrange(next as int, to as int));
                }
                assert(quoted_names(rest) == seq![name] + quoted_names(v@.subrange(next as int, to as int)));
            }
            let ghost old_found = found;
            let ghost seen_before = seen + old_found.map_values(|n: Seq<char>| project_dir(n, sep));
            keep_if_new(result, dir, Ghost(seen_before));
            proof {
                found = old_found.push(name);
                assert(seen + found.map_values(|n: Seq<char>| project_dir(n, sep)) =~= seen_before.push(
                    project_dir(name, sep),
                ));
                assert(whole =~= found + quoted_names(v@.subrange(next as int, to as int)));
            }
            q = next;
        } else {
            proof {
                assert(rest.drop_first() =~= v@.subrange(q + 1, to as int));
            }
            q = q + 1;
        }
    }
    proof {
        assert(v@.subrange(q as int, to as int) =~= Seq::<char>::empty());
        assert(found =~= whole);
    }
}

/// The subproject directories named by `include` lines of a settings
/// file, using `sep` as the path separator.
pub fn parse_include_calls_with_separator(content: &str, sep: char) -> (r: Vec<String>)
    ensures
        string_views(r@) == include_dirs(content@, sep),
{
    let cs = str_chars(content);
    let prefix = str_chars("include(");
    let keyword = str_chars("include");
    let mut result: Vec<Vec<char>> = Vec::new();
    let ghost mut done: Seq<Seq<char>> = seq![];
    let mut pos: usize = 0;
    proof {
        assert(cs@.subrange(0, cs@.len() as int) =~= cs@);
        assert(char_views(result@) =~= Seq::<Seq<char>>::empty());
    }
    while pos < cs.len()
        invariant
            pos <= cs@.len(),
            cs@ == content@,
            prefix@ == "include("@,
            keyword@ == "include"@,
            lines(cs@) == done + lines(cs@.subrange(pos as int, cs@.len() as int)),
            char_views(result@) == first_nonempty(candidate_dirs(done, sep)),
        decreases cs@.len() - pos,
    {
        let ghost rest = cs@.subrange(pos as int, cs@.len() as int);
        proof {
            lemma_lines_step(rest);
        }
        let (line_end, next) = match find_char(&cs, pos, cs.len(), '\n') {
            Some(i) => {
                if i > pos && cs[i - 1] == '\r' {
                    (i - 1, i + 1)
                } else {
                    (i, i + 1)
                }
            },
            None => (cs.len(), cs.len()),
        };
        let ghost line = cs@.subrange(pos as int, line_end as int);
        proof {
            match index_of(rest, '\n') {
                Some(k) => {
                    let i = pos + k;
                    assert(next == i + 1);
                    if line_end < i {
                        assert(strip_cr(rest.take(k)) =~= line);
                    } else {
                        assert(rest.take(k) =~= line);
                    }
                    assert(rest.skip(k + 1) =~= cs@.subrange(next as int, cs@.len() as int));
                },
                None => {
                    assert(rest =~= line);
                    assert(cs@.subrange(next as int, cs@.len() as int) =~= Seq::<char>::empty());
                    assert(lines(cs@.subrange(next as int, cs@.len() as int)) =~= Seq::<Seq<char>>::empty());
                    assert(seq![line] + Seq::<Seq<char>>::empty() =~= seq![line]);
                },
            }
            assert(lines(rest) == seq![line] + lines(cs@.subrange(next as int, cs@.len() as int)));
        }
        let (a, b) = trim_bounds(&cs, pos, line_end);
        let ghost old_done = done;
        let groovy = starts_with_at(&cs, a, b, &keyword) && b - a > 7 && is_whitespace_char(cs[a + 7]);
        proof {
            reveal_strlit("include");
            if b - a > 7 {
                assert(cs@.subrange(a as int, b as int)[7] == cs@[a + 7]);
            }
        }
        if starts_with_at(&cs, a, b, &prefix) || groovy {
            collect_quoted(&cs, a, b, sep, &mut result, Ghost(candidate_dirs(old_done, sep)));
        }
        proof {
            done = old_done.push(line);
            assert(done.drop_last() =~= old_done);
            assert(candidate_dirs(done, sep) == candidate_dirs(old_done, sep) + line_dirs(line, sep));
            if !is_include_line(trim(line)) {
                assert(candidate_dirs(old_done, sep) + line_dirs(line, sep) =~= candidate_dirs(
                    old_done,
                    sep,
                ));
            }
            assert(lines(cs@) =~= done + lines(cs@.subrange(next as int, cs@.len() as int)));
        }
        pos = next;
    }
    proof {
        assert(cs@.subrange(pos as int, cs@.len() as int) =~= Seq::<char>::empty());
        assert(done + Seq::<Seq<char>>::empty() =~= done);
    }
    let mut out: Vec<String> = Vec::new();
    let mut i: usize = 0;
    while i < result.len()
        invariant
            i <= result@.len(),
            string_views(out@) == char_views(result@).take(i as int),
        decreases result@.len() - i,
    {
        let s = chars_to_string(result[i].as_slice());
        assert(s@ == char_views(result@)[i as int]);
        let ghost before = out@;
        out.push(s);
        assert(string_views(out@) =~= string_views(before).push(s@));
        assert(string_views(out@) =~= char_views(result@).take(i + 1));
        i = i + 1;
    }
    assert(char_views(result@).take(result@.len() as int) =~= char_views(result@));
    out
}

/// The subproject directories named by `include` lines of a settings
/// file: `":app"` gives `app`, `":feature:login"` gives `feature/login`
/// (with the platform's separator), each directory once, in order.
pub fn parse_include_calls(content: &str) -> (r: Vec<String>)
    ensures
        string_views(r@) == include_dirs(content@, '/') || string_views(r@) == include_dirs(
            content@,
            '\\',
        ),
{
    let sep = main_separator();
    parse_include_calls_with_separator(content, sep)
}

/// The entries of `first_nonempty(c)` are non-empty and pairwise different.
proof fn lemma_first_nonempty_distinct(c: Seq<Seq<char>>)
    ensures
        forall|i: int| 0 <= i < first_nonempty(c).len() ==> (#[trigger] first_nonempty(c)[i]).len() > 0,
        forall|i: int, j: int|
            0 <= i < j < first_nonempty(c).len() ==> #[trigger] first_nonempty(c)[i] != #[trigger] first_nonempty(c)[j],
    decreases c.len(),
{
    if c.len() > 0 {
        lemma_first_nonempty_distinct(c.drop_last());
        let r = first_nonempty(c.drop_last());
        let x = c.last();
        if x.len() > 0 && !r.contains(x) {
            let f = r.push(x);
            assert(first_nonempty(c) == f);
            assert forall|i: int, j: int| 0 <= i < j < f.len() implies #[trigger] f[i] != #[trigger] f[j] by {
                if j == r.len() {
                    assert(f[i] == r[i]);
                    assert(f[j] == x);
                } else {
                    assert(f[i] == r[i] && f[j] == r[j]);
                }
            }
            assert forall|i: int| 0 <= i < f.len() implies (#[trigger] f[i]).len() > 0 by {
                if i < r.len() {
                    assert(f[i] == r[i]);
                }
            }
        }
    }
}

/// Law: the subproject directories read from a settings file are non-empty
/// and each is listed once.
pub proof fn law_include_dirs_distinct(content: Seq<char>, sep: char)
    ensures
        forall|i: int| 0 <= i < include_dirs(content, sep).len() ==> (#[trigger] include_dirs(content, sep)[i]).len() > 0,
        forall|i: int, j: int|
            0 <= i < j < include_dirs(content, sep).len() ==> #[trigger] include_dirs(content, sep)[i]
                != #[trigger] include_dirs(content, sep)[j],
{
    lemma_first_nonempty_distinct(candidate_dirs(lines(content), sep));
}

/// `d` is the directory of a quoted name on an `include` line among `ls`.
pub open spec fn named_on_include_line(ls: Seq<Seq<char>>, d: Seq<char>, sep: char) -> bool {
    exists|li: int, q: int|
        0 <= li < ls.len() && is_include_line(trim(ls[li])) && 0 <= q < quoted_names(trim(ls[li])).len()
            && #[trigger] project_dir(quoted_names(trim(ls[li]))[q], sep) == d
}

proof fn lemma_candidate_dirs_origin(ls: Seq<Seq<char>>, sep: char)
    ensures
        forall|k: int|
            0 <= k < candidate_dirs(ls, sep).len() ==> named_on_include_line(
                ls,
                #[trigger] candidate_dirs(ls, sep)[k],
                sep,
            ),
    decreases ls.len(),
{
    if ls.len() > 0 {
        let init = ls.drop_last();
        lemma_candidate_dirs_origin(init, sep);
        let a = candidate_dirs(init, sep);
        let b = line_dirs(ls.last(), sep);
        assert forall|k: int| 0 <= k < (a + b).len() implies named_on_include_line(ls, #[trigger] (a + b)[k], sep) by {
            if k < a.len() {
                assert((a + b)[k] == a[k]);
                let (li, q) = choose|li: int, q: int|
                    0 <= li < init.len() && is_include_line(trim(init[li])) && 0 <= q < quoted_names(
                        trim(init[li]),
                    ).len() && #[trigger] project_dir(quoted_names(trim(init[li]))[q], sep) == a[k];
                assert(ls[li] == init[li]);
                assert(project_dir(quoted_names(trim(ls[li]))[q], sep) == (a + b)[k]);
            } else {
                assert((a + b)[k] == b[k - a.len()]);
                let li = ls.len() - 1;
                assert(ls[li] == ls.last());
                assert(project_dir(quoted_names(trim(ls[li]))[k - a.len()], sep) == (a + b)[k]);
            }
        }
    }
}

proof fn lemma_first_nonempty_from(c: Seq<Seq<char>>)
    ensures
        forall|k: int| 0 <= k < first_nonempty(c).len() ==> c.contains(#[trigger] first_nonempty(c)[k]),
    decreases c.len(),
{
    if c.len() > 0 {
        lemma_first_nonempty_from(c.drop_last());
        let r = first_nonempty(c.drop_last());
        assert forall|k: int| 0 <= k < first_nonempty(c).len() implies c.contains(#[trigger] first_nonempty(c)[k]) by {
            if k < r.len() {
                assert(first_nonempty(c)[k] == r[k]);
                let j = choose|j: int| 0 <= j < c.drop_last().len() && c.drop_last()[j] == r[k];
                assert(c[j] == r[k]);
            } else {
                assert(first_nonempty(c)[k] == c.last());
                assert(c[c.len() - 1] == c.last());
            }
        }
    }
}

/// Law: every subproject directory read from a settings file is the
/// directory of a quoted name on one of its `include` lines, and holds no
/// colon (the colons of the project path became separators).
pub proof fn law_include_dirs_come_from_include_lines(content: Seq<char>, sep: char)
    requires
        sep != ':',
    ensures
        forall|k: int|
            0 <= k < include_dirs(content, sep).len() ==> named_on_include_line(
                lines(content),
                #[trigger] include_dirs(content, sep)[k],
                sep,
            ),
        forall|k: int, m: int|
            0 <= k < include_dirs(content, sep).len() && 0 <= m < include_dirs(content, sep)[k].len()
                ==> #[trigger] include_dirs(content, sep)[k][m] != ':',
{
    let c = candidate_dirs(lines(content), sep);
    lemma_candidate_dirs_origin(lines(content), sep);
    lemma_first_nonempty_from(c);
    assert forall|k: int| 0 <= k < include_dirs(content, sep).len() implies named_on_include_line(
        lines(content),
        #[trigger] include_dirs(content, sep)[k],
        sep,
    ) by {
        let j = choose|j: int| 0 <= j < c.len() && c[j] == include_dirs(content, sep)[k];
        assert(named_on_include_line(lines(content), c[j], sep));
    }
    assert forall|k: int, m: int|
        0 <= k < include_dirs(content, sep).len() && 0 <= m < include_dirs(content, sep)[k].len()
            implies #[trigger] include_dirs(content, sep)[k][m] != ':' by {
        let d = include_dirs(content, sep)[k];
        let ls = lines(content);
        assert(named_on_include_line(ls, d, sep));
        let (li, q) = choose|li: int, q: int|
            0 <= li < ls.len() && is_include_line(trim(ls[li])) && 0 <= q < quoted_names(trim(ls[li])).len()
                && #[trigger] project_dir(quoted_names(trim(ls[li]))[q], sep) == d;
        let n = strip_colons(quoted_names(trim(ls[li]))[q]);
        assert(d[m] == (if n[m] == ':' { sep } else { n[m] }));
    }
}

} // verus!
