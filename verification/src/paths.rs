//! POSIX path strings: joining, and equality by components as `std::path::Path`
//! compares them (`a/b`, `a/b/`, `a//b` and `a/./b` are the same path;
//! `./a` and `a` are not).
use crate::text::{char_views, find_char, index_of, lemma_index_of_bounds};
use vstd::prelude::*;

verus! {

/// A path segment that contributes a component: not empty and not `.`.
pub open spec fn kept_segment(p: Seq<char>) -> Seq<Seq<char>> {
    if p.len() == 0 || p == seq!['.'] {
        seq![]
    } else {
        seq![p]
    }
}

/// The normal components of `s` (`..` included): the `/`-separated segments
/// that are neither empty nor `.`.
pub open spec fn path_parts(s: Seq<char>) -> Seq<Seq<char>>
    decreases s.len(),
{
    match index_of(s, '/') {
        Some(i) => {
            proof {
                lemma_index_of_bounds(s, '/');
            }
            kept_segment(s.take(i)) + path_parts(s.skip(i + 1))
        },
        None => kept_segment(s),
    }
}

/// Whether `s` starts at the root directory.
pub open spec fn is_rooted(s: Seq<char>) -> bool {
    s.len() > 0 && s[0] == '/'
}

/// Whether `s` begins with a `.` component, which `Path` keeps only at the start.
pub open spec fn leading_cur_dir(s: Seq<char>) -> bool {
    !is_rooted(s) && s.len() > 0 && s[0] == '.' && (s.len() == 1 || s[1] == '/')
}

/// `Path` equality: same root, same leading `.`, same normal components.
pub open spec fn same_path(a: Seq<char>, b: Seq<char>) -> bool {
    &&& is_rooted(a) == is_rooted(b)
    &&& leading_cur_dir(a) == leading_cur_dir(b)
    &&& path_parts(a) == path_parts(b)
}

/// `Path::join`: `p` itself when it is absolute, otherwise `p` appended to
/// `base` with one `/` between them (none when `base` is empty or already
/// ends with `/`).
pub open spec fn join(base: Seq<char>, p: Seq<char>) -> Seq<char> {
    if is_rooted(p) {
        p
    } else if base.len() == 0 || base.last() == '/' {
        base + p
    } else {
        base + seq!['/'] + p
    }
}

proof fn lemma_path_parts_step(s: Seq<char>)
    ensures
        path_parts(s) == (match index_of(s, '/') {
            Some(i) => kept_segment(s.take(i)) + path_parts(s.skip(i + 1)),
            None => kept_segment(s),
        }),
{
}

/// The normal components of `v`.
fn parts_of(v: &Vec<char>) -> (r: Vec<Vec<char>>)
    ensures
        char_views(r@) == path_parts(v@),
{
    let mut r: Vec<Vec<char>> = Vec::new();
    let mut pos: usize = 0;
    let mut done = false;
    proof {
        assert(v@.subrange(0, v@.len() as int) =~= v@);
    }
    while !done
        invariant
            pos <= v@.len(),
            !done ==> path_parts(v@) == char_views(r@) + path_parts(
                v@.subrange(pos as int, v@.len() as int),
            ),
            done ==> path_parts(v@) == char_views(r@),
        decreases v@.len() - pos, if done { 0int } else { 1int },
    {
        let ghost rest = v@.subrange(pos as int, v@.len() as int);
        let ghost before = char_views(r@);
        proof {
            lemma_path_parts_step(rest);
        }
        let (seg_end, found) = match find_char(v, pos, v.len(), '/') {
            Some(i) => (i, true),
            None => (v.len(), false),
        };
        let ghost seg = v@.subrange(pos as int, seg_end as int);
        let is_dot = seg_end > pos && seg_end - pos == 1 && v[pos] == '.';
        if seg_end > pos && !is_dot {
            let mut part: Vec<char> = Vec::new();
            let mut k = pos;
            while k < seg_end
                invariant
                    pos <= k <= seg_end <= v@.len(),
                    part@ == v@.subrange(pos as int, k as int),
                decreases seg_end - k,
            {
                part.push(v[k]);
                assert(part@ =~= v@.subrange(pos as int, k + 1));
                k = k + 1;
            }
            r.push(part);
        }
        proof {
            if seg_end > pos && !is_dot {
                assert(seg != seq!['.']) by {
                    if seg_end == pos + 1 {
                        assert(seg[0] != '.');
                    }
                }
                assert(kept_segment(seg) == seq![seg]);
                assert(char_views(r@) =~= before + kept_segment(seg));
            } else {
                if seg_end == pos + 1 {
                    assert(seg =~= seq!['.']);
                } else {
                    assert(seg.len() == 0);
                }
                assert(char_views(r@) =~= before + kept_segment(seg));
            }
            if found {
                let k = seg_end - pos;
                assert(rest.take(k) =~= seg);
                assert(rest.skip(k + 1) =~= v@.subrange(seg_end + 1, v@.len() as int));
            } else {
                assert(rest =~= seg);
            }
        }
        if found {
            pos = seg_end + 1;
        } else {
            pos = seg_end;
            done = true;
        }
    }
    r
}

/// Whether the paths `a` and `b` are equal as `Path`s.
pub fn paths_equal(a: &Vec<char>, b: &Vec<char>) -> (r: bool)
    ensures
        r == same_path(a@, b@),
{
    let ra = a.len() > 0 && a[0] == '/';
    let rb = b.len() > 0 && b[0] == '/';
    if ra != rb {
        return false;
    }
    let ca = !ra && a.len() > 0 && a[0] == '.' && (a.len() == 1 || a[1] == '/');
    let cb = !rb && b.len() > 0 && b[0] == '.' && (b.len() == 1 || b[1] == '/');
    if ca != cb {
        return false;
    }
    let pa = parts_of(a);
    let pb = parts_of(b);
    if pa.len() != pb.len() {
        assert(char_views(pa@).len() != char_views(pb@).len());
        return false;
    }
    let mut i: usize = 0;
    while i < pa.len()
        invariant
            i <= pa@.len() == pb@.len(),
            forall|j: int| 0 <= j < i ==> pa@[j]@ == pb@[j]@,
            char_views(pa@) == path_parts(a@),
            char_views(pb@) == path_parts(b@),
            is_rooted(a@) == is_rooted(b@),
            leading_cur_dir(a@) == leading_cur_dir(b@),
        decreases pa@.len() - i,
    {
        if !crate::text::chars_equal(&pa[i], &pb[i]) {
            proof {
                let ma = char_views(pa@);
                let mb = char_views(pb@);
                assert(ma[i as int] == pa@[i as int]@);
                assert(mb[i as int] == pb@[i as int]@);
                assert(ma != mb);
            }
            return false;
        }
        i = i + 1;
    }
    assert(char_views(pa@) =~= char_views(pb@));
    true
}

/// `Path::join` on POSIX path strings.
pub fn join_path(base: &Vec<char>, p: &Vec<char>) -> (r: Vec<char>)
    ensures
        r@ == join(base@, p@),
{
    if p.len() > 0 && p[0] == '/' {
        return p.clone();
    }
    let mut r = base.clone();
    if base.len() > 0 && base[base.len() - 1] != '/' {
        r.push('/');
    }
    let ghost start = r@;
    let mut i: usize = 0;
    while i < p.len()
        invariant
            i <= p@.len(),
            r@ == start + p@.take(i as int),
        decreases p@.len() - i,
    {
        r.push(p[i]);
        assert(r@ =~= start + p@.take(i + 1));
        i = i + 1;
    }
    assert(p@.take(p@.len() as int) =~= p@);
    proof {
        if !(base@.len() == 0 || base@.last() == '/') {
            assert(start =~= base@ + seq!['/']);
        } else {
            assert(start =~= base@);
        }
    }
    r
}

/// Whether `v` holds an entry equal, as a path, to `x`.
pub fn contains_path(v: &Vec<Vec<char>>, x: &Vec<char>) -> (r: bool)
    ensures
        r == exists|j: int| 0 <= j < v@.len() && same_path(#[trigger] v@[j]@, x@),
{
    let mut i: usize = 0;
    while i < v.len()
        invariant
            i <= v@.len(),
            forall|j: int| 0 <= j < i ==> !same_path(#[trigger] v@[j]@, x@),
        decreases v@.len() - i,
    {
        if paths_equal(&v[i], x) {
            return true;
        }
        i = i + 1;
    }
    false
}

} // verus!
