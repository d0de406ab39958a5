//! Source roots of a workspace: those that `workspace.json` lists, and the
//! standard Maven/Gradle source directories of a build layout.
//!
//! In `workspace.json` (written by JetBrains Gradle/Maven plugins) every
//! source root of type `java-source` or `java-test` is indexed; the
//! placeholder `<WORKSPACE>` in its path stands for the workspace root, and
//! roots under `<MAVEN_REPO>` (library jars) are skipped.
use crate::gradle::string_views;
use crate::paths::{contains_path, join, join_path, same_path};
use crate::text::{char_views, chars_equal, chars_to_string, starts_with, starts_with_at, str_chars};
use vstd::prelude::*;

verus! {

/// One `sourceRoots` entry of `workspace.json`.
pub struct SourceRootData {
    pub path: String,
    pub root_type: String,
}

/// One `contentRoots` entry of `workspace.json`.
pub struct ContentRootData {
    pub source_roots: Vec<SourceRootData>,
}

/// One `modules` entry of `workspace.json`.
pub struct ModuleData {
    pub content_roots: Vec<ContentRootData>,
}

/// The part of `workspace.json` that source-root discovery reads.
pub struct WorkspaceData {
    pub modules: Vec<ModuleData>,
}

/// `s` with every occurrence of the non-empty `pat`, read left to right and
/// without overlaps, replaced by `rep` (`str::replace`).
pub open spec fn replace_all(s: Seq<char>, pat: Seq<char>, rep: Seq<char>) -> Seq<char>
    decreases s.len(),
{
    if s.len() == 0 {
        seq![]
    } else if pat.len() > 0 && starts_with(s, pat) {
        rep + replace_all(s.skip(pat.len() as int), pat, rep)
    } else {
        seq![s[0]] + replace_all(s.drop_first(), pat, rep)
    }
}

/// The entries of `c`, dropping each entry that is the same path as an
/// earlier kept one.
pub open spec fn distinct_paths(c: Seq<Seq<char>>) -> Seq<Seq<char>>
    decreases c.len(),
{
    if c.len() == 0 {
        seq![]
    } else {
        let r = distinct_paths(c.drop_last());
        if exists|j: int| 0 <= j < r.len() && same_path(#[trigger] r[j], c.last()) {
            r
        } else {
            r.push(c.last())
        }
    }
}

/// Source roots of these types are indexed; resource roots are not.
pub open spec fn is_source_type(t: Seq<char>) -> bool {
    t == "java-source"@ || t == "java-test"@
}

/// Whether `pat` occurs in `s`.
pub open spec fn has_substring(s: Seq<char>, pat: Seq<char>) -> bool {
    exists|i: int| 0 <= i && i + pat.len() <= s.len() && #[trigger] s.subrange(i, i + pat.len()) == pat
}

/// The path a source root contributes: when its type is indexed and it does
/// not lie in the Maven repository (`<MAVEN_REPO>`: library jars are not
/// indexed).
pub open spec fn root_path(r: SourceRootData, workspace: Seq<char>) -> Option<Seq<char>> {
    if is_source_type(r.root_type@) && !has_substring(r.path@, "<MAVEN_REPO>"@) {
        Some(replace_all(r.path@, "<WORKSPACE>"@, workspace))
    } else {
        None
    }
}

/// The paths contributed by a list of source roots, in order.
pub open spec fn root_paths(rs: Seq<SourceRootData>, workspace: Seq<char>) -> Seq<Seq<char>>
    decreases rs.len(),
{
    if rs.len() == 0 {
        seq![]
    } else {
        root_paths(rs.drop_last(), workspace) + match root_path(rs.last(), workspace) {
            Some(p) => seq![p],
            None => seq![],
        }
    }
}

/// The source roots of content roots, in order.
pub open spec fn content_sources(cs: Seq<ContentRootData>) -> Seq<SourceRootData>
    decreases cs.len(),
{
    if cs.len() == 0 {
        seq![]
    } else {
        content_sources(cs.drop_last()) + cs.last().source_roots@
    }
}

/// The source roots of modules, in order.
pub open spec fn module_sources(ms: Seq<ModuleData>) -> Seq<SourceRootData>
    decreases ms.len(),
{
    if ms.len() == 0 {
        seq![]
    } else {
        module_sources(ms.drop_last()) + content_sources(ms.last().content_roots@)
    }
}

/// The indexed source roots of `workspace.json`, with `<WORKSPACE>`
/// resolved and `<MAVEN_REPO>` roots skipped, each path once, in order of
/// first appearance.
pub open spec fn workspace_source_paths(data: WorkspaceData, workspace: Seq<char>) -> Seq<Seq<char>> {
    distinct_paths(root_paths(module_sources(data.modules@), workspace))
}

proof fn lemma_root_paths_append(a: Seq<SourceRootData>, b: Seq<SourceRootData>, w: Seq<char>)
    ensures
        root_paths(a + b, w) == root_paths(a, w) + root_paths(b, w),
    decreases b.len(),
{
    if b.len() == 0 {
        assert(a + b =~= a);
        assert(root_paths(a, w) + root_paths(b, w) =~= root_paths(a, w));
    } else {
        assert((a + b).drop_last() =~= a + b.drop_last());
        lemma_root_paths_append(a, b.drop_last(), w);
        assert((a + b).last() == b.last());
        assert(root_paths(a + b, w) =~= root_paths(a, w) + root_paths(b, w));
    }
}

/// `s` with `pat` (non-empty) replaced by `rep` throughout.
pub fn replace_chars(s: &Vec<char>, pat: &Vec<char>, rep: &Vec<char>) -> (r: Vec<char>)
    requires
        pat@.len() > 0,
    ensures
        r@ == replace_all(s@, pat@, rep@),
{
    let mut r: Vec<char> = Vec::new();
    let mut i: usize = 0;
    proof {
        assert(s@.subrange(0, s@.len() as int) =~= s@);
    }
    while i < s.len()
        invariant
            i <= s@.len(),
            pat@.len() > 0,
            replace_all(s@, pat@, rep@) == r@ + replace_all(
                s@.subrange(i as int, s@.len() as int),
                pat@,
                rep@,
            ),
        decreases s@.len() - i,
    {
        let ghost rest = s@.subrange(i as int, s@.len() as int);
        let ghost before = r@;
        if starts_with_at(s, i, s.len(), pat) {
            let mut k: usize = 0;
            while k < rep.len()
                invariant
                    k <= rep@.len(),
                    r@ == before + rep@.take(k as int),
                decreases rep@.len() - k,
            {
                r.push(rep[k]);
                assert(r@ =~= before + rep@.take(k + 1));
                k = k + 1;
            }
            proof {
                assert(rep@.take(rep@.len() as int) =~= rep@);
                assert(rest.skip(pat@.len() as int) =~= s@.subrange(i + pat@.len(), s@.len() as int));
                assert(before + (rep@ + replace_all(rest.skip(pat@.len() as int), pat@, rep@)) =~= r@
                    + replace_all(rest.skip(pat@.len() as int), pat@, rep@));
            }
            i = i + pat.len();
        } else {
            r.push(s[i]);
            proof {
                assert(rest.drop_first() =~= s@.subrange(i + 1, s@.len() as int));
                assert(before + (seq![rest[0]] + replace_all(rest.drop_first(), pat@, rep@)) =~= r@
                    + replace_all(rest.drop_first(), pat@, rep@));
            }
            i = i + 1;
        }
    }
    proof {
        assert(s@.subrange(i as int, s@.len() as int) =~= Seq::<char>::empty());
        assert(r@ + Seq::<char>::empty() =~= r@);
    }
    r
}

/// Adds `x` to `result` unless `result` already holds the same path.
fn keep_if_new_path(result: &mut Vec<Vec<char>>, x: Vec<char>, Ghost(seen): Ghost<Seq<Seq<char>>>)
    requires
        char_views(old(result)@) == distinct_paths(seen),
    ensures
        char_views(final(result)@) == distinct_paths(seen.push(x@)),
{
    proof {
        assert(seen.push(x@).drop_last() =~= seen);
    }
    let ghost before = char_views(result@);
    if !contains_path(result, &x) {
        proof {
            if exists|j: int| 0 <= j < before.len() && same_path(#[trigger] before[j], x@) {
                let j = choose|j: int| 0 <= j < before.len() && same_path(#[trigger] before[j], x@);
                assert(before[j] == result@[j]@);
            }
        }
        result.push(x);
        assert(char_views(result@) =~= before.push(x@));
    } else {
        proof {
            let j = choose|j: int| 0 <= j < result@.len() && same_path(#[trigger] result@[j]@, x@);
            assert(before[j] == result@[j]@);
        }
    }
}

/// Converts character vectors to strings.
fn to_strings(v: &Vec<Vec<char>>) -> (out: Vec<String>)
    ensures
        string_views(out@) == char_views(v@),
{
    let mut out: Vec<String> = Vec::new();
    let mut i: usize = 0;
    while i < v.len()
        invariant
            i <= v@.len(),
            string_views(out@) == char_views(v@).take(i as int),
        decreases v@.len() - i,
    {
        let s = chars_to_string(v[i].as_slice());
        assert(s@ == char_views(v@)[i as int]);
        let ghost before = out@;
        out.push(s);
        assert(string_views(out@) =~= string_views(before).push(s@));
        assert(string_views(out@) =~= char_views(v@).take(i + 1));
        i = i + 1;
    }
    assert(char_views(v@).take(v@.len() as int) =~= char_views(v@));
    out
}

/// Whether `pat` occurs in `s`.
pub fn contains_text(s: &Vec<char>, pat: &Vec<char>) -> (r: bool)
    ensures
        r == has_substring(s@, pat@),
{
    if pat.len() > s.len() {
        return false;
    }
    if pat.len() == 0 {
        assert(s@.subrange(0, 0 + pat@.len() as int) =~= pat@);
        return true;
    }
    let mut i: usize = 0;
    while i <= s.len() - pat.len()
        invariant
            0 < pat@.len() <= s@.len(),
            pat@.len() == pat.len(),
            s@.len() == s.len(),
            i <= s@.len() - pat@.len() + 1,
            forall|k: int| 0 <= k < i ==> #[trigger] s@.subrange(k, k + pat@.len()) != pat@,
        decreases s@.len() - pat@.len() + 1 - i,
    {
        if starts_with_at(s, i, s.len(), pat) {
            assert(s@.subrange(i as int, s@.len() as int).take(pat@.len() as int) =~= s@.subrange(
                i as int,
                i + pat@.len(),
            ));
            assert(s@.subrange(i as int, i + pat@.len()) == pat@);
            return true;
        }
        assert(s@.subrange(i as int, s@.len() as int).take(pat@.len() as int) =~= s@.subrange(
            i as int,
            i + pat@.len(),
        ));
        i = i + 1;
    }
    assert forall|k: int| 0 <= k && k + pat@.len() <= s@.len() implies #[trigger] s@.subrange(
        k,
        k + pat@.len(),
    ) != pat@ by {
        assert(k < i);
    }
    false
}

/// The indexed source roots listed by `workspace.json`: roots of type
/// `java-source` or `java-test` outside `<MAVEN_REPO>`, `<WORKSPACE>`
/// replaced by `workspace`, each path once (paths compared as `Path`s), in
/// order of first appearance.
pub fn workspace_json_source_paths(data: &WorkspaceData, workspace: &str) -> (r: Vec<String>)
    ensures
        string_views(r@) == workspace_source_paths(*data, workspace@),
{
    let ws = str_chars(workspace);
    let placeholder = str_chars("<WORKSPACE>");
    proof {
        reveal_strlit("<WORKSPACE>");
    }
    let java_source = str_chars("java-source");
    let java_test = str_chars("java-test");
    let maven = str_chars("<MAVEN_REPO>");
    let mut result: Vec<Vec<char>> = Vec::new();
    let ghost mut done: Seq<SourceRootData> = seq![];
    let mut mi: usize = 0;
    proof {
        assert(char_views(result@) =~= Seq::<Seq<char>>::empty());
        assert(data.modules@.take(0) =~= Seq::<ModuleData>::empty());
    }
    while mi < data.modules.len()
        invariant
            mi <= data.modules@.len(),
            ws@ == workspace@,
            placeholder@ == "<WORKSPACE>"@,
            placeholder@.len() > 0,
            java_source@ == "java-source"@,
            java_test@ == "java-test"@,
            maven@ == "<MAVEN_REPO>"@,
            done == module_sources(data.modules@.take(mi as int)),
            char_views(result@) == distinct_paths(root_paths(done, workspace@)),
        decreases data.modules@.len() - mi,
    {
        let module = &data.modules[mi];
        let ghost done_before_module = done;
        let mut ci: usize = 0;
        proof {
            assert(module.content_roots@.take(0) =~= Seq::<ContentRootData>::empty());
            assert(done =~= done_before_module + content_sources(module.content_roots@.take(0)));
        }
        while ci < module.content_roots.len()
            invariant
                ci <= module.content_roots@.len(),
                ws@ == workspace@,
                placeholder@ == "<WORKSPACE>"@,
                placeholder@.len() > 0,
                java_source@ == "java-source"@,
                java_test@ == "java-test"@,
                maven@ == "<MAVEN_REPO>"@,
            maven@ == "<MAVEN_REPO>"@,
                done == done_before_module + content_sources(module.content_roots@.take(ci as int)),
                char_views(result@) == distinct_paths(root_paths(done, workspace@)),
            decreases module.content_roots@.len() - ci,
        {
            let content = &module.content_roots[ci];
            let ghost done_before_content = done;
            let mut si: usize = 0;
            proof {
                assert(content.source_roots@.take(0) =~= Seq::<SourceRootData>::empty());
                assert(done =~= done_before_content + content.source_roots@.take(0));
            }
            while si < content.source_roots.len()
                invariant
                    si <= content.source_roots@.len(),
                    ws@ == workspace@,
                    placeholder@ == "<WORKSPACE>"@,
                    placeholder@.len() > 0,
                placeholder@.len() > 0,
                    java_source@ == "java-source"@,
                    java_test@ == "java-test"@,
                    maven@ == "<MAVEN_REPO>"@,
                maven@ == "<MAVEN_REPO>"@,
            maven@ == "<MAVEN_REPO>"@,
                    done == done_before_content + content.source_roots@.take(si as int),
                    char_views(result@) == distinct_paths(root_paths(done, workspace@)),
                decreases content.source_roots@.len() - si,
            {
                let root = &content.source_roots[si];
                let ghost old_done = done;
                proof {
                    done = old_done.push(*root);
                    assert(done.drop_last() =~= old_done);
                    assert(content.source_roots@.take(si + 1) =~= content.source_roots@.take(
                        si as int,
                    ).push(*root));
                    assert(done =~= done_before_content + content.source_roots@.take(si + 1));
                }
                let t = str_chars(root.root_type.as_str());
                let p = str_chars(root.path.as_str());
                if (chars_equal(&t, &java_source) || chars_equal(&t, &java_test)) && !contains_text(&p, &maven) {
                    let resolved = replace_chars(&p, &placeholder, &ws);
                    proof {
                        assert(root_paths(done, workspace@) =~= root_paths(old_done, workspace@).push(
                            resolved@,
                        ));
                    }
                    keep_if_new_path(&mut result, resolved, Ghost(root_paths(old_done, workspace@)));
                } else {
                    proof {
                        assert(root_paths(done, workspace@) =~= root_paths(old_done, workspace@));
                    }
                }
                si = si + 1;
            }
            proof {
                assert(content.source_roots@.take(si as int) =~= content.source_roots@);
                let taken = module.content_roots@.take(ci + 1);
                assert(taken.drop_last() =~= module.content_roots@.take(ci as int));
                assert(taken.last() == *content);
                assert(content_sources(taken) == content_sources(module.content_roots@.take(
                    ci as int,
                )) + content.source_roots@);
                assert(done =~= done_before_module + content_sources(taken));
            }
            ci = ci + 1;
        }
        proof {
            assert(module.content_roots@.take(ci as int) =~= module.content_roots@);
            let taken = data.modules@.take(mi + 1);
            assert(taken.drop_last() =~= data.modules@.take(mi as int));
            assert(taken.last() == *module);
        }
        mi = mi + 1;
    }
    proof {
        assert(data.modules@.take(mi as int) =~= data.modules@);
    }
    to_strings(&result)
}

/// The standard source directories probed under each project directory.
pub open spec fn source_candidates() -> Seq<Seq<char>> {
    seq!["src/main/kotlin"@, "src/main/java"@, "src/test/kotlin"@, "src/test/java"@]
}

/// The project directories probed: the workspace root, then each subproject
/// directory (all of them relative to the root), each path once.
pub open spec fn project_dirs(root: Seq<char>, subprojects: Seq<Seq<char>>) -> Seq<Seq<char>> {
    let scan = if subprojects.len() == 0 {
        seq![root]
    } else {
        subprojects.map_values(|s: Seq<char>| join(root, s))
    };
    distinct_paths(seq![root] + scan)
}

/// The candidate source directories under the directories `dirs`, in order.
pub open spec fn candidates_under(dirs: Seq<Seq<char>>) -> Seq<Seq<char>>
    decreases dirs.len(),
{
    if dirs.len() == 0 {
        seq![]
    } else {
        candidates_under(dirs.drop_last()) + source_candidates().map_values(
            |c: Seq<char>| join(dirs.last(), c),
        )
    }
}

/// The directories a build layout is probed at: none without a build file
/// (`build.gradle(.kts)`, `settings.gradle(.kts)` or `pom.xml`), otherwise
/// each standard source directory under each project directory.
pub open spec fn layout_candidates(
    root: Seq<char>,
    build_file_found: bool,
    subprojects: Seq<Seq<char>>,
) -> Seq<Seq<char>> {
    if !build_file_found {
        seq![]
    } else {
        candidates_under(project_dirs(root, subprojects))
    }
}

/// The probed directories that exist, each path once, in order.
pub open spec fn existing_dirs(candidates: Seq<Seq<char>>, present: Seq<bool>) -> Seq<Seq<char>>
    decreases candidates.len(),
{
    if candidates.len() == 0 {
        seq![]
    } else {
        let r = existing_dirs(candidates.drop_last(), present);
        let i = candidates.len() - 1;
        if present[i] && !exists|j: int| 0 <= j < r.len() && same_path(#[trigger] r[j], candidates[i]) {
            r.push(candidates[i])
        } else {
            r
        }
    }
}

/// The directories to probe for a Maven/Gradle build layout under `root`:
/// nothing unless a build file was found; otherwise `src/main/kotlin`,
/// `src/main/java`, `src/test/kotlin` and `src/test/java` under the root and
/// under each subproject directory.
pub fn build_layout_candidates(root: &str, build_file_found: bool, subprojects: &Vec<String>) -> (r:
    Vec<String>)
    ensures
        string_views(r@) == layout_candidates(root@, build_file_found, string_views(subprojects@)),
{
    if !build_file_found {
        let r: Vec<String> = Vec::new();
        assert(string_views(r@) =~= Seq::<Seq<char>>::empty());
        return r;
    }
    let root_chars = str_chars(root);
    let ghost subs = string_views(subprojects@);
    let ghost scan = if subs.len() == 0 {
        seq![root@]
    } else {
        subs.map_values(|s: Seq<char>| join(root@, s))
    };
    let ghost all = seq![root@] + scan;
    let mut dirs: Vec<Vec<char>> = Vec::new();
    assert(char_views(dirs@) =~= distinct_paths(Seq::<Seq<char>>::empty()));
    keep_if_new_path(&mut dirs, root_chars.clone(), Ghost(Seq::<Seq<char>>::empty()));
    proof {
        assert(Seq::<Seq<char>>::empty().push(root@) =~= all.take(1));
    }
    if subprojects.len() == 0 {
        keep_if_new_path(&mut dirs, root_chars.clone(), Ghost(all.take(1)));
        proof {
            assert(all.take(1).push(root@) =~= all);
        }
    } else {
        let mut i: usize = 0;
        while i < subprojects.len()
            invariant
                i <= subprojects@.len(),
                subprojects@.len() > 0,
                root_chars@ == root@,
                subs == string_views(subprojects@),
                scan == subs.map_values(|s: Seq<char>| join(root@, s)),
                all == seq![root@] + scan,
                char_views(dirs@) == distinct_paths(all.take(i + 1)),
            decreases subprojects@.len() - i,
        {
            let s = str_chars(subprojects[i].as_str());
            let d = join_path(&root_chars, &s);
            proof {
                assert(subs[i as int] == subprojects@[i as int]@);
                assert(all.take(i + 1).push(d@) =~= all.take(i + 2));
            }
            keep_if_new_path(&mut dirs, d, Ghost(all.take(i + 1)));
            i = i + 1;
        }
        proof {
            assert(all.take(i + 1) =~= all);
        }
    }
    let cands = [str_chars("src/main/kotlin"), str_chars("src/main/java"), str_chars("src/test/kotlin"), str_chars("src/test/java")];
    let mut out: Vec<Vec<char>> = Vec::new();
    let mut di: usize = 0;
    proof {
        assert(char_views(out@) =~= candidates_under(char_views(dirs@).take(0)));
    }
    while di < dirs.len()
        invariant
            di <= dirs@.len(),
            cands@.len() == 4,
            forall|k: int| 0 <= k < 4 ==> cands@[k]@ == #[trigger] source_candidates()[k],
            char_views(out@) == candidates_under(char_views(dirs@).take(di as int)),
        decreases dirs@.len() - di,
    {
        let ghost before = char_views(out@);
        let ghost dv = dirs@[di as int]@;
        let mut k: usize = 0;
        while k < 4
            invariant
                k <= 4,
                cands@.len() == 4,
                di < dirs@.len(),
                dv == dirs@[di as int]@,
                forall|m: int| 0 <= m < 4 ==> cands@[m]@ == #[trigger] source_candidates()[m],
                char_views(out@) == before + source_candidates().take(k as int).map_values(
                    |c: Seq<char>| join(dv, c),
                ),
            decreases 4 - k,
        {
            let p = join_path(&dirs[di], &cands[k]);
            let ghost b2 = char_views(out@);
            out.push(p);
            proof {
                assert(char_views(out@) =~= b2.push(p@));
                assert(source_candidates().take(k + 1).map_values(|c: Seq<char>| join(dv, c))
                    =~= source_candidates().take(k as int).map_values(|c: Seq<char>| join(dv, c)).push(
                    join(dv, source_candidates()[k as int]),
                ));
                assert(char_views(out@) =~= before + source_candidates().take(k + 1).map_values(
                    |c: Seq<char>| join(dv, c),
                ));
            }
            k = k + 1;
        }
        proof {
            assert(source_candidates().take(4) =~= source_candidates());
            let taken = char_views(dirs@).take(di + 1);
            assert(taken.drop_last() =~= char_views(dirs@).take(di as int));
            assert(taken.last() == dv);
        }
        di = di + 1;
    }
    proof {
        assert(char_views(dirs@).take(di as int) =~= char_views(dirs@));
    }
    to_strings(&out)
}

/// The probed directories that exist (`present[i]` tells whether
/// `candidates[i]` is a directory), each path once, in order.
pub fn select_existing_dirs(candidates: &Vec<String>, present: &Vec<bool>) -> (r: Vec<String>)
    requires
        candidates@.len() == present@.len(),
    ensures
        string_views(r@) == existing_dirs(string_views(candidates@), present@),
{
    let ghost cs = string_views(candidates@);
    let mut result: Vec<Vec<char>> = Vec::new();
    let mut i: usize = 0;
    proof {
        assert(char_views(result@) =~= existing_dirs(cs.take(0), present@));
    }
    while i < candidates.len()
        invariant
            i <= candidates@.len() == present@.len(),
            cs == string_views(candidates@),
            char_views(result@) == existing_dirs(cs.take(i as int), present@),
        decreases candidates@.len() - i,
    {
        let ghost taken = cs.take(i + 1);
        proof {
            assert(taken.drop_last() =~= cs.take(i as int));
            assert(taken[i as int] == candidates@[i as int]@);
        }
        if present[i] {
            let c = str_chars(candidates[i].as_str());
            let ghost before = char_views(result@);
            if !contains_path(&result, &c) {
                proof {
                    if exists|j: int| 0 <= j < before.len() && same_path(#[trigger] before[j], c@) {
                        let j = choose|j: int| 0 <= j < before.len() && same_path(#[trigger] before[j], c@);
                        assert(before[j] == result@[j]@);
                    }
                }
                result.push(c);
                assert(char_views(result@) =~= before.push(c@));
            } else {
                proof {
                    let j = choose|j: int| 0 <= j < result@.len() && same_path(#[trigger] result@[j]@, c@);
                    assert(before[j] == result@[j]@);
                }
            }
        }
        i = i + 1;
    }
    proof {
        assert(cs.take(i as int) =~= cs);
    }
    to_strings(&result)
}

/// No two entries of `distinct_paths(c)` are the same path.
proof fn lemma_distinct_paths(c: Seq<Seq<char>>)
    ensures
        forall|i: int, j: int|
            0 <= i < j < distinct_paths(c).len() ==> !same_path(
                #[trigger] distinct_paths(c)[i],
                #[trigger] distinct_paths(c)[j],
            ),
    decreases c.len(),
{
    if c.len() > 0 {
        lemma_distinct_paths(c.drop_last());
        let r = distinct_paths(c.drop_last());
        let x = c.last();
        if !(exists|j: int| 0 <= j < r.len() && same_path(#[trigger] r[j], x)) {
            let f = r.push(x);
            assert forall|i: int, j: int| 0 <= i < j < f.len() implies !same_path(#[trigger] f[i], #[trigger] f[j]) by {
                assert(f[i] == r[i]);
                if j < r.len() {
                    assert(f[j] == r[j]);
                }
            }
        }
    }
}

/// No two entries of `existing_dirs(candidates, present)` are the same path.
proof fn lemma_existing_dirs_distinct(candidates: Seq<Seq<char>>, present: Seq<bool>)
    ensures
        forall|i: int, j: int|
            0 <= i < j < existing_dirs(candidates, present).len() ==> !same_path(
                #[trigger] existing_dirs(candidates, present)[i],
                #[trigger] existing_dirs(candidates, present)[j],
            ),
    decreases candidates.len(),
{
    if candidates.len() > 0 {
        lemma_existing_dirs_distinct(candidates.drop_last(), present);
        let r = existing_dirs(candidates.drop_last(), present);
        let n = candidates.len() - 1;
        let x = candidates[n];
        if present[n] && !(exists|j: int| 0 <= j < r.len() && same_path(#[trigger] r[j], x)) {
            let f = r.push(x);
            assert forall|i: int, j: int| 0 <= i < j < f.len() implies !same_path(#[trigger] f[i], #[trigger] f[j]) by {
                assert(f[i] == r[i]);
                if j < r.len() {
                    assert(f[j] == r[j]);
                }
            }
        }
    }
}

/// Law: the source roots read from `workspace.json` never list the same path
/// twice.
pub proof fn law_source_paths_distinct(data: WorkspaceData, workspace: Seq<char>)
    ensures
        forall|i: int, j: int|
            0 <= i < j < workspace_source_paths(data, workspace).len() ==> !same_path(
                #[trigger] workspace_source_paths(data, workspace)[i],
                #[trigger] workspace_source_paths(data, workspace)[j],
            ),
{
    lemma_distinct_paths(root_paths(module_sources(data.modules@), workspace));
}

/// `p` is the path of an indexed source root among `rs`: one of type
/// `java-source` or `java-test`, outside the Maven repository, with
/// `<WORKSPACE>` replaced by `workspace`.
pub open spec fn indexed_root_path(rs: Seq<SourceRootData>, p: Seq<char>, workspace: Seq<char>) -> bool {
    exists|j: int|
        0 <= j < rs.len() && (rs[j].root_type@ == "java-source"@ || rs[j].root_type@ == "java-test"@)
            && !has_substring(rs[j].path@, "<MAVEN_REPO>"@) && #[trigger] replace_all(
            rs[j].path@,
            "<WORKSPACE>"@,
            workspace,
        ) == p
}

proof fn lemma_root_paths_origin(rs: Seq<SourceRootData>, w: Seq<char>)
    ensures
        forall|k: int| 0 <= k < root_paths(rs, w).len() ==> indexed_root_path(rs, #[trigger] root_paths(rs, w)[k], w),
        forall|j: int| 0 <= j < rs.len() && (#[trigger] root_path(rs[j], w)) is Some ==> root_paths(rs, w).contains(
            root_path(rs[j], w)->0,
        ),
    decreases rs.len(),
{
    if rs.len() > 0 {
        let init = rs.drop_last();
        lemma_root_paths_origin(init, w);
        let a = root_paths(init, w);
        let b: Seq<Seq<char>> = match root_path(rs.last(), w) {
            Some(p) => seq![p],
            None => seq![],
        };
        assert(root_paths(rs, w) == a + b);
        assert forall|k: int| 0 <= k < (a + b).len() implies indexed_root_path(rs, #[trigger] (a + b)[k], w) by {
            if k < a.len() {
                assert((a + b)[k] == a[k]);
                let j = choose|j: int|
                    0 <= j < init.len() && (init[j].root_type@ == "java-source"@ || init[j].root_type@
                        == "java-test"@) && !has_substring(init[j].path@, "<MAVEN_REPO>"@) && #[trigger] replace_all(
                        init[j].path@,
                        "<WORKSPACE>"@,
                        w,
                    ) == a[k];
                assert(rs[j] == init[j]);
            } else {
                assert((a + b)[k] == b[0]);
                assert(rs[rs.len() - 1] == rs.last());
                assert(replace_all(rs[rs.len() - 1].path@, "<WORKSPACE>"@, w) == (a + b)[k]);
            }
        }
        assert forall|j: int| 0 <= j < rs.len() && (#[trigger] root_path(rs[j], w)) is Some implies (a + b).contains(
            root_path(rs[j], w)->0,
        ) by {
            if j < init.len() {
                assert(rs[j] == init[j]);
                let q = choose|q: int| 0 <= q < a.len() && a[q] == root_path(init[j], w)->0;
                assert((a + b)[q] == a[q]);
            } else {
                assert(rs[j] == rs.last());
                assert((a + b)[a.len() as int] == b[0]);
            }
        }
    }
}

proof fn lemma_distinct_paths_cover(c: Seq<Seq<char>>)
    ensures
        forall|k: int| 0 <= k < distinct_paths(c).len() ==> c.contains(#[trigger] distinct_paths(c)[k]),
        forall|q: int|
            #![trigger c[q]]
            0 <= q < c.len() ==> exists|k: int|
                0 <= k < distinct_paths(c).len() && same_path(#[trigger] distinct_paths(c)[k], c[q]),
    decreases c.len(),
{
    if c.len() > 0 {
        let init = c.drop_last();
        lemma_distinct_paths_cover(init);
        let r = distinct_paths(init);
        let x = c.last();
        let out = distinct_paths(c);
        assert forall|k: int| 0 <= k < out.len() implies c.contains(#[trigger] out[k]) by {
            if k < r.len() {
                assert(out[k] == r[k]);
                let j = choose|j: int| 0 <= j < init.len() && init[j] == r[k];
                assert(c[j] == r[k]);
            } else {
                assert(out[k] == x);
                assert(c[c.len() - 1] == x);
            }
        }
        assert forall|q: int| #![trigger c[q]] 0 <= q < c.len() implies exists|k: int|
            0 <= k < out.len() && same_path(#[trigger] out[k], c[q]) by {
            if q < init.len() {
                assert(c[q] == init[q]);
                let k = choose|k: int| 0 <= k < r.len() && same_path(#[trigger] r[k], init[q]);
                assert(out[k] == r[k]);
            } else {
                assert(c[q] == x);
                if exists|j: int| 0 <= j < r.len() && same_path(#[trigger] r[j], x) {
                    let j = choose|j: int| 0 <= j < r.len() && same_path(#[trigger] r[j], x);
                    assert(out[j] == r[j]);
                } else {
                    assert(out[r.len() as int] == x);
                }
            }
        }
    }
}

/// Law: the source roots read from `workspace.json` are exactly the indexed
/// ones: every listed path is that of a `java-source` or `java-test` root
/// outside the Maven repository with `<WORKSPACE>` replaced, and every such
/// root is listed (as the same path).
pub proof fn law_source_paths_are_indexed_roots(data: WorkspaceData, workspace: Seq<char>)
    ensures
        forall|k: int|
            0 <= k < workspace_source_paths(data, workspace).len() ==> indexed_root_path(
                module_sources(data.modules@),
                #[trigger] workspace_source_paths(data, workspace)[k],
                workspace,
            ),
        forall|p: Seq<char>|
            #[trigger] indexed_root_path(module_sources(data.modules@), p, workspace) ==> exists|k: int|
                0 <= k < workspace_source_paths(data, workspace).len() && same_path(
                    #[trigger] workspace_source_paths(data, workspace)[k],
                    p,
                ),
{
    let rs = module_sources(data.modules@);
    let c = root_paths(rs, workspace);
    lemma_root_paths_origin(rs, workspace);
    lemma_distinct_paths_cover(c);
    let out = workspace_source_paths(data, workspace);
    assert forall|k: int| 0 <= k < out.len() implies indexed_root_path(rs, #[trigger] out[k], workspace) by {
        let q = choose|q: int| 0 <= q < c.len() && c[q] == out[k];
        assert(indexed_root_path(rs, c[q], workspace));
    }
    assert forall|p: Seq<char>| #[trigger] indexed_root_path(rs, p, workspace) implies exists|k: int|
        0 <= k < out.len() && same_path(#[trigger] out[k], p) by {
        let j = choose|j: int|
            0 <= j < rs.len() && (rs[j].root_type@ == "java-source"@ || rs[j].root_type@ == "java-test"@)
                && !has_substring(rs[j].path@, "<MAVEN_REPO>"@) && #[trigger] replace_all(
                rs[j].path@,
                "<WORKSPACE>"@,
                workspace,
            ) == p;
        assert(root_path(rs[j], workspace) == Some(p));
        let q = choose|q: int| 0 <= q < c.len() && c[q] == p;
        let k = choose|k: int| 0 <= k < out.len() && same_path(#[trigger] out[k], c[q]);
    }
}

/// `p` is one of the standard source directories under the workspace root
/// or under one of the subprojects.
pub open spec fn standard_source_dir(p: Seq<char>, root: Seq<char>, subprojects: Seq<Seq<char>>) -> bool {
    exists|d: Seq<char>, c: Seq<char>|
        (d == root || exists|s: int| 0 <= s < subprojects.len() && d == join(root, #[trigger] subprojects[s]))
            && (c == "src/main/kotlin"@ || c == "src/main/java"@ || c == "src/test/kotlin"@ || c
            == "src/test/java"@) && #[trigger] join(d, c) == p
}

proof fn lemma_candidates_under_standard(dirs: Seq<Seq<char>>, root: Seq<char>, subprojects: Seq<Seq<char>>)
    requires
        forall|k: int|
            0 <= k < dirs.len() ==> (dirs[k] == root || exists|s: int|
                0 <= s < subprojects.len() && dirs[k] == join(root, #[trigger] subprojects[s])),
    ensures
        forall|k: int|
            0 <= k < candidates_under(dirs).len() ==> standard_source_dir(
                #[trigger] candidates_under(dirs)[k],
                root,
                subprojects,
            ),
    decreases dirs.len(),
{
    if dirs.len() > 0 {
        let init = dirs.drop_last();
        assert forall|k: int| 0 <= k < init.len() implies (init[k] == root || exists|s: int|
            0 <= s < subprojects.len() && init[k] == join(root, #[trigger] subprojects[s])) by {
            assert(init[k] == dirs[k]);
        }
        lemma_candidates_under_standard(init, root, subprojects);
        let a = candidates_under(init);
        let d = dirs.last();
        assert(d == dirs[dirs.len() - 1]);
        let b = source_candidates().map_values(|c: Seq<char>| join(d, c));
        assert forall|k: int| 0 <= k < (a + b).len() implies standard_source_dir(#[trigger] (a + b)[k], root, subprojects) by {
            if k < a.len() {
                assert((a + b)[k] == a[k]);
            } else {
                let c = source_candidates()[k - a.len()];
                assert((a + b)[k] == join(d, c));
            }
        }
    }
}

proof fn lemma_project_dirs_standard(root: Seq<char>, subprojects: Seq<Seq<char>>)
    ensures
        forall|k: int|
            0 <= k < project_dirs(root, subprojects).len() ==> (project_dirs(root, subprojects)[k] == root
                || exists|s: int|
                0 <= s < subprojects.len() && #[trigger] project_dirs(root, subprojects)[k] == join(
                    root,
                    #[trigger] subprojects[s],
                )),
{
    let scan = if subprojects.len() == 0 {
        seq![root]
    } else {
        subprojects.map_values(|s: Seq<char>| join(root, s))
    };
    let c = seq![root] + scan;
    lemma_distinct_paths_cover(c);
    let out = project_dirs(root, subprojects);
    assert forall|k: int| 0 <= k < out.len() implies (out[k] == root || exists|s: int|
        0 <= s < subprojects.len() && #[trigger] out[k] == join(root, #[trigger] subprojects[s])) by {
        let q = choose|q: int| 0 <= q < c.len() && c[q] == out[k];
        if q > 0 && subprojects.len() > 0 {
            assert(c[q] == join(root, subprojects[q - 1]));
        }
    }
}

/// Law: a build layout is probed only where a build file was found, and
/// only at the standard source directories (`src/main/kotlin`,
/// `src/main/java`, `src/test/kotlin`, `src/test/java`) under the workspace
/// root and its subprojects.
pub proof fn law_layout_candidates_are_standard(root: Seq<char>, found: bool, subprojects: Seq<Seq<char>>)
    ensures
        !found ==> layout_candidates(root, found, subprojects).len() == 0,
        forall|k: int|
            0 <= k < layout_candidates(root, found, subprojects).len() ==> standard_source_dir(
                #[trigger] layout_candidates(root, found, subprojects)[k],
                root,
                subprojects,
            ),
{
    if found {
        lemma_project_dirs_standard(root, subprojects);
        lemma_candidates_under_standard(project_dirs(root, subprojects), root, subprojects);
    }
}

/// Law: of the probed directories, those the disk reports as directories
/// are listed, and only those.
pub proof fn law_existing_dirs_exact(candidates: Seq<Seq<char>>, present: Seq<bool>)
    requires
        present.len() == candidates.len(),
    ensures
        forall|k: int|
            0 <= k < existing_dirs(candidates, present).len() ==> exists|i: int|
                0 <= i < candidates.len() && present[i] && candidates[i] == #[trigger] existing_dirs(
                    candidates,
                    present,
                )[k],
        forall|i: int|
            #![trigger candidates[i]]
            0 <= i < candidates.len() && present[i] ==> exists|k: int|
                0 <= k < existing_dirs(candidates, present).len() && same_path(
                    #[trigger] existing_dirs(candidates, present)[k],
                    candidates[i],
                ),
    decreases candidates.len(),
{
    if candidates.len() > 0 {
        let init = candidates.drop_last();
        let pinit = present.drop_last();
        law_existing_dirs_exact(init, pinit);
        assert(existing_dirs(init, present) == existing_dirs(init, pinit)) by {
            lemma_existing_dirs_prefix(init, present, pinit);
        }
        let r = existing_dirs(init, present);
        let n = candidates.len() - 1;
        let out = existing_dirs(candidates, present);
        assert(candidates.drop_last() == init);
        assert forall|k: int| 0 <= k < out.len() implies exists|i: int|
            0 <= i < candidates.len() && present[i] && candidates[i] == #[trigger] out[k] by {
            if k < r.len() {
                assert(out[k] == r[k]);
                let i = choose|i: int| 0 <= i < init.len() && pinit[i] && init[i] == r[k];
                assert(candidates[i] == init[i] && present[i] == pinit[i]);
            } else {
                assert(out[k] == candidates[n]);
            }
        }
        assert forall|i: int| #![trigger candidates[i]] 0 <= i < candidates.len() && present[i] implies exists|k: int|
            0 <= k < out.len() && same_path(#[trigger] out[k], candidates[i]) by {
            if i < n {
                assert(init[i] == candidates[i] && pinit[i] == present[i]);
                let k = choose|k: int| 0 <= k < r.len() && same_path(#[trigger] r[k], init[i]);
                assert(out[k] == r[k]);
            } else {
                if exists|j: int| 0 <= j < r.len() && same_path(#[trigger] r[j], candidates[n]) {
                    let j = choose|j: int| 0 <= j < r.len() && same_path(#[trigger] r[j], candidates[n]);
                    assert(out[j] == r[j]);
                } else {
                    assert(out[r.len() as int] == candidates[n]);
                }
            }
        }
    }
}

proof fn lemma_existing_dirs_prefix(candidates: Seq<Seq<char>>, p1: Seq<bool>, p2: Seq<bool>)
    requires
        p2.len() >= candidates.len(),
        forall|i: int| 0 <= i < candidates.len() ==> p1[i] == p2[i],
    ensures
        existing_dirs(candidates, p1) == existing_dirs(candidates, p2),
    decreases candidates.len(),
{
    if candidates.len() > 0 {
        lemma_existing_dirs_prefix(candidates.drop_last(), p1, p2);
    }
}


/// Law: the probed source directories of a build layout that exist are listed
/// once each.
pub proof fn law_existing_dirs_distinct(candidates: Seq<Seq<char>>, present: Seq<bool>)
    ensures
        forall|i: int, j: int|
            0 <= i < j < existing_dirs(candidates, present).len() ==> !same_path(
                #[trigger] existing_dirs(candidates, present)[i],
                #[trigger] existing_dirs(candidates, present)[j],
            ),
{
    lemma_existing_dirs_distinct(candidates, present);
}

/// `std::path::Path::exists`: whether something exists at `path`.  What is
/// on disk is not known to the library, so nothing is stated of the answer.
#[verifier::external_body]
fn path_exists(path: &str) -> bool {
    std::path::Path::new(path).exists()
}

/// `std::path::Path::is_dir`: whether `path` names a directory.  What is on
/// disk is not known to the library, so nothing is stated of the answer.
#[verifier::external_body]
fn is_directory(path: &str) -> bool {
    std::path::Path::new(path).is_dir()
}

/// The build files whose presence in the workspace root marks a Maven or
/// Gradle build layout.
pub open spec fn build_files() -> Seq<Seq<char>> {
    seq!["build.gradle.kts"@, "build.gradle"@, "settings.gradle.kts"@, "settings.gradle"@, "pom.xml"@]
}

/// The paths probed for a build file under `root`.
pub open spec fn build_file_probes(root: Seq<char>) -> Seq<Seq<char>> {
    build_files().map_values(|f: Seq<char>| join(root, f))
}

/// Whether some answer is `true`.
pub open spec fn any_true(answers: Seq<bool>) -> bool {
    exists|i: int| 0 <= i < answers.len() && answers[i]
}

/// Appends `root` joined with `name` to `probes`.
fn push_probe(probes: &mut Vec<String>, root: &Vec<char>, name: &str)
    ensures
        string_views(final(probes)@) == string_views(old(probes)@).push(join(root@, name@)),
{
    let p = join_path(root, &str_chars(name));
    let s = chars_to_string(p.as_slice());
    let ghost before = probes@;
    probes.push(s);
    assert(string_views(probes@) =~= string_views(before).push(s@));
}

/// The paths probed for a build file under `root`: `build.gradle.kts`,
/// `build.gradle`, `settings.gradle.kts`, `settings.gradle` and `pom.xml`
/// joined to it, in that order.
pub fn build_probe_paths(root: &str) -> (r: Vec<String>)
    ensures
        string_views(r@) == build_file_probes(root@),
{
    let rc = str_chars(root);
    let mut probes: Vec<String> = Vec::new();
    assert(string_views(probes@) =~= Seq::<Seq<char>>::empty());
    push_probe(&mut probes, &rc, "build.gradle.kts");
    push_probe(&mut probes, &rc, "build.gradle");
    push_probe(&mut probes, &rc, "settings.gradle.kts");
    push_probe(&mut probes, &rc, "settings.gradle");
    push_probe(&mut probes, &rc, "pom.xml");
    assert(string_views(probes@) =~= build_file_probes(root@));
    probes
}

/// Whether `r` lists the existing directories among the probed ones, where
/// a build file counts as found when the disk answers "exists" for one of
/// the [`build_file_probes`] (`answers[i]` being its answer for probe `i`),
/// and `present[i]` is its answer to "is candidate `i` a directory".
pub open spec fn layout_outcome(r: Seq<Seq<char>>, root: Seq<char>, subprojects: Seq<Seq<char>>) -> bool {
    exists|answers: Seq<bool>, present: Seq<bool>|
        answers.len() == build_file_probes(root).len() && present.len() == layout_candidates(
            root,
            any_true(answers),
            subprojects,
        ).len() && r == #[trigger] existing_dirs(
            layout_candidates(root, any_true(answers), subprojects),
            present,
        )
}

/// Detects the standard Maven/Gradle source directories of the workspace at
/// `workspace_root`: when a build file (`build.gradle.kts`, `build.gradle`,
/// `settings.gradle.kts`, `settings.gradle` or `pom.xml`) exists there, each
/// of `src/main/kotlin`, `src/main/java`, `src/test/kotlin` and
/// `src/test/java` under the root and under each of the `subprojects`
/// directories that exists, each path once, in order.
pub fn detect_build_layout_source_paths(workspace_root: &str, subprojects: &Vec<String>) -> (r: Vec<String>)
    ensures
        layout_outcome(string_views(r@), workspace_root@, string_views(subprojects@)),
{
    let probes = build_probe_paths(workspace_root);
    let mut answers: Vec<bool> = Vec::new();
    let mut found = false;
    let mut k: usize = 0;
    while k < probes.len()
        invariant
            k <= probes@.len(),
            answers@.len() == k,
            found == any_true(answers@),
        decreases probes@.len() - k,
    {
        let a = path_exists(probes[k].as_str());
        let ghost before = answers@;
        answers.push(a);
        proof {
            if a {
                assert(answers@[k as int]);
            }
            if any_true(answers@) && !a {
                let j = choose|j: int| 0 <= j < answers@.len() && answers@[j];
                assert(before[j]);
            }
            if any_true(before) {
                let j = choose|j: int| 0 <= j < before.len() && before[j];
                assert(answers@[j]);
            }
        }
        found = found || a;
        k = k + 1;
    }
    assert(string_views(probes@).len() == probes@.len());
    let candidates = build_layout_candidates(workspace_root, found, subprojects);
    let mut present: Vec<bool> = Vec::new();
    let mut i: usize = 0;
    while i < candidates.len()
        invariant
            i <= candidates@.len(),
            present@.len() == i,
        decreases candidates@.len() - i,
    {
        present.push(is_directory(candidates[i].as_str()));
        i = i + 1;
    }
    let r = select_existing_dirs(&candidates, &present);
    assert(string_views(candidates@).len() == candidates@.len());
    assert(string_views(r@) == existing_dirs(
        layout_candidates(workspace_root@, any_true(answers@), string_views(subprojects@)),
        present@,
    ));
    r
}

} // verus!
