use kotlin_lsp::gradle::parse_include_calls;
use kotlin_lsp::paths::join_path;
use kotlin_lsp::source_roots::{
    build_layout_candidates, build_probe_paths, detect_build_layout_source_paths, select_existing_dirs, workspace_json_source_paths,
    ContentRootData, ModuleData, SourceRootData, WorkspaceData,
};
use std::io::Write;
use std::path::{Path, PathBuf};
use tempfile::{Builder, NamedTempFile, TempDir};

fn root(path: &str, root_type: &str) -> SourceRootData {
    SourceRootData { path: path.to_string(), root_type: root_type.to_string() }
}

fn module(roots: Vec<SourceRootData>) -> ModuleData {
    ModuleData { content_roots: vec![ContentRootData { source_roots: roots }] }
}

fn join(a: &str, b: &str) -> String {
    let v = join_path(&a.chars().collect(), &b.chars().collect());
    v.into_iter().collect()
}

// ─── workspace.json ───────────────────────────────────────────────────────────

#[test]
fn extracts_java_source_and_java_test() {
    let ws = "/work/space";
    let data = WorkspaceData {
        modules: vec![module(vec![
            root("<WORKSPACE>/src/main/kotlin", "java-source"),
            root("<WORKSPACE>/src/test/kotlin", "java-test"),
            root("<WORKSPACE>/src/main/resources", "java-resource"),
            root("<WORKSPACE>/src/test/resources", "java-test-resource"),
        ])],
    };
    let paths = workspace_json_source_paths(&data, ws);
    assert_eq!(paths.len(), 2);
    assert_eq!(paths[0], join(ws, "src/main/kotlin"));
    assert_eq!(paths[1], join(ws, "src/test/kotlin"));
    assert!(!paths.iter().any(|p| p.ends_with("resources")));
}

#[test]
fn deduplicates_paths_across_modules() {
    let data = WorkspaceData {
        modules: vec![
            module(vec![root("<WORKSPACE>/src/main/kotlin", "java-source")]),
            module(vec![root("<WORKSPACE>/src/main/kotlin", "java-source")]),
        ],
    };
    let paths = workspace_json_source_paths(&data, "/w");
    assert_eq!(paths.len(), 1);
}

#[test]
fn resolves_workspace_placeholder() {
    let data = WorkspaceData { modules: vec![module(vec![root("<WORKSPACE>/app/src/main/kotlin", "java-source")])] };
    let paths = workspace_json_source_paths(&data, "/home/me/project");
    assert_eq!(paths.len(), 1);
    assert!(paths[0].starts_with('/'));
    assert!(paths[0].ends_with("app/src/main/kotlin"));
    assert_eq!(paths[0], "/home/me/project/app/src/main/kotlin");
}

#[test]
fn empty_modules_returns_empty() {
    let data = WorkspaceData { modules: vec![] };
    assert!(workspace_json_source_paths(&data, "/w").is_empty());
}

#[test]
fn same_path_spelled_twice_is_listed_once() {
    let data = WorkspaceData {
        modules: vec![module(vec![root("/a/src//main", "java-source"), root("/a/src/main/", "java-test")])],
    };
    assert_eq!(workspace_json_source_paths(&data, "/w"), vec!["/a/src//main".to_string()]);
}

// ─── build layout ─────────────────────────────────────────────────────────────

fn as_string(p: &Path) -> String {
    p.to_string_lossy().into_owned()
}

/// Keeps what was created on disk until the end of a test.
struct Scratch {
    dir: TempDir,
    dirs: Vec<TempDir>,
    files: Vec<NamedTempFile>,
}

impl Scratch {
    fn new() -> Scratch {
        Scratch { dir: TempDir::new().unwrap(), dirs: Vec::new(), files: Vec::new() }
    }

    fn root(&self) -> &Path {
        self.dir.path()
    }

    /// Creates the directory `rel` (and its parents) under the root.
    fn mkdirs(&mut self, rel: &str) -> PathBuf {
        let mut cur = self.root().to_path_buf();
        for part in rel.split('/') {
            let next = cur.join(part);
            if !next.is_dir() {
                let d = Builder::new().prefix(part).rand_bytes(0).tempdir_in(&cur).unwrap();
                self.dirs.push(d);
            }
            cur = next;
        }
        cur
    }

    /// Creates the file `name` in the root with `content`.
    fn write(&mut self, name: &str, content: &str) {
        let mut f = Builder::new().prefix(name).rand_bytes(0).tempfile_in(self.root()).unwrap();
        f.write_all(content.as_bytes()).unwrap();
        self.files.push(f);
    }

    fn detect(&self, settings: &str) -> Vec<String> {
        detect_build_layout_source_paths(&as_string(self.root()), &parse_include_calls(settings))
    }
}

#[test]
fn no_build_file_returns_empty() {
    let mut s = Scratch::new();
    s.mkdirs("src/main/kotlin");
    assert!(s.detect("").is_empty());
}

#[test]
fn gradle_kts_probes_standard_dirs() {
    let mut s = Scratch::new();
    s.write("build.gradle.kts", "");
    let src = s.mkdirs("src/main/kotlin");
    let test = s.mkdirs("src/test/kotlin");
    let paths = s.detect("");
    assert!(paths.contains(&as_string(&src)));
    assert!(paths.contains(&as_string(&test)));
}

#[test]
fn nonexistent_candidates_excluded() {
    let mut s = Scratch::new();
    s.write("build.gradle.kts", "");
    assert!(s.detect("").is_empty());
}

#[test]
fn maven_pom_triggers_detection() {
    let mut s = Scratch::new();
    s.write("pom.xml", "<project/>");
    let src = s.mkdirs("src/main/java");
    assert!(s.detect("").contains(&as_string(&src)));
}

#[test]
fn settings_gradle_multimodule() {
    let mut s = Scratch::new();
    let settings = r#"include(":app", ":core")"#;
    s.write("settings.gradle.kts", settings);
    let app_src = s.mkdirs("app/src/main/kotlin");
    let core_src = s.mkdirs("core/src/main/kotlin");
    let paths = s.detect(settings);
    assert!(paths.contains(&as_string(&app_src)));
    assert!(paths.contains(&as_string(&core_src)));
}

#[test]
fn layout_candidates_in_probe_order() {
    assert!(build_layout_candidates("/r", false, &vec![]).is_empty());
    let c = build_layout_candidates("/r", true, &vec![]);
    assert_eq!(c, vec!["/r/src/main/kotlin", "/r/src/main/java", "/r/src/test/kotlin", "/r/src/test/java"]);
    let c = build_layout_candidates("/r", true, &vec!["app".to_string()]);
    assert_eq!(c.len(), 8);
    assert_eq!(c[4], "/r/app/src/main/kotlin");
}

#[test]
fn select_existing_dirs_keeps_present_once() {
    let cands = vec!["/a".to_string(), "/b".to_string(), "/a/".to_string()];
    assert_eq!(select_existing_dirs(&cands, &vec![true, false, true]), vec!["/a".to_string()]);
    assert!(select_existing_dirs(&cands, &vec![false, false, false]).is_empty());
}

#[test]
fn maven_repo_roots_are_skipped() {
    let data = WorkspaceData {
        modules: vec![module(vec![
            root("<MAVEN_REPO>/lib/src", "java-source"),
            root("<WORKSPACE>/src/main/java", "java-source"),
        ])],
    };
    assert_eq!(workspace_json_source_paths(&data, "/w"), vec!["/w/src/main/java".to_string()]);
}

#[test]
fn build_files_probed_under_root() {
    assert_eq!(
        build_probe_paths("/r"),
        vec!["/r/build.gradle.kts", "/r/build.gradle", "/r/settings.gradle.kts", "/r/settings.gradle", "/r/pom.xml"]
    );
}
