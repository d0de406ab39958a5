use kotlin_lsp::dump::{preview_of, tree_dump, TreeLine};
use kotlin_lsp::syntax::Language;

fn find<'a>(lines: &'a [TreeLine], kind: &str) -> &'a TreeLine {
    lines.iter().find(|l| l.kind == kind).unwrap_or_else(|| panic!("no {kind} line in {lines:?}"))
}

#[test]
fn dump_starts_at_the_root_without_text() {
    let lines = tree_dump("fun f() {}\n", Language::Kotlin).expect("parses");
    assert_eq!(lines[0].kind, "source_file");
    assert_eq!(lines[0].depth, 0);
    assert!(lines[0].named);
    assert_eq!(lines[0].text, None);
    assert_eq!((lines[0].start_row, lines[0].start_column), (0, 0));
    assert_eq!((lines[0].end_row, lines[0].end_column), (1, 0));
}

#[test]
fn dump_shows_leaf_text_and_positions() {
    let lines = tree_dump("fun f() {}\n", Language::Kotlin).expect("parses");
    let name = find(&lines, "simple_identifier");
    assert!(name.named);
    assert_eq!(name.text.as_deref(), Some("f"));
    assert_eq!((name.start_row, name.start_column, name.end_row, name.end_column), (0, 4, 0, 5));
    let keyword = find(&lines, "fun");
    assert!(!keyword.named);
    assert_eq!(keyword.text.as_deref(), Some("fun"));
    assert_eq!((keyword.start_column, keyword.end_column), (0, 3));
    assert!(keyword.depth > 0 && name.depth > 0);
}

#[test]
fn dump_is_preorder_with_children_one_level_deeper() {
    let lines = tree_dump("class A\n", Language::Kotlin).expect("parses");
    for pair in lines.windows(2) {
        assert!(pair[1].depth <= pair[0].depth + 1, "{lines:?}");
    }
    assert!(lines.iter().skip(1).all(|l| l.depth >= 1));
}

#[test]
fn long_leaf_text_is_cut_at_forty_bytes() {
    let name = "a".repeat(50);
    let src = format!("val {name} = 1\n");
    let lines = tree_dump(&src, Language::Kotlin).expect("parses");
    let leaf = lines.iter().find(|l| l.kind == "simple_identifier").expect("identifier");
    assert_eq!(leaf.text.as_deref(), Some("a".repeat(40).as_str()));
}

#[test]
fn java_dump_has_class_declaration() {
    let lines = tree_dump("class A {}\n", Language::Java).expect("parses");
    assert_eq!(lines[0].kind, "program");
    let ident = find(&lines, "identifier");
    assert_eq!(ident.text.as_deref(), Some("A"));
}

#[test]
fn swift_has_no_dump() {
    assert!(tree_dump("let x = 1\n", Language::Swift).is_none());
}

#[test]
fn preview_cuts_at_a_character_boundary() {
    let mut cs: Vec<char> = std::iter::repeat('a').take(39).collect();
    cs.push('é');
    cs.push('b');
    let cut = preview_of(&cs, 40);
    assert_eq!(cut.len(), 39);
    assert!(cut.iter().all(|&c| c == 'a'));
}

#[test]
fn preview_keeps_short_text_whole() {
    let cs: Vec<char> = "héllo".chars().collect();
    assert_eq!(preview_of(&cs, 40), cs);
    let four: Vec<char> = "😀x".chars().collect();
    assert_eq!(preview_of(&four, 4), vec!['😀']);
    assert_eq!(preview_of(&four, 3), Vec::<char>::new());
}
