//! Concrete syntax trees as plain values.
//!
//! A tree-sitter tree is held as the list of its nodes in preorder, each with
//! the size of its subtree (the node and all its descendants).  The children of
//! a node are then found without pointers: the first child follows the node,
//! and each next sibling follows the subtree of the previous one.
//!
//! Every walk over the list works inside a *window* `[from, end)`: the part of
//! the list that holds the subtrees of one parent.  A recorded subtree size is
//! kept between 1 and the rest of the window, so that every walk ends whatever
//! the list holds.
use crate::text::{str_chars, chars_equal, is_whitespace, is_whitespace_char};
use crate::utf::{utf8_chars, decode_utf8_range};
use vstd::prelude::*;

verus! {

/// The languages the server knows.
#[derive(Clone, Copy, Debug, PartialEq, Eq)]
pub enum Language {
    Kotlin,
    Java,
    Swift,
}

/// Whether `s` ends with `suffix`.
pub open spec fn ends_with(s: Seq<char>, suffix: Seq<char>) -> bool {
    s.len() >= suffix.len() && s.subrange(s.len() - suffix.len(), s.len() as int) == suffix
}

/// The language of a source file, by the extension of its path: `.kt` and
/// `.kts` are Kotlin, `.java` is Java, `.swift` is Swift.
pub open spec fn language_of(path: Seq<char>) -> Option<Language> {
    if ends_with(path, ".kt"@) || ends_with(path, ".kts"@) {
        Some(Language::Kotlin)
    } else if ends_with(path, ".java"@) {
        Some(Language::Java)
    } else if ends_with(path, ".swift"@) {
        Some(Language::Swift)
    } else {
        None
    }
}

/// Whether `s` ends with `suffix`.
fn has_suffix(s: &Vec<char>, suffix: &str) -> (r: bool)
    ensures
        r == ends_with(s@, suffix@),
{
    let x = str_chars(suffix);
    if x.len() > s.len() {
        return false;
    }
    let base = s.len() - x.len();
    let mut k: usize = 0;
    while k < x.len()
        invariant
            k <= x@.len(),
            x@ == suffix@,
            base + x@.len() == s@.len(),
            x@.len() == x.len(),
            s@.len() == s.len(),
            forall|m: int| 0 <= m < k ==> s@[base + m] == x@[m],
        decreases x@.len() - k,
    {
        if s[base + k] != x[k] {
            assert(s@.subrange(base as int, s@.len() as int)[k as int] == s@[base + k]);
            return false;
        }
        k = k + 1;
    }
    assert(s@.subrange(base as int, s@.len() as int) =~= x@);
    true
}

impl Language {
    /// The language of a source file, by the extension of its path.
    pub fn for_path(path: &str) -> (r: Option<Language>)
        ensures
            r == language_of(path@),
    {
        let p = str_chars(path);
        if has_suffix(&p, ".kt") || has_suffix(&p, ".kts") {
            Some(Language::Kotlin)
        } else if has_suffix(&p, ".java") {
            Some(Language::Java)
        } else if has_suffix(&p, ".swift") {
            Some(Language::Swift)
        } else {
            None
        }
    }
}

/// One node of a syntax tree, as listed in preorder.
#[derive(Debug)]
pub struct FlatNode {
    /// The grammar's name for the node (`class_declaration`, `"fun"`, ...).
    pub kind: String,
    /// Named nodes are rules of the grammar; the others are literal tokens.
    pub named: bool,
    /// Size of the subtree: one for the node itself plus its descendants.
    pub descendants: usize,
    pub start_byte: usize,
    pub end_byte: usize,
    /// Line of the first byte (0-based).
    pub row: usize,
    /// Byte column of the first byte on its line.
    pub column: usize,
    /// Line just after the last byte (0-based).
    pub end_row: usize,
    /// Byte column just after the last byte, on `end_row`.
    pub end_column: usize,
}

/// The mathematical value of a [`FlatNode`].
pub struct FlatModel {
    pub kind: Seq<char>,
    pub named: bool,
    pub descendants: nat,
    pub start_byte: nat,
    pub end_byte: nat,
    pub row: nat,
    pub column: nat,
    pub end_row: nat,
    pub end_column: nat,
}

impl View for FlatNode {
    type V = FlatModel;

    open spec fn view(&self) -> FlatModel {
        FlatModel {
            kind: self.kind@,
            named: self.named,
            descendants: self.descendants as nat,
            start_byte: self.start_byte as nat,
            end_byte: self.end_byte as nat,
            row: self.row as nat,
            column: self.column as nat,
            end_row: self.end_row as nat,
            end_column: self.end_column as nat,
        }
    }
}

/// The values of a node list.
pub open spec fn flat_models(v: Seq<FlatNode>) -> Seq<FlatModel> {
    v.map_values(|n: FlatNode| n@)
}

/// The values of an optional node list.
pub open spec fn flat_option(o: Option<Vec<FlatNode>>) -> Option<Seq<FlatModel>> {
    match o {
        Some(v) => Some(flat_models(v@)),
        None => None,
    }
}

/// The preorder node list that `tree_sitter_kotlin`'s grammar gives for `text`
/// (`None` when the parser yields no tree).
pub uninterp spec fn kotlin_syntax(text: Seq<char>) -> Option<Seq<FlatModel>>;

/// The preorder node list that `tree_sitter_java`'s grammar gives for `text`
/// (`None` when the parser yields no tree).
pub uninterp spec fn java_syntax(text: Seq<char>) -> Option<Seq<FlatModel>>;

/// Parses `text` with `tree_sitter::Parser` and the grammar of
/// `tree_sitter_kotlin::language()`, and lists the nodes of the tree in
/// preorder (`TreeCursor::goto_descendant` order) with their subtree sizes
/// (`Node::descendant_count`), byte ranges and start and end points.  The
/// contract only names the result: it is what the grammar gives for these
/// characters, and nothing more is claimed.
#[verifier::external_body]
fn parse_kotlin_nodes(text: &str) -> (nodes: Option<Vec<FlatNode>>)
    ensures
        flat_option(nodes) == kotlin_syntax(text@),
{
    let mut parser = tree_sitter::Parser::new();
    parser.set_language(&tree_sitter_kotlin::language()).ok()?;
    let tree = parser.parse(text, None)?;
    let mut cursor = tree.walk();
    let mut nodes = Vec::new();
    for i in 0..tree.root_node().descendant_count() {
        cursor.goto_descendant(i);
        let n = cursor.node();
        nodes.push(FlatNode { kind: n.kind().to_string(), named: n.is_named(), descendants: n.descendant_count(), start_byte: n.start_byte(), end_byte: n.end_byte(), row: n.start_position().row, column: n.start_position().column, end_row: n.end_position().row, end_column: n.end_position().column });
    }
    Some(nodes)
}

/// Parses `text` with `tree_sitter::Parser` and the grammar of
/// `tree_sitter_java::language()`, and lists the nodes of the tree in
/// preorder (`TreeCursor::goto_descendant` order) with their subtree sizes
/// (`Node::descendant_count`), byte ranges and start and end points.  The
/// contract only names the result: it is what the grammar gives for these
/// characters, and nothing more is claimed.
#[verifier::external_body]
fn parse_java_nodes(text: &str) -> (nodes: Option<Vec<FlatNode>>)
    ensures
        flat_option(nodes) == java_syntax(text@),
{
    let mut parser = tree_sitter::Parser::new();
    parser.set_language(&tree_sitter_java::language()).ok()?;
    let tree = parser.parse(text, None)?;
    let mut cursor = tree.walk();
    let mut nodes = Vec::new();
    for i in 0..tree.root_node().descendant_count() {
        cursor.goto_descendant(i);
        let n = cursor.node();
        nodes.push(FlatNode { kind: n.kind().to_string(), named: n.is_named(), descendants: n.descendant_count(), start_byte: n.start_byte(), end_byte: n.end_byte(), row: n.start_position().row, column: n.start_position().column, end_row: n.end_position().row, end_column: n.end_position().column });
    }
    Some(nodes)
}

/// The node list of `text` in the grammar of `language`; Swift sources get
/// no tree here.
pub open spec fn syntax_of(text: Seq<char>, language: Language) -> Option<Seq<FlatModel>> {
    match language {
        Language::Kotlin => kotlin_syntax(text),
        Language::Java => java_syntax(text),
        Language::Swift => None,
    }
}

/// Parses `text` in the grammar of `language`.
pub fn parse_nodes(text: &str, language: Language) -> (nodes: Option<Vec<FlatNode>>)
    ensures
        flat_option(nodes) == syntax_of(text@, language),
{
    match language {
        Language::Kotlin => parse_kotlin_nodes(text),
        Language::Java => parse_java_nodes(text),
        Language::Swift => None,
    }
}

// ─── Windows ────────────────────────────────────────────────────────────────

/// The size of the subtree at `i` inside a window ending at `end`: the
/// recorded size, kept between 1 and `end - i`.
pub open spec fn span(ns: Seq<FlatModel>, i: int, end: int) -> int {
    let d = ns[i].descendants as int;
    if d < 1 {
        1
    } else if d > end - i {
        end - i
    } else {
        d
    }
}

/// Whether `[from, end)` is a window of `ns` that still holds a subtree.
pub open spec fn nonempty(ns: Seq<FlatModel>, from: int, end: int) -> bool {
    0 <= from < end <= ns.len()
}

/// The window that holds the children of the node at `i`, whose own window
/// ends at `end`: it starts after the node and ends with its subtree.
pub open spec fn child_end(ns: Seq<FlatModel>, i: int, end: int) -> int {
    i + span(ns, i, end)
}

/// The first node of kind `k` among the subtrees of `[from, end)`.
pub open spec fn first_of_kind(ns: Seq<FlatModel>, from: int, end: int, k: Seq<char>) -> Option<int>
    decreases end - from,
{
    if nonempty(ns, from, end) {
        if ns[from].kind == k {
            Some(from)
        } else {
            first_of_kind(ns, from + span(ns, from, end), end, k)
        }
    } else {
        None
    }
}

/// The node that [`first_of_kind`] finds lies in the window and has kind `k`.
pub proof fn lemma_first_of_kind_in(ns: Seq<FlatModel>, from: int, end: int, k: Seq<char>)
    ensures
        first_of_kind(ns, from, end, k) matches Some(j) ==> from <= j < end && end <= ns.len()
            && ns[j].kind == k,
    decreases end - from,
{
    if nonempty(ns, from, end) && ns[from].kind != k {
        lemma_first_of_kind_in(ns, from + span(ns, from, end), end, k);
    }
}

/// An identifier kind: `simple_identifier`, `identifier` or `type_identifier`.
pub open spec fn is_ident_kind(k: Seq<char>) -> bool {
    k == "simple_identifier"@ || k == "identifier"@ || k == "type_identifier"@
}

/// The first identifier among the subtrees of `[from, end)`.
pub open spec fn first_ident(ns: Seq<FlatModel>, from: int, end: int) -> Option<int>
    decreases end - from,
{
    if nonempty(ns, from, end) {
        if is_ident_kind(ns[from].kind) {
            Some(from)
        } else {
            first_ident(ns, from + span(ns, from, end), end)
        }
    } else {
        None
    }
}

/// The characters of the node: its bytes decoded as UTF-8, or nothing when
/// they lie outside `src` or are not well-formed UTF-8.
pub open spec fn node_text(src: Seq<u8>, n: FlatModel) -> Seq<char> {
    if n.start_byte <= n.end_byte <= src.len() {
        match utf8_chars(src.subrange(n.start_byte as int, n.end_byte as int)) {
            Some(cs) => cs,
            None => seq![],
        }
    } else {
        seq![]
    }
}

/// `w` is the word of `s` that starts at `i`: it stands there, with white
/// space or an end of `s` on both sides.
pub open spec fn is_word_at(s: Seq<char>, i: int, w: Seq<char>) -> bool {
    &&& 0 <= i
    &&& i + w.len() <= s.len()
    &&& s.subrange(i, i + w.len()) == w
    &&& (i == 0 || is_whitespace(s[i - 1]))
    &&& (i + w.len() == s.len() || is_whitespace(s[i + w.len()]))
}

/// Whether `w` is one of the white-space separated words of `s`
/// (`s.split_whitespace().any(|x| x == w)`).
pub open spec fn has_word(s: Seq<char>, w: Seq<char>) -> bool {
    &&& w.len() > 0
    &&& forall|k: int| 0 <= k < w.len() ==> !is_whitespace(#[trigger] w[k])
    &&& exists|i: int| is_word_at(s, i, w)
}

/// Whether one of the subtrees of `[from, end)` is a `modifiers` node that
/// holds the word `kw`, or is itself a node of kind `kw`.
pub open spec fn has_modifier(ns: Seq<FlatModel>, src: Seq<u8>, from: int, end: int, kw: Seq<char>) -> bool
    decreases end - from,
{
    if nonempty(ns, from, end) {
        (ns[from].kind == "modifiers"@ && has_word(node_text(src, ns[from]), kw))
            || ns[from].kind == kw
            || has_modifier(ns, src, from + span(ns, from, end), end, kw)
    } else {
        false
    }
}

/// Whether one of the subtrees of `[from, end)` is a `modifiers` node that
/// holds the word `kw`.
pub open spec fn has_java_modifier(ns: Seq<FlatModel>, src: Seq<u8>, from: int, end: int, kw: Seq<char>) -> bool
    decreases end - from,
{
    if nonempty(ns, from, end) {
        (ns[from].kind == "modifiers"@ && has_word(node_text(src, ns[from]), kw))
            || has_java_modifier(ns, src, from + span(ns, from, end), end, kw)
    } else {
        false
    }
}

// ─── Executable helpers ─────────────────────────────────────────────────────

/// A found position, as an index of the model.
pub open spec fn as_index(o: Option<usize>) -> Option<int> {
    match o {
        Some(j) => Some(j as int),
        None => None,
    }
}

/// The size of the subtree at `i` inside the window ending at `end`.
pub fn span_of(nodes: &Vec<FlatNode>, i: usize, end: usize) -> (r: usize)
    requires
        i < end <= nodes@.len(),
    ensures
        r == span(flat_models(nodes@), i as int, end as int),
        1 <= r <= end - i,
{
    let d = nodes[i].descendants;
    if d < 1 {
        1
    } else if d > end - i {
        end - i
    } else {
        d
    }
}

/// Whether the node at `i` is of kind `k`.
pub fn kind_is(nodes: &Vec<FlatNode>, i: usize, k: &str) -> (r: bool)
    requires
        i < nodes@.len(),
    ensures
        r == (flat_models(nodes@)[i as int].kind == k@),
{
    let v = str_chars(nodes[i].kind.as_str());
    chars_equal(&v, &str_chars(k))
}

/// The first node of kind `k` among the subtrees of `[from, end)`.
pub fn find_kind(nodes: &Vec<FlatNode>, from: usize, end: usize, k: &str) -> (r: Option<usize>)
    requires
        end <= nodes@.len(),
    ensures
        as_index(r) == first_of_kind(flat_models(nodes@), from as int, end as int, k@),
        r matches Some(j) ==> from <= j < end,
{
    let ghost ns = flat_models(nodes@);
    let mut j = from;
    while j < end
        invariant
            from <= j,
            end <= nodes@.len(),
            ns == flat_models(nodes@),
            first_of_kind(ns, from as int, end as int, k@) == first_of_kind(ns, j as int, end as int, k@),
        decreases end - j,
    {
        if kind_is(nodes, j, k) {
            return Some(j);
        }
        j = j + span_of(nodes, j, end);
    }
    None
}

/// The first identifier among the subtrees of `[from, end)`.
pub fn find_ident(nodes: &Vec<FlatNode>, from: usize, end: usize) -> (r: Option<usize>)
    requires
        end <= nodes@.len(),
    ensures
        as_index(r) == first_ident(flat_models(nodes@), from as int, end as int),
        r matches Some(j) ==> from <= j < end,
{
    let ghost ns = flat_models(nodes@);
    let mut j = from;
    while j < end
        invariant
            from <= j,
            end <= nodes@.len(),
            ns == flat_models(nodes@),
            first_ident(ns, from as int, end as int) == first_ident(ns, j as int, end as int),
        decreases end - j,
    {
        if kind_is(nodes, j, "simple_identifier") || kind_is(nodes, j, "identifier") || kind_is(
            nodes,
            j,
            "type_identifier",
        ) {
            return Some(j);
        }
        j = j + span_of(nodes, j, end);
    }
    None
}

/// The characters of the node at `i`, as [`node_text`] gives them.
pub fn text_of(nodes: &Vec<FlatNode>, src: &[u8], i: usize) -> (r: Vec<char>)
    requires
        i < nodes@.len(),
    ensures
        r@ == node_text(src@, flat_models(nodes@)[i as int]),
{
    let n = &nodes[i];
    if n.start_byte <= n.end_byte && n.end_byte <= src.len() {
        match decode_utf8_range(src, n.start_byte, n.end_byte) {
            Some(v) => v,
            None => Vec::new(),
        }
    } else {
        Vec::new()
    }
}

/// Whether `w` is one of the white-space separated words of `s`.
pub fn contains_word(s: &Vec<char>, w: &Vec<char>) -> (r: bool)
    ensures
        r == has_word(s@, w@),
{
    let wl = w.len();
    if wl == 0 {
        return false;
    }
    let mut k: usize = 0;
    while k < wl
        invariant
            wl == w@.len(),
            k <= wl,
            forall|m: int| 0 <= m < k ==> !is_whitespace(#[trigger] w@[m]),
        decreases wl - k,
    {
        if is_whitespace_char(w[k]) {
            return false;
        }
        k = k + 1;
    }
    let sl = s.len();
    if wl > sl {
        assert forall|i: int| !is_word_at(s@, i, w@) by {}
        return false;
    }
    let mut i: usize = 0;
    while i <= sl - wl
        invariant
            wl == w@.len(),
            sl == s@.len(),
            0 < wl <= sl,
            forall|m: int| 0 <= m < wl ==> !is_whitespace(#[trigger] w@[m]),
            forall|p: int| 0 <= p < i ==> !is_word_at(s@, p, w@),
        decreases sl - wl + 1 - i,
    {
        let left = i == 0 || is_whitespace_char(s[i - 1]);
        let right = i + wl == sl || is_whitespace_char(s[i + wl]);
        if left && right {
            let mut m: usize = 0;
            let mut same = true;
            while m < wl
                invariant
                    wl == w@.len(),
                    sl == s@.len(),
                    i + wl <= sl,
                    m <= wl,
                    same == (forall|q: int| 0 <= q < m ==> s@[i + q] == w@[q]),
                decreases wl - m,
            {
                if s[i + m] != w[m] {
                    same = false;
                }
                m = m + 1;
            }
            if same {
                assert(s@.subrange(i as int, i + wl) =~= w@);
                assert(is_word_at(s@, i as int, w@));
                return true;
            }
            assert(s@.subrange(i as int, i + wl) != w@) by {
                let q = choose|q: int| 0 <= q < wl && s@[i + q] != w@[q];
                assert(s@.subrange(i as int, i + wl)[q] == s@[i + q]);
            }
        }
        i = i + 1;
    }
    false
}

/// Whether one of the subtrees of `[from, end)` is a `modifiers` node
/// holding the word `kw`, or (when `bare` is set) a node of kind `kw`.
fn modifier_scan(nodes: &Vec<FlatNode>, src: &[u8], from: usize, end: usize, kw: &str, bare: bool) -> (r: bool)
    requires
        end <= nodes@.len(),
    ensures
        bare ==> r == has_modifier(flat_models(nodes@), src@, from as int, end as int, kw@),
        !bare ==> r == has_java_modifier(flat_models(nodes@), src@, from as int, end as int, kw@),
{
    let ghost ns = flat_models(nodes@);
    let word = str_chars(kw);
    let mut j = from;
    while j < end
        invariant
            from <= j,
            end <= nodes@.len(),
            ns == flat_models(nodes@),
            word@ == kw@,
            bare ==> has_modifier(ns, src@, from as int, end as int, kw@) == has_modifier(
                ns,
                src@,
                j as int,
                end as int,
                kw@,
            ),
            !bare ==> has_java_modifier(ns, src@, from as int, end as int, kw@)
                == has_java_modifier(ns, src@, j as int, end as int, kw@),
        decreases end - j,
    {
        if kind_is(nodes, j, "modifiers") && contains_word(&text_of(nodes, src, j), &word) {
            return true;
        }
        if bare && kind_is(nodes, j, kw) {
            return true;
        }
        j = j + span_of(nodes, j, end);
    }
    false
}

/// Whether a Kotlin node's children carry modifier `kw`: in a `modifiers`
/// child, or as a keyword child of that kind.
pub fn find_modifier(nodes: &Vec<FlatNode>, src: &[u8], from: usize, end: usize, kw: &str) -> (r: bool)
    requires
        end <= nodes@.len(),
    ensures
        r == has_modifier(flat_models(nodes@), src@, from as int, end as int, kw@),
{
    modifier_scan(nodes, src, from, end, kw, true)
}

/// Whether a Java node's children carry modifier `kw` in a `modifiers` child.
pub fn find_java_modifier(nodes: &Vec<FlatNode>, src: &[u8], from: usize, end: usize, kw: &str) -> (r: bool)
    requires
        end <= nodes@.len(),
    ensures
        r == has_java_modifier(flat_models(nodes@), src@, from as int, end as int, kw@),
{
    modifier_scan(nodes, src, from, end, kw, false)
}

} // verus!
