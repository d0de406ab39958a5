//! The lines of the `tree` debug subcommand: one line per node of the syntax
//! tree, in preorder, with its depth, kind, positions and a text preview.
use crate::syntax::{
    FlatNode, FlatModel, Language, flat_models, span, nonempty, child_end, span_of, syntax_of,
    parse_nodes,
};
use crate::text::chars_to_string;
use crate::utf::{utf8_chars, decode_utf8_range};
use vstd::prelude::*;
use vstd::utf8::encode_utf8;

verus! {

/// One line of a tree dump.
#[derive(Debug)]
pub struct TreeLine {
    /// Depth of the node below the root (the root has depth 0).
    pub depth: usize,
    /// The grammar's name for the node.
    pub kind: String,
    /// Whether the node is a rule of the grammar rather than a literal token.
    pub named: bool,
    pub start_row: usize,
    pub start_column: usize,
    pub end_row: usize,
    pub end_column: usize,
    /// The text shown after the positions: a preview for a named leaf, the
    /// whole text for an anonymous node, nothing for other named nodes.
    pub text: Option<String>,
}

/// The mathematical value of a [`TreeLine`].
pub struct TreeLineModel {
    pub depth: nat,
    pub kind: Seq<char>,
    pub named: bool,
    pub start_row: nat,
    pub start_column: nat,
    pub end_row: nat,
    pub end_column: nat,
    pub text: Option<Seq<char>>,
}

/// The characters of an optional string.
pub open spec fn string_option(o: Option<String>) -> Option<Seq<char>> {
    match o {
        Some(s) => Some(s@),
        None => None,
    }
}

impl View for TreeLine {
    type V = TreeLineModel;

    open spec fn view(&self) -> TreeLineModel {
        TreeLineModel {
            depth: self.depth as nat,
            kind: self.kind@,
            named: self.named,
            start_row: self.start_row as nat,
            start_column: self.start_column as nat,
            end_row: self.end_row as nat,
            end_column: self.end_column as nat,
            text: string_option(self.text),
        }
    }
}

/// The values of an optional list of dump lines.
pub open spec fn tree_lines_option(o: Option<Vec<TreeLine>>) -> Option<Seq<TreeLineModel>> {
    match o {
        Some(v) => Some(v@.map_values(|l: TreeLine| l@)),
        None => None,
    }
}

/// Number of bytes of the UTF-8 encoding of `c`.
pub open spec fn utf8_width(c: char) -> nat {
    if (c as u32) < 0x80 {
        1
    } else if (c as u32) < 0x800 {
        2
    } else if (c as u32) < 0x10000 {
        3
    } else {
        4
    }
}

/// The longest prefix of `cs` whose UTF-8 encoding takes at most `budget`
/// bytes: the text cut at the last character boundary within `budget` bytes.
pub open spec fn preview(cs: Seq<char>, budget: nat) -> Seq<char>
    decreases cs.len(),
{
    if cs.len() == 0 || utf8_width(cs[0]) > budget {
        seq![]
    } else {
        seq![cs[0]] + preview(cs.drop_first(), (budget - utf8_width(cs[0])) as nat)
    }
}

/// Number of bytes of the UTF-8 encoding of `cs`.
pub open spec fn utf8_len(cs: Seq<char>) -> nat
    decreases cs.len(),
{
    if cs.len() == 0 {
        0
    } else {
        utf8_width(cs[0]) + utf8_len(cs.drop_first())
    }
}

/// Law: the byte length used for previews is the length of the text's
/// UTF-8 encoding.
pub proof fn law_utf8_len_is_encoding_length(cs: Seq<char>)
    ensures
        utf8_len(cs) == encode_utf8(cs).len(),
    decreases cs.len(),
{
    if cs.len() > 0 {
        law_utf8_len_is_encoding_length(cs.drop_first());
        vstd::utf8::char_is_scalar(cs[0]);
    }
}

/// Law: a preview is a prefix of the text that fits in the budget, and it
/// is the longest such prefix: it is the whole text, or adding the next
/// character would exceed the budget.
pub proof fn law_preview(cs: Seq<char>, budget: nat)
    ensures
        preview(cs, budget).len() <= cs.len(),
        preview(cs, budget) == cs.take(preview(cs, budget).len() as int),
        utf8_len(preview(cs, budget)) <= budget,
        preview(cs, budget).len() == cs.len() || utf8_len(cs.take(preview(cs, budget).len() + 1int))
            > budget,
    decreases cs.len(),
{
    if cs.len() > 0 && utf8_width(cs[0]) <= budget {
        let rest = cs.drop_first();
        let b2 = (budget - utf8_width(cs[0])) as nat;
        law_preview(rest, b2);
        let p = preview(rest, b2);
        assert(preview(cs, budget) == seq![cs[0]] + p);
        assert(cs.take(p.len() + 1int) =~= seq![cs[0]] + rest.take(p.len() as int));
        assert((seq![cs[0]] + p).drop_first() =~= p);
        if p.len() < rest.len() {
            assert(cs.take(p.len() + 2int) =~= seq![cs[0]] + rest.take(p.len() + 1int));
            assert((seq![cs[0]] + rest.take(p.len() + 1int)).drop_first() =~= rest.take(p.len() + 1int));
        }
    } else if cs.len() > 0 {
        assert(cs.take(1) =~= seq![cs[0]]);
        assert(seq![cs[0]].drop_first() =~= Seq::<char>::empty());
        assert(preview(cs, budget) =~= Seq::<char>::empty());
        assert(cs.take(0) =~= Seq::<char>::empty());
    } else {
        assert(cs.take(0) =~= Seq::<char>::empty());
    }
}

/// Bytes shown at most for the text of a named leaf.
pub const PREVIEW_BYTES: usize = 40;

/// The text of node `n` in `src`, or `?` when its bytes are not well-formed
/// UTF-8 (or do not lie inside `src`).
pub open spec fn shown_text(src: Seq<u8>, n: FlatModel) -> Seq<char> {
    if n.start_byte <= n.end_byte <= src.len() {
        match utf8_chars(src.subrange(n.start_byte as int, n.end_byte as int)) {
            Some(cs) => cs,
            None => seq!['?'],
        }
    } else {
        seq!['?']
    }
}

/// The dump line of the node at `i`, whose window ends at `end`, at `depth`:
/// a named leaf shows at most [`PREVIEW_BYTES`] bytes of its text, cut at a
/// character boundary; an anonymous node shows its whole text.
pub open spec fn dump_line(ns: Seq<FlatModel>, src: Seq<u8>, i: int, end: int, depth: nat) -> TreeLineModel {
    let n = ns[i];
    TreeLineModel {
        depth: depth,
        kind: n.kind,
        named: n.named,
        start_row: n.row,
        start_column: n.column,
        end_row: n.end_row,
        end_column: n.end_column,
        text: if n.named {
            if span(ns, i, end) == 1 {
                Some(preview(shown_text(src, n), PREVIEW_BYTES as nat))
            } else {
                None
            }
        } else {
            Some(shown_text(src, n))
        },
    }
}

/// The dump lines of the subtrees of `[from, end)`, in preorder, the roots of
/// the window at `depth`.
pub open spec fn dump_walk(ns: Seq<FlatModel>, src: Seq<u8>, from: int, end: int, depth: nat) -> Seq<TreeLineModel>
    decreases end - from,
{
    if nonempty(ns, from, end) {
        let e = child_end(ns, from, end);
        seq![dump_line(ns, src, from, end, depth)] + dump_walk(ns, src, from + 1, e, depth + 1) + dump_walk(
            ns,
            src,
            e,
            end,
            depth,
        )
    } else {
        seq![]
    }
}

/// The dump lines of a whole tree.
pub open spec fn dump_lines(ns: Seq<FlatModel>, src: Seq<u8>) -> Seq<TreeLineModel> {
    dump_walk(ns, src, 0, ns.len() as int, 0)
}

/// Number of bytes of the UTF-8 encoding of `c`.
fn utf8_width_of(c: char) -> (w: usize)
    ensures
        w == utf8_width(c),
{
    let v = c as u32;
    if v < 0x80 {
        1
    } else if v < 0x800 {
        2
    } else if v < 0x10000 {
        3
    } else {
        4
    }
}

/// The longest prefix of `cs` whose UTF-8 encoding takes at most `budget` bytes.
pub fn preview_of(cs: &Vec<char>, budget: usize) -> (r: Vec<char>)
    ensures
        r@ == preview(cs@, budget as nat),
{
    let mut out: Vec<char> = Vec::new();
    let mut i: usize = 0;
    let mut left: usize = budget;
    let mut stopped = false;
    assert(cs@.subrange(0, cs@.len() as int) =~= cs@);
    assert(out@ + preview(cs@, budget as nat) =~= preview(cs@, budget as nat));
    while i < cs.len() && !stopped
        invariant
            i <= cs@.len(),
            out@ + preview(cs@.subrange(i as int, cs@.len() as int), left as nat) == preview(cs@, budget as nat),
            stopped ==> preview(cs@.subrange(i as int, cs@.len() as int), left as nat) =~= Seq::<char>::empty(),
        decreases cs@.len() - i, if stopped { 0int } else { 1int },
    {
        let ghost rest = cs@.subrange(i as int, cs@.len() as int);
        assert(rest[0] == cs@[i as int]);
        let w = utf8_width_of(cs[i]);
        if w > left {
            stopped = true;
        } else {
            assert(rest.drop_first() =~= cs@.subrange(i + 1, cs@.len() as int));
            let ghost before = out@;
            out.push(cs[i]);
            assert(before + (seq![cs@[i as int]] + preview(rest.drop_first(), (left - w) as nat)) =~= out@
                + preview(rest.drop_first(), (left - w) as nat));
            left = left - w;
            i = i + 1;
        }
    }
    if !stopped {
        assert(cs@.subrange(i as int, cs@.len() as int) =~= Seq::<char>::empty());
    }
    assert(out@ + Seq::<char>::empty() =~= out@);
    out
}

/// The text of node `i` in `src`, or `?`.
fn shown_text_of(nodes: &Vec<FlatNode>, src: &[u8], i: usize) -> (r: Vec<char>)
    requires
        i < nodes@.len(),
    ensures
        r@ == shown_text(src@, flat_models(nodes@)[i as int]),
{
    let n = &nodes[i];
    if n.start_byte <= n.end_byte && n.end_byte <= src.len() {
        match decode_utf8_range(src, n.start_byte, n.end_byte) {
            Some(v) => v,
            None => vec!['?'],
        }
    } else {
        vec!['?']
    }
}

/// The dump line of node `i`, whose window ends at `end`, at `depth`.
fn line_of(nodes: &Vec<FlatNode>, src: &[u8], i: usize, end: usize, depth: usize) -> (r: TreeLine)
    requires
        i < end <= nodes@.len(),
    ensures
        r@ == dump_line(flat_models(nodes@), src@, i as int, end as int, depth as nat),
{
    let n = &nodes[i];
    let text = if n.named {
        if span_of(nodes, i, end) == 1 {
            let whole = shown_text_of(nodes, src, i);
            let cut = preview_of(&whole, PREVIEW_BYTES);
            Some(chars_to_string(cut.as_slice()))
        } else {
            None
        }
    } else {
        let whole = shown_text_of(nodes, src, i);
        Some(chars_to_string(whole.as_slice()))
    };
    TreeLine {
        depth: depth,
        kind: n.kind.clone(),
        named: n.named,
        start_row: n.row,
        start_column: n.column,
        end_row: n.end_row,
        end_column: n.end_column,
        text: text,
    }
}

/// Appends the dump lines of the subtrees of `[from, end)`, the roots of the
/// window at `depth`.
fn dump_nodes(nodes: &Vec<FlatNode>, src: &[u8], from: usize, end: usize, depth: usize, out: &mut Vec<TreeLine>)
    requires
        end <= nodes@.len(),
        depth <= from,
    ensures
        final(out)@.map_values(|l: TreeLine| l@) == old(out)@.map_values(|l: TreeLine| l@) + dump_walk(
            flat_models(nodes@),
            src@,
            from as int,
            end as int,
            depth as nat,
        ),
    decreases end - from,
{
    let ghost ns = flat_models(nodes@);
    let ghost start = old(out)@.map_values(|l: TreeLine| l@);
    let mut j = from;
    while j < end
        invariant
            from <= j,
            depth <= j,
            end <= nodes@.len(),
            ns == flat_models(nodes@),
            out@.map_values(|l: TreeLine| l@) + dump_walk(ns, src@, j as int, end as int, depth as nat) == start
                + dump_walk(ns, src@, from as int, end as int, depth as nat),
        decreases end - j,
    {
        let e = j + span_of(nodes, j, end);
        let ghost before = out@.map_values(|l: TreeLine| l@);
        let line = line_of(nodes, src, j, end, depth);
        out.push(line);
        assert(out@.map_values(|l: TreeLine| l@) =~= before.push(line@));
        dump_nodes(nodes, src, j + 1, e, depth + 1, out);
        assert(before + dump_walk(ns, src@, j as int, end as int, depth as nat) =~= out@.map_values(
            |l: TreeLine| l@,
        ) + dump_walk(ns, src@, e as int, end as int, depth as nat));
        j = e;
    }
    assert(dump_walk(ns, src@, j as int, end as int, depth as nat) =~= Seq::<TreeLineModel>::empty());
    assert(out@.map_values(|l: TreeLine| l@) + Seq::<TreeLineModel>::empty() =~= out@.map_values(
        |l: TreeLine| l@,
    ));
}

/// The lines of the parse-tree dump of `text` in the grammar of `language`,
/// one per node in preorder; `None` when the text cannot be parsed.
pub fn tree_dump(text: &str, language: Language) -> (r: Option<Vec<TreeLine>>)
    ensures
        tree_lines_option(r) == match syntax_of(text@, language) {
            Some(ns) => Some(dump_lines(ns, encode_utf8(text@))),
            None => None,
        },
{
    match parse_nodes(text, language) {
        Some(nodes) => {
            let src = text.as_bytes();
            assert(src@ == encode_utf8(text@));
            let mut out: Vec<TreeLine> = Vec::new();
            assert(out@.map_values(|l: TreeLine| l@) =~= Seq::<TreeLineModel>::empty());
            dump_nodes(&nodes, src, 0, nodes.len(), 0, &mut out);
            assert(out@.map_values(|l: TreeLine| l@) =~= Seq::<TreeLineModel>::empty() + dump_walk(
                flat_models(nodes@),
                src@,
                0,
                nodes@.len() as int,
                0,
            ));
            Some(out)
        },
        None => None,
    }
}

} // verus!
