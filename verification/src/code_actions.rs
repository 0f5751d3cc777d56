//! All code actions offered for a cursor range and the diagnostics on it.
use vstd::prelude::*;

use crate::ast::{
    anchor_of, lemma_node_size_pos, lemma_nodes_size, lemma_pairs_size, loc_of, node_loc,
    node_size, nodes_size, pairs_size, Document, Node, Span,
};
use crate::block_scalar::{block_scalar_plans, string_to_block_scalar};
use crate::dedup::{clone_node, node_view, MetaV, NodeV};
use crate::flow_actions::{
    block_to_flow, block_to_flow_plan, fit_chars, flow_map_to_block, flow_seq_to_block,
    flow_to_block_plan, tab_fix, tab_to_spaces,
};
use crate::format_options::{default_options, YamlFormatOptions};
use crate::lsp::{
    action_view, copy_diagnostic, diag_view, lines_overlap, ranges_overlap, CodeAction,
    CodeActionKind, Diagnostic, Position, Range,
};
use crate::pending_edit::{pending_view, PendingEdit, PendingView};
use crate::scalar_actions::{quoted_bool_to_unquoted, unquote_action};
use crate::text::{byte_len, lines_of, split_lines, str_chars, string_from_chars};
use crate::yaml11_actions::{
    actions_view, bool_fixes, bool_type_fixes, octal_fixes, schema_yaml11_bool_type_actions,
    yaml11_bool_actions, yaml11_octal_actions,
};

verus! {

// ---------------------------------------------------------------------------
// Unused anchors
// ---------------------------------------------------------------------------

/// The node with its anchor removed.
pub open spec fn without_anchor(v: NodeV) -> NodeV {
    let strip = |m: Option<MetaV>| match m {
        Some(m) => Some(MetaV { anchor: None, anchor_loc: None, ..m }),
        None => None,
    };
    match v {
        NodeV::Scalar { value, style, tag, loc, meta } => NodeV::Scalar { value, style, tag, loc, meta: strip(meta) },
        NodeV::Mapping { entries, style, tag, loc, meta } => NodeV::Mapping { entries, style, tag, loc, meta: strip(meta) },
        NodeV::Sequence { items, style, tag, loc, meta } => NodeV::Sequence { items, style, tag, loc, meta: strip(meta) },
        NodeV::Alias { name, loc, meta } => NodeV::Alias { name, loc, meta: strip(meta) },
    }
}

fn remove_anchor(n: Node) -> (r: Node)
    ensures
        node_view(r) == without_anchor(node_view(n)),
{
    match n {
        Node::Scalar { value, style, tag, loc, meta } => Node::Scalar { value, style, tag, loc, meta: strip_meta(meta) },
        Node::Mapping { entries, style, tag, loc, meta } => Node::Mapping { entries, style, tag, loc, meta: strip_meta(meta) },
        Node::Sequence { items, style, tag, loc, meta } => Node::Sequence { items, style, tag, loc, meta: strip_meta(meta) },
        Node::Alias { name, loc, meta } => Node::Alias { name, loc, meta: strip_meta(meta) },
    }
}

fn strip_meta(m: Option<Box<crate::ast::NodeMeta>>) -> (r: Option<Box<crate::ast::NodeMeta>>)
    ensures
        crate::dedup::meta_view(r) == match crate::dedup::meta_view(m) {
            Some(mv) => Some(MetaV { anchor: None, anchor_loc: None, ..mv }),
            None => None,
        },
{
    match m {
        Some(b) => {
            let b = *b;
            Some(Box::new(crate::ast::NodeMeta {
                anchor: None,
                anchor_loc: None,
                tag_loc: b.tag_loc,
                leading_comments: b.leading_comments,
                trailing_comment: b.trailing_comment,
            }))
        },
        None => None,
    }
}

/// The node carrying anchor `name` and starting on line `pl` or the next
/// one (1-based), first in depth-first order.
pub open spec fn anchored_hit(n: Node, pl: int, name: Seq<char>) -> bool {
    anchor_of(n) == Some(name) && (loc_of(n).start.line == pl || loc_of(n).start.line == pl + 1)
}

pub open spec fn anchored_in_node(n: Node, pl: int, name: Seq<char>) -> Option<Node>
    decreases node_size(n), 0int,
{
    if anchored_hit(n, pl, name) {
        Some(n)
    } else {
        match n {
            Node::Mapping { entries, .. } => anchored_in_pairs(entries@, pl, name),
            Node::Sequence { items, .. } => anchored_in_items(items@, pl, name),
            _ => None,
        }
    }
}

pub open spec fn anchored_in_pairs(es: Seq<(Node, Node)>, pl: int, name: Seq<char>) -> Option<Node>
    decreases pairs_size(es), 1int,
{
    if es.len() == 0 {
        None
    } else {
        proof {
            lemma_node_size_pos(es[es.len() - 1].0);
            lemma_node_size_pos(es[es.len() - 1].1);
        }
        match anchored_in_pairs(es.subrange(0, es.len() - 1), pl, name) {
            Some(r) => Some(r),
            None => match anchored_in_node(es[es.len() - 1].0, pl, name) {
                Some(r) => Some(r),
                None => anchored_in_node(es[es.len() - 1].1, pl, name),
            },
        }
    }
}

pub open spec fn anchored_in_items(s: Seq<Node>, pl: int, name: Seq<char>) -> Option<Node>
    decreases nodes_size(s), 1int,
{
    if s.len() == 0 {
        None
    } else {
        proof {
            lemma_node_size_pos(s[s.len() - 1]);
        }
        match anchored_in_items(s.subrange(0, s.len() - 1), pl, name) {
            Some(r) => Some(r),
            None => anchored_in_node(s[s.len() - 1], pl, name),
        }
    }
}

pub open spec fn anchored_in_docs(docs: Seq<Document>, pl: int, name: Seq<char>) -> Option<Node>
    decreases docs.len(),
{
    if docs.len() == 0 {
        None
    } else {
        match anchored_in_docs(docs.drop_last(), pl, name) {
            Some(r) => Some(r),
            None => anchored_in_node(docs.last().root, pl, name),
        }
    }
}

fn is_anchored_hit(n: &Node, pl: u64, name: &Vec<char>) -> (r: bool)
    requires
        pl < u64::MAX,
    ensures
        r == anchored_hit(*n, pl as int, name@),
{
    let loc = node_loc(n);
    match crate::ast::anchor(n) {
        Some(a) => {
            let av = str_chars(a.as_str());
            crate::text::chars_eq(&av, name) && (loc.start.line as u64 == pl || loc.start.line as u64 == pl + 1)
        },
        None => false,
    }
}

proof fn lemma_pairs_first(es: Seq<(Node, Node)>, i: int, pl: int, name: Seq<char>)
    requires
        0 <= i < es.len(),
        anchored_in_pairs(es.take(i), pl, name) is None,
    ensures
        anchored_in_pairs(es.take(i + 1), pl, name) is Some ==> anchored_in_pairs(es, pl, name) == anchored_in_pairs(es.take(i + 1), pl, name),
    decreases es.len() - i,
{
    assert(es.take(i + 1).subrange(0, i) =~= es.take(i));
    assert(es.take(i + 1)[i] == es[i]);
    if i < es.len() - 1 {
        let t = es.subrange(0, es.len() - 1);
        assert(t.take(i) =~= es.take(i));
        assert(t.take(i + 1) =~= es.take(i + 1));
        lemma_pairs_first(t, i, pl, name);
    } else {
        assert(es.take(i + 1) =~= es);
    }
}

proof fn lemma_items_first(s: Seq<Node>, i: int, pl: int, name: Seq<char>)
    requires
        0 <= i < s.len(),
        anchored_in_items(s.take(i), pl, name) is None,
    ensures
        anchored_in_items(s.take(i + 1), pl, name) is Some ==> anchored_in_items(s, pl, name) == anchored_in_items(s.take(i + 1), pl, name),
    decreases s.len() - i,
{
    assert(s.take(i + 1).subrange(0, i) =~= s.take(i));
    assert(s.take(i + 1)[i] == s[i]);
    if i < s.len() - 1 {
        let t = s.subrange(0, s.len() - 1);
        assert(t.take(i) =~= s.take(i));
        assert(t.take(i + 1) =~= s.take(i + 1));
        lemma_items_first(t, i, pl, name);
    } else {
        assert(s.take(i + 1) =~= s);
    }
}

/// Find the node with anchor `name` on line `pl` or the next (1-based).
pub fn find_anchored_node_in<'a>(n: &'a Node, pl: u64, name: &Vec<char>) -> (r: Option<&'a Node>)
    requires
        pl < u64::MAX,
    ensures
        match r {
            Some(m) => anchored_in_node(*n, pl as int, name@) == Some(*m),
            None => anchored_in_node(*n, pl as int, name@) is None,
        },
    decreases node_size(*n), 0int,
{
    if is_anchored_hit(n, pl, name) {
        return Some(n);
    }
    match n {
        Node::Mapping { entries, .. } => {
            let mut i: usize = 0;
            while i < entries.len()
                invariant
                    i <= entries@.len(),
                    pl < u64::MAX,
                    pairs_size(entries@) < node_size(*n),
                    anchored_in_node(*n, pl as int, name@) == anchored_in_pairs(entries@, pl as int, name@),
                    anchored_in_pairs(entries@.take(i as int), pl as int, name@) is None,
                decreases entries.len() - i,
            {
                proof {
                    lemma_pairs_size(entries@, i as int);
                    assert(entries@.take(i + 1).subrange(0, i as int) =~= entries@.take(i as int));
                    assert(entries@.take(i + 1)[i as int] == entries@[i as int]);
                }
                match find_anchored_node_in(&entries[i].0, pl, name) {
                    Some(x) => {
                        proof {
                            lemma_pairs_first(entries@, i as int, pl as int, name@);
                        }
                        return Some(x);
                    },
                    None => {},
                }
                match find_anchored_node_in(&entries[i].1, pl, name) {
                    Some(x) => {
                        proof {
                            lemma_pairs_first(entries@, i as int, pl as int, name@);
                        }
                        return Some(x);
                    },
                    None => {},
                }
                i += 1;
            }
            assert(entries@.take(i as int) =~= entries@);
            None
        },
        Node::Sequence { items, .. } => {
            let mut i: usize = 0;
            while i < items.len()
                invariant
                    i <= items@.len(),
                    pl < u64::MAX,
                    nodes_size(items@) < node_size(*n),
                    anchored_in_node(*n, pl as int, name@) == anchored_in_items(items@, pl as int, name@),
                    anchored_in_items(items@.take(i as int), pl as int, name@) is None,
                decreases items.len() - i,
            {
                proof {
                    lemma_nodes_size(items@, i as int);
                    assert(items@.take(i + 1).subrange(0, i as int) =~= items@.take(i as int));
                    assert(items@.take(i + 1)[i as int] == items@[i as int]);
                }
                match find_anchored_node_in(&items[i], pl, name) {
                    Some(x) => {
                        proof {
                            lemma_items_first(items@, i as int, pl as int, name@);
                        }
                        return Some(x);
                    },
                    None => {},
                }
                i += 1;
            }
            assert(items@.take(i as int) =~= items@);
            None
        },
        _ => None,
    }
}

proof fn lemma_docs_first(docs: Seq<Document>, i: int, pl: int, name: Seq<char>)
    requires
        0 <= i < docs.len(),
        anchored_in_docs(docs.take(i), pl, name) is None,
    ensures
        anchored_in_node(docs[i].root, pl, name) is Some ==> anchored_in_docs(docs, pl, name) == anchored_in_node(docs[i].root, pl, name),
    decreases docs.len() - i,
{
    if i == docs.len() - 1 {
        assert(docs.drop_last() =~= docs.take(i));
    } else {
        let t = docs.drop_last();
        assert(t.take(i) =~= docs.take(i));
        assert(t[i] == docs[i]);
        lemma_docs_first(t, i, pl, name);
    }
}

/// Find the node with anchor `name` on line `pl` or the next (1-based).
pub fn find_anchored_node<'a>(docs: &'a Vec<Document>, pl: u64, name: &Vec<char>) -> (r: Option<&'a Node>)
    requires
        pl < u64::MAX,
    ensures
        match r {
            Some(m) => anchored_in_docs(docs@, pl as int, name@) == Some(*m),
            None => anchored_in_docs(docs@, pl as int, name@) is None,
        },
{
    let mut i: usize = 0;
    while i < docs.len()
        invariant
            i <= docs@.len(),
            pl < u64::MAX,
            anchored_in_docs(docs@.take(i as int), pl as int, name@) is None,
        decreases docs.len() - i,
    {
        assert(docs@.take(i + 1).drop_last() =~= docs@.take(i as int));
        match find_anchored_node_in(&docs[i].root, pl, name) {
            Some(x) => {
                proof {
                    lemma_docs_first(docs@, i as int, pl as int, name@);
                }
                return Some(x);
            },
            None => {},
        }
        i += 1;
    }
    assert(docs@.take(i as int) =~= docs@);
    None
}

/// The anchor name the diagnostic's range covers on its line (after the
/// `&`), when the range lies on the line and its byte offsets fall on
/// character boundaries.
pub open spec fn diag_anchor_name(text: Seq<char>, d: Range) -> Option<Seq<char>> {
    let ls = lines_of(text);
    let dl = d.start.line as int;
    let s = d.start.character as int;
    let e = d.end.character as int;
    if dl >= ls.len() {
        None
    } else {
        let line = ls[dl];
        let a = fit_chars(line, s + 1) as int;
        let b = fit_chars(line, e) as int;
        if s >= byte_len(line) || e > byte_len(line) || s + 1 > e || byte_len(line.take(a)) != s + 1 || byte_len(line.take(b)) != e {
            None
        } else {
            Some(line.subrange(a, b))
        }
    }
}

/// The pending removal of the unused anchor a diagnostic points at: the
/// range from the `&` to the node's end is replaced by the node printed
/// without its anchor (with the default options).
pub open spec fn delete_anchor_plan(docs: Seq<Document>, text: Seq<char>, d: (Range, Option<Seq<char>>)) -> Option<PendingView> {
    match diag_anchor_name(text, d.0) {
        None => None,
        Some(name) => match anchored_in_docs(docs, d.0.start.line + 1, name) {
            None => None,
            Some(n) => if n is Alias {
                None
            } else {
                let loc = loc_of(n);
                Some((
                    "Delete unused anchor"@,
                    CodeActionKind::QuickFix,
                    Range {
                        start: Position { line: d.0.start.line, character: d.0.start.character },
                        end: Position { line: if loc.end.line > 0 { (loc.end.line - 1) as u32 } else { 0 }, character: loc.end.column },
                    },
                    without_anchor(node_view(n)),
                    default_options(),
                    loc.start.column as nat,
                    seq![],
                    seq![],
                    Some(seq![d]),
                ))
            },
        },
    }
}

/// Offer to delete the anchor an `unusedAnchor` diagnostic points at.
pub fn delete_unused_anchor(docs: &Vec<Document>, text: &str, diag: &Diagnostic) -> (r: Option<PendingEdit>)
    ensures
        match r {
            Some(p) => delete_anchor_plan(docs@, text@, diag_view(*diag)) == Some(pending_view(p)),
            None => delete_anchor_plan(docs@, text@, diag_view(*diag)) is None,
        },
{
    let v = str_chars(text);
    let ls = split_lines(&v);
    let dl = diag.range.start.line as usize;
    if dl >= ls.len() {
        return None;
    }
    let line = &ls[dl];
    assert(line@ == lines_of(text@)[dl as int]);
    proof {
        crate::text::lemma_lines_byte_len(text@);
    }
    let total = crate::text::str_byte_len(text);
    let blen = crate::text::byte_len_prefix(line.as_slice(), line.len());
    assert(line@.take(line@.len() as int) =~= line@);
    let s = diag.range.start.character as u64;
    let e = diag.range.end.character as u64;
    if s >= blen as u64 || e > blen as u64 || s + 1 > e {
        return None;
    }
    let a = crate::flow_actions::count_fitting_chars(line, (s + 1) as usize);
    let b = crate::flow_actions::count_fitting_chars(line, e as usize);
    let ba = crate::text::byte_len_prefix(line.as_slice(), a);
    let bb = crate::text::byte_len_prefix(line.as_slice(), b);
    if ba as u64 != s + 1 || bb as u64 != e {
        return None;
    }
    proof {
        if a > b {
            crate::text::lemma_take_bytes_monotone(line@, b as int, a as int);
        }
    }
    let name = crate::text::slice_range(line.as_slice(), a, b);
    let node = match find_anchored_node(docs, diag.range.start.line as u64 + 1, &name) {
        Some(n) => n,
        None => {
            return None;
        },
    };
    match node {
        Node::Alias { .. } => {
            return None;
        },
        _ => {},
    }
    let loc = node_loc(node);
    let deanchored = remove_anchor(clone_node(node));
    let range = Range {
        start: Position { line: diag.range.start.line, character: diag.range.start.character },
        end: Position { line: loc.end.line.saturating_sub(1), character: loc.end.column },
    };
    let d = copy_diagnostic(diag);
    let ghost dv = diag_view(d);
    let mut ds: Vec<Diagnostic> = Vec::new();
    ds.push(d);
    assert(ds@.map_values(|x: Diagnostic| diag_view(x)) =~= seq![dv]);
    Some(PendingEdit {
        title: "Delete unused anchor".to_owned(),
        kind: CodeActionKind::QuickFix,
        range,
        node: deanchored,
        options: YamlFormatOptions::default(),
        base_indent: loc.start.column as usize,
        prefix: String::new(),
        suffix: String::new(),
        diagnostics: Some(ds),
    })
}


// ---------------------------------------------------------------------------
// All actions
// ---------------------------------------------------------------------------

/// A code action, ready or waiting for its subtree to be printed.
#[derive(Debug)]
pub enum ActionItem {
    Ready(CodeAction),
    Pending(PendingEdit),
}

pub type ActionView = (Seq<char>, CodeActionKind, Seq<(Range, Seq<char>)>, Option<Seq<(Range, Option<Seq<char>>)>>);

/// The value of an action item.
pub enum ItemV {
    Ready(ActionView),
    Pending(PendingView),
}

pub open spec fn item_view(i: ActionItem) -> ItemV {
    match i {
        ActionItem::Ready(a) => ItemV::Ready(action_view(a)),
        ActionItem::Pending(p) => ItemV::Pending(pending_view(p)),
    }
}

pub open spec fn items_view(s: Seq<ActionItem>) -> Seq<ItemV> {
    s.map_values(|i: ActionItem| item_view(i))
}

pub open spec fn ready_items(s: Seq<ActionView>) -> Seq<ItemV> {
    s.map_values(|a: ActionView| ItemV::Ready(a))
}

pub open spec fn opt_ready(o: Option<ActionView>) -> Seq<ItemV> {
    match o {
        Some(a) => seq![ItemV::Ready(a)],
        None => seq![],
    }
}

pub open spec fn opt_pending(o: Option<PendingView>) -> Seq<ItemV> {
    match o {
        Some(p) => seq![ItemV::Pending(p)],
        None => seq![],
    }
}

/// The actions one diagnostic asks for, by its code.
pub open spec fn diag_items(docs: Seq<Document>, text: Seq<char>, d: (Range, Option<Seq<char>>), o: YamlFormatOptions) -> Seq<ItemV> {
    match d.1 {
        Some(c) => if c == "flowMap"@ {
            opt_pending(flow_to_block_plan(docs, text, d, o, true))
        } else if c == "flowSeq"@ {
            opt_pending(flow_to_block_plan(docs, text, d, o, false))
        } else if c == "unusedAnchor"@ {
            opt_pending(delete_anchor_plan(docs, text, d))
        } else if c == "yaml11Boolean"@ || c == "schemaYaml11Boolean"@ {
            ready_items(bool_fixes(docs, d, o))
        } else if c == "yaml11Octal"@ || c == "schemaYaml11Octal"@ {
            ready_items(octal_fixes(docs, d, o))
        } else if c == "schemaYaml11BooleanType"@ {
            ready_items(bool_type_fixes(docs, d, o))
        } else {
            seq![]
        },
        None => seq![],
    }
}

/// The diagnostic-driven actions: for each diagnostic whose lines overlap
/// the range, in order, the actions it asks for.
pub open spec fn all_diag_items(docs: Seq<Document>, text: Seq<char>, range: Range, ds: Seq<(Range, Option<Seq<char>>)>, o: YamlFormatOptions) -> Seq<ItemV>
    decreases ds.len(),
{
    if ds.len() == 0 {
        seq![]
    } else {
        all_diag_items(docs, text, range, ds.drop_last(), o) + if lines_overlap(ds.last().0, range) {
            diag_items(docs, text, ds.last(), o)
        } else {
            seq![]
        }
    }
}

/// The context actions on the range's start line: tab cleanup, unquoting
/// a boolean, block scalar rewrites, block-to-flow conversion.
pub open spec fn context_items(docs: Seq<Document>, text: Seq<char>, range: Range, o: YamlFormatOptions) -> Seq<ItemV> {
    let li = range.start.line as int;
    if li >= lines_of(text).len() {
        seq![]
    } else {
        opt_ready(tab_fix(text, li)) + opt_ready(unquote_action(docs, li, range.start.character as int, o))
            + block_scalar_plans(docs, li, o).map_values(|p: PendingView| ItemV::Pending(p))
            + opt_pending(block_to_flow_plan(docs, li, o))
    }
}

fn push_ready_all(out: &mut Vec<ActionItem>, actions: Vec<CodeAction>)
    ensures
        items_view(final(out)@) == items_view(old(out)@) + ready_items(actions_view(actions@)),
{
    let ghost pre = items_view(out@);
    let ghost av = actions_view(actions@);
    let count = actions.len();
    let mut rest = actions;
    let mut i: usize = 0;
    assert(actions@.skip(0) =~= actions@);
    while rest.len() > 0
        invariant
            actions@.len() == count,
            rest@ == actions@.skip(i as int),
            i + rest@.len() == actions@.len(),
            av == actions_view(actions@),
            items_view(out@) == pre + ready_items(av.take(i as int)),
        decreases rest.len(),
    {
        let a = rest.remove(0);
        assert(a == actions@[i as int]);
        assert(rest@ =~= actions@.skip(i + 1));
        let ghost o = out@;
        out.push(ActionItem::Ready(a));
        assert(items_view(out@) =~= items_view(o).push(ItemV::Ready(action_view(a))));
        assert(av.take(i + 1) =~= av.take(i as int).push(av[i as int]));
        i += 1;
        assert(items_view(out@) =~= pre + ready_items(av.take(i as int)));
    }
    assert(av.take(i as int) =~= av);
}

fn push_pending_opt(out: &mut Vec<ActionItem>, p: Option<PendingEdit>)
    ensures
        items_view(final(out)@) == items_view(old(out)@) + opt_pending(match p { Some(x) => Some(pending_view(x)), None => None }),
{
    let ghost o = out@;
    match p {
        Some(x) => {
            let ghost xv = pending_view(x);
            out.push(ActionItem::Pending(x));
            assert(items_view(out@) =~= items_view(o).push(ItemV::Pending(xv)));
        },
        None => {
            assert(items_view(out@) =~= items_view(o) + Seq::<ItemV>::empty());
        },
    }
}

fn push_ready_opt(out: &mut Vec<ActionItem>, a: Option<CodeAction>)
    ensures
        items_view(final(out)@) == items_view(old(out)@) + opt_ready(match a { Some(x) => Some(action_view(x)), None => None }),
{
    let ghost o = out@;
    match a {
        Some(x) => {
            let ghost xv = action_view(x);
            out.push(ActionItem::Ready(x));
            assert(items_view(out@) =~= items_view(o).push(ItemV::Ready(xv)));
        },
        None => {
            assert(items_view(out@) =~= items_view(o) + Seq::<ItemV>::empty());
        },
    }
}

fn diagnostic_actions(out: &mut Vec<ActionItem>, docs: &Vec<Document>, text: &str, diag: &Diagnostic, options: &YamlFormatOptions)
    ensures
        items_view(final(out)@) == items_view(old(out)@) + diag_items(docs@, text@, diag_view(*diag), *options),
{
    let ghost o = items_view(out@);
    if crate::lsp::has_code(diag, "flowMap") {
        push_pending_opt(out, flow_map_to_block(docs, text, diag, options));
    } else if crate::lsp::has_code(diag, "flowSeq") {
        push_pending_opt(out, flow_seq_to_block(docs, text, diag, options));
    } else if crate::lsp::has_code(diag, "unusedAnchor") {
        push_pending_opt(out, delete_unused_anchor(docs, text, diag));
    } else if crate::lsp::has_code(diag, "yaml11Boolean") || crate::lsp::has_code(diag, "schemaYaml11Boolean") {
        push_ready_all(out, yaml11_bool_actions(docs, diag, options));
    } else if crate::lsp::has_code(diag, "yaml11Octal") || crate::lsp::has_code(diag, "schemaYaml11Octal") {
        push_ready_all(out, yaml11_octal_actions(docs, diag, options));
    } else if crate::lsp::has_code(diag, "schemaYaml11BooleanType") {
        push_ready_all(out, schema_yaml11_bool_type_actions(docs, diag, options));
    } else {
        assert(diag_items(docs@, text@, diag_view(*diag), *options) =~= Seq::<ItemV>::empty());
        assert(items_view(out@) =~= o + Seq::<ItemV>::empty());
    }
}

/// Compute the code actions available for the given text, range and
/// diagnostics: first those the overlapping diagnostics ask for (flow to
/// block style, unused anchor deletion, YAML 1.1 boolean and octal fixes),
/// then the context actions on the range's start line (tabs to spaces,
/// unquoting a boolean, block scalar rewrites, block to flow style).
///
/// Actions whose text is a printed subtree come back pending; the caller
/// prints their subtree and completes them with `complete_action`.
pub fn code_actions(docs: &Vec<Document>, text: &str, range: Range, diagnostics: &Vec<Diagnostic>, options: &YamlFormatOptions) -> (r: Vec<ActionItem>)
    ensures
        items_view(r@) == all_diag_items(docs@, text@, range, diagnostics@.map_values(|d: Diagnostic| diag_view(d)), *options)
            + context_items(docs@, text@, range, *options),
{
    let ghost dv = diagnostics@.map_values(|d: Diagnostic| diag_view(d));
    let mut out: Vec<ActionItem> = Vec::new();
    let mut i: usize = 0;
    assert(items_view(out@) =~= Seq::<ItemV>::empty());
    while i < diagnostics.len()
        invariant
            i <= diagnostics@.len(),
            dv == diagnostics@.map_values(|d: Diagnostic| diag_view(d)),
            items_view(out@) == all_diag_items(docs@, text@, range, dv.take(i as int), *options),
        decreases diagnostics.len() - i,
    {
        let d = &diagnostics[i];
        assert(dv.take(i + 1).drop_last() =~= dv.take(i as int));
        assert(dv.take(i + 1).last() == diag_view(*d));
        if ranges_overlap(&d.range, &range) {
            diagnostic_actions(&mut out, docs, text, d, options);
        } else {
            assert(items_view(out@) =~= items_view(out@) + Seq::<ItemV>::empty());
        }
        i += 1;
    }
    assert(dv.take(i as int) =~= dv);
    let ghost after_diags = items_view(out@);
    let v = str_chars(text);
    let ls = split_lines(&v);
    let li = range.start.line as usize;
    if li < ls.len() {
        push_ready_opt(&mut out, tab_to_spaces(text, li));
        push_ready_opt(&mut out, quoted_bool_to_unquoted(docs, li, range.start.character as usize, options));
        let plans = string_to_block_scalar(docs, li, options);
        let ghost pv = crate::pending_edit::pendings_view(plans@);
        let ghost before_plans = items_view(out@);
        let plan_count = plans.len();
        let mut rest = plans;
        let mut k: usize = 0;
        let ghost all = rest@;
        assert(all.skip(0) =~= all);
        while rest.len() > 0
            invariant
                all.len() == plan_count,
                rest@ == all.skip(k as int),
                k + rest@.len() == all.len(),
                pv == crate::pending_edit::pendings_view(all),
                items_view(out@) == before_plans + pv.take(k as int).map_values(|p: PendingView| ItemV::Pending(p)),
            decreases rest.len(),
        {
            let p = rest.remove(0);
            assert(p == all[k as int]);
            assert(rest@ =~= all.skip(k + 1));
            let ghost o = out@;
            out.push(ActionItem::Pending(p));
            assert(items_view(out@) =~= items_view(o).push(ItemV::Pending(pending_view(p))));
            assert(pv.take(k + 1).map_values(|p: PendingView| ItemV::Pending(p)) =~= pv.take(k as int).map_values(|p: PendingView| ItemV::Pending(p)).push(ItemV::Pending(pv[k as int])));
            k += 1;
        }
        assert(pv.take(k as int) =~= pv);
        push_pending_opt(&mut out, block_to_flow(docs, li, options));
        assert(items_view(out@) =~= after_diags + context_items(docs@, text@, range, *options));
    } else {
        assert(items_view(out@) =~= after_diags + context_items(docs@, text@, range, *options));
    }
    out
}

} // verus!
