//! Code actions that change a collection's style, and the raw-text tab
//! cleanup.
use vstd::prelude::*;

use crate::ast::{
    lemma_node_size_pos, lemma_nodes_size, lemma_pairs_size, loc_of, node_loc, node_size,
    nodes_size, pairs_size, CollectionStyle, Document, Node, Span,
};
use crate::dedup::{clone_node, lemma_nodes_view, lemma_pairs_view, node_view, nodes_view, pairs_view, NodeV};
use crate::format_options::YamlFormatOptions;
use crate::lsp::{
    action_view, copy_diagnostic, diag_view, edits_view, make_action, CodeAction, CodeActionKind,
    Diagnostic, Position, Range, TextEdit,
};
use crate::pending_edit::{diags_view, pending_view, PendingEdit, PendingView};
use crate::text::{
    byte_len, lead_ws, leading_ws_count, lines_of, push_all, spaces, spaces_vec, split_lines,
    str_chars, string_from_chars, utf8_len, views,
};

verus! {

// ---------------------------------------------------------------------------
// Tabs
// ---------------------------------------------------------------------------

/// The line with each tab replaced by two spaces.
pub open spec fn tabs_replaced(s: Seq<char>) -> Seq<char>
    decreases s.len(),
{
    if s.len() == 0 {
        seq![]
    } else {
        tabs_replaced(s.drop_last()) + if s.last() == '\t' {
            seq![' ', ' ']
        } else {
            seq![s.last()]
        }
    }
}

/// The cleaned line holds no tab, and its other characters are those of the
/// line, in order: removing its spaces gives the line with its tabs and
/// spaces removed.
pub proof fn law_tabs_replaced_has_no_tab(s: Seq<char>)
    ensures
        !tabs_replaced(s).contains('\t'),
        tabs_replaced(s).filter(|c: char| c != ' ') == s.filter(|c: char| c != ' ' && c != '\t'),
    decreases s.len(),
{
    if s.len() > 0 {
        law_tabs_replaced_has_no_tab(s.drop_last());
        let a = tabs_replaced(s.drop_last());
        let b = if s.last() == '\t' { seq![' ', ' '] } else { seq![s.last()] };
        assert forall|i: int| 0 <= i < (a + b).len() implies (a + b)[i] != '\t' by {
            if i < a.len() {
                assert((a + b)[i] == a[i]);
            } else {
                assert((a + b)[i] == b[i - a.len()]);
            }
        }
        let f = |c: char| c != ' ';
        let g = |c: char| c != ' ' && c != '\t';
        Seq::filter_distributes_over_add(a, b, f);
        reveal_with_fuel(Seq::filter, 3);
        assert(s.filter(g) == if g(s.last()) {
            s.drop_last().filter(g).push(s.last())
        } else {
            s.drop_last().filter(g)
        });
        if s.last() == '\t' {
            assert(b.filter(f) =~= seq![]);
        } else if s.last() == ' ' {
            assert(b.filter(f) =~= seq![]);
        } else {
            assert(b.filter(f) =~= seq![s.last()]);
        }
    }
}

/// The tab cleanup offered on line `line_idx`: `None` when the line does not
/// exist or holds no tab; otherwise the line (up to its byte length) is
/// replaced by itself with two spaces for each tab.
pub open spec fn tab_fix(text: Seq<char>, line_idx: int) -> Option<(Seq<char>, CodeActionKind, Seq<(Range, Seq<char>)>, Option<Seq<(Range, Option<Seq<char>>)>>)> {
    let ls = lines_of(text);
    if line_idx >= ls.len() || !ls[line_idx].contains('\t') {
        None
    } else {
        Some((
            "Convert tabs to spaces"@,
            CodeActionKind::QuickFix,
            seq![(
                Range {
                    start: Position { line: line_idx as u32, character: 0 },
                    end: Position { line: line_idx as u32, character: byte_len(ls[line_idx]) as u32 },
                },
                tabs_replaced(ls[line_idx]),
            )],
            None,
        ))
    }
}

/// Replace the tabs of line `line_idx` with two spaces each.
pub fn tab_to_spaces(text: &str, line_idx: usize) -> (r: Option<CodeAction>)
    ensures
        match r {
            Some(a) => tab_fix(text@, line_idx as int) == Some(action_view(a)),
            None => tab_fix(text@, line_idx as int) is None,
        },
{
    let v = str_chars(text);
    let ls = split_lines(&v);
    if line_idx >= ls.len() {
        return None;
    }
    let line = &ls[line_idx];
    assert(line@ == lines_of(text@)[line_idx as int]);
    if !crate::text::contains_char(line.as_slice(), '\t') {
        return None;
    }
    let mut out: Vec<char> = Vec::new();
    let mut i: usize = 0;
    while i < line.len()
        invariant
            i <= line@.len(),
            out@ == tabs_replaced(line@.take(i as int)),
        decreases line.len() - i,
    {
        if line[i] == '\t' {
            out.push(' ');
            out.push(' ');
        } else {
            out.push(line[i]);
        }
        assert(line@.take(i + 1).drop_last() =~= line@.take(i as int));
        i += 1;
        assert(out@ =~= tabs_replaced(line@.take(i as int)));
    }
    assert(line@.take(i as int) =~= line@);
    proof {
        crate::text::lemma_lines_byte_len(text@);
    }
    let total = crate::text::str_byte_len(text);
    let blen = crate::text::byte_len_prefix(line.as_slice(), line.len());
    assert(line@.take(line@.len() as int) =~= line@);
    #[verifier::truncate]
    let l32 = line_idx as u32;
    #[verifier::truncate]
    let b32 = blen as u32;
    let ghost nt = out@;
    let range = Range { start: Position { line: l32, character: 0 }, end: Position { line: l32, character: b32 } };
    let mut edits: Vec<TextEdit> = Vec::new();
    edits.push(TextEdit { range, new_text: string_from_chars(&out) });
    let a = make_action("Convert tabs to spaces".to_owned(), edits, CodeActionKind::QuickFix, None);
    assert(edits_view(a.edits@) =~= seq![(range, nt)]);
    Some(a)
}

// ---------------------------------------------------------------------------
// Flow collections to block style
// ---------------------------------------------------------------------------

/// The diagnostic's range is the span (end column one past the span's end).
pub open spec fn span_matches(loc: Span, d: Range) -> bool {
    d.start.line == (if loc.start.line > 0 { loc.start.line - 1 } else { 0 })
        && d.start.character == loc.start.column
        && d.end.line == (if loc.end.line > 0 { loc.end.line - 1 } else { 0 })
        && d.end.character == loc.end.column + 1
}

/// `true` when the diagnostic's range is the node's span, its end one
/// column past the span's end.
pub fn span_matches_diag(loc: Span, diag: &Diagnostic) -> (r: bool)
    ensures
        r == span_matches(loc, diag.range),
{
    diag.range.start.line == loc.start.line.saturating_sub(1) && diag.range.start.character
        == loc.start.column && diag.range.end.line == loc.end.line.saturating_sub(1)
        && diag.range.end.character as u64 == loc.end.column as u64 + 1
}

/// A flow mapping (`mapping`) or flow sequence whose span matches `d`.
pub open spec fn flow_hit(n: Node, d: Range, mapping: bool) -> bool {
    match n {
        Node::Mapping { style, loc, .. } => mapping && style == CollectionStyle::Flow && span_matches(loc, d),
        Node::Sequence { style, loc, .. } => !mapping && style == CollectionStyle::Flow && span_matches(loc, d),
        _ => false,
    }
}

/// The first matching flow collection in a tree, depth first.
pub open spec fn flow_in_node(n: Node, d: Range, mapping: bool) -> Option<Node>
    decreases node_size(n), 0int,
{
    if flow_hit(n, d, mapping) {
        Some(n)
    } else {
        match n {
            Node::Mapping { entries, .. } => flow_in_pairs(entries@, d, mapping),
            Node::Sequence { items, .. } => flow_in_items(items@, d, mapping),
            _ => None,
        }
    }
}

pub open spec fn flow_in_pairs(es: Seq<(Node, Node)>, d: Range, mapping: bool) -> Option<Node>
    decreases pairs_size(es), 1int,
{
    if es.len() == 0 {
        None
    } else {
        proof {
            lemma_node_size_pos(es[es.len() - 1].0);
            lemma_node_size_pos(es[es.len() - 1].1);
        }
        match flow_in_pairs(es.subrange(0, es.len() - 1), d, mapping) {
            Some(r) => Some(r),
            None => match flow_in_node(es[es.len() - 1].0, d, mapping) {
                Some(r) => Some(r),
                None => flow_in_node(es[es.len() - 1].1, d, mapping),
            },
        }
    }
}

pub open spec fn flow_in_items(s: Seq<Node>, d: Range, mapping: bool) -> Option<Node>
    decreases nodes_size(s), 1int,
{
    if s.len() == 0 {
        None
    } else {
        proof {
            lemma_node_size_pos(s[s.len() - 1]);
        }
        match flow_in_items(s.subrange(0, s.len() - 1), d, mapping) {
            Some(r) => Some(r),
            None => flow_in_node(s[s.len() - 1], d, mapping),
        }
    }
}

pub open spec fn flow_in_docs(docs: Seq<Document>, d: Range, mapping: bool) -> Option<Node>
    decreases docs.len(),
{
    if docs.len() == 0 {
        None
    } else {
        match flow_in_docs(docs.drop_last(), d, mapping) {
            Some(r) => Some(r),
            None => flow_in_node(docs.last().root, d, mapping),
        }
    }
}

fn is_flow_hit(n: &Node, diag: &Diagnostic, mapping: bool) -> (r: bool)
    ensures
        r == flow_hit(*n, diag.range, mapping),
{
    match n {
        Node::Mapping { style, loc, .. } => mapping && *style == CollectionStyle::Flow && span_matches_diag(*loc, diag),
        Node::Sequence { style, loc, .. } => !mapping && *style == CollectionStyle::Flow && span_matches_diag(*loc, diag),
        _ => false,
    }
}

proof fn lemma_pairs_first(es: Seq<(Node, Node)>, i: int, d: Range, mapping: bool)
    requires
        0 <= i < es.len(),
        flow_in_pairs(es.take(i), d, mapping) is None,
    ensures
        flow_in_pairs(es.take(i + 1), d, mapping) is Some ==> flow_in_pairs(es, d, mapping) == flow_in_pairs(es.take(i + 1), d, mapping),
    decreases es.len() - i,
{
    assert(es.take(i + 1).subrange(0, i) =~= es.take(i));
    assert(es.take(i + 1)[i] == es[i]);
    if i < es.len() - 1 {
        let t = es.subrange(0, es.len() - 1);
        assert(t.take(i) =~= es.take(i));
        assert(t.take(i + 1) =~= es.take(i + 1));
        lemma_pairs_first(t, i, d, mapping);
    } else {
        assert(es.take(i + 1) =~= es);
    }
}

proof fn lemma_items_first(s: Seq<Node>, i: int, d: Range, mapping: bool)
    requires
        0 <= i < s.len(),
        flow_in_items(s.take(i), d, mapping) is None,
    ensures
        flow_in_items(s.take(i + 1), d, mapping) is Some ==> flow_in_items(s, d, mapping) == flow_in_items(s.take(i + 1), d, mapping),
    decreases s.len() - i,
{
    assert(s.take(i + 1).subrange(0, i) =~= s.take(i));
    assert(s.take(i + 1)[i] == s[i]);
    if i < s.len() - 1 {
        let t = s.subrange(0, s.len() - 1);
        assert(t.take(i) =~= s.take(i));
        assert(t.take(i + 1) =~= s.take(i + 1));
        lemma_items_first(t, i, d, mapping);
    } else {
        assert(s.take(i + 1) =~= s);
    }
}

/// Find the first flow mapping (or sequence) below a node whose span
/// matches the diagnostic.
pub fn find_flow_collection_in_node<'a>(n: &'a Node, diag: &Diagnostic, mapping: bool) -> (r: Option<&'a Node>)
    ensures
        match r {
            Some(m) => flow_in_node(*n, diag.range, mapping) == Some(*m),
            None => flow_in_node(*n, diag.range, mapping) is None,
        },
    decreases node_size(*n), 0int,
{
    if is_flow_hit(n, diag, mapping) {
        return Some(n);
    }
    let ghost d = diag.range;
    match n {
        Node::Mapping { entries, .. } => {
            let mut i: usize = 0;
            while i < entries.len()
                invariant
                    i <= entries@.len(),
                    d == diag.range,
                    pairs_size(entries@) < node_size(*n),
                    flow_in_node(*n, d, mapping) == flow_in_pairs(entries@, d, mapping),
                    flow_in_pairs(entries@.take(i as int), d, mapping) is None,
                decreases entries.len() - i,
            {
                proof {
                    lemma_pairs_size(entries@, i as int);
                    assert(entries@.take(i + 1).subrange(0, i as int) =~= entries@.take(i as int));
                    assert(entries@.take(i + 1)[i as int] == entries@[i as int]);
                }
                match find_flow_collection_in_node(&entries[i].0, diag, mapping) {
                    Some(x) => {
                        proof {
                            lemma_pairs_first(entries@, i as int, d, mapping);
                        }
                        return Some(x);
                    },
                    None => {},
                }
                match find_flow_collection_in_node(&entries[i].1, diag, mapping) {
                    Some(x) => {
                        proof {
                            lemma_pairs_first(entries@, i as int, d, mapping);
                        }
                        return Some(x);
                    },
                    None => {},
                }
                i += 1;
            }
            assert(entries@.take(i as int) =~= entries@);
            None
        },
        Node::Sequence { items, .. } => {
            let mut i: usize = 0;
            while i < items.len()
                invariant
                    i <= items@.len(),
                    d == diag.range,
                    nodes_size(items@) < node_size(*n),
                    flow_in_node(*n, d, mapping) == flow_in_items(items@, d, mapping),
                    flow_in_items(items@.take(i as int), d, mapping) is None,
                decreases items.len() - i,
            {
                proof {
                    lemma_nodes_size(items@, i as int);
                    assert(items@.take(i + 1).subrange(0, i as int) =~= items@.take(i as int));
                    assert(items@.take(i + 1)[i as int] == items@[i as int]);
                }
                match find_flow_collection_in_node(&items[i], diag, mapping) {
                    Some(x) => {
                        proof {
                            lemma_items_first(items@, i as int, d, mapping);
                        }
                        return Some(x);
                    },
                    None => {},
                }
                i += 1;
            }
            assert(items@.take(i as int) =~= items@);
            None
        },
        _ => None,
    }
}

proof fn lemma_docs_first(docs: Seq<Document>, i: int, d: Range, mapping: bool)
    requires
        0 <= i < docs.len(),
        flow_in_docs(docs.take(i), d, mapping) is None,
    ensures
        flow_in_node(docs[i].root, d, mapping) is Some ==> flow_in_docs(docs, d, mapping) == flow_in_node(docs[i].root, d, mapping),
    decreases docs.len() - i,
{
    if i == docs.len() - 1 {
        assert(docs.drop_last() =~= docs.take(i));
    } else {
        let t = docs.drop_last();
        assert(t.take(i) =~= docs.take(i));
        assert(t[i] == docs[i]);
        lemma_docs_first(t, i, d, mapping);
    }
}

/// Walk the documents to find the flow mapping (or sequence) whose span
/// matches the diagnostic range.
pub fn find_flow_collection<'a>(docs: &'a Vec<Document>, diag: &Diagnostic, mapping: bool) -> (r: Option<&'a Node>)
    ensures
        match r {
            Some(m) => flow_in_docs(docs@, diag.range, mapping) == Some(*m),
            None => flow_in_docs(docs@, diag.range, mapping) is None,
        },
{
    let mut i: usize = 0;
    while i < docs.len()
        invariant
            i <= docs@.len(),
            flow_in_docs(docs@.take(i as int), diag.range, mapping) is None,
        decreases docs.len() - i,
    {
        assert(docs@.take(i + 1).drop_last() =~= docs@.take(i as int));
        match find_flow_collection_in_node(&docs[i].root, diag, mapping) {
            Some(x) => {
                proof {
                    lemma_docs_first(docs@, i as int, diag.range, mapping);
                }
                return Some(x);
            },
            None => {},
        }
        i += 1;
    }
    assert(docs@.take(i as int) =~= docs@);
    None
}

/// How many characters of `s` fit in `b` bytes.
pub open spec fn fit_chars(s: Seq<char>, b: int) -> nat
    decreases s.len(),
{
    if s.len() == 0 || utf8_len(s[0]) > b {
        0
    } else {
        1 + fit_chars(s.drop_first(), b - utf8_len(s[0]))
    }
}

pub fn count_fitting_chars(v: &Vec<char>, b: usize) -> (r: usize)
    ensures
        r == fit_chars(v@, b as int),
        r <= v@.len(),
{
    let mut i: usize = 0;
    let mut left: usize = b;
    assert(v@.skip(0) =~= v@);
    while i < v.len() && crate::text::char_len_utf8(v[i]) <= left
        invariant
            i <= v@.len(),
            left <= b,
            fit_chars(v@, b as int) == i + fit_chars(v@.skip(i as int), left as int),
        decreases v.len() - i,
    {
        proof {
            assert(v@.skip(i as int)[0] == v@[i as int]);
            assert(v@.skip(i as int).drop_first() =~= v@.skip(i + 1));
        }
        left = left - crate::text::char_len_utf8(v[i]);
        i += 1;
    }
    proof {
        if i < v.len() {
            assert(v@.skip(i as int)[0] == v@[i as int]);
        } else {
            assert(v@.skip(i as int).len() == 0);
        }
    }
    i
}

/// Whether the node starts as a mapping value (the text before it on its
/// line ends with `:`), and the indentation of that line in bytes.
pub open spec fn after_colon(text: Seq<char>, loc: Span) -> (bool, nat) {
    let ls = lines_of(text);
    let li = if loc.start.line > 0 { loc.start.line - 1 } else { 0 };
    if li < ls.len() {
        let line = ls[li as int];
        let before = line.take(fit_chars(line, loc.start.column as int) as int);
        let t = crate::text::trim(before);
        (t.len() > 0 && t.last() == ':', byte_len(line.take(lead_ws(line) as int)))
    } else {
        (false, 0)
    }
}

/// `a + 2`, at most `usize::MAX`.
pub open spec fn plus_two(a: nat) -> nat {
    if a + 2 > usize::MAX {
        usize::MAX as nat
    } else {
        a + 2
    }
}

/// The placement of a block rendering of a flow collection at `loc`: a
/// mapping value moves to the next line, indented two columns from its
/// key's line (`(prefix, base)`); otherwise it stays in place.
pub open spec fn block_placement(text: Seq<char>, loc: Span) -> (Seq<char>, nat) {
    let (value, indent) = after_colon(text, loc);
    if value {
        (seq!['\n'] + spaces(plus_two(indent)), plus_two(indent))
    } else {
        (seq![], loc.start.column as nat)
    }
}

/// Computes where the block rendering of the node at `loc` goes: the text
/// before the printed subtree and the column it is placed at.
pub fn block_text_and_start_col(loc: Span, text: &str) -> (r: (Vec<char>, usize))
    ensures
        (r.0@, r.1 as nat) == block_placement(text@, loc),
{
    let v = str_chars(text);
    let ls = split_lines(&v);
    let li = loc.start.line.saturating_sub(1) as usize;
    if li < ls.len() {
        let line = &ls[li];
        assert(line@ == lines_of(text@)[li as int]);
        let k = count_fitting_chars(line, loc.start.column as usize);
        let before = crate::text::slice_range(line.as_slice(), 0, k);
        assert(before@ =~= line@.take(k as int));
        let (lo, hi) = crate::text::trim_bounds(before.as_slice());
        let ends_colon = hi > lo && before[hi - 1] == ':';
        proof {
            assert(crate::text::trim(before@) == before@.subrange(lo as int, hi as int));
        }
        if ends_colon {
            proof {
                crate::text::lemma_lines_byte_len(text@);
            }
            let total = crate::text::str_byte_len(text);
            let lw = leading_ws_count(line.as_slice());
            let ind = crate::text::byte_len_prefix(line.as_slice(), lw);
            let base = ind.saturating_add(2);
            let mut pre: Vec<char> = Vec::new();
            pre.push('\n');
            push_all(&mut pre, &spaces_vec(base));
            return (pre, base);
        }
    }
    (Vec::new(), loc.start.column as usize)
}


/// The node with its own collection style set to `style` (children as
/// they are).
pub open spec fn restyled(v: NodeV, style: CollectionStyle) -> NodeV {
    match v {
        NodeV::Mapping { entries, tag, loc, meta, .. } => NodeV::Mapping { entries, style, tag, loc, meta },
        NodeV::Sequence { items, tag, loc, meta, .. } => NodeV::Sequence { items, style, tag, loc, meta },
        _ => v,
    }
}

fn restyle(n: Node, style: CollectionStyle) -> (r: Node)
    ensures
        node_view(r) == restyled(node_view(n), style),
{
    match n {
        Node::Mapping { entries, tag, loc, meta, .. } => Node::Mapping { entries, style, tag, loc, meta },
        Node::Sequence { items, tag, loc, meta, .. } => Node::Sequence { items, style, tag, loc, meta },
        other => other,
    }
}

/// `(a + 1) as u32`.
pub open spec fn next_col(a: u32) -> u32 {
    (a + 1) as u32
}

/// The pending conversion of the flow mapping (or sequence) the diagnostic
/// points at to block style.
pub open spec fn flow_to_block_plan(docs: Seq<Document>, text: Seq<char>, d: (Range, Option<Seq<char>>), o: YamlFormatOptions, mapping: bool) -> Option<PendingView> {
    match flow_in_docs(docs, d.0, mapping) {
        None => None,
        Some(n) => {
            let loc = loc_of(n);
            let (prefix, base) = block_placement(text, loc);
            Some((
                if mapping { "Convert flow mapping to block style"@ } else { "Convert flow sequence to block style"@ },
                CodeActionKind::RefactorRewrite,
                Range {
                    start: Position { line: if loc.start.line > 0 { (loc.start.line - 1) as u32 } else { 0 }, character: loc.start.column },
                    end: Position { line: if loc.end.line > 0 { (loc.end.line - 1) as u32 } else { 0 }, character: next_col(loc.end.column) },
                },
                restyled(node_view(n), CollectionStyle::Block),
                o,
                base,
                prefix,
                seq![],
                Some(seq![d]),
            ))
        },
    }
}

fn flow_to_block(docs: &Vec<Document>, text: &str, diag: &Diagnostic, options: &YamlFormatOptions, mapping: bool) -> (r: Option<PendingEdit>)
    ensures
        match r {
            Some(p) => flow_to_block_plan(docs@, text@, diag_view(*diag), *options, mapping) == Some(pending_view(p)),
            None => flow_to_block_plan(docs@, text@, diag_view(*diag), *options, mapping) is None,
        },
{
    let node = match find_flow_collection(docs, diag, mapping) {
        Some(n) => n,
        None => {
            return None;
        },
    };
    let loc = node_loc(node);
    let block_node = restyle(clone_node(node), CollectionStyle::Block);
    let (prefix, base) = block_text_and_start_col(loc, text);
    let ec: u32 = loc.end.column;
    #[verifier::truncate]
    let end_col = (ec as u64 + 1) as u32;
    let range = Range {
        start: Position { line: loc.start.line.saturating_sub(1), character: loc.start.column },
        end: Position { line: loc.end.line.saturating_sub(1), character: end_col },
    };
    assert(end_col == ((ec + 1) as u32)) by (bit_vector)
        requires
            end_col == ((ec as u64 + 1) as u32),
    ;
    let title = if mapping {
        "Convert flow mapping to block style"
    } else {
        "Convert flow sequence to block style"
    };
    let d = copy_diagnostic(diag);
    let ghost dv = diag_view(d);
    let mut ds: Vec<Diagnostic> = Vec::new();
    ds.push(d);
    assert(ds@.map_values(|x: Diagnostic| diag_view(x)) =~= seq![dv]);
    Some(PendingEdit {
        title: title.to_owned(),
        kind: CodeActionKind::RefactorRewrite,
        range,
        node: block_node,
        options: *options,
        base_indent: base,
        prefix: string_from_chars(&prefix),
        suffix: String::new(),
        diagnostics: Some(ds),
    })
}

/// Convert the flow mapping a `flowMap` diagnostic points at to block style.
pub fn flow_map_to_block(docs: &Vec<Document>, text: &str, diag: &Diagnostic, options: &YamlFormatOptions) -> (r: Option<PendingEdit>)
    ensures
        match r {
            Some(p) => flow_to_block_plan(docs@, text@, diag_view(*diag), *options, true) == Some(pending_view(p)),
            None => flow_to_block_plan(docs@, text@, diag_view(*diag), *options, true) is None,
        },
{
    flow_to_block(docs, text, diag, options, true)
}

/// Convert the flow sequence a `flowSeq` diagnostic points at to block style.
pub fn flow_seq_to_block(docs: &Vec<Document>, text: &str, diag: &Diagnostic, options: &YamlFormatOptions) -> (r: Option<PendingEdit>)
    ensures
        match r {
            Some(p) => flow_to_block_plan(docs@, text@, diag_view(*diag), *options, false) == Some(pending_view(p)),
            None => flow_to_block_plan(docs@, text@, diag_view(*diag), *options, false) is None,
        },
{
    flow_to_block(docs, text, diag, options, false)
}


// ---------------------------------------------------------------------------
// Block collections to flow style
// ---------------------------------------------------------------------------

/// `b` when it holds a value, else `a`.
pub open spec fn later<T>(a: Option<T>, b: Option<T>) -> Option<T> {
    if b is Some {
        b
    } else {
        a
    }
}

/// A block mapping or block sequence.
pub open spec fn is_block_coll(n: Node) -> bool {
    match n {
        Node::Mapping { style, .. } => style == CollectionStyle::Block,
        Node::Sequence { style, .. } => style == CollectionStyle::Block,
        _ => false,
    }
}

/// The last block collection in a tree (depth first) that is the value of
/// a key starting on `line`, with the key's span.
pub open spec fn innermost_in_node(n: Node, line: int) -> Option<(Node, Span)>
    decreases node_size(n), 0int,
{
    match n {
        Node::Mapping { entries, .. } => innermost_in_pairs(entries@, line),
        Node::Sequence { items, .. } => innermost_in_items(items@, line),
        _ => None,
    }
}

pub open spec fn innermost_in_pairs(es: Seq<(Node, Node)>, line: int) -> Option<(Node, Span)>
    decreases pairs_size(es), 1int,
{
    if es.len() == 0 {
        None
    } else {
        proof {
            lemma_node_size_pos(es[es.len() - 1].0);
            lemma_node_size_pos(es[es.len() - 1].1);
        }
        let k = es[es.len() - 1].0;
        let v = es[es.len() - 1].1;
        let h = if loc_of(k).start.line == line && is_block_coll(v) {
            Some((v, loc_of(k)))
        } else {
            None
        };
        later(later(later(innermost_in_pairs(es.subrange(0, es.len() - 1), line), h), innermost_in_node(k, line)), innermost_in_node(v, line))
    }
}

pub open spec fn innermost_in_items(s: Seq<Node>, line: int) -> Option<(Node, Span)>
    decreases nodes_size(s), 1int,
{
    if s.len() == 0 {
        None
    } else {
        proof {
            lemma_node_size_pos(s[s.len() - 1]);
        }
        later(innermost_in_items(s.subrange(0, s.len() - 1), line), innermost_in_node(s[s.len() - 1], line))
    }
}

pub open spec fn innermost_in_docs(docs: Seq<Document>, line: int) -> Option<(Node, Span)>
    decreases docs.len(),
{
    if docs.len() == 0 {
        None
    } else {
        later(innermost_in_docs(docs.drop_last(), line), innermost_in_node(docs.last().root, line))
    }
}

fn later_of<'a>(a: Option<(&'a Node, Span)>, b: Option<(&'a Node, Span)>) -> (r: Option<(&'a Node, Span)>)
    ensures
        r == later(a, b),
{
    if b.is_some() {
        b
    } else {
        a
    }
}

pub open spec fn opt_pair(o: Option<(&Node, Span)>) -> Option<(Node, Span)> {
    match o {
        Some((n, s)) => Some((*n, s)),
        None => None,
    }
}

/// The last block collection below a node that is the value of a key on
/// `line` (1-based).
pub fn find_innermost_block_in_node(n: &Node, line: u64) -> (r: Option<(&Node, Span)>)
    ensures
        opt_pair(r) == innermost_in_node(*n, line as int),
    decreases node_size(*n), 0int,
{
    match n {
        Node::Mapping { entries, .. } => {
            let mut best: Option<(&Node, Span)> = None;
            let mut i: usize = 0;
            while i < entries.len()
                invariant
                    i <= entries@.len(),
                    pairs_size(entries@) < node_size(*n),
                    n matches Node::Mapping { entries: e, .. } && e == entries,
                    opt_pair(best) == innermost_in_pairs(entries@.take(i as int), line as int),
                decreases entries.len() - i,
            {
                proof {
                    lemma_pairs_size(entries@, i as int);
                    assert(entries@.take(i + 1).subrange(0, i as int) =~= entries@.take(i as int));
                    assert(entries@.take(i + 1)[i as int] == entries@[i as int]);
                }
                let k = &entries[i].0;
                let v = &entries[i].1;
                let kloc = node_loc(k);
                let vb = match v {
                    Node::Mapping { style, .. } => *style == CollectionStyle::Block,
                    Node::Sequence { style, .. } => *style == CollectionStyle::Block,
                    _ => false,
                };
                let h: Option<(&Node, Span)> = if kloc.start.line as u64 == line && vb {
                    Some((v, kloc))
                } else {
                    None
                };
                best = later_of(best, h);
                best = later_of(best, find_innermost_block_in_node(k, line));
                best = later_of(best, find_innermost_block_in_node(v, line));
                i += 1;
            }
            assert(entries@.take(i as int) =~= entries@);
            best
        },
        Node::Sequence { items, .. } => {
            let mut best: Option<(&Node, Span)> = None;
            let mut i: usize = 0;
            while i < items.len()
                invariant
                    i <= items@.len(),
                    nodes_size(items@) < node_size(*n),
                    n matches Node::Sequence { items: e, .. } && e == items,
                    opt_pair(best) == innermost_in_items(items@.take(i as int), line as int),
                decreases items.len() - i,
            {
                proof {
                    lemma_nodes_size(items@, i as int);
                    assert(items@.take(i + 1).subrange(0, i as int) =~= items@.take(i as int));
                    assert(items@.take(i + 1)[i as int] == items@[i as int]);
                }
                best = later_of(best, find_innermost_block_in_node(&items[i], line));
                i += 1;
            }
            assert(items@.take(i as int) =~= items@);
            best
        },
        _ => None,
    }
}

/// The last block collection over the documents that is the value of a key
/// on `line` (1-based).
pub fn find_innermost_block_collection(docs: &Vec<Document>, line: u64) -> (r: Option<(&Node, Span)>)
    ensures
        opt_pair(r) == innermost_in_docs(docs@, line as int),
{
    let mut best: Option<(&Node, Span)> = None;
    let mut i: usize = 0;
    while i < docs.len()
        invariant
            i <= docs@.len(),
            opt_pair(best) == innermost_in_docs(docs@.take(i as int), line as int),
        decreases docs.len() - i,
    {
        assert(docs@.take(i + 1).drop_last() =~= docs@.take(i as int));
        best = later_of(best, find_innermost_block_in_node(&docs[i].root, line));
        i += 1;
    }
    assert(docs@.take(i as int) =~= docs@);
    best
}

/// The node with every collection in it set to flow style.
pub open spec fn flow_v(v: NodeV) -> NodeV
    decreases v,
{
    match v {
        NodeV::Mapping { entries, tag, loc, meta, .. } => NodeV::Mapping {
            entries: flow_pairs(entries),
            style: CollectionStyle::Flow,
            tag,
            loc,
            meta,
        },
        NodeV::Sequence { items, tag, loc, meta, .. } => NodeV::Sequence {
            items: flow_items(items),
            style: CollectionStyle::Flow,
            tag,
            loc,
            meta,
        },
        _ => v,
    }
}

pub open spec fn flow_pairs(es: Seq<(NodeV, NodeV)>) -> Seq<(NodeV, NodeV)>
    decreases es,
{
    if es.len() == 0 {
        seq![]
    } else {
        flow_pairs(es.subrange(0, es.len() - 1)).push((flow_v(es[es.len() - 1].0), flow_v(es[es.len() - 1].1)))
    }
}

pub open spec fn flow_items(s: Seq<NodeV>) -> Seq<NodeV>
    decreases s,
{
    if s.len() == 0 {
        seq![]
    } else {
        flow_items(s.subrange(0, s.len() - 1)).push(flow_v(s[s.len() - 1]))
    }
}

/// Every collection in the node is in flow style.
pub open spec fn all_flow(v: NodeV) -> bool
    decreases v,
{
    match v {
        NodeV::Mapping { entries, style, .. } => style == CollectionStyle::Flow && pairs_all_flow(entries),
        NodeV::Sequence { items, style, .. } => style == CollectionStyle::Flow && items_all_flow(items),
        _ => true,
    }
}

pub open spec fn pairs_all_flow(es: Seq<(NodeV, NodeV)>) -> bool
    decreases es,
{
    if es.len() == 0 {
        true
    } else {
        pairs_all_flow(es.subrange(0, es.len() - 1)) && all_flow(es[es.len() - 1].0) && all_flow(
            es[es.len() - 1].1,
        )
    }
}

pub open spec fn items_all_flow(s: Seq<NodeV>) -> bool
    decreases s,
{
    if s.len() == 0 {
        true
    } else {
        items_all_flow(s.subrange(0, s.len() - 1)) && all_flow(s[s.len() - 1])
    }
}

proof fn lemma_flow_pairs(es: Seq<(NodeV, NodeV)>)
    ensures
        flow_pairs(es).len() == es.len(),
        pairs_all_flow(flow_pairs(es)),
        flow_pairs(flow_pairs(es)) == flow_pairs(es),
    decreases es,
{
    if es.len() > 0 {
        let pre = es.subrange(0, es.len() - 1);
        let last = es[es.len() - 1];
        lemma_flow_pairs(pre);
        law_flip_sets_all_flow(last.0);
        law_flip_sets_all_flow(last.1);
        let f = flow_pairs(es);
        assert(f.subrange(0, f.len() - 1) =~= flow_pairs(pre));
    }
}

proof fn lemma_flow_items(s: Seq<NodeV>)
    ensures
        flow_items(s).len() == s.len(),
        items_all_flow(flow_items(s)),
        flow_items(flow_items(s)) == flow_items(s),
    decreases s,
{
    if s.len() > 0 {
        let pre = s.subrange(0, s.len() - 1);
        lemma_flow_items(pre);
        law_flip_sets_all_flow(s[s.len() - 1]);
        let f = flow_items(s);
        assert(f.subrange(0, f.len() - 1) =~= flow_items(pre));
    }
}

/// Converting to flow style sets every mapping and sequence of the subtree
/// to flow style, and converting again changes nothing.
pub proof fn law_flip_sets_all_flow(v: NodeV)
    ensures
        all_flow(flow_v(v)),
        flow_v(flow_v(v)) == flow_v(v),
    decreases v,
{
    match v {
        NodeV::Mapping { entries, .. } => lemma_flow_pairs(entries),
        NodeV::Sequence { items, .. } => lemma_flow_items(items),
        _ => {},
    }
}

/// A copy of the node with every collection set to flow style.
pub fn flip_to_flow(n: &Node) -> (r: Node)
    ensures
        node_view(r) == flow_v(node_view(*n)),
    decreases node_size(*n),
{
    match n {
        Node::Mapping { entries, tag, loc, meta, .. } => {
            let mut out: Vec<(Node, Node)> = Vec::new();
            let mut i: usize = 0;
            proof {
                lemma_pairs_view(entries@);
            }
            while i < entries.len()
                invariant
                    i <= entries@.len(),
                    pairs_size(entries@) < node_size(*n),
                    pairs_view(entries@).len() == entries@.len(),
                    forall|q: int| 0 <= q < entries@.len() ==> #[trigger] pairs_view(entries@)[q] == (node_view(entries@[q].0), node_view(entries@[q].1)),
                    pairs_view(out@) == flow_pairs(pairs_view(entries@).take(i as int)),
                decreases entries.len() - i,
            {
                proof {
                    lemma_pairs_size(entries@, i as int);
                }
                let k = flip_to_flow(&entries[i].0);
                let v = flip_to_flow(&entries[i].1);
                let ghost o = out@;
                out.push((k, v));
                proof {
                    assert(out@.subrange(0, out@.len() - 1) =~= o);
                    let pv = pairs_view(entries@);
                    assert(pv.take(i + 1).subrange(0, i as int) =~= pv.take(i as int));
                    assert(pv.take(i + 1)[i as int] == pv[i as int]);
                }
                i += 1;
            }
            assert(pairs_view(entries@).take(i as int) =~= pairs_view(entries@));
            Node::Mapping {
                entries: out,
                style: CollectionStyle::Flow,
                tag: crate::dedup::clone_opt_string(tag),
                loc: *loc,
                meta: crate::dedup::clone_meta(meta),
            }
        },
        Node::Sequence { items, tag, loc, meta, .. } => {
            let mut out: Vec<Node> = Vec::new();
            let mut i: usize = 0;
            proof {
                lemma_nodes_view(items@);
            }
            while i < items.len()
                invariant
                    i <= items@.len(),
                    nodes_size(items@) < node_size(*n),
                    nodes_view(items@).len() == items@.len(),
                    forall|q: int| 0 <= q < items@.len() ==> #[trigger] nodes_view(items@)[q] == node_view(items@[q]),
                    nodes_view(out@) == flow_items(nodes_view(items@).take(i as int)),
                decreases items.len() - i,
            {
                proof {
                    lemma_nodes_size(items@, i as int);
                }
                let c = flip_to_flow(&items[i]);
                let ghost o = out@;
                out.push(c);
                proof {
                    assert(out@.subrange(0, out@.len() - 1) =~= o);
                    let nv = nodes_view(items@);
                    assert(nv.take(i + 1).subrange(0, i as int) =~= nv.take(i as int));
                    assert(nv.take(i + 1)[i as int] == nv[i as int]);
                }
                i += 1;
            }
            assert(nodes_view(items@).take(i as int) =~= nodes_view(items@));
            Node::Sequence {
                items: out,
                style: CollectionStyle::Flow,
                tag: crate::dedup::clone_opt_string(tag),
                loc: *loc,
                meta: crate::dedup::clone_meta(meta),
            }
        },
        _ => clone_node(n),
    }
}

/// The pending conversion of the block collection under the cursor line to
/// flow style: replaced from just after the key's end to the collection's
/// end by ` ` + the printed flow form + a line break.
pub open spec fn block_to_flow_plan(docs: Seq<Document>, line_idx: int, o: YamlFormatOptions) -> Option<PendingView> {
    if o.format_enforce_block_style {
        None
    } else {
        match innermost_in_docs(docs, line_idx + 1) {
            None => None,
            Some((n, key_loc)) => {
                let loc = loc_of(n);
                if loc.start.line <= key_loc.start.line {
                    None
                } else {
                    Some((
                        "Convert block to flow style"@,
                        CodeActionKind::RefactorRewrite,
                        Range {
                            start: Position { line: if key_loc.start.line > 0 { (key_loc.start.line - 1) as u32 } else { 0 }, character: next_col(key_loc.end.column) },
                            end: Position { line: if loc.end.line > 0 { (loc.end.line - 1) as u32 } else { 0 }, character: loc.end.column },
                        },
                        flow_v(node_view(n)),
                        o,
                        plus_two(key_loc.start.column as nat),
                        seq![' '],
                        seq!['\n'],
                        None,
                    ))
                }
            },
        }
    }
}

/// Offer to convert the block collection that is the value of a key on the
/// cursor line to flow style.
pub fn block_to_flow(docs: &Vec<Document>, line_idx: usize, options: &YamlFormatOptions) -> (r: Option<PendingEdit>)
    requires
        line_idx < usize::MAX,
    ensures
        match r {
            Some(p) => block_to_flow_plan(docs@, line_idx as int, *options) == Some(pending_view(p)),
            None => block_to_flow_plan(docs@, line_idx as int, *options) is None,
        },
{
    if options.format_enforce_block_style {
        return None;
    }
    let (node, key_loc) = match find_innermost_block_collection(docs, line_idx as u64 + 1) {
        Some(x) => x,
        None => {
            return None;
        },
    };
    let loc = node_loc(node);
    if loc.start.line <= key_loc.start.line {
        return None;
    }
    let flow = flip_to_flow(node);
    let base = (key_loc.start.column as usize).saturating_add(2);
    let ec: u32 = key_loc.end.column;
    #[verifier::truncate]
    let start_col = (ec as u64 + 1) as u32;
    assert(start_col == ((ec + 1) as u32)) by (bit_vector)
        requires
            start_col == ((ec as u64 + 1) as u32),
    ;
    let range = Range {
        start: Position { line: key_loc.start.line.saturating_sub(1), character: start_col },
        end: Position { line: loc.end.line.saturating_sub(1), character: loc.end.column },
    };
    let mut pre_v: Vec<char> = Vec::new();
    pre_v.push(' ');
    let mut suf_v: Vec<char> = Vec::new();
    suf_v.push('\n');
    let pre = string_from_chars(&pre_v);
    let suf = string_from_chars(&suf_v);
    assert(pre@ =~= seq![' ']);
    assert(suf@ =~= seq!['\n']);
    Some(PendingEdit {
        title: "Convert block to flow style".to_owned(),
        kind: CodeActionKind::RefactorRewrite,
        range,
        node: flow,
        options: *options,
        base_indent: base,
        prefix: pre,
        suffix: suf,
        diagnostics: None,
    })
}

} // verus!
