//! The refactoring that rewrites a long flow scalar as a block scalar
//! (`|` literal or `>` folded).
use vstd::prelude::*;

use crate::ast::{
    lemma_node_size_pos, lemma_nodes_size, lemma_pairs_size, loc_of, node_loc, node_size,
    nodes_size, pairs_size, Chomp, CollectionStyle, Document, Node, ScalarStyle, Span,
};
use crate::dedup::{node_view, NodeV};
use crate::lsp::{span_to_lsp, CodeActionKind, Range};
use crate::format_options::YamlFormatOptions;
use crate::pending_edit::{pending_view, pendings_view, PendingEdit, PendingView};
use crate::scalar_actions::{scalar_value, scalar_value_of, span_range};
use crate::text::str_chars;

verus! {

/// Scalars shorter than this many characters are not offered the rewrite.
pub const MIN_BLOCK_SCALAR_CHARS: usize = 40;

/// A flow scalar style (plain or quoted).
pub open spec fn flow_scalar_style(s: ScalarStyle) -> bool {
    s == ScalarStyle::Plain || s == ScalarStyle::SingleQuoted || s == ScalarStyle::DoubleQuoted
}

/// A flow scalar starting on `line` (1-based) with at least
/// `MIN_BLOCK_SCALAR_CHARS` characters.
pub open spec fn long_flow_scalar(n: Node, line: int) -> bool {
    match n {
        Node::Scalar { style, value, loc, .. } => loc.start.line == line && flow_scalar_style(style)
            && value@.len() >= MIN_BLOCK_SCALAR_CHARS,
        _ => false,
    }
}

/// `a - 2`, at least 0.
pub open spec fn minus_two(a: int) -> int {
    if a >= 2 {
        a - 2
    } else {
        0
    }
}

/// The first candidate in a tree, depth first: a long flow scalar that is a
/// value of a block mapping (indented from its key's column) or an item of a
/// block sequence (indented from two columns before it).
pub open spec fn candidate_in_node(n: Node, line: int) -> Option<(Node, int)>
    decreases node_size(n), 0int,
{
    match n {
        Node::Mapping { entries, style, .. } => candidate_in_pairs(entries@, line, style == CollectionStyle::Block),
        Node::Sequence { items, style, .. } => candidate_in_items(items@, line, style == CollectionStyle::Block),
        _ => None,
    }
}

pub open spec fn candidate_in_pairs(es: Seq<(Node, Node)>, line: int, block: bool) -> Option<(Node, int)>
    decreases pairs_size(es), 1int,
{
    if es.len() == 0 {
        None
    } else {
        proof {
            lemma_node_size_pos(es[es.len() - 1].0);
            lemma_node_size_pos(es[es.len() - 1].1);
        }
        match candidate_in_pairs(es.subrange(0, es.len() - 1), line, block) {
            Some(r) => Some(r),
            None => {
                let k = es[es.len() - 1].0;
                let v = es[es.len() - 1].1;
                if block && long_flow_scalar(v, line) {
                    Some((v, loc_of(k).start.column as int))
                } else {
                    match candidate_in_node(k, line) {
                        Some(r) => Some(r),
                        None => candidate_in_node(v, line),
                    }
                }
            },
        }
    }
}

pub open spec fn candidate_in_items(s: Seq<Node>, line: int, block: bool) -> Option<(Node, int)>
    decreases nodes_size(s), 1int,
{
    if s.len() == 0 {
        None
    } else {
        proof {
            lemma_node_size_pos(s[s.len() - 1]);
        }
        match candidate_in_items(s.subrange(0, s.len() - 1), line, block) {
            Some(r) => Some(r),
            None => {
                let it = s[s.len() - 1];
                if block && long_flow_scalar(it, line) {
                    Some((it, minus_two(loc_of(it).start.column as int)))
                } else {
                    candidate_in_node(it, line)
                }
            },
        }
    }
}

pub open spec fn candidate_in_docs(docs: Seq<Document>, line: int) -> Option<(Node, int)>
    decreases docs.len(),
{
    if docs.len() == 0 {
        None
    } else {
        match candidate_in_docs(docs.drop_last(), line) {
            Some(r) => Some(r),
            None => candidate_in_node(docs.last().root, line),
        }
    }
}

fn is_long_flow_scalar(n: &Node, line: u64) -> (r: bool)
    ensures
        r == long_flow_scalar(*n, line as int),
{
    match n {
        Node::Scalar { style, value, loc, .. } => {
            let flow = match style {
                ScalarStyle::Plain | ScalarStyle::SingleQuoted | ScalarStyle::DoubleQuoted => true,
                _ => false,
            };
            loc.start.line as u64 == line && flow && str_chars(value.as_str()).len() >= MIN_BLOCK_SCALAR_CHARS
        },
        _ => false,
    }
}

proof fn lemma_pairs_first(es: Seq<(Node, Node)>, i: int, line: int, block: bool)
    requires
        0 <= i < es.len(),
        candidate_in_pairs(es.take(i), line, block) is None,
    ensures
        candidate_in_pairs(es.take(i + 1), line, block) is Some ==> candidate_in_pairs(es, line, block) == candidate_in_pairs(es.take(i + 1), line, block),
    decreases es.len() - i,
{
    assert(es.take(i + 1).subrange(0, i) =~= es.take(i));
    assert(es.take(i + 1)[i] == es[i]);
    if i < es.len() - 1 {
        let t = es.subrange(0, es.len() - 1);
        assert(t.take(i) =~= es.take(i));
        assert(t.take(i + 1) =~= es.take(i + 1));
        lemma_pairs_first(t, i, line, block);
    } else {
        assert(es.take(i + 1) =~= es);
    }
}

proof fn lemma_items_first(s: Seq<Node>, i: int, line: int, block: bool)
    requires
        0 <= i < s.len(),
        candidate_in_items(s.take(i), line, block) is None,
    ensures
        candidate_in_items(s.take(i + 1), line, block) is Some ==> candidate_in_items(s, line, block) == candidate_in_items(s.take(i + 1), line, block),
    decreases s.len() - i,
{
    assert(s.take(i + 1).subrange(0, i) =~= s.take(i));
    assert(s.take(i + 1)[i] == s[i]);
    if i < s.len() - 1 {
        let t = s.subrange(0, s.len() - 1);
        assert(t.take(i) =~= s.take(i));
        assert(t.take(i + 1) =~= s.take(i + 1));
        lemma_items_first(t, i, line, block);
    } else {
        assert(s.take(i + 1) =~= s);
    }
}

/// Find the first block scalar candidate below a node, with the column the
/// block scalar's content is indented from.
pub fn find_block_scalar_in_node(n: &Node, line: u64) -> (r: Option<(&Node, usize)>)
    ensures
        match r {
            Some((m, c)) => candidate_in_node(*n, line as int) == Some((*m, c as int)),
            None => candidate_in_node(*n, line as int) is None,
        },
    decreases node_size(*n), 0int,
{
    match n {
        Node::Mapping { entries, style, .. } => {
            let block = match style {
                CollectionStyle::Block => true,
                CollectionStyle::Flow => false,
            };
            let mut i: usize = 0;
            while i < entries.len()
                invariant
                    i <= entries@.len(),
                    pairs_size(entries@) < node_size(*n),
                    candidate_in_node(*n, line as int) == candidate_in_pairs(entries@, line as int, block),
                    candidate_in_pairs(entries@.take(i as int), line as int, block) is None,
                decreases entries.len() - i,
            {
                proof {
                    lemma_pairs_size(entries@, i as int);
                    assert(entries@.take(i + 1).subrange(0, i as int) =~= entries@.take(i as int));
                    assert(entries@.take(i + 1)[i as int] == entries@[i as int]);
                }
                let k = &entries[i].0;
                let v = &entries[i].1;
                if block && is_long_flow_scalar(v, line) {
                    proof {
                        lemma_pairs_first(entries@, i as int, line as int, block);
                    }
                    return Some((v, node_loc(k).start.column as usize));
                }
                match find_block_scalar_in_node(k, line) {
                    Some(x) => {
                        proof {
                            lemma_pairs_first(entries@, i as int, line as int, block);
                        }
                        return Some(x);
                    },
                    None => {},
                }
                match find_block_scalar_in_node(v, line) {
                    Some(x) => {
                        proof {
                            lemma_pairs_first(entries@, i as int, line as int, block);
                        }
                        return Some(x);
                    },
                    None => {},
                }
                i += 1;
            }
            assert(entries@.take(i as int) =~= entries@);
            None
        },
        Node::Sequence { items, style, .. } => {
            let block = match style {
                CollectionStyle::Block => true,
                CollectionStyle::Flow => false,
            };
            let mut i: usize = 0;
            while i < items.len()
                invariant
                    i <= items@.len(),
                    nodes_size(items@) < node_size(*n),
                    candidate_in_node(*n, line as int) == candidate_in_items(items@, line as int, block),
                    candidate_in_items(items@.take(i as int), line as int, block) is None,
                decreases items.len() - i,
            {
                proof {
                    lemma_nodes_size(items@, i as int);
                    assert(items@.take(i + 1).subrange(0, i as int) =~= items@.take(i as int));
                    assert(items@.take(i + 1)[i as int] == items@[i as int]);
                }
                let it = &items[i];
                if block && is_long_flow_scalar(it, line) {
                    proof {
                        lemma_items_first(items@, i as int, line as int, block);
                    }
                    return Some((it, (node_loc(it).start.column as usize).saturating_sub(2)));
                }
                match find_block_scalar_in_node(it, line) {
                    Some(x) => {
                        proof {
                            lemma_items_first(items@, i as int, line as int, block);
                        }
                        return Some(x);
                    },
                    None => {},
                }
                i += 1;
            }
            assert(items@.take(i as int) =~= items@);
            None
        },
        _ => None,
    }
}

proof fn lemma_docs_first(docs: Seq<Document>, i: int, line: int)
    requires
        0 <= i < docs.len(),
        candidate_in_docs(docs.take(i), line) is None,
    ensures
        candidate_in_node(docs[i].root, line) is Some ==> candidate_in_docs(docs, line) == candidate_in_node(docs[i].root, line),
    decreases docs.len() - i,
{
    if i == docs.len() - 1 {
        assert(docs.drop_last() =~= docs.take(i));
    } else {
        let t = docs.drop_last();
        assert(t.take(i) =~= docs.take(i));
        assert(t[i] == docs[i]);
        lemma_docs_first(t, i, line);
    }
}

/// Walk the documents to find a qualifying scalar on the given parser line
/// (1-based).
pub fn find_block_scalar_candidate(docs: &Vec<Document>, line: u64) -> (r: Option<(&Node, usize)>)
    ensures
        match r {
            Some((m, c)) => candidate_in_docs(docs@, line as int) == Some((*m, c as int)),
            None => candidate_in_docs(docs@, line as int) is None,
        },
{
    let mut i: usize = 0;
    while i < docs.len()
        invariant
            i <= docs@.len(),
            candidate_in_docs(docs@.take(i as int), line as int) is None,
        decreases docs.len() - i,
    {
        assert(docs@.take(i + 1).drop_last() =~= docs@.take(i as int));
        match find_block_scalar_in_node(&docs[i].root, line) {
            Some(x) => {
                proof {
                    lemma_docs_first(docs@, i as int, line as int);
                }
                return Some(x);
            },
            None => {},
        }
        i += 1;
    }
    assert(docs@.take(i as int) =~= docs@);
    None
}

/// The pending rewrite of the candidate `n` into block style `style`.
pub open spec fn block_plan(n: Node, base: int, style: ScalarStyle, title: Seq<char>, o: YamlFormatOptions) -> PendingView {
    (
        title,
        CodeActionKind::RefactorRewrite,
        span_range(loc_of(n)),
        NodeV::Scalar { value: scalar_value(n), style, tag: None, loc: loc_of(n), meta: None },
        o,
        base as nat,
        seq![],
        seq![],
        None,
    )
}

/// The block scalar rewrites offered on the cursor line `line_idx`
/// (0-based): literal then folded, for the first candidate found.
pub open spec fn block_scalar_plans(docs: Seq<Document>, line_idx: int, o: YamlFormatOptions) -> Seq<PendingView> {
    match candidate_in_docs(docs, line_idx + 1) {
        None => seq![],
        Some((n, base)) => seq![
            block_plan(n, base, ScalarStyle::Literal(Chomp::Clip), "Convert to block scalar (literal)"@, o),
            block_plan(n, base, ScalarStyle::Folded(Chomp::Clip), "Convert to block scalar (folded)"@, o),
        ],
    }
}

fn block_rewrite(n: &Node, base: usize, style: ScalarStyle, title: &str, options: &YamlFormatOptions) -> (r: PendingEdit)
    ensures
        pending_view(r) == block_plan(*n, base as int, style, title@, *options),
{
    let loc = node_loc(n);
    let node = Node::Scalar { value: scalar_value_of(n), style, tag: None, loc, meta: None };
    let r = PendingEdit {
        title: title.to_owned(),
        kind: CodeActionKind::RefactorRewrite,
        range: span_to_lsp(loc),
        node,
        options: *options,
        base_indent: base,
        prefix: String::new(),
        suffix: String::new(),
        diagnostics: None,
    };
    assert(crate::dedup::meta_view(None) is None);
    r
}

/// Offer to rewrite a long flow scalar on the cursor line as a block scalar:
/// the literal and the folded rewrite, each waiting for its subtree to be
/// printed (an action whose text comes out blank is then dropped).
pub fn string_to_block_scalar(docs: &Vec<Document>, line_idx: usize, options: &YamlFormatOptions) -> (r: Vec<PendingEdit>)
    requires
        line_idx < usize::MAX,
    ensures
        pendings_view(r@) == block_scalar_plans(docs@, line_idx as int, *options),
{
    let mut out: Vec<PendingEdit> = Vec::new();
    let line: u64 = line_idx as u64 + 1;
    match find_block_scalar_candidate(docs, line) {
        None => {},
        Some((n, base)) => {
            out.push(block_rewrite(n, base, ScalarStyle::Literal(Chomp::Clip), "Convert to block scalar (literal)", options));
            out.push(block_rewrite(n, base, ScalarStyle::Folded(Chomp::Clip), "Convert to block scalar (folded)", options));
        },
    }
    assert(pendings_view(out@) =~= block_scalar_plans(docs@, line_idx as int, *options));
    out
}


/// A scalar written in flow style (plain, single- or double-quoted) with at
/// least `MIN_BLOCK_SCALAR_CHARS` characters, starting on line `line`.
pub open spec fn long_quoted_or_plain(n: Node, line: int) -> bool {
    n matches Node::Scalar { style, value, loc, .. } && (style == ScalarStyle::Plain || style
        == ScalarStyle::SingleQuoted || style == ScalarStyle::DoubleQuoted) && value@.len() >= MIN_BLOCK_SCALAR_CHARS
        && loc.start.line == line
}

/// A scalar that starts on another line than `line`.
pub open spec fn scalar_off_line(n: Node, line: int) -> bool {
    n is Scalar && loc_of(n).start.line != line
}

proof fn lemma_prefix_no_candidate(es: Seq<(Node, Node)>, n: int, line: int)
    requires
        0 <= n <= es.len(),
        forall|j: int| 0 <= j < n ==> scalar_off_line(#[trigger] es[j].0, line) && scalar_off_line(es[j].1, line),
    ensures
        candidate_in_pairs(es.take(n), line, true) is None,
    decreases n,
{
    if n > 0 {
        lemma_prefix_no_candidate(es, n - 1, line);
        let t = es.take(n);
        assert(t.subrange(0, n - 1) =~= es.take(n - 1));
        assert(t[n - 1] == es[n - 1]);
        assert(scalar_off_line(es[n - 1].0, line) && scalar_off_line(es[n - 1].1, line));
        assert(!long_flow_scalar(es[n - 1].1, line));
        assert(candidate_in_node(es[n - 1].0, line) is None);
        assert(candidate_in_node(es[n - 1].1, line) is None);
    } else {
        assert(es.take(0).len() == 0);
    }
}

/// In a block mapping, a long value scalar on the cursor's line is offered
/// both block-scalar rewrites whatever its flow style, plain or quoted:
/// when the entries before it are scalars on other lines, the rewrites
/// (literal, then folded) replace that value, its content indented from
/// its key's column.
pub proof fn law_long_values_offered_block_scalar(
    entries: Seq<(Node, Node)>,
    i: int,
    doc: Document,
    line_idx: int,
    o: YamlFormatOptions,
)
    requires
        0 <= i < entries.len(),
        doc.root matches Node::Mapping { entries: es, style, .. } && es@ == entries && style == CollectionStyle::Block,
        forall|j: int| 0 <= j < i ==> scalar_off_line(#[trigger] entries[j].0, line_idx + 1) && scalar_off_line(
            entries[j].1,
            line_idx + 1,
        ),
        entries[i].0 is Scalar,
        long_quoted_or_plain(entries[i].1, line_idx + 1),
    ensures
        block_scalar_plans(seq![doc], line_idx, o) == seq![
            block_plan(entries[i].1, loc_of(entries[i].0).start.column as int, ScalarStyle::Literal(Chomp::Clip), "Convert to block scalar (literal)"@, o),
            block_plan(entries[i].1, loc_of(entries[i].0).start.column as int, ScalarStyle::Folded(Chomp::Clip), "Convert to block scalar (folded)"@, o),
        ],
{
    let line = line_idx + 1;
    lemma_prefix_no_candidate(entries, i, line);
    let t = entries.take(i + 1);
    assert(t.subrange(0, i) =~= entries.take(i));
    assert(t[i] == entries[i]);
    assert(long_flow_scalar(entries[i].1, line));
    assert(candidate_in_pairs(t, line, true) == Some((entries[i].1, loc_of(entries[i].0).start.column as int)));
    lemma_pairs_first(entries, i, line, true);
    assert(candidate_in_node(doc.root, line) == Some((entries[i].1, loc_of(entries[i].0).start.column as int)));
    let ds = seq![doc];
    assert(ds.drop_last() =~= Seq::<Document>::empty());
    assert(candidate_in_docs(Seq::<Document>::empty(), line) is None);
    assert(ds.last() == doc);
    assert(candidate_in_docs(ds, line) == candidate_in_node(doc.root, line));
}

} // verus!
