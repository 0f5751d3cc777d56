//! Go-to-definition, find-references and rename for anchors and aliases, on
//! the parsed documents.
//!
//! Every request is scoped to the document whose root span holds the cursor.
//! Anchors are the `&name` tokens of nodes, aliases the `*name` nodes.
use vstd::prelude::*;

use crate::ast::{
    anchor, anchor_of, lemma_node_size_pos, lemma_nodes_size, lemma_pairs_size, loc_of, meta_of,
    node_loc, node_size, nodes_size, pairs_size, Document, Node, Span,
};
use crate::lsp::{edits_view, lsp_position, span_to_lsp, Position, Range, TextEdit};
use crate::rename::{is_valid_anchor_name, valid_anchor_name};
use crate::text::{chars_eq, push_all, str_chars, string_from_chars};

verus! {

/// A named token: its name and its source span.
pub open spec fn entry_view(e: (String, Span)) -> (Seq<char>, Span) {
    (e.0@, e.1)
}

pub open spec fn entries_view(s: Seq<(String, Span)>) -> Seq<(Seq<char>, Span)> {
    s.map_values(|e: (String, Span)| entry_view(e))
}

/// The span of the node's `&name` token, if the parser recorded one.
pub open spec fn anchor_loc_of(n: Node) -> Option<Span> {
    match meta_of(n) {
        Some(m) => m.anchor_loc,
        None => None,
    }
}

/// The node's own entry: its anchor token for a scalar or collection that
/// has both a name and a span, its `*name` token for an alias.
pub open spec fn own_entry(n: Node, aliases: bool) -> Seq<(Seq<char>, Span)> {
    match n {
        Node::Alias { name, loc, .. } => if aliases {
            seq![(name@, loc)]
        } else {
            seq![]
        },
        _ => if aliases {
            seq![]
        } else {
            match (anchor_of(n), anchor_loc_of(n)) {
                (Some(a), Some(l)) => seq![(a, l)],
                _ => seq![],
            }
        },
    }
}

/// The anchor entries (`aliases == false`) or alias entries of a tree, in
/// depth-first order: a node before its children, a key before its value.
pub open spec fn named_in(n: Node, aliases: bool) -> Seq<(Seq<char>, Span)>
    decreases node_size(n), 0int,
{
    own_entry(n, aliases) + match n {
        Node::Mapping { entries, .. } => named_in_pairs(entries@, aliases),
        Node::Sequence { items, .. } => named_in_items(items@, aliases),
        _ => seq![],
    }
}

pub open spec fn named_in_pairs(es: Seq<(Node, Node)>, aliases: bool) -> Seq<(Seq<char>, Span)>
    decreases pairs_size(es), 1int,
{
    if es.len() == 0 {
        seq![]
    } else {
        proof {
            lemma_node_size_pos(es[es.len() - 1].0);
            lemma_node_size_pos(es[es.len() - 1].1);
        }
        named_in_pairs(es.subrange(0, es.len() - 1), aliases) + named_in(es[es.len() - 1].0, aliases)
            + named_in(es[es.len() - 1].1, aliases)
    }
}

pub open spec fn named_in_items(s: Seq<Node>, aliases: bool) -> Seq<(Seq<char>, Span)>
    decreases nodes_size(s), 1int,
{
    if s.len() == 0 {
        seq![]
    } else {
        proof {
            lemma_node_size_pos(s[s.len() - 1]);
        }
        named_in_items(s.subrange(0, s.len() - 1), aliases) + named_in(s[s.len() - 1], aliases)
    }
}

/// `a` comes no later than `b` in (line, column) order.
pub open spec fn pos_le(a_line: int, a_col: int, b_line: int, b_col: int) -> bool {
    a_line < b_line || (a_line == b_line && a_col <= b_col)
}

/// The cursor lies in the half-open span `[start, end)`, comparing the
/// 1-based source line with the cursor's 0-based line plus one.
pub open spec fn span_holds(span: Span, p: Position) -> bool {
    let l = p.line + 1;
    &&& pos_le(span.start.line as int, span.start.column as int, l, p.character as int)
    &&& !pos_le(span.end.line as int, span.end.column as int, l, p.character as int)
}

/// `i` is the first document whose root span holds the cursor.
pub open spec fn first_doc(docs: Seq<Document>, p: Position, i: int) -> bool {
    &&& 0 <= i < docs.len()
    &&& span_holds(loc_of(docs[i].root), p)
    &&& forall|j: int| 0 <= j < i ==> !span_holds(loc_of(#[trigger] docs[j].root), p)
}

/// The document that holds the cursor, if any.
pub open spec fn cursor_doc(docs: Seq<Document>, p: Position) -> Option<int> {
    if exists|i: int| first_doc(docs, p, i) {
        Some(choose|i: int| first_doc(docs, p, i))
    } else {
        None
    }
}

/// `i` is the first entry whose span holds the cursor.
pub open spec fn first_hit(es: Seq<(Seq<char>, Span)>, p: Position, i: int) -> bool {
    &&& 0 <= i < es.len()
    &&& span_holds(es[i].1, p)
    &&& forall|j: int| 0 <= j < i ==> !span_holds(#[trigger] es[j].1, p)
}

pub open spec fn hit(es: Seq<(Seq<char>, Span)>, p: Position) -> Option<int> {
    if exists|i: int| first_hit(es, p, i) {
        Some(choose|i: int| first_hit(es, p, i))
    } else {
        None
    }
}

/// `i` is the first entry named `name`.
pub open spec fn first_named(es: Seq<(Seq<char>, Span)>, name: Seq<char>, i: int) -> bool {
    &&& 0 <= i < es.len()
    &&& es[i].0 == name
    &&& forall|j: int| 0 <= j < i ==> #[trigger] es[j].0 != name
}

pub open spec fn named(es: Seq<(Seq<char>, Span)>, name: Seq<char>) -> Option<int> {
    if exists|i: int| first_named(es, name, i) {
        Some(choose|i: int| first_named(es, name, i))
    } else {
        None
    }
}

/// The name under the cursor: the first anchor token that holds it, else
/// the first alias token that does.
pub open spec fn cursor_name(
    anchors: Seq<(Seq<char>, Span)>,
    aliases: Seq<(Seq<char>, Span)>,
    p: Position,
) -> Option<Seq<char>> {
    match hit(anchors, p) {
        Some(i) => Some(anchors[i].0),
        None => match hit(aliases, p) {
            Some(i) => Some(aliases[i].0),
            None => None,
        },
    }
}

/// The LSP range of a span.
pub open spec fn span_range(s: Span) -> Range {
    Range { start: lsp_position(s.start), end: lsp_position(s.end) }
}

/// The ranges of the entries named `name`, in order.
pub open spec fn ranges_named(es: Seq<(Seq<char>, Span)>, name: Seq<char>) -> Seq<Range>
    decreases es.len(),
{
    if es.len() == 0 {
        seq![]
    } else {
        ranges_named(es.drop_last(), name) + if es.last().0 == name {
            seq![span_range(es.last().1)]
        } else {
            seq![]
        }
    }
}

/// Where go-to-definition leads: the first anchor named like the first
/// alias under the cursor, in the document that holds the cursor.
pub open spec fn definition_of(docs: Seq<Document>, p: Position) -> Option<Range> {
    match cursor_doc(docs, p) {
        None => None,
        Some(d) => {
            let anchors = named_in(docs[d].root, false);
            let aliases = named_in(docs[d].root, true);
            match hit(aliases, p) {
                None => None,
                Some(a) => match named(anchors, aliases[a].0) {
                    Some(k) => Some(span_range(anchors[k].1)),
                    None => None,
                },
            }
        },
    }
}

/// What find-references returns: the declaration (the first anchor of the
/// name, when asked for and present) followed by every alias of the name.
pub open spec fn references_of(docs: Seq<Document>, p: Position, include_declaration: bool) -> Seq<
    Range,
> {
    match cursor_doc(docs, p) {
        None => seq![],
        Some(d) => {
            let anchors = named_in(docs[d].root, false);
            let aliases = named_in(docs[d].root, true);
            match cursor_name(anchors, aliases, p) {
                None => seq![],
                Some(name) => {
                    let decl = if include_declaration {
                        match named(anchors, name) {
                            Some(k) => seq![span_range(anchors[k].1)],
                            None => seq![],
                        }
                    } else {
                        seq![]
                    };
                    decl + ranges_named(aliases, name)
                },
            }
        },
    }
}

/// The entries of `es` named `name`, in their order.
pub open spec fn entries_named(es: Seq<(Seq<char>, Span)>, name: Seq<char>) -> Seq<(Seq<char>, Span)> {
    es.filter(|e: (Seq<char>, Span)| e.0 == name)
}

proof fn lemma_ranges_named_filter(es: Seq<(Seq<char>, Span)>, name: Seq<char>)
    ensures
        ranges_named(es, name) == entries_named(es, name).map_values(|e: (Seq<char>, Span)| span_range(e.1)),
    decreases es.len(),
{
    reveal(Seq::filter);
    if es.len() > 0 {
        lemma_ranges_named_filter(es.drop_last(), name);
        assert(ranges_named(es, name) =~= entries_named(es, name).map_values(|e: (Seq<char>, Span)| span_range(e.1)));
    }
}

/// Without the declaration, find-references lists exactly the aliases of
/// the cursor's document that carry the name under the cursor, in the
/// order of the document; with it, the first anchor of that name comes
/// before them.
pub proof fn law_references_are_document_aliases(docs: Seq<Document>, p: Position)
    ensures
        match cursor_doc(docs, p) {
            None => true,
            Some(d) => match cursor_name(named_in(docs[d].root, false), named_in(docs[d].root, true), p) {
                None => true,
                Some(name) => {
                    let anchors = named_in(docs[d].root, false);
                    let aliases = named_in(docs[d].root, true);
                    &&& references_of(docs, p, false) == entries_named(aliases, name).map_values(
                        |e: (Seq<char>, Span)| span_range(e.1),
                    )
                    &&& references_of(docs, p, true) == match named(anchors, name) {
                        Some(k) => seq![span_range(anchors[k].1)] + references_of(docs, p, false),
                        None => references_of(docs, p, false),
                    }
                },
            },
        },
{
    match cursor_doc(docs, p) {
        Some(d) => {
            let anchors = named_in(docs[d].root, false);
            let aliases = named_in(docs[d].root, true);
            match cursor_name(anchors, aliases, p) {
                Some(name) => {
                    lemma_ranges_named_filter(aliases, name);
                    assert(references_of(docs, p, false) =~= ranges_named(aliases, name));
                    assert(references_of(docs, p, false) == entries_named(aliases, name).map_values(
                        |e: (Seq<char>, Span)| span_range(e.1),
                    ));
                    match named(anchors, name) {
                        Some(k) => assert(references_of(docs, p, true) =~= seq![span_range(anchors[k].1)] + ranges_named(aliases, name)),
                        None => assert(references_of(docs, p, true) =~= ranges_named(aliases, name)),
                    }
                },
                None => {},
            }
        },
        None => {},
    }
}

/// The range a rename would replace: the anchor token under the cursor,
/// else the alias token under it.
pub open spec fn rename_range(docs: Seq<Document>, p: Position) -> Option<Range> {
    match cursor_doc(docs, p) {
        None => None,
        Some(d) => {
            let anchors = named_in(docs[d].root, false);
            let aliases = named_in(docs[d].root, true);
            match hit(anchors, p) {
                Some(i) => Some(span_range(anchors[i].1)),
                None => match hit(aliases, p) {
                    Some(i) => Some(span_range(aliases[i].1)),
                    None => None,
                },
            }
        },
    }
}

/// The edits of a rename of `name` to `new_name`: every anchor token of the
/// name becomes `&new_name`, then every alias token `*new_name`.
pub open spec fn renamed(es: Seq<(Seq<char>, Span)>, name: Seq<char>, sigil: char, new_name: Seq<char>) -> Seq<
    (Range, Seq<char>),
>
    decreases es.len(),
{
    if es.len() == 0 {
        seq![]
    } else {
        renamed(es.drop_last(), name, sigil, new_name) + if es.last().0 == name {
            seq![(span_range(es.last().1), seq![sigil] + new_name)]
        } else {
            seq![]
        }
    }
}

pub open spec fn rename_of(docs: Seq<Document>, p: Position, new_name: Seq<char>) -> Option<
    Seq<(Range, Seq<char>)>,
> {
    if !valid_anchor_name(new_name) {
        None
    } else {
        match cursor_doc(docs, p) {
            None => None,
            Some(d) => {
                let anchors = named_in(docs[d].root, false);
                let aliases = named_in(docs[d].root, true);
                match cursor_name(anchors, aliases, p) {
                    None => None,
                    Some(name) => Some(
                        renamed(anchors, name, '&', new_name) + renamed(aliases, name, '*', new_name),
                    ),
                }
            },
        }
    }
}

/// Rename is offered exactly where it can be carried out: for a valid new
/// name, `rename` gives edits at a position exactly when `prepare_rename`
/// gives a range there.
pub proof fn law_rename_where_prepared(docs: Seq<Document>, p: Position, new_name: Seq<char>)
    requires
        valid_anchor_name(new_name),
    ensures
        rename_of(docs, p, new_name) is Some <==> rename_range(docs, p) is Some,
{
}

/// A rename's edits touch the range that `prepare_rename` reports: when it
/// reports one, some edit of the rename covers exactly that range.
pub proof fn law_rename_covers_prepared_range(docs: Seq<Document>, p: Position, new_name: Seq<char>)
    requires
        valid_anchor_name(new_name),
        rename_range(docs, p) is Some,
    ensures
        exists|i: int|
            0 <= i < rename_of(docs, p, new_name).unwrap().len()
                && #[trigger] rename_of(docs, p, new_name).unwrap()[i].0 == rename_range(docs, p).unwrap(),
{
    let d = cursor_doc(docs, p).unwrap();
    let anchors = named_in(docs[d].root, false);
    let aliases = named_in(docs[d].root, true);
    let name = cursor_name(anchors, aliases, p).unwrap();
    match hit(anchors, p) {
        Some(i) => {
            lemma_renamed_has(anchors, name, '&', new_name, i);
            let k = choose|k: int| 0 <= k < renamed(anchors, name, '&', new_name).len() && renamed(anchors, name, '&', new_name)[k].0 == span_range(anchors[i].1);
            let all = renamed(anchors, name, '&', new_name) + renamed(aliases, name, '*', new_name);
            assert(all[k] == renamed(anchors, name, '&', new_name)[k]);
            assert(rename_of(docs, p, new_name).unwrap() == all);
            assert(rename_range(docs, p).unwrap() == span_range(anchors[i].1));
            assert(rename_of(docs, p, new_name).unwrap()[k].0 == rename_range(docs, p).unwrap());
        },
        None => {
            let i = hit(aliases, p).unwrap();
            lemma_renamed_has(aliases, name, '*', new_name, i);
            let k = choose|k: int| 0 <= k < renamed(aliases, name, '*', new_name).len() && renamed(aliases, name, '*', new_name)[k].0 == span_range(aliases[i].1);
            let first = renamed(anchors, name, '&', new_name);
            let all = first + renamed(aliases, name, '*', new_name);
            assert(all[first.len() + k] == renamed(aliases, name, '*', new_name)[k]);
            assert(rename_of(docs, p, new_name).unwrap() == all);
            assert(rename_range(docs, p).unwrap() == span_range(aliases[i].1));
            assert(rename_of(docs, p, new_name).unwrap()[first.len() + k].0 == rename_range(docs, p).unwrap());
        },
    }
}

proof fn lemma_renamed_has(es: Seq<(Seq<char>, Span)>, name: Seq<char>, sigil: char, new_name: Seq<char>, i: int)
    requires
        0 <= i < es.len(),
        es[i].0 == name,
    ensures
        exists|k: int|
            0 <= k < renamed(es, name, sigil, new_name).len() && #[trigger] renamed(es, name, sigil, new_name)[k].0
                == span_range(es[i].1),
    decreases es.len(),
{
    let r = renamed(es, name, sigil, new_name);
    let prev = renamed(es.drop_last(), name, sigil, new_name);
    if i == es.len() - 1 {
        assert(r[prev.len() as int].0 == span_range(es[i].1));
    } else {
        lemma_renamed_has(es.drop_last(), name, sigil, new_name, i);
        let k = choose|k: int| 0 <= k < prev.len() && #[trigger] prev[k].0 == span_range(es.drop_last()[i].1);
        assert(r[k] == prev[k]);
    }
}

/// With the declaration asked for, find-references lists the same aliases
/// as without it, preceded by at most the declaration.
pub proof fn law_references_declaration_first(docs: Seq<Document>, p: Position)
    ensures
        references_of(docs, p, true).len() <= references_of(docs, p, false).len() + 1,
        references_of(docs, p, true).len() >= references_of(docs, p, false).len(),
        references_of(docs, p, true).skip(
            references_of(docs, p, true).len() - references_of(docs, p, false).len(),
        ) == references_of(docs, p, false),
{
    match cursor_doc(docs, p) {
        None => {},
        Some(d) => {
            let anchors = named_in(docs[d].root, false);
            let aliases = named_in(docs[d].root, true);
            match cursor_name(anchors, aliases, p) {
                None => {},
                Some(name) => {
                    let t = references_of(docs, p, true);
                    let f = references_of(docs, p, false);
                    assert(f =~= ranges_named(aliases, name));
                    assert(t.skip(t.len() - f.len()) =~= f);
                },
            }
        },
    }
}

/// Go-to-definition from an alias leads to the declaration that
/// find-references lists first (the cursor on no anchor token).
pub proof fn law_definition_is_declaration(docs: Seq<Document>, p: Position)
    requires
        definition_of(docs, p) is Some,
        forall|d: int| cursor_doc(docs, p) == Some(d) ==> hit(named_in(docs[d].root, false), p) is None,
    ensures
        references_of(docs, p, true).len() > 0,
        references_of(docs, p, true)[0] == definition_of(docs, p).unwrap(),
{
}

/// The anchor token's span of a node.
fn anchor_loc(n: &Node) -> (r: Option<Span>)
    ensures
        r == anchor_loc_of(*n),
{
    let m = match n {
        Node::Scalar { meta, .. } => meta,
        Node::Mapping { meta, .. } => meta,
        Node::Sequence { meta, .. } => meta,
        Node::Alias { meta, .. } => meta,
    };
    match m {
        Some(m) => m.anchor_loc,
        None => None,
    }
}

/// `true` when the cursor lies in the half-open span.
pub fn span_contains(span: Span, position: Position) -> (r: bool)
    ensures
        r == span_holds(span, position),
{
    let l: u64 = position.line as u64 + 1;
    let c: u64 = position.character as u64;
    let sl: u64 = span.start.line as u64;
    let sc: u64 = span.start.column as u64;
    let el: u64 = span.end.line as u64;
    let ec: u64 = span.end.column as u64;
    let after_start = sl < l || (sl == l && sc <= c);
    let before_end = l < el || (l == el && c < ec);
    after_start && before_end
}

fn push_entry(out: &mut Vec<(String, Span)>, name: &String, loc: Span)
    ensures
        entries_view(final(out)@) == entries_view(old(out)@) + seq![(name@, loc)],
{
    out.push((name.clone(), loc));
    assert(entries_view(out@) =~= entries_view(old(out)@) + seq![(name@, loc)]);
}

/// Appends the anchor and alias entries of `node`, depth first.
fn collect_node(node: &Node, anchors: &mut Vec<(String, Span)>, aliases: &mut Vec<(String, Span)>)
    ensures
        entries_view(final(anchors)@) == entries_view(old(anchors)@) + named_in(*node, false),
        entries_view(final(aliases)@) == entries_view(old(aliases)@) + named_in(*node, true),
    decreases node_size(*node),
{
    let ghost a0 = entries_view(anchors@);
    let ghost b0 = entries_view(aliases@);
    match node {
        Node::Alias { name, loc, .. } => {
            push_entry(aliases, name, *loc);
        },
        _ => {
            match (anchor(node), anchor_loc(node)) {
                (Some(a), Some(l)) => {
                    push_entry(anchors, a, l);
                },
                _ => {},
            }
        },
    }
    assert(entries_view(anchors@) == a0 + own_entry(*node, false));
    assert(entries_view(aliases@) == b0 + own_entry(*node, true));
    match node {
        Node::Mapping { entries, .. } => {
            let mut i: usize = 0;
            while i < entries.len()
                invariant
                    i <= entries@.len(),
                    pairs_size(entries@) < node_size(*node),
                    entries_view(anchors@) == a0 + own_entry(*node, false) + named_in_pairs(
                        entries@.take(i as int),
                        false,
                    ),
                    entries_view(aliases@) == b0 + own_entry(*node, true) + named_in_pairs(
                        entries@.take(i as int),
                        true,
                    ),
                decreases entries.len() - i,
            {
                proof {
                    lemma_pairs_size(entries@, i as int);
                    assert(entries@.take(i + 1).subrange(0, i as int) =~= entries@.take(i as int));
                    assert(entries@.take(i + 1)[i as int] == entries@[i as int]);
                }
                collect_node(&entries[i].0, anchors, aliases);
                collect_node(&entries[i].1, anchors, aliases);
                i += 1;
                proof {
                    assert(entries_view(anchors@) =~= a0 + own_entry(*node, false) + named_in_pairs(
                        entries@.take(i as int),
                        false,
                    ));
                    assert(entries_view(aliases@) =~= b0 + own_entry(*node, true) + named_in_pairs(
                        entries@.take(i as int),
                        true,
                    ));
                }
            }
            assert(entries@.take(i as int) =~= entries@);
            assert(entries_view(anchors@) =~= a0 + named_in(*node, false));
            assert(entries_view(aliases@) =~= b0 + named_in(*node, true));
        },
        Node::Sequence { items, .. } => {
            let mut i: usize = 0;
            while i < items.len()
                invariant
                    i <= items@.len(),
                    nodes_size(items@) < node_size(*node),
                    entries_view(anchors@) == a0 + own_entry(*node, false) + named_in_items(
                        items@.take(i as int),
                        false,
                    ),
                    entries_view(aliases@) == b0 + own_entry(*node, true) + named_in_items(
                        items@.take(i as int),
                        true,
                    ),
                decreases items.len() - i,
            {
                proof {
                    lemma_nodes_size(items@, i as int);
                    assert(items@.take(i + 1).subrange(0, i as int) =~= items@.take(i as int));
                    assert(items@.take(i + 1)[i as int] == items@[i as int]);
                }
                collect_node(&items[i], anchors, aliases);
                i += 1;
                proof {
                    assert(entries_view(anchors@) =~= a0 + own_entry(*node, false) + named_in_items(
                        items@.take(i as int),
                        false,
                    ));
                    assert(entries_view(aliases@) =~= b0 + own_entry(*node, true) + named_in_items(
                        items@.take(i as int),
                        true,
                    ));
                }
            }
            assert(items@.take(i as int) =~= items@);
            assert(entries_view(anchors@) =~= a0 + named_in(*node, false));
            assert(entries_view(aliases@) =~= b0 + named_in(*node, true));
        },
        _ => {
            assert(entries_view(anchors@) =~= a0 + named_in(*node, false));
            assert(entries_view(aliases@) =~= b0 + named_in(*node, true));
        },
    }
}

/// The anchor entries and the alias entries of a document, depth first.
pub fn collect_anchor_alias_entries(doc: &Document) -> (r: (Vec<(String, Span)>, Vec<(String, Span)>))
    ensures
        entries_view(r.0@) == named_in(doc.root, false),
        entries_view(r.1@) == named_in(doc.root, true),
{
    let mut anchors: Vec<(String, Span)> = Vec::new();
    let mut aliases: Vec<(String, Span)> = Vec::new();
    assert(entries_view(anchors@) =~= Seq::<(Seq<char>, Span)>::empty());
    assert(entries_view(aliases@) =~= Seq::<(Seq<char>, Span)>::empty());
    collect_node(&doc.root, &mut anchors, &mut aliases);
    assert(entries_view(anchors@) =~= named_in(doc.root, false));
    assert(entries_view(aliases@) =~= named_in(doc.root, true));
    (anchors, aliases)
}

/// The index of the document whose root span holds the cursor.
pub fn containing_document(docs: &Vec<Document>, position: Position) -> (r: Option<usize>)
    ensures
        match r {
            Some(i) => cursor_doc(docs@, position) == Some(i as int),
            None => cursor_doc(docs@, position) is None,
        },
{
    let mut i: usize = 0;
    while i < docs.len()
        invariant
            i <= docs@.len(),
            forall|j: int| 0 <= j < i ==> !span_holds(loc_of(#[trigger] docs@[j].root), position),
        decreases docs.len() - i,
    {
        if span_contains(node_loc(&docs[i].root), position) {
            assert(first_doc(docs@, position, i as int));
            proof {
                let k = choose|k: int| first_doc(docs@, position, k);
                assert(k == i);
            }
            return Some(i);
        }
        i += 1;
    }
    assert(!exists|k: int| first_doc(docs@, position, k));
    None
}

/// The first entry whose span holds the cursor.
fn find_hit(es: &Vec<(String, Span)>, position: Position) -> (r: Option<usize>)
    ensures
        match r {
            Some(i) => hit(entries_view(es@), position) == Some(i as int),
            None => hit(entries_view(es@), position) is None,
        },
{
    let ghost ev = entries_view(es@);
    let mut i: usize = 0;
    while i < es.len()
        invariant
            i <= es@.len(),
            ev == entries_view(es@),
            forall|j: int| 0 <= j < i ==> !span_holds(#[trigger] ev[j].1, position),
        decreases es.len() - i,
    {
        assert(ev[i as int] == entry_view(es@[i as int]));
        if span_contains(es[i].1, position) {
            assert(first_hit(ev, position, i as int));
            proof {
                let k = choose|k: int| first_hit(ev, position, k);
                assert(k == i);
            }
            return Some(i);
        }
        i += 1;
    }
    assert(!exists|k: int| first_hit(ev, position, k));
    None
}

/// The first entry named `name`.
fn find_named(es: &Vec<(String, Span)>, name: &Vec<char>) -> (r: Option<usize>)
    ensures
        match r {
            Some(i) => named(entries_view(es@), name@) == Some(i as int),
            None => named(entries_view(es@), name@) is None,
        },
{
    let ghost ev = entries_view(es@);
    let mut i: usize = 0;
    while i < es.len()
        invariant
            i <= es@.len(),
            ev == entries_view(es@),
            forall|j: int| 0 <= j < i ==> #[trigger] ev[j].0 != name@,
        decreases es.len() - i,
    {
        assert(ev[i as int] == entry_view(es@[i as int]));
        let n = str_chars(es[i].0.as_str());
        if chars_eq(&n, name) {
            assert(first_named(ev, name@, i as int));
            proof {
                let k = choose|k: int| first_named(ev, name@, k);
                assert(k == i);
            }
            return Some(i);
        }
        i += 1;
    }
    assert(!exists|k: int| first_named(ev, name@, k));
    None
}

/// The name under the cursor: anchors first, then aliases.
fn name_at(anchors: &Vec<(String, Span)>, aliases: &Vec<(String, Span)>, position: Position) -> (r:
    Option<Vec<char>>)
    ensures
        match r {
            Some(n) => cursor_name(entries_view(anchors@), entries_view(aliases@), position) == Some(n@),
            None => cursor_name(entries_view(anchors@), entries_view(aliases@), position) is None,
        },
{
    match find_hit(anchors, position) {
        Some(i) => {
            assert(entries_view(anchors@)[i as int] == entry_view(anchors@[i as int]));
            Some(str_chars(anchors[i].0.as_str()))
        },
        None => match find_hit(aliases, position) {
            Some(i) => {
                assert(entries_view(aliases@)[i as int] == entry_view(aliases@[i as int]));
                Some(str_chars(aliases[i].0.as_str()))
            },
            None => None,
        },
    }
}

/// Go-to-definition: cursor on `*alias` returns the range of the matching
/// `&anchor` in the same document.
///
/// Returns `None` if the cursor is not on an alias, the anchor is not found,
/// or no document holds the cursor.
pub fn goto_definition(docs: &Vec<Document>, position: Position) -> (r: Option<Range>)
    ensures
        r == definition_of(docs@, position),
{
    let d = match containing_document(docs, position) {
        Some(d) => d,
        None => return None,
    };
    let (anchors, aliases) = collect_anchor_alias_entries(&docs[d]);
    let a = match find_hit(&aliases, position) {
        Some(a) => a,
        None => return None,
    };
    assert(entries_view(aliases@)[a as int] == entry_view(aliases@[a as int]));
    let name = str_chars(aliases[a].0.as_str());
    match find_named(&anchors, &name) {
        Some(k) => {
            assert(entries_view(anchors@)[k as int] == entry_view(anchors@[k as int]));
            Some(span_to_lsp(anchors[k].1))
        },
        None => None,
    }
}

/// The ranges of the entries named `name`.
fn collect_ranges(es: &Vec<(String, Span)>, name: &Vec<char>, out: &mut Vec<Range>)
    ensures
        final(out)@ == old(out)@ + ranges_named(entries_view(es@), name@),
{
    let ghost ev = entries_view(es@);
    let ghost o0 = out@;
    let mut i: usize = 0;
    while i < es.len()
        invariant
            i <= es@.len(),
            ev == entries_view(es@),
            out@ == o0 + ranges_named(ev.take(i as int), name@),
        decreases es.len() - i,
    {
        assert(ev[i as int] == entry_view(es@[i as int]));
        assert(ev.take(i + 1).drop_last() =~= ev.take(i as int));
        let n = str_chars(es[i].0.as_str());
        if chars_eq(&n, name) {
            out.push(span_to_lsp(es[i].1));
        }
        i += 1;
        assert(out@ =~= o0 + ranges_named(ev.take(i as int), name@));
    }
    assert(ev.take(i as int) =~= ev);
}

/// Find references: cursor on `&anchor` or `*alias` returns every `*alias`
/// of the name in the same document, preceded by the `&anchor` definition
/// when `include_declaration` is set.
///
/// Returns an empty list if the cursor is not on an anchor or alias, or no
/// document holds the cursor.
pub fn find_references(docs: &Vec<Document>, position: Position, include_declaration: bool) -> (r: Vec<
    Range,
>)
    ensures
        r@ == references_of(docs@, position, include_declaration),
{
    let d = match containing_document(docs, position) {
        Some(d) => d,
        None => return Vec::new(),
    };
    let (anchors, aliases) = collect_anchor_alias_entries(&docs[d]);
    let name = match name_at(&anchors, &aliases, position) {
        Some(n) => n,
        None => return Vec::new(),
    };
    let mut out: Vec<Range> = Vec::new();
    if include_declaration {
        match find_named(&anchors, &name) {
            Some(k) => {
                assert(entries_view(anchors@)[k as int] == entry_view(anchors@[k as int]));
                out.push(span_to_lsp(anchors[k].1));
            },
            None => {},
        }
    }
    collect_ranges(&aliases, &name, &mut out);
    out
}

/// Prepare rename: the range of the anchor or alias token under the cursor.
///
/// Returns `None` if the cursor is not on an anchor or alias, or no document
/// holds the cursor.
pub fn prepare_rename(docs: &Vec<Document>, position: Position) -> (r: Option<Range>)
    ensures
        r == rename_range(docs@, position),
{
    let d = match containing_document(docs, position) {
        Some(d) => d,
        None => return None,
    };
    let (anchors, aliases) = collect_anchor_alias_entries(&docs[d]);
    match find_hit(&anchors, position) {
        Some(i) => {
            assert(entries_view(anchors@)[i as int] == entry_view(anchors@[i as int]));
            Some(span_to_lsp(anchors[i].1))
        },
        None => match find_hit(&aliases, position) {
            Some(i) => {
                assert(entries_view(aliases@)[i as int] == entry_view(aliases@[i as int]));
                Some(span_to_lsp(aliases[i].1))
            },
            None => None,
        },
    }
}

/// Appends the rename edits for the entries named `name`.
fn push_renames(es: &Vec<(String, Span)>, name: &Vec<char>, sigil: char, new_name: &Vec<char>, out: &mut Vec<TextEdit>)
    ensures
        edits_view(final(out)@) == edits_view(old(out)@) + renamed(entries_view(es@), name@, sigil, new_name@),
{
    let ghost ev = entries_view(es@);
    let ghost o0 = edits_view(out@);
    let mut i: usize = 0;
    while i < es.len()
        invariant
            i <= es@.len(),
            ev == entries_view(es@),
            edits_view(out@) == o0 + renamed(ev.take(i as int), name@, sigil, new_name@),
        decreases es.len() - i,
    {
        assert(ev[i as int] == entry_view(es@[i as int]));
        assert(ev.take(i + 1).drop_last() =~= ev.take(i as int));
        let n = str_chars(es[i].0.as_str());
        let ghost before = out@;
        if chars_eq(&n, name) {
            let mut txt: Vec<char> = Vec::new();
            txt.push(sigil);
            push_all(&mut txt, new_name.as_slice());
            let e = TextEdit { range: span_to_lsp(es[i].1), new_text: string_from_chars(txt.as_slice()) };
            out.push(e);
            assert(edits_view(out@) =~= edits_view(before) + seq![(e.range, e.new_text@)]);
            assert(txt@ =~= seq![sigil] + new_name@);
        }
        i += 1;
        assert(edits_view(out@) =~= o0 + renamed(ev.take(i as int), name@, sigil, new_name@));
    }
    assert(ev.take(i as int) =~= ev);
}

/// Rename: edits for every anchor token and every alias token of the name
/// under the cursor, in the document that holds the cursor: first the
/// anchors (`&new_name`), then the aliases (`*new_name`).
///
/// Returns `None` if the new name is invalid, the cursor is not on an anchor
/// or alias, or no document holds the cursor.
pub fn rename(docs: &Vec<Document>, position: Position, new_name: &str) -> (r: Option<Vec<TextEdit>>)
    ensures
        match r {
            Some(es) => rename_of(docs@, position, new_name@) == Some(edits_view(es@)),
            None => rename_of(docs@, position, new_name@) is None,
        },
{
    if !is_valid_anchor_name(new_name) {
        return None;
    }
    let d = match containing_document(docs, position) {
        Some(d) => d,
        None => return None,
    };
    let (anchors, aliases) = collect_anchor_alias_entries(&docs[d]);
    let name = match name_at(&anchors, &aliases, position) {
        Some(n) => n,
        None => return None,
    };
    let nn = str_chars(new_name);
    let mut out: Vec<TextEdit> = Vec::new();
    assert(edits_view(out@) =~= Seq::<(Range, Seq<char>)>::empty());
    push_renames(&anchors, &name, '&', &nn, &mut out);
    push_renames(&aliases, &name, '*', &nn, &mut out);
    assert(edits_view(out@) =~= renamed(entries_view(anchors@), name@, '&', new_name@) + renamed(
        entries_view(aliases@),
        name@,
        '*',
        new_name@,
    ));
    Some(out)
}

} // verus!
