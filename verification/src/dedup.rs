//! Duplicate mapping keys: the formatter can drop them, keeping the last
//! occurrence of each key (YAML's "last value wins").
use vstd::prelude::*;

use crate::ast::{
    lemma_nodes_size, lemma_pairs_size, node_size, nodes_size, pairs_size, CollectionStyle, Node,
    NodeMeta, ScalarStyle, Span,
};
use crate::text::{chars_eq, push_all, str_chars};

verus! {

/// The mathematical value of a node's properties.
pub struct MetaV {
    pub anchor: Option<Seq<char>>,
    pub anchor_loc: Option<Span>,
    pub tag_loc: Option<Span>,
    pub leading_comments: Seq<Seq<char>>,
    pub trailing_comment: Option<Seq<char>>,
}

/// The mathematical value of a node.
pub enum NodeV {
    Scalar { value: Seq<char>, style: ScalarStyle, tag: Option<Seq<char>>, loc: Span, meta: Option<MetaV> },
    Mapping { entries: Seq<(NodeV, NodeV)>, style: CollectionStyle, tag: Option<Seq<char>>, loc: Span, meta: Option<MetaV> },
    Sequence { items: Seq<NodeV>, style: CollectionStyle, tag: Option<Seq<char>>, loc: Span, meta: Option<MetaV> },
    Alias { name: Seq<char>, loc: Span, meta: Option<MetaV> },
}

pub open spec fn meta_view(m: Option<Box<NodeMeta>>) -> Option<MetaV> {
    match m {
        Some(m) => Some(MetaV {
            anchor: crate::ast::opt_view(m.anchor),
            anchor_loc: m.anchor_loc,
            tag_loc: m.tag_loc,
            leading_comments: m.leading_comments@.map_values(|c: String| c@),
            trailing_comment: crate::ast::opt_view(m.trailing_comment),
        }),
        None => None,
    }
}

/// The value of a node.
pub open spec fn node_view(n: Node) -> NodeV
    decreases node_size(n), 0int,
{
    match n {
        Node::Scalar { value, style, tag, loc, meta } => NodeV::Scalar {
            value: value@,
            style,
            tag: crate::ast::opt_view(tag),
            loc,
            meta: meta_view(meta),
        },
        Node::Mapping { entries, style, tag, loc, meta } => NodeV::Mapping {
            entries: pairs_view(entries@),
            style,
            tag: crate::ast::opt_view(tag),
            loc,
            meta: meta_view(meta),
        },
        Node::Sequence { items, style, tag, loc, meta } => NodeV::Sequence {
            items: nodes_view(items@),
            style,
            tag: crate::ast::opt_view(tag),
            loc,
            meta: meta_view(meta),
        },
        Node::Alias { name, loc, meta } => NodeV::Alias { name: name@, loc, meta: meta_view(meta) },
    }
}

pub open spec fn pairs_view(es: Seq<(Node, Node)>) -> Seq<(NodeV, NodeV)>
    decreases pairs_size(es), 1int,
{
    if es.len() == 0 {
        seq![]
    } else {
        proof {
            crate::ast::lemma_node_size_pos(es[es.len() - 1].0);
            crate::ast::lemma_node_size_pos(es[es.len() - 1].1);
        }
        pairs_view(es.subrange(0, es.len() - 1)).push(
            (node_view(es[es.len() - 1].0), node_view(es[es.len() - 1].1)),
        )
    }
}

pub open spec fn nodes_view(s: Seq<Node>) -> Seq<NodeV>
    decreases nodes_size(s), 1int,
{
    if s.len() == 0 {
        seq![]
    } else {
        proof {
            crate::ast::lemma_node_size_pos(s[s.len() - 1]);
        }
        nodes_view(s.subrange(0, s.len() - 1)).push(node_view(s[s.len() - 1]))
    }
}

/// The key text a mapping key is compared by: a scalar's value, `*name`
/// for an alias; complex keys have none and are never dropped.
pub open spec fn key_text(k: NodeV) -> Option<Seq<char>> {
    match k {
        NodeV::Scalar { value, .. } => Some(value),
        NodeV::Alias { name, .. } => Some("*"@ + name),
        _ => None,
    }
}

/// Entry `i` survives: its key has no text, or no later entry has the same
/// key text.
pub open spec fn survives(es: Seq<(NodeV, NodeV)>, i: int) -> bool {
    key_text(es[i].0) is None || !exists|j: int| i < j < es.len() && #[trigger] key_text(es[j].0) == key_text(es[i].0)
}

/// The entries among the first `n` that survive, in their order.
pub open spec fn kept_upto(es: Seq<(NodeV, NodeV)>, n: int) -> Seq<(NodeV, NodeV)>
    decreases n,
{
    if n <= 0 {
        seq![]
    } else if survives(es, n - 1) {
        kept_upto(es, n - 1).push(es[n - 1])
    } else {
        kept_upto(es, n - 1)
    }
}

/// The surviving entries of a mapping, in their order.
pub open spec fn kept(es: Seq<(NodeV, NodeV)>) -> Seq<(NodeV, NodeV)> {
    kept_upto(es, es.len() as int)
}

/// A node with duplicate mapping keys removed throughout, the last
/// occurrence of each key kept, values and sequence items deduplicated.
pub open spec fn dedup_v(v: NodeV) -> NodeV
    decreases v,
{
    match v {
        NodeV::Mapping { entries, style, tag, loc, meta } => NodeV::Mapping {
            entries: kept(dedup_values(entries)),
            style,
            tag,
            loc,
            meta,
        },
        NodeV::Sequence { items, style, tag, loc, meta } => NodeV::Sequence {
            items: dedup_items(items),
            style,
            tag,
            loc,
            meta,
        },
        _ => v,
    }
}

/// The entries with every value deduplicated.
pub open spec fn dedup_values(es: Seq<(NodeV, NodeV)>) -> Seq<(NodeV, NodeV)>
    decreases es,
{
    if es.len() == 0 {
        seq![]
    } else {
        dedup_values(es.subrange(0, es.len() - 1)).push((es[es.len() - 1].0, dedup_v(es[es.len() - 1].1)))
    }
}

/// The items, each deduplicated.
pub open spec fn dedup_items(s: Seq<NodeV>) -> Seq<NodeV>
    decreases s,
{
    if s.len() == 0 {
        seq![]
    } else {
        dedup_items(s.subrange(0, s.len() - 1)).push(dedup_v(s[s.len() - 1]))
    }
}


pub proof fn lemma_pairs_view(es: Seq<(Node, Node)>)
    ensures
        pairs_view(es).len() == es.len(),
        forall|i: int| 0 <= i < es.len() ==> #[trigger] pairs_view(es)[i] == (node_view(es[i].0), node_view(es[i].1)),
    decreases es.len(),
{
    if es.len() > 0 {
        let t = es.subrange(0, es.len() - 1);
        lemma_pairs_view(t);
        assert forall|i: int| 0 <= i < es.len() implies #[trigger] pairs_view(es)[i] == (node_view(es[i].0), node_view(es[i].1)) by {
            if i < es.len() - 1 {
                assert(t[i] == es[i]);
            }
        }
    }
}

pub proof fn lemma_nodes_view(s: Seq<Node>)
    ensures
        nodes_view(s).len() == s.len(),
        forall|i: int| 0 <= i < s.len() ==> #[trigger] nodes_view(s)[i] == node_view(s[i]),
    decreases s.len(),
{
    if s.len() > 0 {
        let t = s.subrange(0, s.len() - 1);
        lemma_nodes_view(t);
        assert forall|i: int| 0 <= i < s.len() implies #[trigger] nodes_view(s)[i] == node_view(s[i]) by {
            if i < s.len() - 1 {
                assert(t[i] == s[i]);
            }
        }
    }
}

pub proof fn lemma_dedup_values(es: Seq<(NodeV, NodeV)>)
    ensures
        dedup_values(es).len() == es.len(),
        forall|i: int| 0 <= i < es.len() ==> #[trigger] dedup_values(es)[i] == (es[i].0, dedup_v(es[i].1)),
    decreases es.len(),
{
    if es.len() > 0 {
        let t = es.subrange(0, es.len() - 1);
        lemma_dedup_values(t);
        assert forall|i: int| 0 <= i < es.len() implies #[trigger] dedup_values(es)[i] == (es[i].0, dedup_v(es[i].1)) by {
            if i < es.len() - 1 {
                assert(t[i] == es[i]);
            }
        }
    }
}

pub proof fn lemma_dedup_items(s: Seq<NodeV>)
    ensures
        dedup_items(s).len() == s.len(),
        forall|i: int| 0 <= i < s.len() ==> #[trigger] dedup_items(s)[i] == dedup_v(s[i]),
    decreases s.len(),
{
    if s.len() > 0 {
        let t = s.subrange(0, s.len() - 1);
        lemma_dedup_items(t);
        assert forall|i: int| 0 <= i < s.len() implies #[trigger] dedup_items(s)[i] == dedup_v(s[i]) by {
            if i < s.len() - 1 {
                assert(t[i] == s[i]);
            }
        }
    }
}

/// Deduplicating values keeps every key, so it keeps which entries survive.
pub proof fn lemma_survives_dedup_values(es: Seq<(NodeV, NodeV)>, i: int)
    requires
        0 <= i < es.len(),
    ensures
        survives(dedup_values(es), i) == survives(es, i),
{
    lemma_dedup_values(es);
    let d = dedup_values(es);
    if survives(es, i) && key_text(es[i].0) is Some {
        assert forall|j: int| i < j < d.len() implies #[trigger] key_text(d[j].0) != key_text(d[i].0) by {
            assert(d[j].0 == es[j].0);
            assert(!(i < j < es.len() && key_text(es[j].0) == key_text(es[i].0)));
        }
    }
    if !survives(es, i) {
        let j = choose|j: int| i < j < es.len() && #[trigger] key_text(es[j].0) == key_text(es[i].0);
        assert(d[j].0 == es[j].0);
    }
}

/// Extract a dedup key string for a mapping key node.
pub fn dedup_key_str(key: &Node) -> (r: Option<Vec<char>>)
    ensures
        match r {
            Some(v) => key_text(node_view(*key)) == Some(v@),
            None => key_text(node_view(*key)) is None,
        },
{
    match key {
        Node::Scalar { value, .. } => Some(str_chars(value.as_str())),
        Node::Alias { name, .. } => {
            let mut t = str_chars("*");
            push_all(&mut t, &str_chars(name.as_str()));
            Some(t)
        },
        _ => None,
    }
}

/// `true` when entry `i` survives deduplication.
fn entry_survives(entries: &Vec<(Node, Node)>, i: usize) -> (r: bool)
    requires
        i < entries@.len(),
    ensures
        r == survives(pairs_view(entries@), i as int),
{
    let ghost ev = pairs_view(entries@);
    proof {
        lemma_pairs_view(entries@);
    }
    let ki = match dedup_key_str(&entries[i].0) {
        None => {
            return true;
        },
        Some(k) => k,
    };
    let _count = entries.len();
    let mut j = i + 1;
    while j < entries.len()
        invariant
            i < j <= entries@.len(),
            ev == pairs_view(entries@),
            ev.len() == entries@.len(),
            forall|q: int| 0 <= q < entries@.len() ==> #[trigger] ev[q] == (node_view(entries@[q].0), node_view(entries@[q].1)),
            key_text(ev[i as int].0) == Some(ki@),
            forall|q: int| i < q < j ==> #[trigger] key_text(ev[q].0) != key_text(ev[i as int].0),
        decreases entries.len() - j,
    {
        match dedup_key_str(&entries[j].0) {
            Some(kj) => {
                if chars_eq(&kj, &ki) {
                    assert(key_text(ev[j as int].0) == key_text(ev[i as int].0));
                    return false;
                }
            },
            None => {},
        }
        j += 1;
    }
    true
}

/// A node with duplicate mapping keys removed throughout.
pub fn dedup_node(n: Node) -> (r: Node)
    ensures
        node_view(r) == dedup_v(node_view(n)),
    decreases node_size(n),
{
    let ghost n0 = n;
    match n {
        Node::Mapping { entries, style, tag, loc, meta } => {
            let ghost orig = entries@;
            let ghost ev = pairs_view(orig);
            let ghost dv = dedup_values(ev);
            proof {
                lemma_pairs_view(orig);
                lemma_dedup_values(ev);
            }
            let mut keep: Vec<bool> = Vec::new();
            let mut k: usize = 0;
            while k < entries.len()
                invariant
                    k <= entries@.len(),
                    orig == entries@,
                    ev == pairs_view(orig),
                    keep@.len() == k,
                    forall|q: int| 0 <= q < k ==> #[trigger] keep@[q] == survives(ev, q),
                decreases entries.len() - k,
            {
                keep.push(entry_survives(&entries, k));
                k += 1;
            }
            let mut rest = entries;
            let mut out: Vec<(Node, Node)> = Vec::new();
            let mut i: usize = 0;
            assert(orig.skip(0) =~= orig);
            assert(pairs_view(out@) =~= Seq::<(NodeV, NodeV)>::empty());
            while rest.len() > 0
                invariant
                    i + rest@.len() == orig.len(),
                    rest@ == orig.skip(i as int),
                    keep@.len() == orig.len(),
                    forall|q: int| 0 <= q < orig.len() ==> #[trigger] keep@[q] == survives(ev, q),
                    ev == pairs_view(orig),
                    dv == dedup_values(ev),
                    ev.len() == orig.len(),
                    dv.len() == ev.len(),
                    forall|q: int| 0 <= q < orig.len() ==> #[trigger] ev[q] == (node_view(orig[q].0), node_view(orig[q].1)),
                    forall|q: int| 0 <= q < ev.len() ==> #[trigger] dv[q] == (ev[q].0, dedup_v(ev[q].1)),
                    pairs_size(orig) < node_size(n0),
                    n0 == n,
                    orig.len() <= usize::MAX,
                    n0 matches Node::Mapping { entries: e0, .. } && e0@ == orig,
                    pairs_view(out@) == kept_upto(dv, i as int),
                decreases rest.len(),
            {
                let (key, value) = rest.remove(0);
                assert((key, value) == orig[i as int]);
                assert(rest@ =~= orig.skip(i + 1));
                proof {
                    lemma_pairs_size(orig, i as int);
                    lemma_survives_dedup_values(ev, i as int);
                }
                if keep[i] {
                    let v2 = dedup_node(value);
                    let ghost o = out@;
                    let ghost entry = (key, v2);
                    out.push((key, v2));
                    proof {
                        assert(out@.subrange(0, out@.len() - 1) =~= o);
                        assert(pairs_view(out@) == pairs_view(o).push((node_view(entry.0), node_view(entry.1))));
                    }
                }
                i += 1;
            }
            assert(i == orig.len());
            Node::Mapping { entries: out, style, tag, loc, meta }
        },
        Node::Sequence { items, style, tag, loc, meta } => {
            let ghost orig = items@;
            let item_count = items.len();
            assert(orig.len() == item_count);
            proof {
                lemma_nodes_view(orig);
                lemma_dedup_items(nodes_view(orig));
            }
            let mut rest = items;
            let mut out: Vec<Node> = Vec::new();
            let mut i: usize = 0;
            assert(orig.skip(0) =~= orig);
            assert(nodes_view(out@) =~= Seq::<NodeV>::empty());
            while rest.len() > 0
                invariant
                    i + rest@.len() == orig.len(),
                    rest@ == orig.skip(i as int),
                    nodes_view(orig).len() == orig.len(),
                    forall|q: int| 0 <= q < orig.len() ==> #[trigger] nodes_view(orig)[q] == node_view(orig[q]),
                    dedup_items(nodes_view(orig)).len() == orig.len(),
                    forall|q: int| 0 <= q < orig.len() ==> #[trigger] dedup_items(nodes_view(orig))[q] == dedup_v(nodes_view(orig)[q]),
                    nodes_size(orig) < node_size(n0),
                    n0 == n,
                    orig.len() <= usize::MAX,
                    n0 matches Node::Sequence { items: e0, .. } && e0@ == orig,
                    nodes_view(out@) == dedup_items(nodes_view(orig)).take(i as int),
                decreases rest.len(),
            {
                let item = rest.remove(0);
                assert(item == orig[i as int]);
                assert(rest@ =~= orig.skip(i + 1));
                proof {
                    lemma_nodes_size(orig, i as int);
                }
                let d = dedup_node(item);
                let ghost o = out@;
                out.push(d);
                proof {
                    assert(out@.subrange(0, out@.len() - 1) =~= o);
                    assert(nodes_view(out@) == nodes_view(o).push(node_view(d)));
                    assert(dedup_items(nodes_view(orig)).take(i + 1) =~= dedup_items(nodes_view(orig)).take(i as int).push(dedup_v(nodes_view(orig)[i as int])));
                }
                i += 1;
            }
            assert(dedup_items(nodes_view(orig)).take(i as int) =~= dedup_items(nodes_view(orig)));
            Node::Sequence { items: out, style, tag, loc, meta }
        },
        Node::Scalar { value, style, tag, loc, meta } => Node::Scalar { value, style, tag, loc, meta },
        Node::Alias { name, loc, meta } => Node::Alias { name, loc, meta },
    }
}

/// Remove duplicate mapping keys from the tree, keeping the last
/// occurrence. Complex keys (mappings or sequences as keys) are never
/// removed. Recurses into the values of remaining entries and into
/// sequence items.
pub fn dedup_mapping_keys(node: &mut Node)
    ensures
        node_view(*final(node)) == dedup_v(node_view(*old(node))),
{
    let placeholder = crate::ast::Pos { line: 0, column: 0 };
    let mut tmp = Node::Alias {
        name: String::new(),
        loc: Span { start: placeholder, end: placeholder },
        meta: None,
    };
    core::mem::swap(node, &mut tmp);
    *node = dedup_node(tmp);
}

/// The documents as the formatter lays them out: with the duplicate keys
/// removed throughout when the options ask for it, unchanged otherwise.
pub fn prepare_documents(docs: Vec<crate::ast::Document>, options: &crate::format_options::YamlFormatOptions) -> (r: Vec<crate::ast::Document>)
    ensures
        r@.len() == docs@.len(),
        forall|i: int|
            0 <= i < r@.len() ==> {
                &&& #[trigger] r@[i].explicit_start == docs@[i].explicit_start
                &&& r@[i].explicit_end == docs@[i].explicit_end
                &&& node_view(r@[i].root) == if options.format_remove_duplicate_keys {
                    dedup_v(node_view(docs@[i].root))
                } else {
                    node_view(docs@[i].root)
                }
            },
{
    if !options.format_remove_duplicate_keys {
        return docs;
    }
    let ghost src = docs@;
    let mut rest = docs;
    let mut out: Vec<crate::ast::Document> = Vec::new();
    while rest.len() > 0
        invariant
            out@.len() + rest@.len() == src.len(),
            rest@ == src.skip(out@.len() as int),
            forall|i: int|
                0 <= i < out@.len() ==> {
                    &&& #[trigger] out@[i].explicit_start == src[i].explicit_start
                    &&& out@[i].explicit_end == src[i].explicit_end
                    &&& node_view(out@[i].root) == dedup_v(node_view(src[i].root))
                },
        decreases rest.len(),
    {
        let ghost k = out@.len() as int;
        let mut d = rest.remove(0);
        assert(d == src[k]);
        dedup_mapping_keys(&mut d.root);
        out.push(d);
        assert(rest@ =~= src.skip(out@.len() as int));
    }
    out
}

/// Every entry among the first `n` kept ones is a surviving input entry.
pub open spec fn kept_from_survivors(es: Seq<(NodeV, NodeV)>, n: int) -> bool {
    forall|a: int| 0 <= a < kept_upto(es, n).len() ==> #[trigger] kept_member(es, n, a)
}

/// Kept entry `a` is a surviving input entry among the first `n`.
pub open spec fn kept_member(es: Seq<(NodeV, NodeV)>, n: int, a: int) -> bool {
    exists|i: int| #![trigger es[i]] 0 <= i < n && survives(es, i) && kept_upto(es, n)[a] == es[i]
}

/// Every entry that deduplication keeps is a surviving entry of the input.
pub proof fn lemma_kept_members(es: Seq<(NodeV, NodeV)>, n: int)
    requires
        0 <= n <= es.len(),
    ensures
        kept_from_survivors(es, n),
    decreases n,
{
    if n > 0 {
        lemma_kept_members(es, n - 1);
        let k = kept_upto(es, n - 1);
        assert forall|a: int| 0 <= a < kept_upto(es, n).len() implies #[trigger] kept_member(es, n, a) by {
            if a < k.len() {
                assert(kept_upto(es, n)[a] == k[a]);
                assert(kept_member(es, n - 1, a));
                let i = choose|i: int| #![trigger es[i]] 0 <= i < n - 1 && survives(es, i) && k[a] == es[i];
                assert(0 <= i < n && survives(es, i) && kept_upto(es, n)[a] == es[i]);
            } else {
                assert(survives(es, n - 1));
                assert(kept_upto(es, n)[a] == es[n - 1]);
                assert(0 <= n - 1 < n && survives(es, n - 1) && kept_upto(es, n)[a] == es[n - 1]);
            }
        }
        assert(kept_from_survivors(es, n));
    } else {
        assert(kept_upto(es, n).len() == 0);
    }
}

/// The kept entries among the first `n` have pairwise distinct key texts.
proof fn lemma_kept_distinct_upto(es: Seq<(NodeV, NodeV)>, n: int)
    requires
        0 <= n <= es.len(),
    ensures
        forall|a: int, b: int|
            0 <= a < b < kept_upto(es, n).len() && key_text(kept_upto(es, n)[a].0) is Some ==> #[trigger] key_text(kept_upto(es, n)[a].0) != #[trigger] key_text(kept_upto(es, n)[b].0),
    decreases n,
{
    if n > 0 {
        lemma_kept_distinct_upto(es, n - 1);
        lemma_kept_members(es, n - 1);
        let k = kept_upto(es, n - 1);
        let kn = kept_upto(es, n);
        assert forall|a: int, b: int|
            0 <= a < b < kn.len() && key_text(kn[a].0) is Some implies #[trigger] key_text(kn[a].0) != #[trigger] key_text(kn[b].0) by {
            assert(kn[a] == k[a]);
            if b < k.len() {
                assert(kn[b] == k[b]);
            } else {
                assert(kn[b] == es[n - 1]);
                assert(kept_member(es, n - 1, a));
                let i = choose|i: int| #![trigger es[i]] 0 <= i < n - 1 && survives(es, i) && k[a] == es[i];
                assert(!(i < n - 1 < es.len() && key_text(es[n - 1].0) == key_text(es[i].0)));
            }
        }
    }
}

/// Law: after deduplication a mapping has no two entries with the same key
/// text.
pub proof fn law_kept_keys_distinct(es: Seq<(NodeV, NodeV)>)
    ensures
        forall|a: int, b: int|
            0 <= a < b < kept(es).len() && key_text(kept(es)[a].0) is Some ==> #[trigger] key_text(kept(es)[a].0) != #[trigger] key_text(kept(es)[b].0),
{
    lemma_kept_distinct_upto(es, es.len() as int);
}

/// Law: for every key text of a mapping, deduplication keeps the entry of
/// its last occurrence.
pub proof fn law_last_occurrence_kept(es: Seq<(NodeV, NodeV)>, i: int)
    requires
        0 <= i < es.len(),
        forall|j: int| i < j < es.len() ==> #[trigger] key_text(es[j].0) != key_text(es[i].0),
    ensures
        kept(es).contains(es[i]),
{
    lemma_kept_contains(es, es.len() as int, i);
}

/// Law: entries whose key is a collection (a complex key, which has no key
/// text) are always kept.
pub proof fn law_complex_keys_kept(es: Seq<(NodeV, NodeV)>, i: int)
    requires
        0 <= i < es.len(),
        key_text(es[i].0) is None,
    ensures
        kept(es).contains(es[i]),
{
    lemma_kept_contains(es, es.len() as int, i);
}

proof fn lemma_kept_contains(es: Seq<(NodeV, NodeV)>, n: int, i: int)
    requires
        0 <= i < n <= es.len(),
        survives(es, i),
    ensures
        kept_upto(es, n).contains(es[i]),
    decreases n,
{
    if i == n - 1 {
        assert(kept_upto(es, n).last() == es[i]);
    } else {
        lemma_kept_contains(es, n - 1, i);
        let k = kept_upto(es, n - 1);
        let a = choose|a: int| 0 <= a < k.len() && k[a] == es[i];
        assert(kept_upto(es, n)[a] == es[i]);
    }
}

/// Entries whose keys are pairwise distinct all survive.
proof fn lemma_kept_distinct_identity(es: Seq<(NodeV, NodeV)>, n: int)
    requires
        0 <= n <= es.len(),
        forall|a: int, b: int| 0 <= a < b < es.len() && key_text(es[a].0) is Some ==> #[trigger] key_text(es[a].0) != #[trigger] key_text(es[b].0),
    ensures
        kept_upto(es, n) == es.take(n),
    decreases n,
{
    if n > 0 {
        lemma_kept_distinct_identity(es, n - 1);
        assert(survives(es, n - 1));
        assert(es.take(n) =~= es.take(n - 1).push(es[n - 1]));
    }
}

/// Law: deduplicating twice gives what deduplicating once gives.
pub proof fn law_dedup_idempotent(v: NodeV)
    ensures
        dedup_v(dedup_v(v)) == dedup_v(v),
    decreases v,
{
    match v {
        NodeV::Mapping { entries, style, tag, loc, meta } => {
            let d = dedup_values(entries);
            let k = kept(d);
            lemma_dedup_values(entries);
            lemma_kept_members(d, d.len() as int);
            assert forall|a: int| 0 <= a < k.len() implies dedup_v(#[trigger] k[a].1) == k[a].1 by {
                assert(kept_member(d, d.len() as int, a));
                let i = choose|i: int| #![trigger d[i]] 0 <= i < d.len() && survives(d, i) && k[a] == d[i];
                law_dedup_idempotent(entries[i].1);
            }
            lemma_dedup_values(k);
            assert(dedup_values(k) =~= k);
            law_kept_keys_distinct(d);
            lemma_kept_distinct_identity(k, k.len() as int);
            assert(k.take(k.len() as int) =~= k);
        },
        NodeV::Sequence { items, style, tag, loc, meta } => {
            let d = dedup_items(items);
            lemma_dedup_items(items);
            lemma_dedup_items(d);
            assert forall|a: int| 0 <= a < d.len() implies dedup_v(#[trigger] d[a]) == d[a] by {
                law_dedup_idempotent(items[a]);
            }
            assert(dedup_items(d) =~= d);
        },
        _ => {},
    }
}


pub fn clone_meta(m: &Option<Box<NodeMeta>>) -> (r: Option<Box<NodeMeta>>)
    ensures
        meta_view(r) == meta_view(*m),
{
    match m {
        Some(b) => {
            let mut lc: Vec<String> = Vec::new();
            let mut i: usize = 0;
            while i < b.leading_comments.len()
                invariant
                    i <= b.leading_comments@.len(),
                    lc@.map_values(|c: String| c@) == b.leading_comments@.take(i as int).map_values(|c: String| c@),
                decreases b.leading_comments.len() - i,
            {
                let c = b.leading_comments[i].clone();
                let ghost o = lc@;
                let ghost cv = c@;
                lc.push(c);
                assert(lc@ =~= o.push(c));
                assert(b.leading_comments@.take(i + 1) =~= b.leading_comments@.take(i as int).push(b.leading_comments@[i as int]));
                assert(lc@.map_values(|c: String| c@) =~= o.map_values(|c: String| c@).push(cv));
                assert(lc@.map_values(|c: String| c@) =~= b.leading_comments@.take(i + 1).map_values(|c: String| c@));
                i += 1;
            }
            assert(b.leading_comments@.take(i as int) =~= b.leading_comments@);
            let nm = NodeMeta {
                anchor: match &b.anchor {
                    Some(a) => Some(a.clone()),
                    None => None,
                },
                anchor_loc: b.anchor_loc,
                tag_loc: b.tag_loc,
                leading_comments: lc,
                trailing_comment: match &b.trailing_comment {
                    Some(t) => Some(t.clone()),
                    None => None,
                },
            };
            Some(Box::new(nm))
        },
        None => None,
    }
}

pub fn clone_opt_string(o: &Option<String>) -> (r: Option<String>)
    ensures
        crate::ast::opt_view(r) == crate::ast::opt_view(*o),
{
    match o {
        Some(s) => Some(s.clone()),
        None => None,
    }
}

/// A deep copy of a node.
pub fn clone_node(n: &Node) -> (r: Node)
    ensures
        node_view(r) == node_view(*n),
    decreases node_size(*n),
{
    match n {
        Node::Scalar { value, style, tag, loc, meta } => Node::Scalar {
            value: value.clone(),
            style: *style,
            tag: clone_opt_string(tag),
            loc: *loc,
            meta: clone_meta(meta),
        },
        Node::Alias { name, loc, meta } => Node::Alias { name: name.clone(), loc: *loc, meta: clone_meta(meta) },
        Node::Mapping { entries, style, tag, loc, meta } => {
            let mut out: Vec<(Node, Node)> = Vec::new();
            let mut i: usize = 0;
            proof {
                lemma_pairs_view(entries@);
            }
            while i < entries.len()
                invariant
                    i <= entries@.len(),
                    pairs_size(entries@) < node_size(*n),
                    pairs_view(entries@).len() == entries@.len(),
                    forall|q: int| 0 <= q < entries@.len() ==> #[trigger] pairs_view(entries@)[q] == (node_view(entries@[q].0), node_view(entries@[q].1)),
                    pairs_view(out@) == pairs_view(entries@).take(i as int),
                decreases entries.len() - i,
            {
                proof {
                    lemma_pairs_size(entries@, i as int);
                }
                let k = clone_node(&entries[i].0);
                let v = clone_node(&entries[i].1);
                let ghost o = out@;
                out.push((k, v));
                proof {
                    assert(out@.subrange(0, out@.len() - 1) =~= o);
                    assert(pairs_view(entries@).take(i + 1) =~= pairs_view(entries@).take(i as int).push(pairs_view(entries@)[i as int]));
                }
                i += 1;
            }
            assert(pairs_view(entries@).take(i as int) =~= pairs_view(entries@));
            Node::Mapping { entries: out, style: *style, tag: clone_opt_string(tag), loc: *loc, meta: clone_meta(meta) }
        },
        Node::Sequence { items, style, tag, loc, meta } => {
            let mut out: Vec<Node> = Vec::new();
            let mut i: usize = 0;
            proof {
                lemma_nodes_view(items@);
            }
            while i < items.len()
                invariant
                    i <= items@.len(),
                    nodes_size(items@) < node_size(*n),
                    nodes_view(items@).len() == items@.len(),
                    forall|q: int| 0 <= q < items@.len() ==> #[trigger] nodes_view(items@)[q] == node_view(items@[q]),
                    nodes_view(out@) == nodes_view(items@).take(i as int),
                decreases items.len() - i,
            {
                proof {
                    lemma_nodes_size(items@, i as int);
                }
                let c = clone_node(&items[i]);
                let ghost o = out@;
                out.push(c);
                proof {
                    assert(out@.subrange(0, out@.len() - 1) =~= o);
                    assert(nodes_view(items@).take(i + 1) =~= nodes_view(items@).take(i as int).push(nodes_view(items@)[i as int]));
                }
                i += 1;
            }
            assert(nodes_view(items@).take(i as int) =~= nodes_view(items@));
            Node::Sequence { items: out, style: *style, tag: clone_opt_string(tag), loc: *loc, meta: clone_meta(meta) }
        },
    }
}

} // verus!
