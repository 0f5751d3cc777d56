//! The YAML syntax tree that the formatter and the code actions work on.
//!
//! A parser fills it in: every node carries its source span and its
//! properties (anchor, tag, attached comments).
use vstd::prelude::*;

verus! {

/// A source position as the parser's line index resolves it: the 1-based
/// line and the 0-based column in characters.
#[derive(Debug, Clone, Copy, PartialEq, Eq, Structural)]
pub struct Pos {
    pub line: u32,
    pub column: u32,
}

/// The source span of a node, from `start` to `end`.
#[derive(Debug, Clone, Copy, PartialEq, Eq, Structural)]
pub struct Span {
    pub start: Pos,
    pub end: Pos,
}

/// Block scalar chomping indicator.
#[derive(Debug, Clone, Copy, PartialEq, Eq, Structural)]
pub enum Chomp {
    Strip,
    Clip,
    Keep,
}

/// How a scalar was written in the source.
#[derive(Debug, Clone, Copy, PartialEq, Eq, Structural)]
pub enum ScalarStyle {
    Plain,
    SingleQuoted,
    DoubleQuoted,
    Literal(Chomp),
    Folded(Chomp),
}

/// How a collection was written in the source.
#[derive(Debug, Clone, Copy, PartialEq, Eq, Structural)]
pub enum CollectionStyle {
    Block,
    Flow,
}

/// Node properties and the comments the parser attached to the node.
#[derive(Debug)]
pub struct NodeMeta {
    pub anchor: Option<String>,
    pub anchor_loc: Option<Span>,
    pub tag_loc: Option<Span>,
    pub leading_comments: Vec<String>,
    pub trailing_comment: Option<String>,
}

/// A YAML node.
#[derive(Debug)]
pub enum Node {
    Scalar {
        value: String,
        style: ScalarStyle,
        tag: Option<String>,
        loc: Span,
        meta: Option<Box<NodeMeta>>,
    },
    Mapping {
        entries: Vec<(Node, Node)>,
        style: CollectionStyle,
        tag: Option<String>,
        loc: Span,
        meta: Option<Box<NodeMeta>>,
    },
    Sequence {
        items: Vec<Node>,
        style: CollectionStyle,
        tag: Option<String>,
        loc: Span,
        meta: Option<Box<NodeMeta>>,
    },
    Alias { name: String, loc: Span, meta: Option<Box<NodeMeta>> },
}

/// A YAML document of a stream.
#[derive(Debug)]
pub struct Document {
    pub root: Node,
    pub explicit_start: bool,
    pub explicit_end: bool,
}

/// The properties record of a node.
pub open spec fn meta_of(n: Node) -> Option<Box<NodeMeta>> {
    match n {
        Node::Scalar { meta, .. } => meta,
        Node::Mapping { meta, .. } => meta,
        Node::Sequence { meta, .. } => meta,
        Node::Alias { meta, .. } => meta,
    }
}

/// The node's anchor name, if it has one.
pub open spec fn anchor_of(n: Node) -> Option<Seq<char>> {
    match meta_of(n) {
        Some(m) => match m.anchor {
            Some(a) => Some(a@),
            None => None,
        },
        None => None,
    }
}

/// The tag was written in the source (its location is known).
pub open spec fn has_tag_loc(n: Node) -> bool {
    match meta_of(n) {
        Some(m) => m.tag_loc is Some,
        None => false,
    }
}

/// The comment on the node's last line, if any.
pub open spec fn trailing_comment_of(n: Node) -> Option<Seq<char>> {
    match meta_of(n) {
        Some(m) => opt_view(m.trailing_comment),
        None => None,
    }
}

/// The comment lines that precede the node.
pub open spec fn leading_comments_of(n: Node) -> Seq<Seq<char>> {
    match meta_of(n) {
        Some(m) => m.leading_comments@.map_values(|c: String| c@),
        None => seq![],
    }
}

/// The source span of a node.
pub open spec fn loc_of(n: Node) -> Span {
    match n {
        Node::Scalar { loc, .. } => loc,
        Node::Mapping { loc, .. } => loc,
        Node::Sequence { loc, .. } => loc,
        Node::Alias { loc, .. } => loc,
    }
}

pub open spec fn opt_view(o: Option<String>) -> Option<Seq<char>> {
    match o {
        Some(s) => Some(s@),
        None => None,
    }
}

/// The number of nodes in a tree.
pub open spec fn node_size(n: Node) -> nat
    decreases n,
{
    match n {
        Node::Mapping { entries, .. } => 1 + pairs_size(entries@),
        Node::Sequence { items, .. } => 1 + nodes_size(items@),
        _ => 1,
    }
}

/// The number of nodes in a list of key-value pairs.
pub open spec fn pairs_size(s: Seq<(Node, Node)>) -> nat
    decreases s,
{
    if s.len() == 0 {
        0
    } else {
        pairs_size(s.subrange(0, s.len() - 1)) + node_size(s[s.len() - 1].0) + node_size(
            s[s.len() - 1].1,
        )
    }
}

/// The number of nodes in a list of nodes.
pub open spec fn nodes_size(s: Seq<Node>) -> nat
    decreases s,
{
    if s.len() == 0 {
        0
    } else {
        nodes_size(s.subrange(0, s.len() - 1)) + node_size(s[s.len() - 1])
    }
}

/// A tree has at least one node.
pub proof fn lemma_node_size_pos(n: Node)
    ensures
        node_size(n) >= 1,
{
}

/// Every pair of a list is no larger than the list.
pub proof fn lemma_pairs_size(s: Seq<(Node, Node)>, i: int)
    requires
        0 <= i < s.len(),
    ensures
        node_size(s[i].0) + node_size(s[i].1) <= pairs_size(s),
    decreases s.len(),
{
    if i < s.len() - 1 {
        let t = s.subrange(0, s.len() - 1);
        assert(t[i] == s[i]);
        lemma_pairs_size(t, i);
    }
}

/// Every item of a list is no larger than the list.
pub proof fn lemma_nodes_size(s: Seq<Node>, i: int)
    requires
        0 <= i < s.len(),
    ensures
        node_size(s[i]) <= nodes_size(s),
    decreases s.len(),
{
    if i < s.len() - 1 {
        let t = s.subrange(0, s.len() - 1);
        assert(t[i] == s[i]);
        lemma_nodes_size(t, i);
    }
}

/// The node's anchor name.
pub fn anchor(n: &Node) -> (r: Option<&String>)
    ensures
        opt_view(match r {
            Some(s) => Some(*s),
            None => None,
        }) == anchor_of(*n),
{
    let m = match n {
        Node::Scalar { meta, .. } => meta,
        Node::Mapping { meta, .. } => meta,
        Node::Sequence { meta, .. } => meta,
        Node::Alias { meta, .. } => meta,
    };
    match m {
        Some(m) => match &m.anchor {
            Some(a) => Some(a),
            None => None,
        },
        None => None,
    }
}

/// `true` when the node's tag was written in the source.
pub fn tag_loc_is_some(n: &Node) -> (r: bool)
    ensures
        r == has_tag_loc(*n),
{
    let m = match n {
        Node::Scalar { meta, .. } => meta,
        Node::Mapping { meta, .. } => meta,
        Node::Sequence { meta, .. } => meta,
        Node::Alias { meta, .. } => meta,
    };
    match m {
        Some(m) => m.tag_loc.is_some(),
        None => false,
    }
}

/// The node's trailing comment.
pub fn trailing_comment(n: &Node) -> (r: Option<&String>)
    ensures
        opt_view(match r {
            Some(s) => Some(*s),
            None => None,
        }) == trailing_comment_of(*n),
{
    let m = match n {
        Node::Scalar { meta, .. } => meta,
        Node::Mapping { meta, .. } => meta,
        Node::Sequence { meta, .. } => meta,
        Node::Alias { meta, .. } => meta,
    };
    match m {
        Some(m) => match &m.trailing_comment {
            Some(c) => Some(c),
            None => None,
        },
        None => None,
    }
}

/// The node's leading comments (empty when it has none).
pub fn leading_comments(n: &Node) -> (r: Option<&Vec<String>>)
    ensures
        match r {
            Some(v) => v@.map_values(|c: String| c@) == leading_comments_of(*n),
            None => leading_comments_of(*n) == Seq::<Seq<char>>::empty(),
        },
{
    let m = match n {
        Node::Scalar { meta, .. } => meta,
        Node::Mapping { meta, .. } => meta,
        Node::Sequence { meta, .. } => meta,
        Node::Alias { meta, .. } => meta,
    };
    match m {
        Some(m) => Some(&m.leading_comments),
        None => None,
    }
}

/// The node's source span.
pub fn node_loc(n: &Node) -> (r: Span)
    ensures
        r == loc_of(*n),
{
    match n {
        Node::Scalar { loc, .. } => *loc,
        Node::Mapping { loc, .. } => *loc,
        Node::Sequence { loc, .. } => *loc,
        Node::Alias { loc, .. } => *loc,
    }
}

} // verus!
