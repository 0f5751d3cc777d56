//! Code actions on single scalars: unquoting quoted booleans, and quoting or
//! converting YAML 1.1 booleans and octal numbers.
//!
//! Each action replaces only the scalar token; the node's anchor and tag
//! stay in the source and are not repeated in the replacement.
use vstd::prelude::*;

use crate::ast::{
    lemma_node_size_pos, lemma_nodes_size, lemma_pairs_size, loc_of, node_size, nodes_size,
    pairs_size, Document, Node, ScalarStyle, Span,
};
use crate::doc::{flat_string, is_flat, DocSpec};
use crate::format_options::YamlFormatOptions;
use crate::lsp::{
    action_view, copy_diagnostic, diag_view, edits_view, has_code, lsp_position, make_action,
    span_to_lsp, CodeAction, CodeActionKind, Diagnostic, Position, Range, TextEdit,
};
use crate::node_render::{node_doc, scalar_body, scalar_doc, scalar_tag_prefix};
use crate::scalar_helpers::{
    is_yaml11_bool, is_yaml11_octal, yaml11_bool_canonical, yaml11_false_text, yaml11_octal_text,
    yaml11_true_text,
};
use crate::text::{push_all, push_lit, str_chars, str_eq, string_from_chars};
use crate::yaml_format::{format_subtree, subtree_text};

verus! {

/// A scalar with no tag and no properties.
pub open spec fn bare_scalar(n: Node) -> bool {
    match n {
        Node::Scalar { style, tag, meta, .. } => tag is None && meta is None && match style {
            ScalarStyle::Literal(_) | ScalarStyle::Folded(_) => false,
            _ => true,
        },
        _ => false,
    }
}

/// The value of a scalar node.
pub open spec fn scalar_value(n: Node) -> Seq<char> {
    match n {
        Node::Scalar { value, .. } => value@,
        _ => seq![],
    }
}

/// The style of a scalar node.
pub open spec fn scalar_style(n: Node) -> ScalarStyle {
    match n {
        Node::Scalar { style, .. } => style,
        _ => ScalarStyle::Plain,
    }
}

/// The text a bare flow scalar is written as: its value in its style.
pub open spec fn scalar_text(value: Seq<char>, style: ScalarStyle, o: YamlFormatOptions) -> Seq<char> {
    flat_string(scalar_body(value, style, o, false))
}

/// A bare flow scalar lays out as one text piece: its value in its style.
pub proof fn lemma_bare_scalar_doc(n: Node, o: YamlFormatOptions)
    requires
        bare_scalar(n),
    ensures
        is_flat(node_doc(n, o, false)),
        flat_string(node_doc(n, o, false)) == scalar_text(scalar_value(n), scalar_style(n), o),
{
    match n {
        Node::Scalar { value, style, tag, .. } => {
            assert(crate::ast::anchor_of(n) is None);
            assert(!crate::ast::has_tag_loc(n));
            assert(scalar_tag_prefix(value@, crate::ast::opt_view(tag), false) is None);
            assert(node_doc(n, o, false) == scalar_body(value@, style, o, false));
            match scalar_body(value@, style, o, false) {
                DocSpec::Text(_) => {},
                _ => {
                    assert(false);
                },
            }
        },
        _ => {},
    }
}

/// The options with source quote styles preserved.
pub open spec fn preserving(o: YamlFormatOptions) -> YamlFormatOptions {
    YamlFormatOptions { preserve_quotes: true, ..o }
}

/// A bare scalar with `value` and `style` at `loc`.
fn bare(value: String, style: ScalarStyle, loc: Span) -> (r: Node)
    requires
        match style {
            ScalarStyle::Literal(_) | ScalarStyle::Folded(_) => false,
            _ => true,
        },
    ensures
        bare_scalar(r),
        scalar_value(r) == value@,
        scalar_style(r) == style,
        loc_of(r) == loc,
{
    Node::Scalar { value, style, tag: None, loc, meta: None }
}

/// The text of a bare flow scalar placed at column `base`.
pub(crate) fn bare_scalar_text(value: String, style: ScalarStyle, loc: Span, options: &YamlFormatOptions, base: usize) -> (r: String)
    requires
        match style {
            ScalarStyle::Literal(_) | ScalarStyle::Folded(_) => false,
            _ => true,
        },
    ensures
        r@ == subtree_text(scalar_text(value@, style, *options), base as nat),
{
    let ghost v = value@;
    let n = bare(value, style, loc);
    proof {
        lemma_bare_scalar_doc(n, *options);
    }
    match format_subtree(&n, options, base) {
        Some(s) => s,
        None => {
            assert(false);
            String::new()
        },
    }
}

/// The range of a source span in LSP positions.
pub open spec fn span_range(loc: Span) -> Range {
    Range { start: lsp_position(loc.start), end: lsp_position(loc.end) }
}

// ---------------------------------------------------------------------------
// Quoted booleans
// ---------------------------------------------------------------------------

/// A quoted scalar `"true"` or `"false"` on `line` whose span holds `col`.
pub open spec fn quoted_bool_hit(n: Node, line: int, col: int) -> bool {
    match n {
        Node::Scalar { style, value, loc, .. } => (style == ScalarStyle::SingleQuoted || style
            == ScalarStyle::DoubleQuoted) && loc.start.line == line && loc.start.column <= col
            <= loc.end.column && (value@ == "true"@ || value@ == "false"@),
        _ => false,
    }
}

/// The first quoted boolean at (`line`, `col`) in a tree, depth first.
pub open spec fn quoted_bool_in_node(n: Node, line: int, col: int) -> Option<Node>
    decreases node_size(n), 0int,
{
    if quoted_bool_hit(n, line, col) {
        Some(n)
    } else {
        match n {
            Node::Mapping { entries, .. } => quoted_bool_in_pairs(entries@, line, col),
            Node::Sequence { items, .. } => quoted_bool_in_items(items@, line, col),
            _ => None,
        }
    }
}

pub open spec fn quoted_bool_in_pairs(es: Seq<(Node, Node)>, line: int, col: int) -> Option<Node>
    decreases pairs_size(es), 1int,
{
    if es.len() == 0 {
        None
    } else {
        proof {
            lemma_node_size_pos(es[es.len() - 1].0);
            lemma_node_size_pos(es[es.len() - 1].1);
        }
        match quoted_bool_in_pairs(es.subrange(0, es.len() - 1), line, col) {
            Some(r) => Some(r),
            None => match quoted_bool_in_node(es[es.len() - 1].0, line, col) {
                Some(r) => Some(r),
                None => quoted_bool_in_node(es[es.len() - 1].1, line, col),
            },
        }
    }
}

pub open spec fn quoted_bool_in_items(s: Seq<Node>, line: int, col: int) -> Option<Node>
    decreases nodes_size(s), 1int,
{
    if s.len() == 0 {
        None
    } else {
        proof {
            lemma_node_size_pos(s[s.len() - 1]);
        }
        match quoted_bool_in_items(s.subrange(0, s.len() - 1), line, col) {
            Some(r) => Some(r),
            None => quoted_bool_in_node(s[s.len() - 1], line, col),
        }
    }
}

/// The first quoted boolean at (`line`, `col`) over the documents.
pub open spec fn quoted_bool_in_docs(docs: Seq<Document>, line: int, col: int) -> Option<Node>
    decreases docs.len(),
{
    if docs.len() == 0 {
        None
    } else {
        match quoted_bool_in_docs(docs.drop_last(), line, col) {
            Some(r) => Some(r),
            None => quoted_bool_in_node(docs.last().root, line, col),
        }
    }
}

fn is_quoted_bool_hit(n: &Node, line: usize, col: usize) -> (r: bool)
    ensures
        r == quoted_bool_hit(*n, line as int, col as int),
{
    match n {
        Node::Scalar { style, value, loc, .. } => {
            let quoted = match style {
                ScalarStyle::SingleQuoted | ScalarStyle::DoubleQuoted => true,
                _ => false,
            };
            quoted && loc.start.line as usize == line && loc.start.column as usize <= col && col
                <= loc.end.column as usize && (str_eq(value.as_str(), "true") || str_eq(
                value.as_str(),
                "false",
            ))
        },
        _ => false,
    }
}

/// Find the quoted boolean scalar at (`line`, `col`) in a tree.
pub fn find_quoted_bool_in_node(n: &Node, line: usize, col: usize) -> (r: Option<&Node>)
    ensures
        match r {
            Some(m) => quoted_bool_in_node(*n, line as int, col as int) == Some(*m),
            None => quoted_bool_in_node(*n, line as int, col as int) is None,
        },
    decreases node_size(*n), 0int,
{
    if is_quoted_bool_hit(n, line, col) {
        return Some(n);
    }
    match n {
        Node::Mapping { entries, .. } => {
            let mut i: usize = 0;
            while i < entries.len()
                invariant
                    i <= entries@.len(),
                    pairs_size(entries@) < node_size(*n),
                    quoted_bool_in_node(*n, line as int, col as int) == quoted_bool_in_pairs(entries@, line as int, col as int),
                    quoted_bool_in_pairs(entries@.take(i as int), line as int, col as int) is None,
                decreases entries.len() - i,
            {
                proof {
                    lemma_pairs_size(entries@, i as int);
                    assert(entries@.take(i + 1).subrange(0, i as int) =~= entries@.take(i as int));
                }
                match find_quoted_bool_in_node(&entries[i].0, line, col) {
                    Some(m) => {
                        proof {
                            lemma_pairs_prefix_found(entries@, i as int, line as int, col as int);
                        }
                        return Some(m);
                    },
                    None => {},
                }
                match find_quoted_bool_in_node(&entries[i].1, line, col) {
                    Some(m) => {
                        proof {
                            lemma_pairs_prefix_found(entries@, i as int, line as int, col as int);
                        }
                        return Some(m);
                    },
                    None => {},
                }
                i += 1;
            }
            assert(entries@.take(i as int) =~= entries@);
            None
        },
        Node::Sequence { items, .. } => {
            let mut i: usize = 0;
            while i < items.len()
                invariant
                    i <= items@.len(),
                    nodes_size(items@) < node_size(*n),
                    quoted_bool_in_node(*n, line as int, col as int) == quoted_bool_in_items(items@, line as int, col as int),
                    quoted_bool_in_items(items@.take(i as int), line as int, col as int) is None,
                decreases items.len() - i,
            {
                proof {
                    lemma_nodes_size(items@, i as int);
                    assert(items@.take(i + 1).subrange(0, i as int) =~= items@.take(i as int));
                }
                match find_quoted_bool_in_node(&items[i], line, col) {
                    Some(m) => {
                        proof {
                            lemma_items_prefix_found(items@, i as int, line as int, col as int);
                        }
                        return Some(m);
                    },
                    None => {},
                }
                i += 1;
            }
            assert(items@.take(i as int) =~= items@);
            None
        },
        _ => None,
    }
}

/// A match in entry `i`, with none before it, is the first match.
proof fn lemma_pairs_prefix_found(es: Seq<(Node, Node)>, i: int, line: int, col: int)
    requires
        0 <= i < es.len(),
        quoted_bool_in_pairs(es.take(i), line, col) is None,
    ensures
        quoted_bool_in_pairs(es, line, col) == match quoted_bool_in_node(es[i].0, line, col) {
            Some(r) => Some(r),
            None => quoted_bool_in_node(es[i].1, line, col),
        } || (quoted_bool_in_node(es[i].0, line, col) is None && quoted_bool_in_node(es[i].1, line, col) is None),
        (quoted_bool_in_node(es[i].0, line, col) is Some || quoted_bool_in_node(es[i].1, line, col) is Some) ==>
            quoted_bool_in_pairs(es, line, col) == match quoted_bool_in_node(es[i].0, line, col) {
                Some(r) => Some(r),
                None => quoted_bool_in_node(es[i].1, line, col),
            },
    decreases es.len() - i,
{
    if i == es.len() - 1 {
        assert(es.subrange(0, es.len() - 1) =~= es.take(i));
    } else {
        let t = es.subrange(0, es.len() - 1);
        assert(t.take(i) =~= es.take(i));
        assert(t[i] == es[i]);
        lemma_pairs_prefix_found(t, i, line, col);
    }
}

/// A match in item `i`, with none before it, is the first match.
proof fn lemma_items_prefix_found(s: Seq<Node>, i: int, line: int, col: int)
    requires
        0 <= i < s.len(),
        quoted_bool_in_items(s.take(i), line, col) is None,
    ensures
        quoted_bool_in_node(s[i], line, col) is Some ==> quoted_bool_in_items(s, line, col) == quoted_bool_in_node(s[i], line, col),
    decreases s.len() - i,
{
    if i == s.len() - 1 {
        assert(s.subrange(0, s.len() - 1) =~= s.take(i));
    } else {
        let t = s.subrange(0, s.len() - 1);
        assert(t.take(i) =~= s.take(i));
        assert(t[i] == s[i]);
        lemma_items_prefix_found(t, i, line, col);
    }
}

/// Find the quoted boolean scalar at (`line`, `col`), line 1-based.
pub fn find_quoted_bool_scalar(docs: &Vec<Document>, line: usize, col: usize) -> (r: Option<&Node>)
    ensures
        match r {
            Some(m) => quoted_bool_in_docs(docs@, line as int, col as int) == Some(*m),
            None => quoted_bool_in_docs(docs@, line as int, col as int) is None,
        },
{
    let mut i: usize = 0;
    while i < docs.len()
        invariant
            i <= docs@.len(),
            quoted_bool_in_docs(docs@.take(i as int), line as int, col as int) is None,
        decreases docs.len() - i,
    {
        assert(docs@.take(i + 1).drop_last() =~= docs@.take(i as int));
        match find_quoted_bool_in_node(&docs[i].root, line, col) {
            Some(m) => {
                proof {
                    lemma_docs_prefix_found(docs@, i as int, line as int, col as int);
                }
                return Some(m);
            },
            None => {},
        }
        i += 1;
    }
    assert(docs@.take(i as int) =~= docs@);
    None
}

proof fn lemma_docs_prefix_found(docs: Seq<Document>, i: int, line: int, col: int)
    requires
        0 <= i < docs.len(),
        quoted_bool_in_docs(docs.take(i), line, col) is None,
    ensures
        quoted_bool_in_node(docs[i].root, line, col) is Some ==> quoted_bool_in_docs(docs, line, col) == quoted_bool_in_node(docs[i].root, line, col),
    decreases docs.len() - i,
{
    if i == docs.len() - 1 {
        assert(docs.drop_last() =~= docs.take(i));
    } else {
        let t = docs.drop_last();
        assert(t.take(i) =~= docs.take(i));
        assert(t[i] == docs[i]);
        lemma_docs_prefix_found(t, i, line, col);
    }
}

/// The quick fix that writes the quoted boolean at the cursor as a plain
/// boolean: `None` unless a quoted `"true"`/`"false"` spans the cursor.
pub open spec fn unquote_action(docs: Seq<Document>, line_idx: int, col: int, o: YamlFormatOptions) -> Option<(Seq<char>, CodeActionKind, Seq<(Range, Seq<char>)>, Option<Seq<(Range, Option<Seq<char>>)>>)> {
    match quoted_bool_in_docs(docs, line_idx + 1, col) {
        Some(n) => Some((
            "Convert quoted string to "@ + scalar_value(n),
            CodeActionKind::QuickFix,
            seq![(span_range(loc_of(n)), subtree_text(scalar_text(scalar_value(n), ScalarStyle::Plain, o), loc_of(n).start.column as nat))],
            None,
        )),
        None => None,
    }
}

/// Convert a quoted boolean (`"true"`, `'false'`) under the cursor to the
/// plain boolean.
pub fn quoted_bool_to_unquoted(docs: &Vec<Document>, line_idx: usize, col: usize, options: &YamlFormatOptions) -> (r: Option<CodeAction>)
    requires
        line_idx < usize::MAX,
    ensures
        match r {
            Some(a) => unquote_action(docs@, line_idx as int, col as int, *options) == Some(action_view(a)),
            None => unquote_action(docs@, line_idx as int, col as int, *options) is None,
        },
{
    let scalar = match find_quoted_bool_scalar(docs, line_idx + 1, col) {
        Some(s) => s,
        None => {
            return None;
        },
    };
    let value = scalar_value_of(scalar);
    let loc = crate::ast::node_loc(scalar);
    let new_text = bare_scalar_text(value.clone(), ScalarStyle::Plain, loc, options, loc.start.column as usize);
    let mut title = str_chars("Convert quoted string to ");
    push_all(&mut title, &str_chars(value.as_str()));
    let ghost nt = new_text@;
    let edit = TextEdit { range: span_to_lsp(loc), new_text };
    let mut edits: Vec<TextEdit> = Vec::new();
    edits.push(edit);
    let a = make_action(string_from_chars(&title), edits, CodeActionKind::QuickFix, None);
    assert(edits_view(a.edits@) =~= seq![(span_range(loc), nt)]);
    Some(a)
}

/// A copy of a scalar's value (empty for other nodes).
pub fn scalar_value_of(n: &Node) -> (r: String)
    ensures
        r@ == scalar_value(*n),
{
    match n {
        Node::Scalar { value, .. } => value.clone(),
        _ => String::new(),
    }
}

} // verus!
