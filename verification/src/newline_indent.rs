//! Indentation of a new line, read from the parsed documents: after a key
//! whose value is still to come, one level deeper than the key; after an
//! inline value, at the key's column; after a sequence item, at the
//! sequence's column.
use vstd::prelude::*;

use crate::ast::{
    lemma_node_size_pos, lemma_nodes_size, lemma_pairs_size, loc_of, node_loc, node_size,
    nodes_size, pairs_size, Document, Node, ScalarStyle,
};
use crate::lsp::{Position, Range, TextEdit};
use crate::on_type_formatting::is_newline_trigger;
use crate::text::{eq_lit, spaces, spaces_vec, str_chars, string_from_chars};

verus! {

/// `a + b`, or `usize::MAX` when that does not fit.
pub open spec fn sat_add(a: int, b: int) -> int {
    if a + b > usize::MAX {
        usize::MAX as int
    } else {
        a + b
    }
}

/// The node is a literal or folded block scalar.
pub open spec fn block_scalar(n: Node) -> bool {
    match n {
        Node::Scalar { style, .. } => style is Literal || style is Folded,
        _ => false,
    }
}

pub open spec fn start_line(n: Node) -> int {
    loc_of(n).start.line as int
}

pub open spec fn start_col(n: Node) -> int {
    loc_of(n).start.column as int
}

/// The indentation this subtree gives the line after 1-based line `pl`, or
/// `None` when the line falls outside it.
pub open spec fn indent_in(n: Node, pl: int, tab: int) -> Option<int>
    decreases node_size(n), 0int, 0int,
{
    match n {
        Node::Mapping { entries, .. } => indent_pairs(entries@, 0, pl, tab),
        Node::Sequence { items, loc, .. } => indent_items(items@, 0, loc.start.column as int, pl, tab),
        _ => None,
    }
}

/// The entries from `i` on, in order: a key and inline value on line `pl`
/// give the key's column (a block scalar one level more, a nested
/// collection its own answer); a key on `pl` or before with its value after
/// `pl` gives one level more than the key; a value that starts by `pl` is
/// looked into.
pub open spec fn indent_pairs(es: Seq<(Node, Node)>, i: int, pl: int, tab: int) -> Option<int>
    decreases pairs_size(es), 1int, es.len() - i,
{
    if i < 0 || i >= es.len() {
        None
    } else {
        let k = es[i].0;
        let v = es[i].1;
        let kl = start_line(k);
        let vl = start_line(v);
        let kc = start_col(k);
        proof {
            lemma_pairs_size(es, i);
            lemma_node_size_pos(k);
        }
        if kl == pl && vl == pl {
            if block_scalar(v) {
                Some(sat_add(kc, tab))
            } else {
                match indent_in(v, pl, tab) {
                    Some(x) => Some(x),
                    None => Some(kc),
                }
            }
        } else if kl == pl && vl > pl {
            Some(sat_add(kc, tab))
        } else if kl < pl && vl > pl {
            Some(sat_add(kc, tab))
        } else if vl <= pl {
            match indent_in(v, pl, tab) {
                Some(x) => Some(x),
                None => indent_pairs(es, i + 1, pl, tab),
            }
        } else {
            indent_pairs(es, i + 1, pl, tab)
        }
    }
}

/// The items from `i` on: an item starting on `pl` gives the sequence's
/// column; otherwise the item is looked into.
pub open spec fn indent_items(s: Seq<Node>, i: int, col: int, pl: int, tab: int) -> Option<int>
    decreases nodes_size(s), 1int, s.len() - i,
{
    if i < 0 || i >= s.len() {
        None
    } else if start_line(s[i]) == pl {
        Some(col)
    } else {
        proof {
            lemma_nodes_size(s, i);
        }
        match indent_in(s[i], pl, tab) {
            Some(x) => Some(x),
            None => indent_items(s, i + 1, col, pl, tab),
        }
    }
}

/// The first document from `i` on that gives the line an indentation.
pub open spec fn indent_docs(docs: Seq<Document>, i: int, pl: int, tab: int) -> Option<int>
    decreases docs.len() - i,
{
    if i < 0 || i >= docs.len() {
        None
    } else {
        match indent_in(docs[i].root, pl, tab) {
            Some(x) => Some(x),
            None => indent_docs(docs, i + 1, pl, tab),
        }
    }
}

fn is_block_scalar_node(n: &Node) -> (r: bool)
    ensures
        r == block_scalar(*n),
{
    match n {
        Node::Scalar { style, .. } => match style {
            ScalarStyle::Literal(_) => true,
            ScalarStyle::Folded(_) => true,
            _ => false,
        },
        _ => false,
    }
}

/// The indentation `node` gives the line after 1-based line `prev_line`.
pub fn node_indent(node: &Node, prev_line: usize, tab_size: usize) -> (r: Option<usize>)
    ensures
        match r {
            Some(x) => indent_in(*node, prev_line as int, tab_size as int) == Some(x as int),
            None => indent_in(*node, prev_line as int, tab_size as int) is None,
        },
    decreases node_size(*node),
{
    let ghost pl = prev_line as int;
    let ghost tab = tab_size as int;
    match node {
        Node::Mapping { entries, .. } => {
            let mut i: usize = 0;
            while i < entries.len()
                invariant
                    i <= entries@.len(),
                    pl == prev_line,
                    tab == tab_size,
                    pairs_size(entries@) < node_size(*node),
                    indent_in(*node, pl, tab) == indent_pairs(entries@, i as int, pl, tab),
                decreases entries.len() - i,
            {
                let k = &entries[i].0;
                let v = &entries[i].1;
                let kl = node_loc(k).start.line as usize;
                let vl = node_loc(v).start.line as usize;
                let kc = node_loc(k).start.column as usize;
                proof {
                    lemma_pairs_size(entries@, i as int);
                    lemma_node_size_pos(*k);
                }
                if kl == prev_line && vl == prev_line {
                    if is_block_scalar_node(v) {
                        return Some(kc.saturating_add(tab_size));
                    }
                    return match node_indent(v, prev_line, tab_size) {
                        Some(x) => Some(x),
                        None => Some(kc),
                    };
                }
                if kl == prev_line && vl > prev_line {
                    return Some(kc.saturating_add(tab_size));
                }
                if kl < prev_line && vl > prev_line {
                    return Some(kc.saturating_add(tab_size));
                }
                if vl <= prev_line {
                    match node_indent(v, prev_line, tab_size) {
                        Some(x) => {
                            return Some(x);
                        },
                        None => {},
                    }
                }
                i += 1;
            }
            None
        },
        Node::Sequence { items, loc, .. } => {
            let col = loc.start.column as usize;
            let mut i: usize = 0;
            while i < items.len()
                invariant
                    i <= items@.len(),
                    pl == prev_line,
                    tab == tab_size,
                    col == loc_of(*node).start.column,
                    nodes_size(items@) < node_size(*node),
                    indent_in(*node, pl, tab) == indent_items(items@, i as int, col as int, pl, tab),
                decreases items.len() - i,
            {
                let item = &items[i];
                if node_loc(item).start.line as usize == prev_line {
                    return Some(col);
                }
                proof {
                    lemma_nodes_size(items@, i as int);
                }
                match node_indent(item, prev_line, tab_size) {
                    Some(x) => {
                        return Some(x);
                    },
                    None => {},
                }
                i += 1;
            }
            None
        },
        _ => None,
    }
}

/// The indentation of the line after 1-based line `prev_line`, from the
/// first document that gives one.
pub fn indent_for_prev_line(docs: &Vec<Document>, prev_line: usize, tab_size: usize) -> (r: Option<usize>)
    ensures
        match r {
            Some(x) => indent_docs(docs@, 0, prev_line as int, tab_size as int) == Some(x as int),
            None => indent_docs(docs@, 0, prev_line as int, tab_size as int) is None,
        },
{
    let mut i: usize = 0;
    while i < docs.len()
        invariant
            i <= docs@.len(),
            indent_docs(docs@, 0, prev_line as int, tab_size as int) == indent_docs(
                docs@,
                i as int,
                prev_line as int,
                tab_size as int,
            ),
        decreases docs.len() - i,
    {
        match node_indent(&docs[i].root, prev_line, tab_size) {
            Some(x) => {
                return Some(x);
            },
            None => {},
        }
        i += 1;
    }
    None
}

/// The indentation of a new line typed after LSP line `line - 1`: what the
/// documents give (a tab size of 0 counting as 2), else 0.
pub open spec fn new_line_indent(docs: Seq<Document>, line: int, tab_size: int) -> int {
    let tab = if tab_size == 0 {
        2
    } else {
        tab_size
    };
    match indent_docs(docs, 0, line, tab) {
        Some(x) => x,
        None => 0,
    }
}

/// Computes the edit for on-type formatting when a newline is typed: the
/// new line's text up to the cursor becomes the indentation the documents
/// give for it. Only handles `ch == "\n"` on a line after the first;
/// returns an empty vec otherwise.
pub fn format_on_type(docs: &Vec<Document>, position: Position, ch: &str, tab_size: u32) -> (r: Vec<TextEdit>)
    ensures
        !is_newline_trigger(ch@) || position.line == 0 ==> r@.len() == 0,
        is_newline_trigger(ch@) && position.line > 0 ==> {
            &&& r@.len() == 1
            &&& r@[0].range == Range { start: Position { line: position.line, character: 0 }, end: position }
            &&& r@[0].new_text@ == spaces(new_line_indent(docs@, position.line as int, tab_size as int) as nat)
        },
{
    let chv = str_chars(ch);
    if !eq_lit(&chv, "\n") {
        return Vec::new();
    }
    if position.line == 0 {
        return Vec::new();
    }
    let tab: usize = if tab_size == 0 {
        2
    } else {
        tab_size as usize
    };
    let indent = match indent_for_prev_line(docs, position.line as usize, tab) {
        Some(x) => x,
        None => 0,
    };
    let sp = spaces_vec(indent);
    let mut out: Vec<TextEdit> = Vec::new();
    out.push(
        TextEdit {
            range: Range { start: Position { line: position.line, character: 0 }, end: position },
            new_text: string_from_chars(sp.as_slice()),
        },
    );
    out
}

} // verus!
