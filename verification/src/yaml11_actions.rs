//! Quick fixes for plain scalars that YAML 1.1 and YAML 1.2 read
//! differently: booleans such as `yes`/`off` and octal numbers such as
//! `0755`.
use vstd::prelude::*;

use crate::ast::{
    lemma_node_size_pos, lemma_nodes_size, lemma_pairs_size, loc_of, node_loc, node_size,
    nodes_size, pairs_size, Document, Node, ScalarStyle,
};
use crate::format_options::YamlFormatOptions;
use crate::lsp::{
    action_view, copy_diagnostic, diag_view, edits_view, has_code, make_action, span_to_lsp,
    CodeAction, CodeActionKind, Diagnostic, Range, TextEdit,
};
use crate::scalar_actions::{
    bare_scalar_text, preserving, scalar_text, scalar_value, scalar_value_of, span_range,
};
use crate::scalar_helpers::{
    is_yaml11_bool, is_yaml11_octal, yaml11_bool_canonical, yaml11_false_text, yaml11_octal_text,
    yaml11_true_text,
};
use crate::text::{push_all, str_chars, string_from_chars};
use crate::yaml_format::subtree_text;

verus! {

/// Which YAML 1.1 reading an action is about.
#[derive(Debug, Clone, Copy, PartialEq, Eq, Structural)]
pub enum Yaml11Kind {
    Bool,
    Octal,
}

/// The text is a YAML 1.1 boolean or octal number, as `kind` asks.
pub open spec fn yaml11_text(kind: Yaml11Kind, s: Seq<char>) -> bool {
    match kind {
        Yaml11Kind::Bool => yaml11_true_text(s) || yaml11_false_text(s),
        Yaml11Kind::Octal => yaml11_octal_text(s),
    }
}

/// The diagnostic code whose range gives the scalar's exact columns.
pub open spec fn exact_code(kind: Yaml11Kind) -> Seq<char> {
    match kind {
        Yaml11Kind::Bool => "yaml11Boolean"@,
        Yaml11Kind::Octal => "yaml11Octal"@,
    }
}

/// A plain scalar on `line` (1-based) holding a YAML 1.1 value of `kind`.
pub open spec fn plain_on_line(n: Node, line: int, kind: Yaml11Kind) -> bool {
    match n {
        Node::Scalar { style: ScalarStyle::Plain, value, loc, .. } => loc.start.line == line && yaml11_text(kind, value@),
        _ => false,
    }
}

/// Such a scalar whose columns equal the diagnostic's, when `exact`.
pub open spec fn yaml11_hit(n: Node, line: int, dr: Range, exact: bool, kind: Yaml11Kind) -> bool {
    plain_on_line(n, line, kind) && (!exact || (dr.start.character == loc_of(n).start.column
        && dr.end.character == loc_of(n).end.column))
}

/// The first target scalar in a tree, depth first, with the column its
/// replacement is indented to (the key's column for mapping values).
pub open spec fn yaml11_in_node(n: Node, line: int, dr: Range, exact: bool, kind: Yaml11Kind) -> Option<(Node, int)>
    decreases node_size(n), 0int,
{
    match n {
        Node::Mapping { entries, .. } => yaml11_in_pairs(entries@, line, dr, exact, kind),
        Node::Sequence { items, .. } => yaml11_in_items(items@, line, dr, exact, kind),
        _ => None,
    }
}

pub open spec fn yaml11_in_pairs(es: Seq<(Node, Node)>, line: int, dr: Range, exact: bool, kind: Yaml11Kind) -> Option<(Node, int)>
    decreases pairs_size(es), 1int,
{
    if es.len() == 0 {
        None
    } else {
        proof {
            lemma_node_size_pos(es[es.len() - 1].0);
            lemma_node_size_pos(es[es.len() - 1].1);
        }
        match yaml11_in_pairs(es.subrange(0, es.len() - 1), line, dr, exact, kind) {
            Some(r) => Some(r),
            None => {
                let k = es[es.len() - 1].0;
                let v = es[es.len() - 1].1;
                if yaml11_hit(v, line, dr, exact, kind) {
                    Some((v, loc_of(k).start.column as int))
                } else {
                    match yaml11_in_node(k, line, dr, exact, kind) {
                        Some(r) => Some(r),
                        None => yaml11_in_node(v, line, dr, exact, kind),
                    }
                }
            },
        }
    }
}

pub open spec fn yaml11_in_items(s: Seq<Node>, line: int, dr: Range, exact: bool, kind: Yaml11Kind) -> Option<(Node, int)>
    decreases nodes_size(s), 1int,
{
    if s.len() == 0 {
        None
    } else {
        proof {
            lemma_node_size_pos(s[s.len() - 1]);
        }
        match yaml11_in_items(s.subrange(0, s.len() - 1), line, dr, exact, kind) {
            Some(r) => Some(r),
            None => {
                let it = s[s.len() - 1];
                if yaml11_hit(it, line, dr, exact, kind) {
                    Some((it, loc_of(it).start.column as int))
                } else {
                    yaml11_in_node(it, line, dr, exact, kind)
                }
            },
        }
    }
}

pub open spec fn yaml11_in_docs(docs: Seq<Document>, line: int, dr: Range, exact: bool, kind: Yaml11Kind) -> Option<(Node, int)>
    decreases docs.len(),
{
    if docs.len() == 0 {
        None
    } else {
        match yaml11_in_docs(docs.drop_last(), line, dr, exact, kind) {
            Some(r) => Some(r),
            None => yaml11_in_node(docs.last().root, line, dr, exact, kind),
        }
    }
}

/// 1 for a plain scalar on `line` holding a value of `kind`, 0 otherwise.
pub open spec fn plain_count(n: Node, line: int, kind: Yaml11Kind) -> nat {
    if plain_on_line(n, line, kind) {
        1
    } else {
        0
    }
}

/// The number of target scalars on `line` below a collection: mapping
/// values and sequence items that are plain scalars count themselves; other
/// children count what is below them.
pub open spec fn yaml11_count(n: Node, line: int, kind: Yaml11Kind) -> nat
    decreases node_size(n), 0int,
{
    match n {
        Node::Mapping { entries, .. } => yaml11_count_pairs(entries@, line, kind),
        Node::Sequence { items, .. } => yaml11_count_items(items@, line, kind),
        _ => 0,
    }
}

/// The node is a plain scalar.
pub open spec fn is_plain_scalar(n: Node) -> bool {
    n matches Node::Scalar { style: ScalarStyle::Plain, .. }
}

pub open spec fn yaml11_count_pairs(es: Seq<(Node, Node)>, line: int, kind: Yaml11Kind) -> nat
    decreases pairs_size(es), 1int,
{
    if es.len() == 0 {
        0
    } else {
        proof {
            lemma_node_size_pos(es[es.len() - 1].0);
            lemma_node_size_pos(es[es.len() - 1].1);
        }
        let k = es[es.len() - 1].0;
        let v = es[es.len() - 1].1;
        yaml11_count_pairs(es.subrange(0, es.len() - 1), line, kind) + yaml11_count(k, line, kind) + if is_plain_scalar(v) {
            plain_count(v, line, kind)
        } else {
            yaml11_count(v, line, kind)
        }
    }
}

pub open spec fn yaml11_count_items(s: Seq<Node>, line: int, kind: Yaml11Kind) -> nat
    decreases nodes_size(s), 1int,
{
    if s.len() == 0 {
        0
    } else {
        proof {
            lemma_node_size_pos(s[s.len() - 1]);
        }
        let it = s[s.len() - 1];
        yaml11_count_items(s.subrange(0, s.len() - 1), line, kind) + if is_plain_scalar(it) {
            plain_count(it, line, kind)
        } else {
            yaml11_count(it, line, kind)
        }
    }
}

pub open spec fn yaml11_count_docs(docs: Seq<Document>, line: int, kind: Yaml11Kind) -> nat
    decreases docs.len(),
{
    if docs.len() == 0 {
        0
    } else {
        yaml11_count_docs(docs.drop_last(), line, kind) + yaml11_count(docs.last().root, line, kind)
    }
}

/// The scalar a diagnostic is about: with the exact code, the target whose
/// columns match; with another code, the only target on the line (none
/// when there are several).
pub open spec fn yaml11_target(docs: Seq<Document>, d: (Range, Option<Seq<char>>), kind: Yaml11Kind) -> Option<(Node, int)> {
    let exact = d.1 == Some(exact_code(kind));
    let line = d.0.start.line + 1;
    if !exact && yaml11_count_docs(docs, line, kind) != 1 {
        None
    } else {
        yaml11_in_docs(docs, line, d.0, exact, kind)
    }
}

/// `n`, at most `usize::MAX`.
pub open spec fn sat(n: nat) -> nat {
    if n > usize::MAX {
        usize::MAX as nat
    } else {
        n
    }
}

fn sat_plus(a: usize, b: usize) -> (r: usize)
    ensures
        r == sat((a + b) as nat),
{
    a.saturating_add(b)
}

fn is_yaml11(kind: Yaml11Kind, value: &str) -> (r: bool)
    ensures
        r == yaml11_text(kind, value@),
{
    match kind {
        Yaml11Kind::Bool => is_yaml11_bool(value),
        Yaml11Kind::Octal => is_yaml11_octal(value),
    }
}

fn on_line(n: &Node, line: u64, kind: Yaml11Kind) -> (r: bool)
    ensures
        r == plain_on_line(*n, line as int, kind),
{
    match n {
        Node::Scalar { style: ScalarStyle::Plain, value, loc, .. } => loc.start.line as u64 == line && is_yaml11(kind, value.as_str()),
        _ => false,
    }
}

fn plain_scalar(n: &Node) -> (r: bool)
    ensures
        r == is_plain_scalar(*n),
{
    match n {
        Node::Scalar { style: ScalarStyle::Plain, .. } => true,
        _ => false,
    }
}

proof fn lemma_sat_add(a: nat, b: nat)
    ensures
        sat(sat(a) + sat(b)) == sat(a + b),
{
}

/// Count the target scalars on `line` (1-based) below a node, saturating
/// at `usize::MAX`.
pub fn count_yaml11_on_line(n: &Node, line: u64, kind: Yaml11Kind) -> (r: usize)
    ensures
        r as nat == sat(yaml11_count(*n, line as int, kind)),
    decreases node_size(*n), 0int,
{
    match n {
        Node::Mapping { entries, .. } => {
            let mut acc: usize = 0;
            let mut i: usize = 0;
            while i < entries.len()
                invariant
                    i <= entries@.len(),
                    pairs_size(entries@) < node_size(*n),
                    yaml11_count(*n, line as int, kind) == yaml11_count_pairs(entries@, line as int, kind),
                    acc as nat == sat(yaml11_count_pairs(entries@.take(i as int), line as int, kind)),
                decreases entries.len() - i,
            {
                proof {
                    lemma_pairs_size(entries@, i as int);
                    assert(entries@.take(i + 1).subrange(0, i as int) =~= entries@.take(i as int));
                    assert(entries@.take(i + 1)[i as int] == entries@[i as int]);
                }
                let k = &entries[i].0;
                let v = &entries[i].1;
                let kc = count_yaml11_on_line(k, line, kind);
                let vc: usize = if plain_scalar(v) {
                    if on_line(v, line, kind) {
                        1
                    } else {
                        0
                    }
                } else {
                    count_yaml11_on_line(v, line, kind)
                };
                let ghost a0 = yaml11_count_pairs(entries@.take(i as int), line as int, kind);
                let ghost kc0 = yaml11_count(*k, line as int, kind);
                let ghost vc0 = if is_plain_scalar(*v) { plain_count(*v, line as int, kind) } else { yaml11_count(*v, line as int, kind) };
                acc = sat_plus(sat_plus(acc, kc), vc);
                proof {
                    lemma_sat_add(a0, kc0);
                    lemma_sat_add(a0 + kc0, vc0);
                }
                i += 1;
            }
            assert(entries@.take(i as int) =~= entries@);
            acc
        },
        Node::Sequence { items, .. } => {
            let mut acc: usize = 0;
            let mut i: usize = 0;
            while i < items.len()
                invariant
                    i <= items@.len(),
                    nodes_size(items@) < node_size(*n),
                    yaml11_count(*n, line as int, kind) == yaml11_count_items(items@, line as int, kind),
                    acc as nat == sat(yaml11_count_items(items@.take(i as int), line as int, kind)),
                decreases items.len() - i,
            {
                proof {
                    lemma_nodes_size(items@, i as int);
                    assert(items@.take(i + 1).subrange(0, i as int) =~= items@.take(i as int));
                    assert(items@.take(i + 1)[i as int] == items@[i as int]);
                }
                let it = &items[i];
                let c: usize = if plain_scalar(it) {
                    if on_line(it, line, kind) {
                        1
                    } else {
                        0
                    }
                } else {
                    count_yaml11_on_line(it, line, kind)
                };
                let ghost a0 = yaml11_count_items(items@.take(i as int), line as int, kind);
                let ghost c0 = if is_plain_scalar(*it) { plain_count(*it, line as int, kind) } else { yaml11_count(*it, line as int, kind) };
                acc = sat_plus(acc, c);
                proof {
                    lemma_sat_add(a0, c0);
                }
                i += 1;
            }
            assert(items@.take(i as int) =~= items@);
            acc
        },
        _ => 0,
    }
}

fn is_hit(n: &Node, line: u64, diag: &Diagnostic, exact: bool, kind: Yaml11Kind) -> (r: bool)
    ensures
        r == yaml11_hit(*n, line as int, diag.range, exact, kind),
{
    on_line(n, line, kind) && (!exact || {
        let loc = node_loc(n);
        diag.range.start.character == loc.start.column && diag.range.end.character == loc.end.column
    })
}

/// Find the target scalar below a node, with its replacement's column.
pub fn find_yaml11_in_node<'a>(n: &'a Node, line: u64, diag: &Diagnostic, exact: bool, kind: Yaml11Kind) -> (r: Option<(&'a Node, usize)>)
    ensures
        match r {
            Some((m, c)) => yaml11_in_node(*n, line as int, diag.range, exact, kind) == Some((*m, c as int)),
            None => yaml11_in_node(*n, line as int, diag.range, exact, kind) is None,
        },
    decreases node_size(*n), 0int,
{
    let ghost dr = diag.range;
    match n {
        Node::Mapping { entries, .. } => {
            let mut i: usize = 0;
            while i < entries.len()
                invariant
                    i <= entries@.len(),
                    dr == diag.range,
                    pairs_size(entries@) < node_size(*n),
                    yaml11_in_node(*n, line as int, dr, exact, kind) == yaml11_in_pairs(entries@, line as int, dr, exact, kind),
                    yaml11_in_pairs(entries@.take(i as int), line as int, dr, exact, kind) is None,
                decreases entries.len() - i,
            {
                proof {
                    lemma_pairs_size(entries@, i as int);
                    assert(entries@.take(i + 1).subrange(0, i as int) =~= entries@.take(i as int));
                    assert(entries@.take(i + 1)[i as int] == entries@[i as int]);
                }
                let k = &entries[i].0;
                let v = &entries[i].1;
                let ghost here = yaml11_in_pairs(entries@.take(i + 1), line as int, dr, exact, kind);
                if is_hit(v, line, diag, exact, kind) {
                    proof {
                        lemma_pairs_first(entries@, i as int, line as int, dr, exact, kind);
                    }
                    return Some((v, node_loc(k).start.column as usize));
                }
                match find_yaml11_in_node(k, line, diag, exact, kind) {
                    Some(x) => {
                        proof {
                            lemma_pairs_first(entries@, i as int, line as int, dr, exact, kind);
                        }
                        return Some(x);
                    },
                    None => {},
                }
                match find_yaml11_in_node(v, line, diag, exact, kind) {
                    Some(x) => {
                        proof {
                            lemma_pairs_first(entries@, i as int, line as int, dr, exact, kind);
                        }
                        return Some(x);
                    },
                    None => {},
                }
                i += 1;
            }
            assert(entries@.take(i as int) =~= entries@);
            None
        },
        Node::Sequence { items, .. } => {
            let mut i: usize = 0;
            while i < items.len()
                invariant
                    i <= items@.len(),
                    dr == diag.range,
                    nodes_size(items@) < node_size(*n),
                    yaml11_in_node(*n, line as int, dr, exact, kind) == yaml11_in_items(items@, line as int, dr, exact, kind),
                    yaml11_in_items(items@.take(i as int), line as int, dr, exact, kind) is None,
                decreases items.len() - i,
            {
                proof {
                    lemma_nodes_size(items@, i as int);
                    assert(items@.take(i + 1).subrange(0, i as int) =~= items@.take(i as int));
                    assert(items@.take(i + 1)[i as int] == items@[i as int]);
                }
                let it = &items[i];
                if is_hit(it, line, diag, exact, kind) {
                    proof {
                        lemma_items_first(items@, i as int, line as int, dr, exact, kind);
                    }
                    return Some((it, node_loc(it).start.column as usize));
                }
                match find_yaml11_in_node(it, line, diag, exact, kind) {
                    Some(x) => {
                        proof {
                            lemma_items_first(items@, i as int, line as int, dr, exact, kind);
                        }
                        return Some(x);
                    },
                    None => {},
                }
                i += 1;
            }
            assert(items@.take(i as int) =~= items@);
            None
        },
        _ => None,
    }
}

/// With no target in the first `i` entries, the search over all entries
/// gives what entry `i` gives, when that is a target.
proof fn lemma_pairs_first(es: Seq<(Node, Node)>, i: int, line: int, dr: Range, exact: bool, kind: Yaml11Kind)
    requires
        0 <= i < es.len(),
        yaml11_in_pairs(es.take(i), line, dr, exact, kind) is None,
    ensures
        yaml11_in_pairs(es.take(i + 1), line, dr, exact, kind) is Some ==> yaml11_in_pairs(es, line, dr, exact, kind) == yaml11_in_pairs(es.take(i + 1), line, dr, exact, kind),
    decreases es.len() - i,
{
    assert(es.take(i + 1).subrange(0, i) =~= es.take(i));
    assert(es.take(i + 1)[i] == es[i]);
    if i < es.len() - 1 {
        let t = es.subrange(0, es.len() - 1);
        assert(t.take(i) =~= es.take(i));
        assert(t.take(i + 1) =~= es.take(i + 1));
        lemma_pairs_first(t, i, line, dr, exact, kind);
    } else {
        assert(es.take(i + 1) =~= es);
    }
}

proof fn lemma_items_first(s: Seq<Node>, i: int, line: int, dr: Range, exact: bool, kind: Yaml11Kind)
    requires
        0 <= i < s.len(),
        yaml11_in_items(s.take(i), line, dr, exact, kind) is None,
    ensures
        yaml11_in_items(s.take(i + 1), line, dr, exact, kind) is Some ==> yaml11_in_items(s, line, dr, exact, kind) == yaml11_in_items(s.take(i + 1), line, dr, exact, kind),
    decreases s.len() - i,
{
    assert(s.take(i + 1).subrange(0, i) =~= s.take(i));
    assert(s.take(i + 1)[i] == s[i]);
    if i < s.len() - 1 {
        let t = s.subrange(0, s.len() - 1);
        assert(t.take(i) =~= s.take(i));
        assert(t.take(i + 1) =~= s.take(i + 1));
        lemma_items_first(t, i, line, dr, exact, kind);
    } else {
        assert(s.take(i + 1) =~= s);
    }
}

proof fn lemma_docs_first(docs: Seq<Document>, i: int, line: int, dr: Range, exact: bool, kind: Yaml11Kind)
    requires
        0 <= i < docs.len(),
        yaml11_in_docs(docs.take(i), line, dr, exact, kind) is None,
    ensures
        yaml11_in_node(docs[i].root, line, dr, exact, kind) is Some ==> yaml11_in_docs(docs, line, dr, exact, kind) == yaml11_in_node(docs[i].root, line, dr, exact, kind),
    decreases docs.len() - i,
{
    if i == docs.len() - 1 {
        assert(docs.drop_last() =~= docs.take(i));
    } else {
        let t = docs.drop_last();
        assert(t.take(i) =~= docs.take(i));
        assert(t[i] == docs[i]);
        lemma_docs_first(t, i, line, dr, exact, kind);
    }
}

/// Walk the documents to find the plain YAML 1.1 scalar that the
/// diagnostic is about.
pub fn find_yaml11_scalar<'a>(docs: &'a Vec<Document>, diag: &Diagnostic, kind: Yaml11Kind) -> (r: Option<(&'a Node, usize)>)
    ensures
        match r {
            Some((m, c)) => yaml11_target(docs@, diag_view(*diag), kind) == Some((*m, c as int)),
            None => yaml11_target(docs@, diag_view(*diag), kind) is None,
        },
{
    let exact = match kind {
        Yaml11Kind::Bool => has_code(diag, "yaml11Boolean"),
        Yaml11Kind::Octal => has_code(diag, "yaml11Octal"),
    };
    let line: u64 = diag.range.start.line as u64 + 1;
    if !exact {
        let mut total: usize = 0;
        let mut i: usize = 0;
        while i < docs.len()
            invariant
                i <= docs@.len(),
                total as nat == sat(yaml11_count_docs(docs@.take(i as int), line as int, kind)),
            decreases docs.len() - i,
        {
            assert(docs@.take(i + 1).drop_last() =~= docs@.take(i as int));
            let ghost t0 = yaml11_count_docs(docs@.take(i as int), line as int, kind);
            let c = count_yaml11_on_line(&docs[i].root, line, kind);
            proof {
                lemma_sat_add(t0, yaml11_count(docs@[i as int].root, line as int, kind));
            }
            total = sat_plus(total, c);
            i += 1;
        }
        assert(docs@.take(i as int) =~= docs@);
        if total != 1 {
            return None;
        }
    }
    let mut i: usize = 0;
    while i < docs.len()
        invariant
            i <= docs@.len(),
            exact == (diag_view(*diag).1 == Some(exact_code(kind))),
            line as int == diag.range.start.line + 1,
            !exact ==> yaml11_count_docs(docs@, line as int, kind) == 1,
            yaml11_in_docs(docs@.take(i as int), line as int, diag.range, exact, kind) is None,
        decreases docs.len() - i,
    {
        assert(docs@.take(i + 1).drop_last() =~= docs@.take(i as int));
        match find_yaml11_in_node(&docs[i].root, line, diag, exact, kind) {
            Some(x) => {
                proof {
                    lemma_docs_first(docs@, i as int, line as int, diag.range, exact, kind);
                }
                return Some(x);
            },
            None => {},
        }
        i += 1;
    }
    assert(docs@.take(i as int) =~= docs@);
    None
}

/// The view of a quick fix that edits one range and resolves `d`.
pub open spec fn fix_view(title: Seq<char>, range: Range, text: Seq<char>, d: (Range, Option<Seq<char>>)) -> (Seq<char>, CodeActionKind, Seq<(Range, Seq<char>)>, Option<Seq<(Range, Option<Seq<char>>)>>) {
    (title, CodeActionKind::QuickFix, seq![(range, text)], Some(seq![d]))
}

/// The YAML 1.2 boolean a YAML 1.1 boolean spelling stands for.
pub open spec fn canonical_bool(s: Seq<char>) -> Seq<char> {
    if yaml11_true_text(s) {
        "true"@
    } else {
        "false"@
    }
}

/// The YAML 1.2 spelling of a YAML 1.1 octal number: `0o` and the digits.
pub open spec fn octal_1_2(s: Seq<char>) -> Seq<char> {
    "0o"@ + if s.len() > 0 {
        s.skip(1)
    } else {
        seq![]
    }
}

/// The quick fixes for a YAML 1.1 boolean: quote it as a string, or write
/// the YAML 1.2 boolean it stands for.
pub open spec fn bool_fixes(docs: Seq<Document>, d: (Range, Option<Seq<char>>), o: YamlFormatOptions) -> Seq<(Seq<char>, CodeActionKind, Seq<(Range, Seq<char>)>, Option<Seq<(Range, Option<Seq<char>>)>>)> {
    match yaml11_target(docs, d, Yaml11Kind::Bool) {
        None => seq![],
        Some((n, base)) => seq![
            fix_view("Quote value"@, span_range(loc_of(n)), subtree_text(scalar_text(scalar_value(n), ScalarStyle::DoubleQuoted, preserving(o)), base as nat), d),
            fix_view("Convert to boolean"@, span_range(loc_of(n)), subtree_text(scalar_text(canonical_bool(scalar_value(n)), ScalarStyle::Plain, o), base as nat), d),
        ],
    }
}

/// The quick fix for a value a schema types as boolean: write the YAML 1.2
/// boolean.
pub open spec fn bool_type_fixes(docs: Seq<Document>, d: (Range, Option<Seq<char>>), o: YamlFormatOptions) -> Seq<(Seq<char>, CodeActionKind, Seq<(Range, Seq<char>)>, Option<Seq<(Range, Option<Seq<char>>)>>)> {
    match yaml11_target(docs, d, Yaml11Kind::Bool) {
        None => seq![],
        Some((n, base)) => seq![
            fix_view("Convert to boolean"@, span_range(loc_of(n)), subtree_text(scalar_text(canonical_bool(scalar_value(n)), ScalarStyle::Plain, o), base as nat), d),
        ],
    }
}

/// The quick fixes for a YAML 1.1 octal number: quote it as a string, or
/// write it as a YAML 1.2 octal number.
pub open spec fn octal_fixes(docs: Seq<Document>, d: (Range, Option<Seq<char>>), o: YamlFormatOptions) -> Seq<(Seq<char>, CodeActionKind, Seq<(Range, Seq<char>)>, Option<Seq<(Range, Option<Seq<char>>)>>)> {
    match yaml11_target(docs, d, Yaml11Kind::Octal) {
        None => seq![],
        Some((n, base)) => seq![
            fix_view("Quote as string"@, span_range(loc_of(n)), subtree_text(scalar_text(scalar_value(n), ScalarStyle::DoubleQuoted, preserving(o)), base as nat), d),
            fix_view("Convert to YAML 1.2 octal"@, span_range(loc_of(n)), subtree_text(scalar_text(octal_1_2(scalar_value(n)), ScalarStyle::Plain, o), base as nat), d),
        ],
    }
}

pub open spec fn actions_view(a: Seq<CodeAction>) -> Seq<(Seq<char>, CodeActionKind, Seq<(Range, Seq<char>)>, Option<Seq<(Range, Option<Seq<char>>)>>)> {
    a.map_values(|x: CodeAction| action_view(x))
}

/// A quick fix that replaces `n`'s token with `text` and resolves `diag`.
fn fix(title: &str, n: &Node, text: String, diag: &Diagnostic) -> (r: CodeAction)
    ensures
        action_view(r) == fix_view(title@, span_range(loc_of(*n)), text@, diag_view(*diag)),
{
    let ghost t = text@;
    let edit = TextEdit { range: span_to_lsp(node_loc(n)), new_text: text };
    let mut edits: Vec<TextEdit> = Vec::new();
    edits.push(edit);
    let d = copy_diagnostic(diag);
    let ghost dv = diag_view(d);
    let mut ds: Vec<Diagnostic> = Vec::new();
    ds.push(d);
    let a = make_action(title.to_owned(), edits, CodeActionKind::QuickFix, Some(ds));
    assert(edits_view(a.edits@) =~= seq![(span_range(loc_of(*n)), t)]);
    assert(ds@.map_values(|x: Diagnostic| diag_view(x)) =~= seq![dv]);
    a
}

/// The scalar quoted: its text as a double-quoted scalar with the source
/// quote style kept.
fn quoted_text(n: &Node, options: &YamlFormatOptions, base: usize) -> (r: String)
    ensures
        r@ == subtree_text(scalar_text(scalar_value(*n), ScalarStyle::DoubleQuoted, preserving(*options)), base as nat),
{
    let mut q = *options;
    q.preserve_quotes = true;
    assert(q == preserving(*options));
    bare_scalar_text(scalar_value_of(n), ScalarStyle::DoubleQuoted, node_loc(n), &q, base)
}

/// Quick fixes for a YAML 1.1 boolean (`yes`, `off`, ...): quote it, or
/// convert it to `true`/`false`.
pub fn yaml11_bool_actions(docs: &Vec<Document>, diag: &Diagnostic, options: &YamlFormatOptions) -> (r: Vec<CodeAction>)
    ensures
        actions_view(r@) == bool_fixes(docs@, diag_view(*diag), *options),
{
    let mut out: Vec<CodeAction> = Vec::new();
    match find_yaml11_scalar(docs, diag, Yaml11Kind::Bool) {
        None => {},
        Some((n, base)) => {
            let value = scalar_value_of(n);
            let canon = yaml11_bool_canonical(value.as_str());
            let q = fix("Quote value", n, quoted_text(n, options, base), diag);
            let c_text = bare_scalar_text(canon.to_owned(), ScalarStyle::Plain, node_loc(n), options, base);
            let c = fix("Convert to boolean", n, c_text, diag);
            out.push(q);
            out.push(c);
        },
    }
    assert(actions_view(out@) =~= bool_fixes(docs@, diag_view(*diag), *options));
    out
}

/// The quick fix for a schema-typed boolean written the YAML 1.1 way:
/// convert it to `true`/`false`.
pub fn schema_yaml11_bool_type_actions(docs: &Vec<Document>, diag: &Diagnostic, options: &YamlFormatOptions) -> (r: Vec<CodeAction>)
    ensures
        actions_view(r@) == bool_type_fixes(docs@, diag_view(*diag), *options),
{
    let mut out: Vec<CodeAction> = Vec::new();
    match find_yaml11_scalar(docs, diag, Yaml11Kind::Bool) {
        None => {},
        Some((n, base)) => {
            let value = scalar_value_of(n);
            let canon = yaml11_bool_canonical(value.as_str());
            let c_text = bare_scalar_text(canon.to_owned(), ScalarStyle::Plain, node_loc(n), options, base);
            out.push(fix("Convert to boolean", n, c_text, diag));
        },
    }
    assert(actions_view(out@) =~= bool_type_fixes(docs@, diag_view(*diag), *options));
    out
}

/// Quick fixes for a YAML 1.1 octal number (`0755`): quote it, or convert
/// it to the YAML 1.2 form (`0o755`).
pub fn yaml11_octal_actions(docs: &Vec<Document>, diag: &Diagnostic, options: &YamlFormatOptions) -> (r: Vec<CodeAction>)
    ensures
        actions_view(r@) == octal_fixes(docs@, diag_view(*diag), *options),
{
    let mut out: Vec<CodeAction> = Vec::new();
    match find_yaml11_scalar(docs, diag, Yaml11Kind::Octal) {
        None => {},
        Some((n, base)) => {
            let value = scalar_value_of(n);
            let v = str_chars(value.as_str());
            let mut conv = str_chars("0o");
            if v.len() > 0 {
                let rest = crate::text::slice_range(&v, 1, v.len());
                push_all(&mut conv, &rest);
                assert(rest@ =~= v@.skip(1));
            } else {
                assert(conv@ =~= "0o"@ + Seq::<char>::empty());
            }
            let q = fix("Quote as string", n, quoted_text(n, options, base), diag);
            let c_text = bare_scalar_text(string_from_chars(&conv), ScalarStyle::Plain, node_loc(n), options, base);
            let c = fix("Convert to YAML 1.2 octal", n, c_text, diag);
            out.push(q);
            out.push(c);
        },
    }
    assert(actions_view(out@) =~= octal_fixes(docs@, diag_view(*diag), *options));
    out
}

} // verus!
