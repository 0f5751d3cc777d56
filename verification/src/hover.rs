//! Hover text: the key path, YAML type and value of the node under the
//! cursor, followed by what a JSON schema says of that path.
use vstd::prelude::*;

use crate::ast::{
    lemma_node_size_pos, lemma_nodes_size, lemma_pairs_size, loc_of, node_loc, node_size,
    nodes_size, pairs_size, Document, Node,
};
use crate::lsp::Position;
use crate::navigation::{span_contains, span_holds};
use crate::scalar_render::{decimal, decimal_digits};
use crate::text::{chars_eq, push_all, push_lit, str_chars, string_from_chars};

verus! {

/// Longest schema description shown, in characters.
pub const MAX_DESCRIPTION_LEN: usize = 200;

/// Longest example shown, in characters.
pub const MAX_EXAMPLE_LEN: usize = 100;

/// Most examples shown.
pub const MAX_EXAMPLES: usize = 3;

/// A segment of a YAML key path.
#[derive(Debug)]
pub enum PathSegment {
    Key(String),
    Index(usize),
}

/// The view of a path segment.
pub enum SegV {
    Key(Seq<char>),
    Index(nat),
}

pub open spec fn seg_view(s: PathSegment) -> SegV {
    match s {
        PathSegment::Key(k) => SegV::Key(k@),
        PathSegment::Index(i) => SegV::Index(i as nat),
    }
}

pub open spec fn path_view(p: Seq<PathSegment>) -> Seq<SegV> {
    p.map_values(|s: PathSegment| seg_view(s))
}

/// The text of a scalar key; `None` for any other key.
pub open spec fn key_name(k: Node) -> Option<Seq<char>> {
    match k {
        Node::Scalar { value, .. } => Some(value@),
        _ => None,
    }
}

/// The deepest node under the cursor and its key path below `path`: the
/// first entry of a mapping whose scalar key holds the cursor gives its
/// value; else the first whose value holds it is descended into (and is the
/// answer when nothing below it holds the cursor); the first item of a
/// sequence that holds the cursor likewise; a scalar or alias is the answer.
pub open spec fn walk(n: Node, p: Position, path: Seq<SegV>) -> Option<(Seq<SegV>, Node)>
    decreases node_size(n), 0int, 0int,
{
    match n {
        Node::Mapping { entries, .. } => walk_pairs(entries@, 0, p, path),
        Node::Sequence { items, .. } => walk_items(items@, 0, p, path),
        _ => Some((path, n)),
    }
}

pub open spec fn walk_pairs(es: Seq<(Node, Node)>, i: int, p: Position, path: Seq<SegV>) -> Option<
    (Seq<SegV>, Node),
>
    decreases pairs_size(es), 1int, es.len() - i,
{
    if i < 0 || i >= es.len() {
        None
    } else {
        let k = es[i].0;
        let v = es[i].1;
        match key_name(k) {
            None => walk_pairs(es, i + 1, p, path),
            Some(name) => {
                let inner = path.push(SegV::Key(name));
                if span_holds(loc_of(k), p) {
                    Some((inner, v))
                } else if span_holds(loc_of(v), p) {
                    proof {
                        lemma_pairs_size(es, i);
                        lemma_node_size_pos(k);
                    }
                    match walk(v, p, inner) {
                        Some(r) => Some(r),
                        None => Some((inner, v)),
                    }
                } else {
                    walk_pairs(es, i + 1, p, path)
                }
            },
        }
    }
}

pub open spec fn walk_items(s: Seq<Node>, i: int, p: Position, path: Seq<SegV>) -> Option<
    (Seq<SegV>, Node),
>
    decreases nodes_size(s), 1int, s.len() - i,
{
    if i < 0 || i >= s.len() {
        None
    } else if span_holds(loc_of(s[i]), p) {
        let inner = path.push(SegV::Index(i as nat));
        proof {
            lemma_nodes_size(s, i);
        }
        match walk(s[i], p, inner) {
            Some(r) => Some(r),
            None => Some((inner, s[i])),
        }
    } else {
        walk_items(s, i + 1, p, path)
    }
}

/// The first document from `i` on whose root holds the cursor and yields a
/// node.
pub open spec fn walk_docs(docs: Seq<Document>, i: int, p: Position) -> Option<(Seq<SegV>, Node)>
    decreases docs.len() - i,
{
    if i < 0 || i >= docs.len() {
        None
    } else if span_holds(loc_of(docs[i].root), p) {
        match walk(docs[i].root, p, seq![]) {
            Some(r) => Some(r),
            None => walk_docs(docs, i + 1, p),
        }
    } else {
        walk_docs(docs, i + 1, p)
    }
}

/// A segment's text: `.key` (no dot before the first segment) or `[n]`.
pub open spec fn seg_text(s: SegV, first: bool) -> Seq<char> {
    match s {
        SegV::Key(k) => if first {
            k
        } else {
            seq!['.'] + k
        },
        SegV::Index(n) => seq!['['] + decimal(n) + seq![']'],
    }
}

/// The dotted path: `a.b[0].c`.
pub open spec fn path_text(p: Seq<SegV>) -> Seq<char>
    decreases p.len(),
{
    if p.len() == 0 {
        seq![]
    } else {
        path_text(p.drop_last()) + seg_text(p.last(), p.len() == 1)
    }
}

/// The YAML type name of a node.
pub open spec fn yaml_type_text(n: Node) -> Seq<char> {
    match n {
        Node::Mapping { .. } => "mapping"@,
        Node::Sequence { .. } => "sequence"@,
        Node::Scalar { .. } => "scalar"@,
        Node::Alias { .. } => "alias"@,
    }
}

/// The value shown for a scalar.
pub open spec fn scalar_text(n: Node) -> Option<Seq<char>> {
    match n {
        Node::Scalar { value, .. } => Some(value@),
        _ => None,
    }
}

/// Every backtick preceded by a backslash.
pub open spec fn escape_ticks(s: Seq<char>) -> Seq<char>
    decreases s.len(),
{
    if s.len() == 0 {
        seq![]
    } else {
        escape_ticks(s.drop_last()) + if s.last() == '`' {
            seq!['\\', '`']
        } else {
            seq![s.last()]
        }
    }
}

/// `s` cut to `max` characters, the last of them an ellipsis, when longer.
pub open spec fn truncated(s: Seq<char>, max: nat) -> Seq<char> {
    if s.len() <= max {
        s
    } else {
        s.take(max - 1).push('\u{2026}')
    }
}

/// Truncation keeps at most `max` characters, and keeps a text that fits
/// unchanged; a cut text keeps its first `max - 1` characters.
pub proof fn law_truncated_fits(s: Seq<char>, max: nat)
    requires
        max > 0,
    ensures
        truncated(s, max).len() <= max,
        s.len() <= max ==> truncated(s, max) == s,
        s.len() > max ==> truncated(s, max).take(max - 1) == s.take(max - 1),
{
    if s.len() > max {
        assert(truncated(s, max).take(max - 1) =~= s.take(max - 1));
    }
}

/// The structural part of the hover text.
pub open spec fn hover_markdown(path: Seq<char>, ty: Seq<char>, value: Option<Seq<char>>) -> Seq<char> {
    "**Path:** `"@ + escape_ticks(path) + "`\n\n"@ + "**Type:** "@ + ty + "\n"@ + match value {
        Some(v) => "\n**Value:** `"@ + escape_ticks(v) + "`\n"@,
        None => seq![],
    }
}

/// `s` split at every `c`, as `str::split` does.
pub open spec fn split_at_char(s: Seq<char>, c: char) -> Seq<Seq<char>>
    decreases s.len(),
{
    if s.len() == 0 {
        seq![seq![]]
    } else {
        let rest = split_at_char(s.drop_last(), c);
        if s.last() == c {
            rest.push(seq![])
        } else {
            rest.update(rest.len() - 1, rest.last().push(s.last()))
        }
    }
}

/// `b` is the first `[` of `seg`.
pub open spec fn first_bracket(seg: Seq<char>, b: int) -> bool {
    &&& 0 <= b < seg.len()
    &&& seg[b] == '['
    &&& forall|j: int| 0 <= j < b ==> #[trigger] seg[j] != '['
}

/// Number of `[` in `seg`.
pub open spec fn bracket_count(seg: Seq<char>) -> nat
    decreases seg.len(),
{
    if seg.len() == 0 {
        0
    } else {
        bracket_count(seg.drop_last()) + if seg.last() == '[' {
            1nat
        } else {
            0nat
        }
    }
}

/// `n` copies of the key `[]`.
pub open spec fn index_keys(n: nat) -> Seq<Seq<char>> {
    Seq::new(n, |i: int| seq!['[', ']'])
}

/// The schema keys of one dotted segment: the name before the first `[`
/// (when not empty), then `[]` for every index: `foo[0]` gives `foo` and
/// `[]`, `a[0][1]` gives `a`, `[]`, `[]`, `[0]` gives `[]`; an empty segment
/// gives nothing.
pub open spec fn seg_keys(seg: Seq<char>) -> Seq<Seq<char>> {
    if exists|b: int| first_bracket(seg, b) {
        let b = choose|b: int| first_bracket(seg, b);
        if b == 0 {
            index_keys(bracket_count(seg))
        } else {
            seq![seg.take(b)] + index_keys(bracket_count(seg))
        }
    } else if seg.len() == 0 {
        seq![]
    } else {
        seq![seg]
    }
}

pub open spec fn keys_of_segs(segs: Seq<Seq<char>>) -> Seq<Seq<char>>
    decreases segs.len(),
{
    if segs.len() == 0 {
        seq![]
    } else {
        keys_of_segs(segs.drop_last()) + seg_keys(segs.last())
    }
}

/// A schema key path holds no empty key.
pub proof fn law_schema_keys_nonempty(dotted: Seq<char>)
    ensures
        forall|i: int| 0 <= i < schema_keys(dotted).len() ==> (#[trigger] schema_keys(dotted)[i]).len() > 0,
{
    lemma_keys_nonempty(split_at_char(dotted, '.'));
}

proof fn lemma_keys_nonempty(segs: Seq<Seq<char>>)
    ensures
        forall|i: int| 0 <= i < keys_of_segs(segs).len() ==> (#[trigger] keys_of_segs(segs)[i]).len() > 0,
    decreases segs.len(),
{
    if segs.len() > 0 {
        lemma_keys_nonempty(segs.drop_last());
        let a = keys_of_segs(segs.drop_last());
        let b = seg_keys(segs.last());
        assert forall|i: int| 0 <= i < (a + b).len() implies (#[trigger] (a + b)[i]).len() > 0 by {
            if i < a.len() {
                assert((a + b)[i] == a[i]);
            } else {
                assert((a + b)[i] == b[i - a.len()]);
                if exists|k: int| first_bracket(segs.last(), k) {
                    let k = choose|k: int| first_bracket(segs.last(), k);
                    assert(segs.last().take(k).len() == k);
                }
            }
        }
    }
}

/// The schema key path of a dotted path.
pub open spec fn schema_keys(dotted: Seq<char>) -> Seq<Seq<char>> {
    keys_of_segs(split_at_char(dotted, '.'))
}

/// The `type` of a schema: one name or several.
#[derive(Debug)]
pub enum SchemaType {
    Single(String),
    Multiple(Vec<String>),
}

/// An example value of a schema, as the hover shows it: whether it is an
/// object or array, its display text (a string's own text, else its JSON
/// text) and its pretty-printed JSON text.
#[derive(Debug)]
pub struct SchemaExample {
    pub compound: bool,
    pub display: String,
    pub pretty: Option<String>,
}

/// The parts of a JSON schema that hover reads. `properties` holds each
/// property name once.
#[derive(Debug)]
pub struct JsonSchema {
    pub description: Option<String>,
    pub title: Option<String>,
    pub schema_type: Option<SchemaType>,
    pub default: Option<String>,
    pub examples: Option<Vec<SchemaExample>>,
    pub properties: Option<Vec<(String, JsonSchema)>>,
    pub all_of: Option<Vec<JsonSchema>>,
    pub any_of: Option<Vec<JsonSchema>>,
    pub one_of: Option<Vec<JsonSchema>>,
}

impl Default for JsonSchema {
    /// A schema that says nothing.
    fn default() -> (r: Self)
        ensures
            r.description is None,
            r.title is None,
            r.schema_type is None,
            r.default is None,
            r.examples is None,
            r.properties is None,
            r.all_of is None,
            r.any_of is None,
            r.one_of is None,
    {
        JsonSchema {
            description: None,
            title: None,
            schema_type: None,
            default: None,
            examples: None,
            properties: None,
            all_of: None,
            any_of: None,
            one_of: None,
        }
    }
}

/// The first property named `key`.
pub open spec fn first_prop(es: Seq<(String, JsonSchema)>, key: Seq<char>) -> Option<JsonSchema>
    decreases es.len(),
{
    if es.len() == 0 {
        None
    } else {
        match first_prop(es.drop_last(), key) {
            Some(s) => Some(s),
            None => if es.last().0@ == key {
                Some(es.last().1)
            } else {
                None
            },
        }
    }
}

pub open spec fn prop_of(s: JsonSchema, key: Seq<char>) -> Option<JsonSchema> {
    match s.properties {
        Some(ps) => first_prop(ps@, key),
        None => None,
    }
}

pub open spec fn opt_schemas(o: Option<Vec<JsonSchema>>) -> Seq<JsonSchema> {
    match o {
        Some(v) => v@,
        None => seq![],
    }
}

/// The composition branches: `allOf`, then `anyOf`, then `oneOf`.
pub open spec fn branches(s: JsonSchema) -> Seq<JsonSchema> {
    opt_schemas(s.all_of) + opt_schemas(s.any_of) + opt_schemas(s.one_of)
}

/// The property `key` of the first branch that has one.
pub open spec fn in_branches(bs: Seq<JsonSchema>, key: Seq<char>) -> Option<JsonSchema>
    decreases bs.len(),
{
    if bs.len() == 0 {
        None
    } else {
        match in_branches(bs.drop_last(), key) {
            Some(s) => Some(s),
            None => prop_of(bs.last(), key),
        }
    }
}

/// The sub-schema at a key path: each key looked up among the properties,
/// then among the branches' properties.
pub open spec fn resolve(s: JsonSchema, path: Seq<Seq<char>>) -> Option<JsonSchema>
    decreases path.len(),
{
    if path.len() == 0 {
        None
    } else {
        let found = match prop_of(s, path[0]) {
            Some(c) => Some(c),
            None => in_branches(branches(s), path[0]),
        };
        match found {
            None => None,
            Some(c) => if path.len() == 1 {
                Some(c)
            } else {
                resolve(c, path.drop_first())
            },
        }
    }
}

/// A text when it is present and not empty.
pub open spec fn nonempty(o: Option<String>) -> Option<Seq<char>> {
    match o {
        Some(s) => if s@.len() > 0 {
            Some(s@)
        } else {
            None
        },
        None => None,
    }
}

/// The texts joined with `sep`.
pub open spec fn joined(ts: Seq<Seq<char>>, sep: Seq<char>) -> Seq<char>
    decreases ts.len(),
{
    if ts.len() == 0 {
        seq![]
    } else if ts.len() == 1 {
        ts[0]
    } else {
        joined(ts.drop_last(), sep) + sep + ts.last()
    }
}

pub open spec fn type_text(t: SchemaType) -> Seq<char> {
    match t {
        SchemaType::Single(s) => s@,
        SchemaType::Multiple(ts) => joined(ts@.map_values(|s: String| s@), " | "@),
    }
}

/// One example: a short object or array as a fenced JSON block, anything
/// else as a list item cut to the example length.
pub open spec fn example_text(e: SchemaExample) -> Seq<char> {
    match e.pretty {
        Some(p) if e.compound && p@.len() <= MAX_EXAMPLE_LEN => "\n```json\n"@ + p@ + "\n```"@,
        _ => "\n- "@ + truncated(e.display@, MAX_EXAMPLE_LEN as nat),
    }
}

pub open spec fn examples_text(es: Seq<SchemaExample>) -> Seq<char>
    decreases es.len(),
{
    if es.len() == 0 {
        seq![]
    } else {
        examples_text(es.drop_last()) + example_text(es.last())
    }
}

pub open spec fn description_text(s: JsonSchema) -> Option<Seq<char>> {
    match nonempty(s.description) {
        Some(d) => Some(d),
        None => nonempty(s.title),
    }
}

/// The description part of the schema section.
pub open spec fn description_part(s: JsonSchema) -> Seq<char> {
    match description_text(s) {
        Some(d) => "\n**Description:** "@ + truncated(d, MAX_DESCRIPTION_LEN as nat) + "\n"@,
        None => seq![],
    }
}

/// The type part of the schema section.
pub open spec fn type_part(s: JsonSchema) -> Seq<char> {
    match s.schema_type {
        Some(t) => "\n**Schema type:** "@ + type_text(t) + "\n"@,
        None => seq![],
    }
}

/// The default part of the schema section.
pub open spec fn default_part(s: JsonSchema) -> Seq<char> {
    match s.default {
        Some(d) => "\n**Default:** "@ + d@ + "\n"@,
        None => seq![],
    }
}

/// How many examples are shown.
pub open spec fn shown_count(n: nat) -> nat {
    if n < MAX_EXAMPLES {
        n
    } else {
        MAX_EXAMPLES as nat
    }
}

/// The examples part: at most three, then how many more there are.
pub open spec fn examples_part(s: JsonSchema) -> Seq<char> {
    match s.examples {
        Some(es) if es@.len() > 0 => {
            let shown = shown_count(es@.len());
            "\n**Examples:**"@ + examples_text(es@.take(shown as int)) + (if es@.len() > shown {
                "\n- *and "@ + decimal((es@.len() - shown) as nat) + " more*"@
            } else {
                seq![]
            }) + "\n"@
        },
        _ => seq![],
    }
}

/// The schema section of the hover text.
pub open spec fn section_text(s: JsonSchema) -> Seq<char> {
    description_part(s) + type_part(s) + default_part(s) + examples_part(s)
}

/// The hover text at the cursor: `None` when no node lies under it.
pub open spec fn hover_text(docs: Seq<Document>, p: Position, schema: Option<JsonSchema>) -> Option<
    Seq<char>,
> {
    match walk_docs(docs, 0, p) {
        None => None,
        Some(r) => {
            let fp = path_text(r.0);
            let md = hover_markdown(fp, yaml_type_text(r.1), scalar_text(r.1));
            match schema {
                None => Some(md),
                Some(s) => match resolve(s, schema_keys(fp)) {
                    Some(ps) => if section_text(ps).len() > 0 {
                        Some(md + seq!['\n'] + section_text(ps))
                    } else {
                        Some(md)
                    },
                    None => Some(md),
                },
            }
        },
    }
}

/// A copy of a key path.
fn copy_path(path: &Vec<PathSegment>) -> (r: Vec<PathSegment>)
    ensures
        path_view(r@) == path_view(path@),
{
    let mut out: Vec<PathSegment> = Vec::new();
    let mut i: usize = 0;
    while i < path.len()
        invariant
            i <= path@.len(),
            out@.len() == i,
            forall|j: int| 0 <= j < i ==> seg_view(#[trigger] out@[j]) == seg_view(path@[j]),
        decreases path.len() - i,
    {
        let s = match &path[i] {
            PathSegment::Key(k) => PathSegment::Key(k.clone()),
            PathSegment::Index(n) => PathSegment::Index(*n),
        };
        assert(seg_view(s) == seg_view(path@[i as int]));
        out.push(s);
        i += 1;
    }
    assert(path_view(out@) =~= path_view(path@));
    out
}

/// The path extended by one segment.
fn pushed(path: &Vec<PathSegment>, s: PathSegment) -> (r: Vec<PathSegment>)
    ensures
        path_view(r@) == path_view(path@).push(seg_view(s)),
{
    let mut out = copy_path(path);
    out.push(s);
    assert(path_view(out@) =~= path_view(path@).push(seg_view(s)));
    out
}

/// Descends into `node` below `path` and returns the deepest (path, node)
/// pair that holds the cursor.
pub fn walk_node<'a>(node: &'a Node, position: Position, path: &Vec<PathSegment>) -> (r: Option<
    (Vec<PathSegment>, &'a Node),
>)
    ensures
        match r {
            Some(x) => walk(*node, position, path_view(path@)) == Some((path_view(x.0@), *x.1)),
            None => walk(*node, position, path_view(path@)) is None,
        },
    decreases node_size(*node),
{
    let ghost pv = path_view(path@);
    match node {
        Node::Mapping { entries, .. } => {
            let mut i: usize = 0;
            while i < entries.len()
                invariant
                    i <= entries@.len(),
                    pv == path_view(path@),
                    pairs_size(entries@) < node_size(*node),
                    walk(*node, position, pv) == walk_pairs(entries@, i as int, position, pv),
                decreases entries.len() - i,
            {
                let k = &entries[i].0;
                let v = &entries[i].1;
                match k {
                    Node::Scalar { value, .. } => {
                        let inner = pushed(path, PathSegment::Key(value.clone()));
                        if span_contains(node_loc(k), position) {
                            return Some((inner, v));
                        }
                        if span_contains(node_loc(v), position) {
                            proof {
                                lemma_pairs_size(entries@, i as int);
                                lemma_node_size_pos(*k);
                            }
                            return match walk_node(v, position, &inner) {
                                Some(x) => Some(x),
                                None => Some((inner, v)),
                            };
                        }
                    },
                    _ => {},
                }
                i += 1;
            }
            None
        },
        Node::Sequence { items, .. } => {
            let mut i: usize = 0;
            while i < items.len()
                invariant
                    i <= items@.len(),
                    pv == path_view(path@),
                    nodes_size(items@) < node_size(*node),
                    walk(*node, position, pv) == walk_items(items@, i as int, position, pv),
                decreases items.len() - i,
            {
                let item = &items[i];
                if span_contains(node_loc(item), position) {
                    let inner = pushed(path, PathSegment::Index(i));
                    proof {
                        lemma_nodes_size(items@, i as int);
                    }
                    return match walk_node(item, position, &inner) {
                        Some(x) => Some(x),
                        None => Some((inner, item)),
                    };
                }
                i += 1;
            }
            None
        },
        _ => Some((copy_path(path), node)),
    }
}

/// The key path and node under the cursor, in the first document whose
/// root holds it and yields one.
pub fn ast_walk<'a>(docs: &'a Vec<Document>, position: Position) -> (r: Option<(Vec<PathSegment>, &'a Node)>)
    ensures
        match r {
            Some(x) => walk_docs(docs@, 0, position) == Some((path_view(x.0@), *x.1)),
            None => walk_docs(docs@, 0, position) is None,
        },
{
    let mut i: usize = 0;
    while i < docs.len()
        invariant
            i <= docs@.len(),
            walk_docs(docs@, 0, position) == walk_docs(docs@, i as int, position),
        decreases docs.len() - i,
    {
        if span_contains(node_loc(&docs[i].root), position) {
            let empty: Vec<PathSegment> = Vec::new();
            assert(path_view(empty@) =~= Seq::<SegV>::empty());
            match walk_node(&docs[i].root, position, &empty) {
                Some(x) => {
                    return Some(x);
                },
                None => {},
            }
        }
        i += 1;
    }
    None
}

/// Formats the path segments as a dotted path.
pub fn format_path(path: &Vec<PathSegment>) -> (r: String)
    ensures
        r@ == path_text(path_view(path@)),
{
    let ghost pv = path_view(path@);
    let mut out: Vec<char> = Vec::new();
    let mut i: usize = 0;
    while i < path.len()
        invariant
            i <= path@.len(),
            pv == path_view(path@),
            out@ == path_text(pv.take(i as int)),
        decreases path.len() - i,
    {
        assert(pv.take(i + 1).drop_last() =~= pv.take(i as int));
        match &path[i] {
            PathSegment::Key(k) => {
                if i > 0 {
                    out.push('.');
                }
                let kv = str_chars(k.as_str());
                push_all(&mut out, kv.as_slice());
            },
            PathSegment::Index(n) => {
                out.push('[');
                let d = decimal_digits(*n);
                push_all(&mut out, d.as_slice());
                out.push(']');
            },
        }
        i += 1;
        assert(out@ =~= path_text(pv.take(i as int)));
    }
    assert(pv.take(i as int) =~= pv);
    string_from_chars(out.as_slice())
}

/// The YAML type name of a node.
pub fn yaml_type_name(node: &Node) -> (r: &'static str)
    ensures
        r@ == yaml_type_text(*node),
{
    match node {
        Node::Mapping { .. } => "mapping",
        Node::Sequence { .. } => "sequence",
        Node::Scalar { .. } => "scalar",
        Node::Alias { .. } => "alias",
    }
}

/// The value shown for a node: a scalar's text.
pub fn scalar_value(node: &Node) -> (r: Option<&String>)
    ensures
        match r {
            Some(s) => scalar_text(*node) == Some(s@),
            None => scalar_text(*node) is None,
        },
{
    match node {
        Node::Scalar { value, .. } => Some(value),
        _ => None,
    }
}

fn push_escaped(out: &mut Vec<char>, s: &str)
    ensures
        final(out)@ == old(out)@ + escape_ticks(s@),
{
    let v = str_chars(s);
    let ghost o = out@;
    let mut i: usize = 0;
    while i < v.len()
        invariant
            i <= v@.len(),
            v@ == s@,
            out@ == o + escape_ticks(v@.take(i as int)),
        decreases v.len() - i,
    {
        assert(v@.take(i + 1).drop_last() =~= v@.take(i as int));
        if v[i] == '`' {
            out.push('\\');
            out.push('`');
        } else {
            out.push(v[i]);
        }
        i += 1;
        assert(out@ =~= o + escape_ticks(v@.take(i as int)));
    }
    assert(v@.take(i as int) =~= v@);
}

/// Escapes the backticks of `s` for a Markdown code span.
pub fn escape_for_code_span(s: &str) -> (r: String)
    ensures
        r@ == escape_ticks(s@),
{
    let mut out: Vec<char> = Vec::new();
    push_escaped(&mut out, s);
    string_from_chars(out.as_slice())
}

fn push_truncated(out: &mut Vec<char>, s: &[char], max_chars: usize)
    requires
        max_chars > 0,
    ensures
        final(out)@ == old(out)@ + truncated(s@, max_chars as nat),
{
    if s.len() <= max_chars {
        push_all(out, s);
    } else {
        let ghost o = out@;
        let mut i: usize = 0;
        while i < max_chars - 1
            invariant
                i <= max_chars - 1,
                max_chars < s@.len(),
                out@ == o + s@.take(i as int),
            decreases max_chars - 1 - i,
        {
            out.push(s[i]);
            i += 1;
            assert(out@ =~= o + s@.take(i as int));
        }
        out.push('\u{2026}');
        assert(out@ =~= o + truncated(s@, max_chars as nat));
    }
}

/// `s` cut to at most `max_chars` characters; when cut, its last character
/// is an ellipsis (U+2026).
pub fn truncate_to(s: &str, max_chars: usize) -> (r: String)
    requires
        max_chars > 0 || s@.len() == 0,
    ensures
        r@ == truncated(s@, max_chars as nat),
{
    let v = str_chars(s);
    if v.len() <= max_chars {
        return string_from_chars(v.as_slice());
    }
    let mut out: Vec<char> = Vec::new();
    push_truncated(&mut out, v.as_slice(), max_chars);
    string_from_chars(out.as_slice())
}

fn markdown_chars(path: &str, yaml_type: &str, value: Option<&str>) -> (r: Vec<char>)
    ensures
        r@ == hover_markdown(path@, yaml_type@, match value {
            Some(v) => Some(v@),
            None => None,
        }),
{
    let mut md: Vec<char> = Vec::new();
    push_lit(&mut md, "**Path:** `");
    push_escaped(&mut md, path);
    push_lit(&mut md, "`\n\n");
    push_lit(&mut md, "**Type:** ");
    push_lit(&mut md, yaml_type);
    push_lit(&mut md, "\n");
    match value {
        Some(v) => {
            push_lit(&mut md, "\n**Value:** `");
            push_escaped(&mut md, v);
            push_lit(&mut md, "`\n");
        },
        None => {},
    }
    md
}

/// The structural hover text: the escaped path, the type and, for a
/// scalar, the escaped value.
pub fn format_hover_markdown(path: &str, yaml_type: &str, value: Option<&str>) -> (r: String)
    ensures
        r@ == hover_markdown(path@, yaml_type@, match value {
            Some(v) => Some(v@),
            None => None,
        }),
{
    let md = markdown_chars(path, yaml_type, value);
    string_from_chars(md.as_slice())
}

proof fn lemma_split_nonempty(s: Seq<char>, c: char)
    ensures
        split_at_char(s, c).len() >= 1,
    decreases s.len(),
{
    if s.len() > 0 {
        lemma_split_nonempty(s.drop_last(), c);
    }
}

/// The segments of `s` between the occurrences of `c`.
fn split_char(s: &Vec<char>, c: char) -> (r: Vec<Vec<char>>)
    ensures
        r@.map_values(|x: Vec<char>| x@) == split_at_char(s@, c),
{
    let mut segs: Vec<Vec<char>> = Vec::new();
    let mut cur: Vec<char> = Vec::new();
    let mut i: usize = 0;
    while i < s.len()
        invariant
            i <= s@.len(),
            segs@.map_values(|x: Vec<char>| x@).push(cur@) == split_at_char(s@.take(i as int), c),
        decreases s.len() - i,
    {
        let ghost before = segs@.map_values(|x: Vec<char>| x@).push(cur@);
        assert(s@.take(i + 1).drop_last() =~= s@.take(i as int));
        proof {
            lemma_split_nonempty(s@.take(i as int), c);
        }
        if s[i] == c {
            let done = cur;
            segs.push(done);
            cur = Vec::new();
            assert(segs@.map_values(|x: Vec<char>| x@).push(cur@) =~= before.push(seq![]));
        } else {
            cur.push(s[i]);
            assert(segs@.map_values(|x: Vec<char>| x@).push(cur@) =~= before.update(
                before.len() - 1,
                before.last().push(s@[i as int]),
            ));
        }
        i += 1;
    }
    assert(s@.take(i as int) =~= s@);
    segs.push(cur);
    segs
}

/// The index of the first `[` of `seg`.
fn find_bracket(seg: &Vec<char>) -> (r: Option<usize>)
    ensures
        match r {
            Some(b) => first_bracket(seg@, b as int),
            None => !exists|b: int| first_bracket(seg@, b),
        },
{
    let mut i: usize = 0;
    while i < seg.len()
        invariant
            i <= seg@.len(),
            forall|j: int| 0 <= j < i ==> #[trigger] seg@[j] != '[',
        decreases seg.len() - i,
    {
        if seg[i] == '[' {
            return Some(i);
        }
        i += 1;
    }
    None
}

/// Builds the schema key path of a dotted path such as `a.b[0].c`: the
/// segments between dots, an index segment standing as `[]` (the `items`
/// of an array schema), empty segments left out.
pub fn build_schema_key_path(dotted_path: &str) -> (r: Vec<String>)
    ensures
        r@.map_values(|s: String| s@) == schema_keys(dotted_path@),
{
    let v = str_chars(dotted_path);
    let segs = split_char(&v, '.');
    let ghost sv = segs@.map_values(|x: Vec<char>| x@);
    let mut out: Vec<String> = Vec::new();
    let mut i: usize = 0;
    while i < segs.len()
        invariant
            i <= segs@.len(),
            sv == segs@.map_values(|x: Vec<char>| x@),
            out@.map_values(|s: String| s@) == keys_of_segs(sv.take(i as int)),
        decreases segs.len() - i,
    {
        let seg = &segs[i];
        assert(sv[i as int] == seg@);
        assert(sv.take(i + 1).drop_last() =~= sv.take(i as int));
        let ghost before = out@.map_values(|s: String| s@);
        match find_bracket(seg) {
            Some(b) => {
                proof {
                    let c = choose|c: int| first_bracket(seg@, c);
                    assert(c == b);
                }
                if b > 0 {
                    let mut key: Vec<char> = Vec::new();
                    let mut j: usize = 0;
                    while j < b
                        invariant
                            j <= b,
                            b < seg@.len(),
                            key@ == seg@.take(j as int),
                        decreases b - j,
                    {
                        key.push(seg[j]);
                        j += 1;
                        assert(key@ =~= seg@.take(j as int));
                    }
                    out.push(string_from_chars(key.as_slice()));
                }
                let ghost head = out@.map_values(|s: String| s@);
                let mut j: usize = 0;
                let mut count: usize = 0;
                while j < seg.len()
                    invariant
                        j <= seg@.len(),
                        count == bracket_count(seg@.take(j as int)),
                        count <= j,
                        out@.map_values(|s: String| s@) == head + index_keys(count as nat),
                    decreases seg.len() - j,
                {
                    assert(seg@.take(j + 1).drop_last() =~= seg@.take(j as int));
                    if seg[j] == '[' {
                        let brackets: Vec<char> = vec!['[', ']'];
                        let k = string_from_chars(brackets.as_slice());
                        let ghost o = out@;
                        out.push(k);
                        count += 1;
                        assert(out@.map_values(|s: String| s@) =~= o.map_values(|s: String| s@).push(k@));
                        assert(out@.map_values(|s: String| s@) =~= head + index_keys(count as nat));
                    }
                    j += 1;
                }
                assert(seg@.take(j as int) =~= seg@);
            },
            None => {
                if seg.len() > 0 {
                    out.push(string_from_chars(seg.as_slice()));
                }
            },
        }
        assert(out@.map_values(|s: String| s@) =~= before + seg_keys(sv[i as int]));
        i += 1;
        assert(out@.map_values(|s: String| s@) =~= keys_of_segs(sv.take(i as int)));
    }
    assert(sv.take(i as int) =~= sv);
    assert(sv =~= split_at_char(dotted_path@, '.'));
    out
}

/// The property `key` of a schema.
fn property<'a>(schema: &'a JsonSchema, key: &Vec<char>) -> (r: Option<&'a JsonSchema>)
    ensures
        match r {
            Some(c) => prop_of(*schema, key@) == Some(*c),
            None => prop_of(*schema, key@) is None,
        },
{
    match &schema.properties {
        None => None,
        Some(ps) => {
            let mut i: usize = 0;
            while i < ps.len()
                invariant
                    i <= ps@.len(),
                    schema.properties == Some(*ps),
                    first_prop(ps@.take(i as int), key@) is None,
                decreases ps.len() - i,
            {
                assert(ps@.take(i + 1).drop_last() =~= ps@.take(i as int));
                let n = str_chars(ps[i].0.as_str());
                assert(ps@.take(i + 1).last() == ps@[i as int]);
                if chars_eq(&n, key) {
                    assert(first_prop(ps@.take(i + 1), key@) == Some(ps@[i as int].1));
                    proof {
                        lemma_first_prop_prefix(ps@, i as int + 1, key@);
                    }
                    return Some(&ps[i].1);
                }
                i += 1;
            }
            assert(ps@.take(i as int) =~= ps@);
            None
        },
    }
}

proof fn lemma_first_prop_prefix(es: Seq<(String, JsonSchema)>, n: int, key: Seq<char>)
    requires
        0 <= n <= es.len(),
        first_prop(es.take(n), key) is Some,
    ensures
        first_prop(es, key) == first_prop(es.take(n), key),
    decreases es.len() - n,
{
    if n < es.len() {
        assert(es.take(n + 1).drop_last() =~= es.take(n));
        lemma_first_prop_prefix(es, n + 1, key);
    } else {
        assert(es.take(n) =~= es);
    }
}

proof fn lemma_in_branches_prefix(bs: Seq<JsonSchema>, n: int, key: Seq<char>)
    requires
        0 <= n <= bs.len(),
        in_branches(bs.take(n), key) is Some,
    ensures
        in_branches(bs, key) == in_branches(bs.take(n), key),
    decreases bs.len() - n,
{
    if n < bs.len() {
        assert(bs.take(n + 1).drop_last() =~= bs.take(n));
        lemma_in_branches_prefix(bs, n + 1, key);
    } else {
        assert(bs.take(n) =~= bs);
    }
}

/// Searches one list of branches, continuing the search over `done`.
fn search_branches<'a>(list: &'a Option<Vec<JsonSchema>>, key: &Vec<char>, Ghost(done): Ghost<Seq<JsonSchema>>) -> (r: Option<&'a JsonSchema>)
    requires
        in_branches(done, key@) is None,
    ensures
        match r {
            Some(c) => in_branches(done + opt_schemas(*list), key@) == Some(*c),
            None => in_branches(done + opt_schemas(*list), key@) is None,
        },
{
    match list {
        None => {
            assert(done + opt_schemas(*list) =~= done);
            None
        },
        Some(bs) => {
            let ghost all = done + bs@;
            assert(all.take(done.len() as int) =~= done);
            let mut i: usize = 0;
            while i < bs.len()
                invariant
                    i <= bs@.len(),
                    *list == Some(*bs),
                    all == done + bs@,
                    in_branches(all.take(done.len() + i), key@) is None,
                decreases bs.len() - i,
            {
                assert(all.take(done.len() + i + 1).drop_last() =~= all.take(done.len() + i));
                assert(all.take(done.len() + i + 1).last() == bs@[i as int]);
                match property(&bs[i], key) {
                    Some(c) => {
                        assert(in_branches(all.take(done.len() + i + 1), key@) == Some(*c));
                        proof {
                            lemma_in_branches_prefix(all, done.len() + i + 1, key@);
                        }
                        return Some(c);
                    },
                    None => {},
                }
                i += 1;
            }
            assert(all.take(done.len() + i) =~= all);
            None
        },
    }
}

/// The property `key` of the first composition branch (`allOf`, `anyOf`,
/// `oneOf`, in that order) that has one.
pub fn find_in_branches<'a>(schema: &'a JsonSchema, key: &Vec<char>) -> (r: Option<&'a JsonSchema>)
    ensures
        match r {
            Some(c) => in_branches(branches(*schema), key@) == Some(*c),
            None => in_branches(branches(*schema), key@) is None,
        },
{
    let ghost e = Seq::<JsonSchema>::empty();
    let ghost a = opt_schemas(schema.all_of);
    let ghost b = opt_schemas(schema.any_of);
    assert(e + a =~= a);
    match search_branches(&schema.all_of, key, Ghost(e)) {
        Some(c) => {
            proof {
                assert(branches(*schema).take(a.len() as int) =~= a);
                lemma_in_branches_prefix(branches(*schema), a.len() as int, key@);
            }
            return Some(c);
        },
        None => {},
    }
    match search_branches(&schema.any_of, key, Ghost(a)) {
        Some(c) => {
            proof {
                assert(branches(*schema).take((a.len() + b.len()) as int) =~= a + b);
                lemma_in_branches_prefix(branches(*schema), (a.len() + b.len()) as int, key@);
            }
            return Some(c);
        },
        None => {},
    }
    let r = search_branches(&schema.one_of, key, Ghost(a + b));
    assert(a + b + opt_schemas(schema.one_of) =~= branches(*schema));
    r
}

/// Resolves the key path from index `i` on through the schema.
fn resolve_from<'a>(schema: &'a JsonSchema, path: &Vec<String>, i: usize) -> (r: Option<&'a JsonSchema>)
    requires
        i <= path@.len(),
    ensures
        match r {
            Some(c) => resolve(*schema, path@.map_values(|s: String| s@).skip(i as int)) == Some(*c),
            None => resolve(*schema, path@.map_values(|s: String| s@).skip(i as int)) is None,
        },
    decreases path@.len() - i,
{
    let ghost pv = path@.map_values(|s: String| s@);
    let ghost rest = pv.skip(i as int);
    if i >= path.len() {
        return None;
    }
    assert(rest[0] == path@[i as int]@);
    let key = str_chars(path[i].as_str());
    let found = match property(schema, &key) {
        Some(c) => Some(c),
        None => find_in_branches(schema, &key),
    };
    match found {
        None => None,
        Some(c) => {
            if i + 1 == path.len() {
                Some(c)
            } else {
                assert(rest.drop_first() =~= pv.skip(i + 1));
                resolve_from(c, path, i + 1)
            }
        },
    }
}

/// Resolves a key path through a schema: `None` when some key is found
/// neither among the properties nor among the branches' properties.
pub fn resolve_schema_path<'a>(schema: &'a JsonSchema, path: &Vec<String>) -> (r: Option<&'a JsonSchema>)
    ensures
        match r {
            Some(c) => resolve(*schema, path@.map_values(|s: String| s@)) == Some(*c),
            None => resolve(*schema, path@.map_values(|s: String| s@)) is None,
        },
{
    assert(path@.map_values(|s: String| s@).skip(0) =~= path@.map_values(|s: String| s@));
    resolve_from(schema, path, 0)
}

fn nonempty_text(o: &Option<String>) -> (r: Option<Vec<char>>)
    ensures
        match r {
            Some(v) => nonempty(*o) == Some(v@),
            None => nonempty(*o) is None,
        },
{
    match o {
        Some(s) => {
            let v = str_chars(s.as_str());
            if v.len() > 0 {
                Some(v)
            } else {
                None
            }
        },
        None => None,
    }
}

fn push_type(out: &mut Vec<char>, t: &SchemaType)
    ensures
        final(out)@ == old(out)@ + type_text(*t),
{
    match t {
        SchemaType::Single(s) => {
            push_lit(out, s.as_str());
        },
        SchemaType::Multiple(ts) => {
            let ghost tv = ts@.map_values(|s: String| s@);
            let ghost o = out@;
            let mut i: usize = 0;
            while i < ts.len()
                invariant
                    i <= ts@.len(),
                    tv == ts@.map_values(|s: String| s@),
                    out@ == o + joined(tv.take(i as int), " | "@),
                decreases ts.len() - i,
            {
                assert(tv.take(i + 1).drop_last() =~= tv.take(i as int));
                assert(tv.take(i + 1).last() == ts@[i as int]@);
                if i > 0 {
                    push_lit(out, " | ");
                }
                push_lit(out, ts[i].as_str());
                i += 1;
                assert(out@ =~= o + joined(tv.take(i as int), " | "@));
            }
            assert(tv.take(i as int) =~= tv);
        },
    }
}

fn push_example(out: &mut Vec<char>, e: &SchemaExample)
    ensures
        final(out)@ == old(out)@ + example_text(*e),
{
    match &e.pretty {
        Some(p) => {
            let pv = str_chars(p.as_str());
            if e.compound && pv.len() <= MAX_EXAMPLE_LEN {
                push_lit(out, "\n```json\n");
                push_all(out, pv.as_slice());
                push_lit(out, "\n```");
                return;
            }
        },
        None => {},
    }
    push_lit(out, "\n- ");
    let dv = str_chars(e.display.as_str());
    push_truncated(out, dv.as_slice(), MAX_EXAMPLE_LEN);
}

fn push_description(md: &mut Vec<char>, schema: &JsonSchema)
    ensures
        final(md)@ == old(md)@ + description_part(*schema),
{
    let text = match nonempty_text(&schema.description) {
        Some(d) => Some(d),
        None => nonempty_text(&schema.title),
    };
    match text {
        Some(d) => {
            push_lit(md, "\n**Description:** ");
            push_truncated(md, d.as_slice(), MAX_DESCRIPTION_LEN);
            push_lit(md, "\n");
        },
        None => {},
    }
}

fn push_type_part(md: &mut Vec<char>, schema: &JsonSchema)
    ensures
        final(md)@ == old(md)@ + type_part(*schema),
{
    match &schema.schema_type {
        Some(t) => {
            push_lit(md, "\n**Schema type:** ");
            push_type(md, t);
            push_lit(md, "\n");
        },
        None => {},
    }
}

fn push_default(md: &mut Vec<char>, schema: &JsonSchema)
    ensures
        final(md)@ == old(md)@ + default_part(*schema),
{
    match &schema.default {
        Some(d) => {
            push_lit(md, "\n**Default:** ");
            push_lit(md, d.as_str());
            push_lit(md, "\n");
        },
        None => {},
    }
}

fn push_examples(md: &mut Vec<char>, schema: &JsonSchema)
    ensures
        final(md)@ == old(md)@ + examples_part(*schema),
{
    match &schema.examples {
        Some(es) => {
            if es.len() > 0 {
                let shown: usize = if es.len() < MAX_EXAMPLES {
                    es.len()
                } else {
                    MAX_EXAMPLES
                };
                let ghost m0 = md@;
                push_lit(md, "\n**Examples:**");
                let ghost d0 = md@;
                let mut i: usize = 0;
                while i < shown
                    invariant
                        i <= shown,
                        shown <= es@.len(),
                        md@ == d0 + examples_text(es@.take(i as int)),
                    decreases shown - i,
                {
                    assert(es@.take(i + 1).drop_last() =~= es@.take(i as int));
                    push_example(md, &es[i]);
                    i += 1;
                }
                let ghost d1 = md@;
                let remaining = es.len() - shown;
                if remaining > 0 {
                    push_lit(md, "\n- *and ");
                    let dg = decimal_digits(remaining);
                    push_all(md, dg.as_slice());
                    push_lit(md, " more*");
                }
                push_lit(md, "\n");
                assert(md@ =~= m0 + examples_part(*schema));
            } else {
                assert(md@ =~= old(md)@ + examples_part(*schema));
            }
        },
        None => {
            assert(md@ =~= old(md)@ + examples_part(*schema));
        },
    }
}

fn section_chars(schema: &JsonSchema) -> (r: Vec<char>)
    ensures
        r@ == section_text(*schema),
{
    let mut md: Vec<char> = Vec::new();
    push_description(&mut md, schema);
    push_type_part(&mut md, schema);
    push_default(&mut md, schema);
    push_examples(&mut md, schema);
    assert(md@ =~= section_text(*schema));
    md
}

/// The schema section of the hover text: description (or title), type,
/// default and up to three examples, each part only when present.
pub fn format_schema_section(schema: &JsonSchema) -> (r: String)
    ensures
        r@ == section_text(*schema),
{
    let md = section_chars(schema);
    string_from_chars(md.as_slice())
}

/// The hover text for the cursor: the key path, type and value of the node
/// under it, then the schema section for that path when a schema is given
/// and has something to say. `None` when no node lies under the cursor.
pub fn hover_at(docs: &Vec<Document>, position: Position, schema: Option<&JsonSchema>) -> (r: Option<String>)
    ensures
        match r {
            Some(s) => hover_text(docs@, position, match schema {
                Some(x) => Some(*x),
                None => None,
            }) == Some(s@),
            None => hover_text(docs@, position, match schema {
                Some(x) => Some(*x),
                None => None,
            }) is None,
        },
{
    let (path, node) = match ast_walk(docs, position) {
        Some(x) => x,
        None => return None,
    };
    let formatted = format_path(&path);
    let yaml_type = yaml_type_name(node);
    let value = match scalar_value(node) {
        Some(v) => Some(v.as_str()),
        None => None,
    };
    let mut md = markdown_chars(formatted.as_str(), yaml_type, value);
    match schema {
        Some(s) => {
            let key_path = build_schema_key_path(formatted.as_str());
            match resolve_schema_path(s, &key_path) {
                Some(ps) => {
                    let section = section_chars(ps);
                    if section.len() > 0 {
                        md.push('\n');
                        push_all(&mut md, section.as_slice());
                    }
                },
                None => {},
            }
        },
        None => {},
    }
    Some(string_from_chars(md.as_slice()))
}

} // verus!
