//! The layout of a syntax tree: how the formatter turns nodes into a
//! layout document.
//!
//! The spec functions below state the layout of every kind of node; the
//! executable functions build exactly that document.
use vstd::prelude::*;

use crate::ast::{
    anchor_of, has_tag_loc, leading_comments_of, node_size, nodes_size, pairs_size,
    trailing_comment_of, CollectionStyle, Node, ScalarStyle,
};
use crate::doc::{comma_line, interleave, join_spec, DocSpec};
use crate::format_options::YamlFormatOptions;
use crate::scalar_render::{
    block_doc, core_prefix, double_quote_only, double_quoted, flow_delimiter, must_quote,
    string_text, tag_text,
};
use crate::text::lines_of;

verus! {

/// The collection style used for output: block when block style is
/// enforced, the source style otherwise.
pub open spec fn effective_style(s: CollectionStyle, o: YamlFormatOptions) -> CollectionStyle {
    if o.format_enforce_block_style {
        CollectionStyle::Block
    } else {
        s
    }
}

/// `t` without any number of leading core-schema prefixes
/// (`str::trim_start_matches`).
pub open spec fn strip_core(t: Seq<char>) -> Seq<char>
    decreases t.len(),
{
    if core_prefix().is_prefix_of(t) && core_prefix().len() > 0 {
        strip_core(t.skip(core_prefix().len() as int))
    } else {
        t
    }
}

/// What a scalar's tag contributes before the value: a written core tag on
/// an empty scalar in short form (`!!str`); no core tag otherwise; a user
/// tag as written, followed by a space unless the scalar is empty.
pub open spec fn scalar_tag_prefix(value: Seq<char>, tag: Option<Seq<char>>, tag_written: bool) -> Option<Seq<char>> {
    match tag {
        None => None,
        Some(t) => if core_prefix().is_prefix_of(t) {
            if tag_written && value.len() == 0 {
                Some("!!"@ + strip_core(t))
            } else {
                None
            }
        } else if value.len() == 0 {
            Some(tag_text(t))
        } else {
            Some(tag_text(t) + " "@)
        },
    }
}

/// `s` with each `'` doubled (`str::replace('\'', "''")`).
pub open spec fn doubled_quotes(s: Seq<char>) -> Seq<char>
    decreases s.len(),
{
    if s.len() == 0 {
        seq![]
    } else {
        doubled_quotes(s.drop_last()) + if s.last() == '\'' {
            seq!['\'', '\'']
        } else {
            seq![s.last()]
        }
    }
}

/// The single-quoted form of `s`, quotes inside doubled.
pub open spec fn single_quoted_escaped(s: Seq<char>) -> Seq<char> {
    seq!['\''] + doubled_quotes(s) + seq!['\'']
}

/// A non-empty line made of spaces and tabs that starts with a space.
pub open spec fn space_blank_line(l: Seq<char>) -> bool {
    l.len() > 0 && l[0] == ' ' && forall|i: int| 0 <= i < l.len() ==> (#[trigger] l[i] == ' ' || l[i] == '\t')
}

/// The value has a line that would become an over-indented blank line in
/// block form.
pub open spec fn has_space_blank_line(value: Seq<char>) -> bool {
    value.len() > 0 && exists|i: int|
        0 <= i < lines_of(value).len() && space_blank_line(#[trigger] lines_of(value)[i])
}

/// The value holds a character that only a double-quoted scalar can hold.
pub open spec fn needs_double_quotes(value: Seq<char>) -> bool {
    exists|i: int| 0 <= i < value.len() && double_quote_only(#[trigger] value[i])
}

/// The layout of a scalar's value in its source style.
pub open spec fn scalar_body(value: Seq<char>, style: ScalarStyle, o: YamlFormatOptions, in_key: bool) -> DocSpec {
    match style {
        ScalarStyle::Literal(_) | ScalarStyle::Folded(_) => if has_space_blank_line(value) {
            DocSpec::Text(double_quoted(value))
        } else {
            block_doc(value, style, o.tab_width as nat)
        },
        ScalarStyle::SingleQuoted | ScalarStyle::DoubleQuoted => if needs_double_quotes(value) {
            DocSpec::Text(double_quoted(value))
        } else if must_quote(value, o.yaml_version) || o.preserve_quotes {
            if style == ScalarStyle::DoubleQuoted {
                DocSpec::Text(double_quoted(value))
            } else {
                DocSpec::Text(single_quoted_escaped(value))
            }
        } else {
            DocSpec::Text(string_text(value, o, in_key))
        },
        ScalarStyle::Plain => if needs_double_quotes(value) {
            DocSpec::Text(double_quoted(value))
        } else if must_quote(value, o.yaml_version) {
            DocSpec::Text(value)
        } else {
            DocSpec::Text(string_text(value, o, in_key))
        },
    }
}

/// The layout of a scalar node: anchor, then tag, then value.
pub open spec fn scalar_doc(
    value: Seq<char>,
    style: ScalarStyle,
    tag: Option<Seq<char>>,
    tag_written: bool,
    anchor: Option<Seq<char>>,
    o: YamlFormatOptions,
    in_key: bool,
) -> DocSpec {
    let tp = scalar_tag_prefix(value, tag, tag_written);
    let body = scalar_body(value, style, o, in_key);
    let d = match tp {
        Some(p) => if value.len() == 0 {
            DocSpec::Text(p)
        } else {
            DocSpec::Concat(seq![DocSpec::Text(p), body])
        },
        None => body,
    };
    match anchor {
        Some(a) => if value.len() == 0 && tp is None {
            DocSpec::Concat(seq![DocSpec::Text("&"@ + a), d])
        } else {
            DocSpec::Concat(seq![DocSpec::Text("&"@ + a + " "@), d])
        },
        None => d,
    }
}

/// A tag that is written out for a collection (core tags are dropped).
pub open spec fn user_tag(tag: Option<Seq<char>>) -> Option<Seq<char>> {
    match tag {
        Some(t) => if core_prefix().is_prefix_of(t) {
            None
        } else {
            Some(tag_text(t))
        },
        None => None,
    }
}

/// The properties text `&anchor !tag`, `&anchor`, `!tag` or nothing.
pub open spec fn props_text(anchor: Option<Seq<char>>, utag: Option<Seq<char>>) -> Option<Seq<char>> {
    match (anchor, utag) {
        (Some(a), Some(t)) => Some("&"@ + a + " "@ + t),
        (Some(a), None) => Some("&"@ + a),
        (None, Some(t)) => Some(t),
        (None, None) => None,
    }
}

/// Prepend anchor and user-defined tag node properties to a collection
/// layout: on their own line for block collections, inline for flow ones.
pub open spec fn with_properties(
    d: DocSpec,
    anchor: Option<Seq<char>>,
    tag: Option<Seq<char>>,
    style: CollectionStyle,
) -> DocSpec {
    match props_text(anchor, user_tag(tag)) {
        None => d,
        Some(p) => match style {
            CollectionStyle::Block => DocSpec::Concat(seq![DocSpec::Text(p), DocSpec::HardLine, d]),
            CollectionStyle::Flow => DocSpec::Concat(seq![DocSpec::Text(p + " "@), d]),
        },
    }
}

/// A key that needs the explicit `? key` form: a non-empty collection or a
/// block scalar.
pub open spec fn needs_explicit_key(k: Node) -> bool {
    match k {
        Node::Mapping { entries, .. } => entries@.len() > 0,
        Node::Sequence { items, .. } => items@.len() > 0,
        Node::Scalar { style, .. } => match style {
            ScalarStyle::Literal(_) | ScalarStyle::Folded(_) => true,
            _ => false,
        },
        Node::Alias { .. } => false,
    }
}

/// An empty scalar key whose tag (if any) is a core tag the parser added.
pub open spec fn is_empty_key(k: Node) -> bool {
    match k {
        Node::Scalar { value, tag, .. } => value@.len() == 0 && match tag {
            None => true,
            Some(t) => core_prefix().is_prefix_of(t@) && !has_tag_loc(k),
        },
        _ => false,
    }
}

/// A key that needs a space before `:`: an alias, or an empty scalar whose
/// tag is written out.
pub open spec fn key_needs_space(k: Node) -> bool {
    match k {
        Node::Scalar { value, tag, .. } => value@.len() == 0 && match tag {
            Some(t) => !(core_prefix().is_prefix_of(t@) && !has_tag_loc(k)),
            None => false,
        },
        Node::Alias { .. } => true,
        _ => false,
    }
}

/// The node is a scalar with an empty value.
pub open spec fn is_empty_scalar(n: Node) -> bool {
    match n {
        Node::Scalar { value, .. } => value@.len() == 0,
        _ => false,
    }
}

/// The texts of comment lines, each followed by a line break.
pub open spec fn comment_lines(cs: Seq<Seq<char>>) -> Seq<DocSpec>
    decreases cs.len(),
{
    if cs.len() == 0 {
        seq![]
    } else {
        comment_lines(cs.drop_last()) + seq![DocSpec::Text(cs.last()), DocSpec::HardLine]
    }
}

/// `d` with the node's trailing comment appended.
pub open spec fn with_trailing(d: DocSpec, n: Node) -> DocSpec {
    match trailing_comment_of(n) {
        Some(tc) => DocSpec::Concat(seq![d, DocSpec::Text("  "@ + tc)]),
        None => d,
    }
}

/// `d` after the leading comments of `n`.
pub open spec fn with_leading(d: DocSpec, n: Node) -> DocSpec {
    let cs = leading_comments_of(n);
    if cs.len() == 0 {
        d
    } else {
        DocSpec::Concat(comment_lines(cs) + seq![d])
    }
}

/// The layout of a node. When `in_key` is `true`, the `single_quote` style
/// preference does not apply to plain-safe scalars.
pub open spec fn node_doc(n: Node, o: YamlFormatOptions, in_key: bool) -> DocSpec
    decreases node_size(n), 9int,
{
    match n {
        Node::Scalar { value, style, tag, .. } => scalar_doc(
            value@,
            style,
            crate::ast::opt_view(tag),
            has_tag_loc(n),
            anchor_of(n),
            o,
            in_key,
        ),
        Node::Mapping { entries, style, tag, .. } => with_properties(
            mapping_doc(entries@, style, o),
            anchor_of(n),
            crate::ast::opt_view(tag),
            effective_style(style, o),
        ),
        Node::Sequence { items, style, tag, .. } => with_properties(
            seq_doc(items@, style, o),
            anchor_of(n),
            crate::ast::opt_view(tag),
            effective_style(style, o),
        ),
        Node::Alias { name, .. } => DocSpec::Text("*"@ + name@),
    }
}

/// The layout of a node inside a flow collection: plain scalars holding
/// flow delimiters (and no anchor) are double-quoted.
pub open spec fn flow_item_doc(n: Node, o: YamlFormatOptions, in_key: bool) -> DocSpec
    decreases node_size(n), 10int,
{
    match n {
        Node::Scalar { value, style: ScalarStyle::Plain, .. } => if anchor_of(n) is None && exists|i: int|
            0 <= i < value@.len() && flow_delimiter(#[trigger] value@[i]) {
            DocSpec::Text(double_quoted(value@))
        } else {
            node_doc(n, o, in_key)
        },
        _ => node_doc(n, o, in_key),
    }
}

/// The layout of a mapping's entries.
pub open spec fn mapping_doc(es: Seq<(Node, Node)>, style: CollectionStyle, o: YamlFormatOptions) -> DocSpec
    decreases pairs_size(es), 14int,
{
    if es.len() == 0 {
        DocSpec::Text("{}"@)
    } else {
        match effective_style(style, o) {
            CollectionStyle::Flow => flow_mapping_doc(es, o),
            CollectionStyle::Block => join_spec(DocSpec::HardLine, kv_docs(es, o)),
        }
    }
}

/// The opening and closing bracket texts of a flow collection.
pub open spec fn flow_group(open: Seq<char>, inner: DocSpec, close: Seq<char>) -> DocSpec {
    DocSpec::Group(
        Box::new(
            DocSpec::Concat(
                seq![
                    DocSpec::Text(open),
                    DocSpec::Indent(
                        Box::new(
                            DocSpec::Concat(
                                seq![DocSpec::FlatAlt(Box::new(DocSpec::Text(seq![])), Box::new(DocSpec::Line)), inner],
                            ),
                        ),
                    ),
                    DocSpec::FlatAlt(Box::new(DocSpec::Text(seq![])), Box::new(DocSpec::Line)),
                    DocSpec::Text(close),
                ],
            ),
        ),
    )
}

/// A flow mapping: `{ k: v, ... }` (or `{k: v}` without bracket spacing),
/// broken over lines by the printer when it does not fit.
pub open spec fn flow_mapping_doc(es: Seq<(Node, Node)>, o: YamlFormatOptions) -> DocSpec
    decreases pairs_size(es), 13int,
{
    let inner = join_spec(comma_line(), flow_kv_docs(es, o));
    if o.bracket_spacing {
        flow_group("{ "@, inner, " }"@)
    } else {
        flow_group("{"@, inner, "}"@)
    }
}

/// The entries of a flow mapping: `key: value` (`key : value` for keys that
/// need the space).
pub open spec fn flow_kv_docs(es: Seq<(Node, Node)>, o: YamlFormatOptions) -> Seq<DocSpec>
    decreases pairs_size(es), 12int,
{
    if es.len() == 0 {
        seq![]
    } else {
        let k = es[es.len() - 1].0;
        let v = es[es.len() - 1].1;
        let sep = if key_needs_space(k) {
            " : "@
        } else {
            ": "@
        };
        flow_kv_docs(es.subrange(0, es.len() - 1), o).push(
            DocSpec::Concat(seq![flow_item_doc(k, o, true), DocSpec::Text(sep), flow_item_doc(v, o, false)]),
        )
    }
}

/// The layouts of block mapping entries.
pub open spec fn kv_docs(es: Seq<(Node, Node)>, o: YamlFormatOptions) -> Seq<DocSpec>
    decreases pairs_size(es), 12int,
{
    if es.len() == 0 {
        seq![]
    } else {
        proof {
            crate::ast::lemma_node_size_pos(es[es.len() - 1].0);
            crate::ast::lemma_node_size_pos(es[es.len() - 1].1);
        }
        kv_docs(es.subrange(0, es.len() - 1), o).push(kv_doc(es[es.len() - 1].0, es[es.len() - 1].1, o))
    }
}

/// The `: &anchor !tag` text after a key whose value is a block collection,
/// or `bare` when the value has no properties.
pub open spec fn colon_props(v: Node, tag: Option<Seq<char>>, bare: Seq<char>) -> Seq<char> {
    match props_text(anchor_of(v), user_tag(tag)) {
        Some(p) => ": "@ + p,
        None => bare,
    }
}

/// A value that is a non-empty block mapping.
pub open spec fn block_mapping_value(v: Node, o: YamlFormatOptions) -> bool {
    match v {
        Node::Mapping { entries, style, .. } => entries@.len() > 0 && effective_style(style, o)
            == CollectionStyle::Block,
        _ => false,
    }
}

/// A value that is a non-empty block sequence.
pub open spec fn block_sequence_value(v: Node, o: YamlFormatOptions) -> bool {
    match v {
        Node::Sequence { items, style, .. } => items@.len() > 0 && effective_style(style, o)
            == CollectionStyle::Block,
        _ => false,
    }
}

/// The part after a key: `colon` followed by the value, which a block
/// collection value starts on the next line, one level deeper (a block
/// sequence at the key's level when sequences are not indented).
pub open spec fn value_after_colon(head: Seq<DocSpec>, v: Node, o: YamlFormatOptions, inline_sep: Seq<char>, bare: Seq<char>) -> DocSpec
    decreases node_size(v), 10int,
{
    match v {
        Node::Mapping { entries, style, tag, .. } => if block_mapping_value(v, o) {
            DocSpec::Concat(
                head + seq![
                    DocSpec::Text(colon_props(v, crate::ast::opt_view(tag), bare)),
                    DocSpec::Indent(
                        Box::new(DocSpec::Concat(seq![DocSpec::HardLine, mapping_doc(entries@, style, o)])),
                    ),
                ],
            )
        } else {
            DocSpec::Concat(head + seq![DocSpec::Text(inline_sep), node_doc(v, o, false)])
        },
        Node::Sequence { items, style, tag, .. } => if block_sequence_value(v, o) {
            let c = DocSpec::Text(colon_props(v, crate::ast::opt_view(tag), bare));
            let s = seq_doc(items@, style, o);
            if o.format_indent_sequences {
                DocSpec::Concat(
                    head + seq![c, DocSpec::Indent(Box::new(DocSpec::Concat(seq![DocSpec::HardLine, s])))],
                )
            } else {
                DocSpec::Concat(head + seq![c, DocSpec::HardLine, s])
            }
        } else {
            DocSpec::Concat(head + seq![DocSpec::Text(inline_sep), node_doc(v, o, false)])
        },
        _ => DocSpec::Concat(head + seq![DocSpec::Text(inline_sep), node_doc(v, o, false)]),
    }
}

/// An entry in explicit key form: `? key`, then `: value` on the next line.
pub open spec fn explicit_key_doc(k: Node, v: Node, o: YamlFormatOptions) -> DocSpec
    decreases node_size(k) + node_size(v), 10int,
{
    let question = DocSpec::Concat(seq![DocSpec::Text("? "@), DocSpec::Indent(Box::new(node_doc(k, o, true)))]);
    let colon_line = if is_empty_scalar(v) {
        DocSpec::Text(":"@)
    } else {
        value_after_colon(seq![], v, o, ": "@, ":"@)
    };
    DocSpec::Concat(seq![question, DocSpec::HardLine, with_trailing(colon_line, v)])
}

/// A block mapping entry, with the key's leading comments before it and the
/// value's trailing comment after it.
pub open spec fn kv_doc(k: Node, v: Node, o: YamlFormatOptions) -> DocSpec
    decreases node_size(k) + node_size(v), 11int,
{
    let pair = if needs_explicit_key(k) {
        explicit_key_doc(k, v, o)
    } else if is_empty_key(k) {
        if is_empty_scalar(v) {
            DocSpec::Text(":"@)
        } else {
            DocSpec::Concat(seq![DocSpec::Text(": "@), node_doc(v, o, false)])
        }
    } else {
        let bare = if key_needs_space(k) {
            " :"@
        } else {
            ":"@
        };
        let sep = if key_needs_space(k) {
            " : "@
        } else {
            ": "@
        };
        with_trailing(value_after_colon(seq![node_doc(k, o, true)], v, o, sep, bare), v)
    };
    with_leading(pair, k)
}

/// The layout of a sequence's items.
pub open spec fn seq_doc(items: Seq<Node>, style: CollectionStyle, o: YamlFormatOptions) -> DocSpec
    decreases nodes_size(items), 14int,
{
    if items.len() == 0 {
        DocSpec::Text("[]"@)
    } else {
        match effective_style(style, o) {
            CollectionStyle::Flow => flow_group("["@, join_spec(comma_line(), flow_item_docs(items, o)), "]"@),
            CollectionStyle::Block => join_spec(DocSpec::HardLine, item_docs(items, o)),
        }
    }
}

/// The items of a flow sequence.
pub open spec fn flow_item_docs(items: Seq<Node>, o: YamlFormatOptions) -> Seq<DocSpec>
    decreases nodes_size(items), 12int,
{
    if items.len() == 0 {
        seq![]
    } else {
        proof {
            crate::ast::lemma_node_size_pos(items[items.len() - 1]);
        }
        flow_item_docs(items.subrange(0, items.len() - 1), o).push(flow_item_doc(items[items.len() - 1], o, false))
    }
}

/// The items of a block sequence.
pub open spec fn item_docs(items: Seq<Node>, o: YamlFormatOptions) -> Seq<DocSpec>
    decreases nodes_size(items), 12int,
{
    if items.len() == 0 {
        seq![]
    } else {
        proof {
            crate::ast::lemma_node_size_pos(items[items.len() - 1]);
        }
        item_docs(items.subrange(0, items.len() - 1), o).push(seq_item_doc(items[items.len() - 1], o))
    }
}

/// A block sequence item: `- ` then the item; a block mapping starts on the
/// dash line (after its properties, on the next line), a block sequence on
/// the next line.
pub open spec fn seq_item_doc(item: Node, o: YamlFormatOptions) -> DocSpec
    decreases node_size(item), 10int,
{
    let d = match item {
        Node::Mapping { entries, tag, .. } => if block_mapping_value(item, o) {
            let inner = join_spec(DocSpec::HardLine, kv_docs(entries@, o));
            match props_text(anchor_of(item), user_tag(crate::ast::opt_view(tag))) {
                None => DocSpec::Concat(seq![DocSpec::Text("- "@), DocSpec::Indent(Box::new(inner))]),
                Some(p) => DocSpec::Concat(
                    seq![
                        DocSpec::Text("- "@),
                        DocSpec::Text(p),
                        DocSpec::Indent(Box::new(DocSpec::Concat(seq![DocSpec::HardLine, inner]))),
                    ],
                ),
            }
        } else {
            DocSpec::Concat(seq![DocSpec::Text("- "@), node_doc(item, o, false)])
        },
        Node::Sequence { items, style, tag, .. } => if block_sequence_value(item, o) {
            let p = match props_text(anchor_of(item), user_tag(crate::ast::opt_view(tag))) {
                Some(p) => p,
                None => seq![],
            };
            DocSpec::Concat(
                seq![
                    DocSpec::Text("- "@),
                    DocSpec::Text(p),
                    DocSpec::Indent(Box::new(DocSpec::Concat(seq![DocSpec::HardLine, seq_doc(items@, style, o)]))),
                ],
            )
        } else {
            DocSpec::Concat(seq![DocSpec::Text("- "@), node_doc(item, o, false)])
        },
        _ => DocSpec::Concat(seq![DocSpec::Text("- "@), node_doc(item, o, false)]),
    };
    with_leading(with_trailing(d, item), item)
}


/// The options agree on everything the layout reads: all but the line
/// ending and the final-newline policy.
pub open spec fn layout_agree(o: YamlFormatOptions, p: YamlFormatOptions) -> bool {
    &&& o.print_width == p.print_width
    &&& o.tab_width == p.tab_width
    &&& o.single_quote == p.single_quote
    &&& o.preserve_quotes == p.preserve_quotes
    &&& o.bracket_spacing == p.bracket_spacing
    &&& o.yaml_version == p.yaml_version
    &&& o.format_enforce_block_style == p.format_enforce_block_style
    &&& o.format_remove_duplicate_keys == p.format_remove_duplicate_keys
    &&& o.format_indent_sequences == p.format_indent_sequences
}

proof fn lemma_scalar_agree(value: Seq<char>, style: ScalarStyle, o: YamlFormatOptions, p: YamlFormatOptions, in_key: bool)
    requires
        layout_agree(o, p),
    ensures
        scalar_body(value, style, o, in_key) == scalar_body(value, style, p, in_key),
{
    assert(string_text(value, o, in_key) == string_text(value, p, in_key));
}

/// A node's layout reads no line-ending or final-newline option.
pub proof fn lemma_node_doc_agree(n: Node, o: YamlFormatOptions, p: YamlFormatOptions, in_key: bool)
    requires
        layout_agree(o, p),
    ensures
        node_doc(n, o, in_key) == node_doc(n, p, in_key),
    decreases node_size(n), 9int,
{
    match n {
        Node::Scalar { value, style, .. } => {
            lemma_scalar_agree(value@, style, o, p, in_key);
        },
        Node::Mapping { entries, style, .. } => {
            lemma_mapping_doc_agree(entries@, style, o, p);
        },
        Node::Sequence { items, style, .. } => {
            lemma_seq_doc_agree(items@, style, o, p);
        },
        Node::Alias { .. } => {},
    }
}

proof fn lemma_flow_item_doc_agree(n: Node, o: YamlFormatOptions, p: YamlFormatOptions, in_key: bool)
    requires
        layout_agree(o, p),
    ensures
        flow_item_doc(n, o, in_key) == flow_item_doc(n, p, in_key),
    decreases node_size(n), 10int,
{
    lemma_node_doc_agree(n, o, p, in_key);
}

proof fn lemma_mapping_doc_agree(es: Seq<(Node, Node)>, style: CollectionStyle, o: YamlFormatOptions, p: YamlFormatOptions)
    requires
        layout_agree(o, p),
    ensures
        mapping_doc(es, style, o) == mapping_doc(es, style, p),
    decreases pairs_size(es), 14int,
{
    if es.len() > 0 {
        lemma_flow_mapping_doc_agree(es, o, p);
        lemma_kv_docs_agree(es, o, p);
    }
}

proof fn lemma_flow_mapping_doc_agree(es: Seq<(Node, Node)>, o: YamlFormatOptions, p: YamlFormatOptions)
    requires
        layout_agree(o, p),
    ensures
        flow_mapping_doc(es, o) == flow_mapping_doc(es, p),
    decreases pairs_size(es), 13int,
{
    lemma_flow_kv_docs_agree(es, o, p);
}

proof fn lemma_flow_kv_docs_agree(es: Seq<(Node, Node)>, o: YamlFormatOptions, p: YamlFormatOptions)
    requires
        layout_agree(o, p),
    ensures
        flow_kv_docs(es, o) == flow_kv_docs(es, p),
    decreases pairs_size(es), 12int,
{
    if es.len() > 0 {
        crate::ast::lemma_pairs_size(es, es.len() - 1);
        crate::ast::lemma_node_size_pos(es[es.len() - 1].0);
        crate::ast::lemma_node_size_pos(es[es.len() - 1].1);
        lemma_flow_kv_docs_agree(es.subrange(0, es.len() - 1), o, p);
        lemma_flow_item_doc_agree(es[es.len() - 1].0, o, p, true);
        lemma_flow_item_doc_agree(es[es.len() - 1].1, o, p, false);
    }
}

proof fn lemma_kv_docs_agree(es: Seq<(Node, Node)>, o: YamlFormatOptions, p: YamlFormatOptions)
    requires
        layout_agree(o, p),
    ensures
        kv_docs(es, o) == kv_docs(es, p),
    decreases pairs_size(es), 12int,
{
    if es.len() > 0 {
        crate::ast::lemma_pairs_size(es, es.len() - 1);
        crate::ast::lemma_node_size_pos(es[es.len() - 1].0);
        crate::ast::lemma_node_size_pos(es[es.len() - 1].1);
        lemma_kv_docs_agree(es.subrange(0, es.len() - 1), o, p);
        lemma_kv_doc_agree(es[es.len() - 1].0, es[es.len() - 1].1, o, p);
    }
}

proof fn lemma_value_after_colon_agree(head: Seq<DocSpec>, v: Node, o: YamlFormatOptions, p: YamlFormatOptions, inline_sep: Seq<char>, bare: Seq<char>)
    requires
        layout_agree(o, p),
    ensures
        value_after_colon(head, v, o, inline_sep, bare) == value_after_colon(head, v, p, inline_sep, bare),
    decreases node_size(v), 10int,
{
    lemma_node_doc_agree(v, o, p, false);
    match v {
        Node::Mapping { entries, style, .. } => lemma_mapping_doc_agree(entries@, style, o, p),
        Node::Sequence { items, style, .. } => lemma_seq_doc_agree(items@, style, o, p),
        _ => {},
    }
}

proof fn lemma_explicit_key_doc_agree(k: Node, v: Node, o: YamlFormatOptions, p: YamlFormatOptions)
    requires
        layout_agree(o, p),
    ensures
        explicit_key_doc(k, v, o) == explicit_key_doc(k, v, p),
    decreases node_size(k) + node_size(v), 10int,
{
    crate::ast::lemma_node_size_pos(k);
    crate::ast::lemma_node_size_pos(v);
    lemma_node_doc_agree(k, o, p, true);
    lemma_value_after_colon_agree(seq![], v, o, p, ": "@, ":"@);
}

proof fn lemma_kv_doc_agree(k: Node, v: Node, o: YamlFormatOptions, p: YamlFormatOptions)
    requires
        layout_agree(o, p),
    ensures
        kv_doc(k, v, o) == kv_doc(k, v, p),
    decreases node_size(k) + node_size(v), 11int,
{
    crate::ast::lemma_node_size_pos(k);
    crate::ast::lemma_node_size_pos(v);
    lemma_explicit_key_doc_agree(k, v, o, p);
    lemma_node_doc_agree(v, o, p, false);
    lemma_node_doc_agree(k, o, p, true);
    let bare = if key_needs_space(k) { " :"@ } else { ":"@ };
    let sep = if key_needs_space(k) { " : "@ } else { ": "@ };
    assert(seq![node_doc(k, o, true)] == seq![node_doc(k, p, true)]);
    lemma_value_after_colon_agree(seq![node_doc(k, o, true)], v, o, p, sep, bare);
}

proof fn lemma_seq_doc_agree(items: Seq<Node>, style: CollectionStyle, o: YamlFormatOptions, p: YamlFormatOptions)
    requires
        layout_agree(o, p),
    ensures
        seq_doc(items, style, o) == seq_doc(items, style, p),
    decreases nodes_size(items), 14int,
{
    if items.len() > 0 {
        lemma_flow_item_docs_agree(items, o, p);
        lemma_item_docs_agree(items, o, p);
    }
}

proof fn lemma_flow_item_docs_agree(items: Seq<Node>, o: YamlFormatOptions, p: YamlFormatOptions)
    requires
        layout_agree(o, p),
    ensures
        flow_item_docs(items, o) == flow_item_docs(items, p),
    decreases nodes_size(items), 12int,
{
    if items.len() > 0 {
        crate::ast::lemma_nodes_size(items, items.len() - 1);
        crate::ast::lemma_node_size_pos(items[items.len() - 1]);
        lemma_flow_item_docs_agree(items.subrange(0, items.len() - 1), o, p);
        lemma_flow_item_doc_agree(items[items.len() - 1], o, p, false);
    }
}

proof fn lemma_item_docs_agree(items: Seq<Node>, o: YamlFormatOptions, p: YamlFormatOptions)
    requires
        layout_agree(o, p),
    ensures
        item_docs(items, o) == item_docs(items, p),
    decreases nodes_size(items), 12int,
{
    if items.len() > 0 {
        crate::ast::lemma_nodes_size(items, items.len() - 1);
        crate::ast::lemma_node_size_pos(items[items.len() - 1]);
        lemma_item_docs_agree(items.subrange(0, items.len() - 1), o, p);
        lemma_seq_item_doc_agree(items[items.len() - 1], o, p);
    }
}

proof fn lemma_seq_item_doc_agree(item: Node, o: YamlFormatOptions, p: YamlFormatOptions)
    requires
        layout_agree(o, p),
    ensures
        seq_item_doc(item, o) == seq_item_doc(item, p),
    decreases node_size(item), 10int,
{
    lemma_node_doc_agree(item, o, p, false);
    match item {
        Node::Mapping { entries, .. } => lemma_kv_docs_agree(entries@, o, p),
        Node::Sequence { items, style, .. } => lemma_seq_doc_agree(items@, style, o, p),
        _ => {},
    }
}


/// The node without its tag.
pub open spec fn untagged(n: Node) -> Node {
    match n {
        Node::Scalar { value, style, loc, meta, .. } => Node::Scalar { value, style, tag: None, loc, meta },
        Node::Mapping { entries, style, loc, meta, .. } => Node::Mapping { entries, style, tag: None, loc, meta },
        Node::Sequence { items, style, loc, meta, .. } => Node::Sequence { items, style, tag: None, loc, meta },
        Node::Alias { .. } => n,
    }
}

/// The node's tag is a YAML core-schema tag (`tag:yaml.org,2002:...`).
pub open spec fn has_core_tag(n: Node) -> bool {
    match n {
        Node::Scalar { tag, .. } => crate::ast::opt_view(tag) matches Some(t) && core_prefix().is_prefix_of(t),
        Node::Mapping { tag, .. } => crate::ast::opt_view(tag) matches Some(t) && core_prefix().is_prefix_of(t),
        Node::Sequence { tag, .. } => crate::ast::opt_view(tag) matches Some(t) && core_prefix().is_prefix_of(t),
        Node::Alias { .. } => false,
    }
}

/// Core-schema tags are never written, so a node with one is laid out as if
/// it had no tag: on collections always, and on scalars unless the tag was
/// written in the source on an empty scalar (which keeps the short form
/// `!!str`). Resolver-added tags (no source location) are never written.
pub proof fn law_core_tags_not_written(n: Node, o: YamlFormatOptions, in_key: bool)
    requires
        has_core_tag(n),
        n is Scalar ==> !has_tag_loc(n) || n->Scalar_value@.len() > 0,
    ensures
        node_doc(n, o, in_key) == node_doc(untagged(n), o, in_key),
{
    assert(has_tag_loc(untagged(n)) == has_tag_loc(n));
    assert(anchor_of(untagged(n)) == anchor_of(n));
}

} // verus!
