//! Builds the layout document of a syntax tree, as `node_render` states it.
use vstd::prelude::*;

use crate::ast::{
    anchor, anchor_of, has_tag_loc, leading_comments, leading_comments_of, lemma_node_size_pos,
    lemma_nodes_size, lemma_pairs_size, node_size, nodes_size, opt_view, pairs_size,
    tag_loc_is_some, trailing_comment, trailing_comment_of, CollectionStyle, Node, ScalarStyle,
};
use crate::doc::{
    comma_line, concat, concat2, concat3, doc_view, docs_view, flat_alt, group, hard_line, indent,
    join, join_spec, lemma_docs_view_push, line, separator, text_chars, text_lit, Doc, DocSpec,
};
use crate::format_options::YamlFormatOptions;
use crate::node_render::{
    block_mapping_value, block_sequence_value, comment_lines, doubled_quotes, effective_style,
    explicit_key_doc, flow_group, flow_item_doc, flow_item_docs, flow_kv_docs, flow_mapping_doc,
    has_space_blank_line, is_empty_key, is_empty_scalar, item_docs, key_needs_space, kv_doc,
    kv_docs, mapping_doc, needs_explicit_key, node_doc, props_text, scalar_body,
    scalar_tag_prefix, seq_doc, seq_item_doc, single_quoted_escaped, space_blank_line, strip_core,
    user_tag, value_after_colon, with_leading, with_properties, with_trailing,
};
use crate::scalar_render::{
    core_prefix, double_quote, is_core_schema_tag, needs_flow_quoting, needs_quoting,
    repr_block_to_doc, requires_double_quoting, string_to_doc, format_tag,
};
use crate::text::{push_all, push_lit, split_lines, str_chars, views};

verus! {

/// `t` without its leading core-schema prefixes.
fn strip_core_prefixes(t: &Vec<char>) -> (r: Vec<char>)
    ensures
        r@ == strip_core(t@),
{
    let p = str_chars("tag:yaml.org,2002:");
    let mut cur = crate::text::copy_chars(t);
    proof {
        reveal_strlit("tag:yaml.org,2002:");
    }
    while crate::text::starts_with_lit(&cur, "tag:yaml.org,2002:") && p.len() > 0
        invariant
            strip_core(t@) == strip_core(cur@),
            p@ == core_prefix(),
        decreases cur.len(),
    {
        cur = crate::text::slice_range(&cur, p.len(), cur.len());
    }
    cur
}

/// What a scalar's tag contributes before the value.
fn tag_prefix(value: &str, tag: &Option<String>, tag_written: bool) -> (r: Option<Vec<char>>)
    ensures
        match r {
            Some(v) => scalar_tag_prefix(value@, opt_view(*tag), tag_written) == Some(v@),
            None => scalar_tag_prefix(value@, opt_view(*tag), tag_written) is None,
        },
{
    match tag {
        None => None,
        Some(t) => {
            let empty = crate::text::str_is_empty(value);
            if is_core_schema_tag(t.as_str()) {
                if tag_written && empty {
                    let mut out = str_chars("!!");
                    let tv = str_chars(t.as_str());
                    let st = strip_core_prefixes(&tv);
                    push_all(&mut out, &st);
                    Some(out)
                } else {
                    None
                }
            } else {
                let mut f = format_tag(t.as_str());
                if !empty {
                    push_lit(&mut f, " ");
                }
                Some(f)
            }
        },
    }
}

/// `s` with each `'` doubled, in single quotes.
fn single_quote_escaped(s: &str) -> (r: Vec<char>)
    ensures
        r@ == single_quoted_escaped(s@),
{
    let v = str_chars(s);
    let mut out: Vec<char> = Vec::new();
    let mut i: usize = 0;
    while i < v.len()
        invariant
            i <= v.len(),
            out@ == doubled_quotes(v@.take(i as int)),
        decreases v.len() - i,
    {
        if v[i] == '\'' {
            out.push('\'');
            out.push('\'');
        } else {
            out.push(v[i]);
        }
        assert(v@.take(i + 1).drop_last() =~= v@.take(i as int));
        i += 1;
        assert(out@ =~= doubled_quotes(v@.take(i as int)));
    }
    assert(v@.take(i as int) =~= v@);
    assert(v@ == s@);
    let mut r: Vec<char> = Vec::new();
    r.push('\'');
    push_all(&mut r, &out);
    r.push('\'');
    assert(r@ =~= single_quoted_escaped(s@));
    r
}

/// The value has a non-empty line of spaces and tabs that starts with a space.
fn space_blank_line_in(value: &str) -> (r: bool)
    ensures
        r == has_space_blank_line(value@),
{
    let v = str_chars(value);
    if v.len() == 0 {
        return false;
    }
    let ls = split_lines(&v);
    let mut i: usize = 0;
    while i < ls.len()
        invariant
            i <= ls.len(),
            views(ls@) == lines_of_value(value@),
            forall|j: int| 0 <= j < i ==> !space_blank_line(#[trigger] lines_of_value(value@)[j]),
        decreases ls.len() - i,
    {
        let l = &ls[i];
        assert(lines_of_value(value@)[i as int] == l@);
        if l.len() > 0 && l[0] == ' ' {
            let mut k: usize = 0;
            let mut ok = true;
            while k < l.len()
                invariant
                    k <= l.len(),
                    ok == forall|m: int| 0 <= m < k ==> (#[trigger] l@[m] == ' ' || l@[m] == '\t'),
                decreases l.len() - k,
            {
                ok = ok && (l[k] == ' ' || l[k] == '\t');
                k += 1;
            }
            if ok {
                return true;
            }
        }
        i += 1;
    }
    false
}

pub open spec fn lines_of_value(v: Seq<char>) -> Seq<Seq<char>> {
    crate::text::lines_of(v)
}

/// The layout of a scalar's value in its source style.
fn scalar_body_doc(value: &str, style: ScalarStyle, options: &YamlFormatOptions, in_key: bool) -> (r: Doc)
    ensures
        doc_view(r) == scalar_body(value@, style, *options, in_key),
{
    match style {
        ScalarStyle::Literal(_) | ScalarStyle::Folded(_) => {
            if space_blank_line_in(value) {
                text_chars(&double_quote(value))
            } else {
                repr_block_to_doc(value, style, options.tab_width)
            }
        },
        ScalarStyle::SingleQuoted | ScalarStyle::DoubleQuoted => {
            let is_double = match style {
                ScalarStyle::DoubleQuoted => true,
                _ => false,
            };
            if requires_double_quoting(value) {
                text_chars(&double_quote(value))
            } else if needs_quoting(value, options.yaml_version) || options.preserve_quotes {
                if is_double {
                    text_chars(&double_quote(value))
                } else {
                    text_chars(&single_quote_escaped(value))
                }
            } else {
                string_to_doc(value, options, in_key)
            }
        },
        ScalarStyle::Plain => {
            if requires_double_quoting(value) {
                text_chars(&double_quote(value))
            } else if needs_quoting(value, options.yaml_version) {
                text_chars(&str_chars(value))
            } else {
                string_to_doc(value, options, in_key)
            }
        },
    }
}

/// `&name`, followed by a space when `space`.
fn anchor_text(name: &String, space: bool) -> (r: Vec<char>)
    ensures
        r@ == if space {
            "&"@ + name@ + " "@
        } else {
            "&"@ + name@
        },
{
    let mut out = str_chars("&");
    let n = str_chars(name.as_str());
    push_all(&mut out, &n);
    if space {
        push_lit(&mut out, " ");
    }
    out
}

/// The layout of a scalar node: anchor, then tag, then value.
fn scalar_to_doc(n: &Node, options: &YamlFormatOptions, in_key: bool) -> (r: Doc)
    requires
        n is Scalar,
    ensures
        doc_view(r) == node_doc(*n, *options, in_key),
{
    match n {
        Node::Scalar { value, style, tag, .. } => {
            let tp = tag_prefix(value.as_str(), tag, tag_loc_is_some(n));
            let body = scalar_body_doc(value.as_str(), *style, options, in_key);
            let empty = crate::text::str_is_empty(value.as_str());
            let tag_present = tp.is_some();
            let d = match tp {
                Some(p) => if empty {
                    text_chars(&p)
                } else {
                    concat2(text_chars(&p), body)
                },
                None => body,
            };
            match anchor(n) {
                Some(a) => {
                    let space = !(empty && !tag_present);
                    concat2(text_chars(&anchor_text(a, space)), d)
                },
                None => d,
            }
        },
        _ => text_lit(""),
    }
}

/// The properties text of a collection: `&anchor !tag`, `&anchor`, `!tag`.
fn props_of(anchor: Option<&String>, tag: &Option<String>) -> (r: Option<Vec<char>>)
    ensures
        match r {
            Some(v) => props_text(opt_view(match anchor { Some(s) => Some(*s), None => None }), user_tag(opt_view(*tag))) == Some(v@),
            None => props_text(opt_view(match anchor { Some(s) => Some(*s), None => None }), user_tag(opt_view(*tag))) is None,
        },
{
    let ut: Option<Vec<char>> = match tag {
        Some(t) => if is_core_schema_tag(t.as_str()) {
            None
        } else {
            Some(format_tag(t.as_str()))
        },
        None => None,
    };
    match (anchor, ut) {
        (Some(a), Some(t)) => {
            let mut out = anchor_text(a, true);
            push_all(&mut out, &t);
            Some(out)
        },
        (Some(a), None) => Some(anchor_text(a, false)),
        (None, Some(t)) => Some(t),
        (None, None) => None,
    }
}

/// Prepend anchor and user-defined tag node properties to a collection Doc.
fn prepend_collection_properties(d: Doc, anchor: Option<&String>, tag: &Option<String>, style: CollectionStyle) -> (r: Doc)
    ensures
        doc_view(r) == with_properties(doc_view(d), opt_view(match anchor { Some(s) => Some(*s), None => None }), opt_view(*tag), style),
{
    match props_of(anchor, tag) {
        None => d,
        Some(p) => match style {
            CollectionStyle::Block => concat3(text_chars(&p), hard_line(), d),
            CollectionStyle::Flow => {
                let mut q = p;
                push_lit(&mut q, " ");
                concat2(text_chars(&q), d)
            },
        },
    }
}

fn effective(style: CollectionStyle, options: &YamlFormatOptions) -> (r: CollectionStyle)
    ensures
        r == effective_style(style, *options),
{
    if options.format_enforce_block_style {
        CollectionStyle::Block
    } else {
        style
    }
}

/// Convert a node to its layout document.
///
/// When `in_key` is `true`, the `single_quote` style option is suppressed for
/// plain-safe scalar strings — keys are never single-quoted by style
/// preference alone.
pub fn node_to_doc(n: &Node, options: &YamlFormatOptions, in_key: bool) -> (r: Doc)
    ensures
        doc_view(r) == node_doc(*n, *options, in_key),
    decreases node_size(*n), 9int,
{
    match n {
        Node::Scalar { .. } => scalar_to_doc(n, options, in_key),
        Node::Mapping { entries, style, tag, .. } => {
            let d = mapping_to_doc(entries, *style, options);
            prepend_collection_properties(d, anchor(n), tag, effective(*style, options))
        },
        Node::Sequence { items, style, tag, .. } => {
            let d = sequence_to_doc(items, *style, options);
            prepend_collection_properties(d, anchor(n), tag, effective(*style, options))
        },
        Node::Alias { name, .. } => {
            let mut t = str_chars("*");
            push_all(&mut t, &str_chars(name.as_str()));
            text_chars(&t)
        },
    }
}

/// Emit a node for use inside a flow collection: plain scalars holding flow
/// delimiters (and no anchor) are double-quoted.
pub fn flow_item_to_doc(n: &Node, options: &YamlFormatOptions, in_key: bool) -> (r: Doc)
    ensures
        doc_view(r) == flow_item_doc(*n, *options, in_key),
    decreases node_size(*n), 10int,
{
    match n {
        Node::Scalar { value, style: ScalarStyle::Plain, .. } => {
            if anchor(n).is_none() && needs_flow_quoting(value.as_str()) {
                text_chars(&double_quote(value.as_str()))
            } else {
                node_to_doc(n, options, in_key)
            }
        },
        _ => node_to_doc(n, options, in_key),
    }
}

/// The layout of a mapping's entries, block or flow.
pub fn mapping_to_doc(es: &Vec<(Node, Node)>, style: CollectionStyle, options: &YamlFormatOptions) -> (r: Doc)
    ensures
        doc_view(r) == mapping_doc(es@, style, *options),
    decreases pairs_size(es@), 14int,
{
    if es.len() == 0 {
        return text_lit("{}");
    }
    match effective(style, options) {
        CollectionStyle::Flow => flow_mapping_to_doc(es, options),
        CollectionStyle::Block => {
            let parts = kv_list(es, options);
            join(true, parts)
        },
    }
}

/// The flow group `open`, the items, `close`.
fn flow_group_doc(open: &str, inner: Doc, close: &str) -> (r: Doc)
    ensures
        doc_view(r) == flow_group(open@, doc_view(inner), close@),
{
    proof {
        reveal_strlit("");
    }
    let a = flat_alt(text_lit(""), line());
    let b = flat_alt(text_lit(""), line());
    let mut parts: Vec<Doc> = Vec::new();
    let t1 = text_lit(open);
    let i1 = indent(concat2(a, inner));
    let t2 = text_lit(close);
    let ghost (x1, x2, x3, x4) = (t1, i1, b, t2);
    parts.push(t1);
    parts.push(i1);
    parts.push(b);
    parts.push(t2);
    proof {
        lemma_docs_view_push(Seq::empty(), x1);
        lemma_docs_view_push(seq![x1], x2);
        lemma_docs_view_push(seq![x1, x2], x3);
        lemma_docs_view_push(seq![x1, x2, x3], x4);
        assert(Seq::<Doc>::empty().push(x1) =~= seq![x1]);
        assert(seq![x1].push(x2) =~= seq![x1, x2]);
        assert(seq![x1, x2].push(x3) =~= seq![x1, x2, x3]);
        assert(seq![x1, x2, x3].push(x4) =~= parts@);
        assert(docs_view(Seq::<Doc>::empty()) =~= Seq::<DocSpec>::empty());
        assert(""@ =~= Seq::<char>::empty());
        assert(docs_view(parts@) =~= seq![doc_view(x1), doc_view(x2), doc_view(x3), doc_view(x4)]);
    }
    group(concat(parts))
}

/// A flow mapping, `{ k: v, ... }` or `{k: v}`.
fn flow_mapping_to_doc(es: &Vec<(Node, Node)>, options: &YamlFormatOptions) -> (r: Doc)
    ensures
        doc_view(r) == flow_mapping_doc(es@, *options),
    decreases pairs_size(es@), 13int,
{
    let ghost o = *options;
    let mut parts: Vec<Doc> = Vec::new();
    let mut i: usize = 0;
    while i < es.len()
        invariant
            i <= es@.len(),
            o == *options,
            docs_view(parts@) == flow_kv_docs(es@.take(i as int), o),
        decreases es.len() - i,
    {
        proof {
            lemma_pairs_size(es@, i as int);
            lemma_node_size_pos(es@[i as int].1);
            lemma_node_size_pos(es@[i as int].0);
        }
        let k = &es[i].0;
        let v = &es[i].1;
        let kd = flow_item_to_doc(k, options, true);
        let sep = if key_space(k) {
            text_lit(" : ")
        } else {
            text_lit(": ")
        };
        let vd = flow_item_to_doc(v, options, false);
        let e = concat3(kd, sep, vd);
        let ghost old_parts = parts@;
        parts.push(e);
        proof {
            lemma_docs_view_push(old_parts, e);
            assert(es@.take(i + 1).subrange(0, i as int) =~= es@.take(i as int));
        }
        i += 1;
    }
    assert(es@.take(i as int) =~= es@);
    let inner = join(false, parts);
    if options.bracket_spacing {
        flow_group_doc("{ ", inner, " }")
    } else {
        flow_group_doc("{", inner, "}")
    }
}

/// The layouts of block mapping entries.
fn kv_list(es: &Vec<(Node, Node)>, options: &YamlFormatOptions) -> (r: Vec<Doc>)
    ensures
        docs_view(r@) == kv_docs(es@, *options),
    decreases pairs_size(es@), 12int,
{
    let ghost o = *options;
    let mut parts: Vec<Doc> = Vec::new();
    let mut i: usize = 0;
    while i < es.len()
        invariant
            i <= es@.len(),
            o == *options,
            docs_view(parts@) == kv_docs(es@.take(i as int), o),
        decreases es.len() - i,
    {
        proof {
            lemma_pairs_size(es@, i as int);
        }
        let e = key_value_to_doc(&es[i].0, &es[i].1, options);
        let ghost old_parts = parts@;
        parts.push(e);
        proof {
            lemma_docs_view_push(old_parts, e);
            assert(es@.take(i + 1).subrange(0, i as int) =~= es@.take(i as int));
        }
        i += 1;
    }
    assert(es@.take(i as int) =~= es@);
    parts
}

/// `true` when a mapping key requires the explicit `? key` form.
pub fn explicit_key_needed(k: &Node) -> (r: bool)
    ensures
        r == needs_explicit_key(*k),
{
    match k {
        Node::Mapping { entries, .. } => entries.len() > 0,
        Node::Sequence { items, .. } => items.len() > 0,
        Node::Scalar { style, .. } => match style {
            ScalarStyle::Literal(_) | ScalarStyle::Folded(_) => true,
            _ => false,
        },
        Node::Alias { .. } => false,
    }
}

/// `true` when a mapping key is an effectively-untagged empty scalar.
pub fn empty_key(k: &Node) -> (r: bool)
    ensures
        r == is_empty_key(*k),
{
    match k {
        Node::Scalar { value, tag, .. } => {
            crate::text::str_is_empty(value.as_str()) && match tag {
                None => true,
                Some(t) => is_core_schema_tag(t.as_str()) && !tag_loc_is_some(k),
            }
        },
        _ => false,
    }
}

/// `true` when a mapping key requires a space before the `:` separator.
pub fn key_space(k: &Node) -> (r: bool)
    ensures
        r == key_needs_space(*k),
{
    match k {
        Node::Scalar { value, tag, .. } => {
            crate::text::str_is_empty(value.as_str()) && match tag {
                Some(t) => !(is_core_schema_tag(t.as_str()) && !tag_loc_is_some(k)),
                None => false,
            }
        },
        Node::Alias { .. } => true,
        _ => false,
    }
}

fn empty_scalar(n: &Node) -> (r: bool)
    ensures
        r == is_empty_scalar(*n),
{
    match n {
        Node::Scalar { value, .. } => {
            crate::text::str_is_empty(value.as_str())
        },
        _ => false,
    }
}

/// `d` followed by the node's trailing comment.
fn append_trailing(d: Doc, n: &Node) -> (r: Doc)
    ensures
        doc_view(r) == with_trailing(doc_view(d), *n),
{
    match trailing_comment(n) {
        Some(tc) => {
            let mut t = str_chars("  ");
            push_all(&mut t, &str_chars(tc.as_str()));
            concat2(d, text_chars(&t))
        },
        None => d,
    }
}

/// `d` after the node's leading comment lines.
fn prepend_leading(d: Doc, n: &Node) -> (r: Doc)
    ensures
        doc_view(r) == with_leading(doc_view(d), *n),
{
    match leading_comments(n) {
        None => d,
        Some(cs) => {
            if cs.len() == 0 {
                assert(leading_comments_of(*n) =~= Seq::<Seq<char>>::empty());
                return d;
            }
            let ghost cv = cs@.map_values(|c: String| c@);
            let mut parts: Vec<Doc> = Vec::new();
            let mut i: usize = 0;
            while i < cs.len()
                invariant
                    i <= cs@.len(),
                    cv == cs@.map_values(|c: String| c@),
                    docs_view(parts@) == comment_lines(cv.take(i as int)),
                decreases cs.len() - i,
            {
                let t = text_chars(&str_chars(cs[i].as_str()));
                let h = hard_line();
                let ghost p0 = parts@;
                parts.push(t);
                let ghost p1 = parts@;
                parts.push(h);
                proof {
                    lemma_docs_view_push(p0, t);
                    lemma_docs_view_push(p1, h);
                    assert(cv.take(i + 1).drop_last() =~= cv.take(i as int));
                }
                i += 1;
                assert(docs_view(parts@) =~= comment_lines(cv.take(i as int)));
            }
            assert(cv.take(i as int) =~= cv);
            let ghost p2 = parts@;
            let ghost d0 = d;
            parts.push(d);
            proof {
                lemma_docs_view_push(p2, d0);
                assert(docs_view(parts@) =~= comment_lines(cv) + seq![doc_view(d0)]);
            }
            concat(parts)
        },
    }
}

/// `: ` and the properties of `v`, or `bare` when it has none.
fn colon_text(v: &Node, tag: &Option<String>, bare: &str) -> (r: Vec<char>)
    ensures
        r@ == crate::node_render::colon_props(*v, opt_view(*tag), bare@),
{
    match props_of(anchor(v), tag) {
        Some(p) => {
            let mut x = str_chars(": ");
            push_all(&mut x, &p);
            x
        },
        None => str_chars(bare),
    }
}

/// The head documents, then `colon` and the value (block collections on the
/// next line, one level deeper).
fn value_after_colon_doc(head: Vec<Doc>, v: &Node, options: &YamlFormatOptions, inline_sep: &str, bare: &str) -> (r: Doc)
    ensures
        doc_view(r) == value_after_colon(docs_view(head@), *v, *options, inline_sep@, bare@),
    decreases node_size(*v), 10int,
{
    let ghost h = docs_view(head@);
    let mut parts = head;
    match v {
        Node::Mapping { entries, style, tag, .. } => {
            if entries.len() > 0 && effective(*style, options) == CollectionStyle::Block {
                let c = text_chars(&colon_text(v, tag, bare));
                let body = mapping_to_doc(entries, *style, options);
                let ind = indent(concat2(hard_line(), body));
                let ghost p0 = parts@;
                parts.push(c);
                let ghost p1 = parts@;
                parts.push(ind);
                proof {
                    lemma_docs_view_push(p0, c);
                    lemma_docs_view_push(p1, ind);
                    assert(docs_view(parts@) =~= h + seq![doc_view(c), doc_view(ind)]);
                }
                return concat(parts);
            }
        },
        Node::Sequence { items, style, tag, .. } => {
            if items.len() > 0 && effective(*style, options) == CollectionStyle::Block {
                let c = text_chars(&colon_text(v, tag, bare));
                let body = sequence_to_doc(items, *style, options);
                let ghost p0 = parts@;
                parts.push(c);
                proof {
                    lemma_docs_view_push(p0, c);
                }
                if options.format_indent_sequences {
                    let ind = indent(concat2(hard_line(), body));
                    let ghost p1 = parts@;
                    parts.push(ind);
                    proof {
                        lemma_docs_view_push(p1, ind);
                        assert(docs_view(parts@) =~= h + seq![doc_view(c), doc_view(ind)]);
                    }
                } else {
                    let hl = hard_line();
                    let ghost p1 = parts@;
                    parts.push(hl);
                    let ghost p2 = parts@;
                    let ghost b0 = body;
                    parts.push(body);
                    proof {
                        lemma_docs_view_push(p1, hl);
                        lemma_docs_view_push(p2, b0);
                        assert(docs_view(parts@) =~= h + seq![doc_view(c), DocSpec::HardLine, doc_view(b0)]);
                    }
                }
                return concat(parts);
            }
        },
        _ => {},
    }
    let s = text_lit(inline_sep);
    let vd = node_to_doc(v, options, false);
    let ghost p0 = parts@;
    parts.push(s);
    let ghost p1 = parts@;
    parts.push(vd);
    proof {
        lemma_docs_view_push(p0, s);
        lemma_docs_view_push(p1, vd);
        assert(docs_view(parts@) =~= h + seq![doc_view(s), doc_view(vd)]);
    }
    concat(parts)
}

/// Render a mapping entry that uses explicit key form: `? key\n: value`.
fn explicit_key_to_doc(k: &Node, v: &Node, options: &YamlFormatOptions) -> (r: Doc)
    ensures
        doc_view(r) == explicit_key_doc(*k, *v, *options),
    decreases node_size(*k) + node_size(*v), 10int,
{
    proof {
        lemma_node_size_pos(*k);
        lemma_node_size_pos(*v);
    }
    let kd = node_to_doc(k, options, true);
    let question = concat2(text_lit("? "), indent(kd));
    let colon_line = if empty_scalar(v) {
        text_lit(":")
    } else {
        proof {
            assert(docs_view(Seq::<Doc>::empty()) =~= Seq::<DocSpec>::empty());
        }
        value_after_colon_doc(Vec::new(), v, options, ": ", ":")
    };
    concat3(question, hard_line(), append_trailing(colon_line, v))
}

/// Convert a single key-value pair to its layout, including the comments
/// attached to the key and the value.
pub fn key_value_to_doc(k: &Node, v: &Node, options: &YamlFormatOptions) -> (r: Doc)
    ensures
        doc_view(r) == kv_doc(*k, *v, *options),
    decreases node_size(*k) + node_size(*v), 11int,
{
    proof {
        lemma_node_size_pos(*k);
        lemma_node_size_pos(*v);
    }
    let pair = if explicit_key_needed(k) {
        explicit_key_to_doc(k, v, options)
    } else if empty_key(k) {
        if empty_scalar(v) {
            text_lit(":")
        } else {
            concat2(text_lit(": "), node_to_doc(v, options, false))
        }
    } else {
        let kd = node_to_doc(k, options, true);
        let space = key_space(k);
        let mut head: Vec<Doc> = Vec::new();
        let ghost kd0 = kd;
        head.push(kd);
        proof {
            lemma_docs_view_push(Seq::empty(), kd0);
            assert(Seq::<Doc>::empty().push(kd0) =~= head@);
            assert(docs_view(Seq::<Doc>::empty()) =~= Seq::<DocSpec>::empty());
            assert(docs_view(head@) =~= seq![doc_view(kd0)]);
        }
        let d = if space {
            value_after_colon_doc(head, v, options, " : ", " :")
        } else {
            value_after_colon_doc(head, v, options, ": ", ":")
        };
        append_trailing(d, v)
    };
    prepend_leading(pair, k)
}

/// The layout of a sequence's items, block or flow.
pub fn sequence_to_doc(items: &Vec<Node>, style: CollectionStyle, options: &YamlFormatOptions) -> (r: Doc)
    ensures
        doc_view(r) == seq_doc(items@, style, *options),
    decreases nodes_size(items@), 14int,
{
    if items.len() == 0 {
        return text_lit("[]");
    }
    let ghost o = *options;
    let block = match effective(style, options) {
        CollectionStyle::Block => true,
        CollectionStyle::Flow => false,
    };
    let mut parts: Vec<Doc> = Vec::new();
    let mut i: usize = 0;
    while i < items.len()
        invariant
            i <= items@.len(),
            o == *options,
            block ==> docs_view(parts@) == item_docs(items@.take(i as int), o),
            !block ==> docs_view(parts@) == flow_item_docs(items@.take(i as int), o),
        decreases items.len() - i,
    {
        proof {
            lemma_nodes_size(items@, i as int);
            assert(items@.take(i + 1).subrange(0, i as int) =~= items@.take(i as int));
            assert(items@.take(i + 1)[i as int] == items@[i as int]);
        }
        let e = if block {
            sequence_item_to_doc(&items[i], options)
        } else {
            flow_item_to_doc(&items[i], options, false)
        };
        let ghost old_parts = parts@;
        parts.push(e);
        proof {
            lemma_docs_view_push(old_parts, e);
        }
        i += 1;
    }
    assert(items@.take(i as int) =~= items@);
    if block {
        join(true, parts)
    } else {
        let inner = join(false, parts);
        flow_group_doc("[", inner, "]")
    }
}

/// Render a single sequence item with its `- ` prefix, including the
/// comments attached to it.
pub fn sequence_item_to_doc(item: &Node, options: &YamlFormatOptions) -> (r: Doc)
    ensures
        doc_view(r) == seq_item_doc(*item, *options),
    decreases node_size(*item), 10int,
{
    let d = match item {
        Node::Mapping { entries, style, tag, .. } => {
            if entries.len() > 0 && effective(*style, options) == CollectionStyle::Block {
                proof {
                    assert(pairs_size(entries@) < node_size(*item));
                }
                let inner = join(true, kv_list(entries, options));
                match props_of(anchor(item), tag) {
                    None => concat2(text_lit("- "), indent(inner)),
                    Some(p) => concat3(text_lit("- "), text_chars(&p), indent(concat2(hard_line(), inner))),
                }
            } else {
                concat2(text_lit("- "), node_to_doc(item, options, false))
            }
        },
        Node::Sequence { items, style, tag, .. } => {
            if items.len() > 0 && effective(*style, options) == CollectionStyle::Block {
                let p = match props_of(anchor(item), tag) {
                    Some(p) => p,
                    None => Vec::new(),
                };
                let s = sequence_to_doc(items, *style, options);
                concat3(text_lit("- "), text_chars(&p), indent(concat2(hard_line(), s)))
            } else {
                concat2(text_lit("- "), node_to_doc(item, options, false))
            }
        },
        _ => concat2(text_lit("- "), node_to_doc(item, options, false)),
    };
    prepend_leading(append_trailing(d, item), item)
}

} // verus!
