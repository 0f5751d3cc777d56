//! The document formatter around the pretty printer: the layout of a
//! stream of documents, the text of a formatted subtree, and the steps after
//! printing (comments and blank lines put back, line endings, final
//! newline).
use vstd::prelude::*;

use crate::ast::{
    lemma_nodes_size, lemma_pairs_size, node_size, nodes_size, pairs_size, Document, Node,
    ScalarStyle,
};
use crate::doc::{
    doc_view, docs_view, flat_string, flat_strings, hard_line, is_flat, lemma_docs_view_len,
    lemma_docs_view_push, text_lit, Doc, DocSpec,
};
use crate::doc_comments::{attach_comments, extract_doc_prefix_comments, opt_usize, prefixes_view,
    reattached, doc_prefix_comments};
use crate::editor_config::LineEnding;
use crate::format_options::YamlFormatOptions;
use crate::node_render::{layout_agree, lemma_node_doc_agree, node_doc};
use crate::node_to_doc::node_to_doc;
use crate::text::{
    ensure_nl, ensure_trailing_nl, lines_of, push_all, spaces, spaces_vec, split_lines, str_chars,
    string_from_chars, views,
};

verus! {

/// The layout of a stream: the documents' layouts, with `---` before every
/// document but the first (and before the first when its start was
/// explicit) and `...` after documents whose end was explicit.
pub open spec fn stream_parts(docs: Seq<Document>, n: int, o: YamlFormatOptions) -> Seq<DocSpec>
    decreases n,
{
    if n <= 0 {
        seq![]
    } else {
        let p = stream_parts(docs, n - 1, o);
        let d = docs[n - 1];
        let p1 = if n - 1 != 0 || d.explicit_start {
            (if p.len() > 0 {
                p.push(DocSpec::HardLine)
            } else {
                p
            }) + seq![DocSpec::Text("---"@), DocSpec::HardLine]
        } else {
            p
        };
        let p2 = p1.push(node_doc(d.root, o, false));
        if d.explicit_end {
            p2 + seq![DocSpec::HardLine, DocSpec::Text("..."@)]
        } else {
            p2
        }
    }
}

fn push_doc(parts: &mut Vec<Doc>, d: Doc)
    ensures
        docs_view(final(parts)@) == docs_view(old(parts)@).push(doc_view(d)),
{
    let ghost o = parts@;
    let ghost d0 = d;
    parts.push(d);
    proof {
        lemma_docs_view_push(o, d0);
    }
}

/// The layout of a stream of documents, with document markers.
pub fn layout_documents(docs: &Vec<Document>, options: &YamlFormatOptions) -> (r: Doc)
    ensures
        doc_view(r) == DocSpec::Concat(stream_parts(docs@, docs@.len() as int, *options)),
{
    let mut parts: Vec<Doc> = Vec::new();
    let mut i: usize = 0;
    assert(docs_view(parts@) =~= Seq::<DocSpec>::empty());
    while i < docs.len()
        invariant
            i <= docs@.len(),
            docs_view(parts@) == stream_parts(docs@, i as int, *options),
        decreases docs.len() - i,
    {
        let d = &docs[i];
        let ghost p = docs_view(parts@);
        if i != 0 || d.explicit_start {
            if parts.len() > 0 {
                push_doc(&mut parts, hard_line());
            }
            push_doc(&mut parts, text_lit("---"));
            push_doc(&mut parts, hard_line());
        }
        push_doc(&mut parts, node_to_doc(&d.root, options, false));
        if d.explicit_end {
            push_doc(&mut parts, hard_line());
            push_doc(&mut parts, text_lit("..."));
        }
        i += 1;
        assert(docs_view(parts@) =~= stream_parts(docs@, i as int, *options));
    }
    crate::doc::concat(parts)
}

/// `a + b`, at most `usize::MAX`.
pub open spec fn sat_add(a: int, b: int) -> int {
    if a + b > usize::MAX {
        usize::MAX as int
    } else {
        a + b
    }
}

/// `a - 1`, at least 0.
pub open spec fn sat_dec(a: int) -> int {
    if a > 0 {
        a - 1
    } else {
        0
    }
}

/// The larger of two optional line numbers.
pub open spec fn opt_max(a: Option<int>, b: Option<int>) -> Option<int> {
    match (a, b) {
        (Some(x), Some(y)) => Some(if x >= y { x } else { y }),
        (Some(x), None) => Some(x),
        (None, y) => y,
    }
}

/// The last source line (0-based) that a node's content occupies: a block
/// scalar its first content line plus its value's lines, other scalars and
/// aliases their first line, collections the last of their children.
pub open spec fn node_last_line(n: Node) -> Option<int>
    decreases node_size(n), 0int,
{
    match n {
        Node::Scalar { style, loc, value, .. } => match style {
            ScalarStyle::Literal(_) | ScalarStyle::Folded(_) => Some(
                sat_add(sat_dec(loc.start.line as int), sat_dec(lines_of(value@).len() as int)),
            ),
            _ => Some(sat_dec(loc.start.line as int)),
        },
        Node::Alias { loc, .. } => Some(sat_dec(loc.start.line as int)),
        Node::Mapping { entries, .. } => pairs_last_line(entries@),
        Node::Sequence { items, .. } => nodes_last_line(items@),
    }
}

pub open spec fn pairs_last_line(es: Seq<(Node, Node)>) -> Option<int>
    decreases pairs_size(es), 1int,
{
    if es.len() == 0 {
        None
    } else {
        proof {
            crate::ast::lemma_node_size_pos(es[es.len() - 1].0);
            crate::ast::lemma_node_size_pos(es[es.len() - 1].1);
        }
        opt_max(
            pairs_last_line(es.subrange(0, es.len() - 1)),
            opt_max(node_last_line(es[es.len() - 1].0), node_last_line(es[es.len() - 1].1)),
        )
    }
}

pub open spec fn nodes_last_line(s: Seq<Node>) -> Option<int>
    decreases nodes_size(s), 1int,
{
    if s.len() == 0 {
        None
    } else {
        proof {
            crate::ast::lemma_node_size_pos(s[s.len() - 1]);
        }
        opt_max(nodes_last_line(s.subrange(0, s.len() - 1)), node_last_line(s[s.len() - 1]))
    }
}

/// The last content line over all documents.
pub open spec fn docs_last_line(docs: Seq<Document>) -> Option<int>
    decreases docs.len(),
{
    if docs.len() == 0 {
        None
    } else {
        opt_max(docs_last_line(docs.drop_last()), node_last_line(docs.last().root))
    }
}

fn max_opt(a: Option<usize>, b: Option<usize>) -> (r: Option<usize>)
    ensures
        opt_usize(r) == opt_max(opt_usize(a), opt_usize(b)),
{
    match (a, b) {
        (Some(x), Some(y)) => Some(if x >= y { x } else { y }),
        (Some(x), None) => Some(x),
        (None, y) => y,
    }
}

/// The last source line of a node's content.
pub fn node_last_content_line(n: &Node) -> (r: Option<usize>)
    ensures
        opt_usize(r) == node_last_line(*n),
    decreases node_size(*n), 0int,
{
    match n {
        Node::Scalar { style, loc, value, .. } => {
            let start0 = loc.start.line.saturating_sub(1) as usize;
            match style {
                ScalarStyle::Literal(_) | ScalarStyle::Folded(_) => {
                    let v = str_chars(value.as_str());
                    let count = split_lines(&v).len();
                    Some(start0.saturating_add(count.saturating_sub(1)))
                },
                _ => Some(start0),
            }
        },
        Node::Alias { loc, .. } => Some(loc.start.line.saturating_sub(1) as usize),
        Node::Mapping { entries, .. } => {
            let mut best: Option<usize> = None;
            let mut i: usize = 0;
            while i < entries.len()
                invariant
                    i <= entries@.len(),
                    pairs_size(entries@) < node_size(*n),
                    n matches Node::Mapping { entries: e, .. } && e == entries,
                    opt_usize(best) == pairs_last_line(entries@.take(i as int)),
                decreases entries.len() - i,
            {
                proof {
                    lemma_pairs_size(entries@, i as int);
                    assert(entries@.take(i + 1).subrange(0, i as int) =~= entries@.take(i as int));
                }
                let a = node_last_content_line(&entries[i].0);
                let b = node_last_content_line(&entries[i].1);
                best = max_opt(best, max_opt(a, b));
                i += 1;
            }
            assert(entries@.take(i as int) =~= entries@);
            best
        },
        Node::Sequence { items, .. } => {
            let mut best: Option<usize> = None;
            let mut i: usize = 0;
            while i < items.len()
                invariant
                    i <= items@.len(),
                    nodes_size(items@) < node_size(*n),
                    n matches Node::Sequence { items: e, .. } && e == items,
                    opt_usize(best) == nodes_last_line(items@.take(i as int)),
                decreases items.len() - i,
            {
                proof {
                    lemma_nodes_size(items@, i as int);
                    assert(items@.take(i + 1).subrange(0, i as int) =~= items@.take(i as int));
                }
                let a = node_last_content_line(&items[i]);
                best = max_opt(best, a);
                i += 1;
            }
            assert(items@.take(i as int) =~= items@);
            best
        },
    }
}

/// Compute the last "YAML content" line index from the syntax tree: block
/// scalar lines that start with `#` count as content here, which a scan of
/// the text cannot tell.
pub fn last_content_line_from_ast(docs: &Vec<Document>) -> (r: Option<usize>)
    ensures
        opt_usize(r) == docs_last_line(docs@),
{
    let mut best: Option<usize> = None;
    let mut i: usize = 0;
    while i < docs.len()
        invariant
            i <= docs@.len(),
            opt_usize(best) == docs_last_line(docs@.take(i as int)),
        decreases docs.len() - i,
    {
        assert(docs@.take(i + 1).drop_last() =~= docs@.take(i as int));
        best = max_opt(best, node_last_content_line(&docs[i].root));
        i += 1;
    }
    assert(docs@.take(i as int) =~= docs@);
    best
}

/// The text with each `'\n'` replaced by the requested line terminator.
pub open spec fn with_endings(s: Seq<char>, le: LineEnding) -> Seq<char>
    decreases s.len(),
{
    if s.len() == 0 {
        seq![]
    } else {
        with_endings(s.drop_last(), le) + if s.last() == '\n' {
            match le {
                LineEnding::Lf => seq!['\n'],
                LineEnding::Crlf => seq!['\r', '\n'],
                LineEnding::Cr => seq!['\r'],
            }
        } else {
            seq![s.last()]
        }
    }
}

/// The text without one final line terminator of the requested style.
pub open spec fn without_final_terminator(s: Seq<char>, le: LineEnding) -> Seq<char> {
    match le {
        LineEnding::Lf => if s.len() > 0 && s.last() == '\n' {
            s.drop_last()
        } else {
            s
        },
        LineEnding::Crlf => if s.len() >= 2 && s[s.len() - 2] == '\r' && s.last() == '\n' {
            s.take(s.len() - 2)
        } else {
            s
        },
        LineEnding::Cr => if s.len() > 0 && s.last() == '\r' {
            s.drop_last()
        } else {
            s
        },
    }
}

/// Line endings and the final-newline policy applied to LF text.
pub open spec fn apply_line_policy(s: Seq<char>, o: YamlFormatOptions) -> Seq<char> {
    let t = with_endings(s, o.line_ending);
    if o.insert_final_newline {
        t
    } else {
        without_final_terminator(t, o.line_ending)
    }
}

/// Applies the line-ending style and the final-newline policy to LF text.
pub fn apply_line_ending_policy(s: &Vec<char>, options: &YamlFormatOptions) -> (r: Vec<char>)
    ensures
        r@ == apply_line_policy(s@, *options),
{
    let le = options.line_ending;
    let mut out: Vec<char> = Vec::new();
    let mut i: usize = 0;
    while i < s.len()
        invariant
            i <= s.len(),
            le == options.line_ending,
            out@ == with_endings(s@.take(i as int), le),
        decreases s.len() - i,
    {
        if s[i] == '\n' {
            match le {
                LineEnding::Lf => out.push('\n'),
                LineEnding::Crlf => {
                    out.push('\r');
                    out.push('\n');
                },
                LineEnding::Cr => out.push('\r'),
            }
        } else {
            out.push(s[i]);
        }
        assert(s@.take(i + 1).drop_last() =~= s@.take(i as int));
        i += 1;
        assert(out@ =~= with_endings(s@.take(i as int), le));
    }
    assert(s@.take(i as int) =~= s@);
    if !options.insert_final_newline {
        let n = out.len();
        match le {
            LineEnding::Lf => {
                if n > 0 && out[n - 1] == '\n' {
                    out.pop();
                }
            },
            LineEnding::Crlf => {
                if n >= 2 && out[n - 2] == '\r' && out[n - 1] == '\n' {
                    out.pop();
                    out.pop();
                    assert(out@ =~= with_endings(s@, le).take(n - 2));
                }
            },
            LineEnding::Cr => {
                if n > 0 && out[n - 1] == '\r' {
                    out.pop();
                }
            },
        }
    }
    out
}

/// The formatted text from the printed layout of `docs`: a final newline
/// ensured, the input's prefix comments and blank lines put back (with the
/// syntax tree's last content line as hint), then the line-ending and
/// final-newline policies applied.
pub open spec fn finished_text(input: Seq<char>, printed: Seq<char>, docs: Seq<Document>, o: YamlFormatOptions) -> Seq<char> {
    apply_line_policy(
        reattached(input, ensure_nl(printed), doc_prefix_comments(input), docs_last_line(docs)),
        o,
    )
}

proof fn lemma_lf_endings(s: Seq<char>)
    ensures
        with_endings(s, LineEnding::Lf) == s,
    decreases s.len(),
{
    if s.len() > 0 {
        lemma_lf_endings(s.drop_last());
        assert(s.drop_last().push(s.last()) =~= s);
    }
}

/// The options `o` with the line-ending style `le`.
pub open spec fn with_line_ending(o: YamlFormatOptions, le: LineEnding) -> YamlFormatOptions {
    YamlFormatOptions { line_ending: le, ..o }
}

/// Applying the line policy in any style to text that ends with a line
/// feed is applying it with LF and then turning every line feed into the
/// style's terminator.
proof fn lemma_line_policy_styles(s: Seq<char>, o: YamlFormatOptions, le: LineEnding)
    requires
        s.len() > 0,
        s.last() == '\n',
    ensures
        apply_line_policy(s, with_line_ending(o, le)) == with_endings(
            apply_line_policy(s, with_line_ending(o, LineEnding::Lf)),
            le,
        ),
{
    lemma_lf_endings(s);
    lemma_lf_endings(s.drop_last());
    let w = with_endings(s, le);
    assert(w == with_endings(s.drop_last(), le) + match le {
        LineEnding::Lf => seq!['\n'],
        LineEnding::Crlf => seq!['\r', '\n'],
        LineEnding::Cr => seq!['\r'],
    });
    match le {
        LineEnding::Lf => {},
        LineEnding::Crlf => {
            assert(w.take(w.len() - 2) =~= with_endings(s.drop_last(), le));
        },
        LineEnding::Cr => {
            assert(w.drop_last() =~= with_endings(s.drop_last(), le));
        },
    }
}

proof fn lemma_stream_parts_agree(docs: Seq<Document>, n: int, o: YamlFormatOptions, p: YamlFormatOptions)
    requires
        layout_agree(o, p),
    ensures
        stream_parts(docs, n, o) == stream_parts(docs, n, p),
    decreases n,
{
    if n > 0 {
        lemma_stream_parts_agree(docs, n - 1, o, p);
        lemma_node_doc_agree(docs[n - 1].root, o, p, false);
    }
}

/// The layout of a stream does not depend on the line-ending style or the
/// final-newline policy: those apply to the printed text only.
pub proof fn law_layout_ignores_line_policy(docs: Seq<Document>, o: YamlFormatOptions, le: LineEnding, final_newline: bool)
    ensures
        stream_parts(docs, docs.len() as int, o) == stream_parts(
            docs,
            docs.len() as int,
            YamlFormatOptions { line_ending: le, insert_final_newline: final_newline, ..o },
        ),
{
    lemma_stream_parts_agree(docs, docs.len() as int, o, YamlFormatOptions { line_ending: le, insert_final_newline: final_newline, ..o });
}

/// Formatting with CRLF or CR line endings gives the LF result with every
/// line feed turned into `\r\n` or `\r`; the other options stay as they are.
/// The layout handed to the printer is the same in all three styles
/// ([`law_layout_ignores_line_policy`]), so the printed text is too.
pub proof fn law_line_endings_follow_lf(input: Seq<char>, printed: Seq<char>, docs: Seq<Document>, o: YamlFormatOptions)
    ensures
        finished_text(input, printed, docs, with_line_ending(o, LineEnding::Crlf)) == with_endings(
            finished_text(input, printed, docs, with_line_ending(o, LineEnding::Lf)),
            LineEnding::Crlf,
        ),
        finished_text(input, printed, docs, with_line_ending(o, LineEnding::Cr)) == with_endings(
            finished_text(input, printed, docs, with_line_ending(o, LineEnding::Lf)),
            LineEnding::Cr,
        ),
{
    let x = reattached(input, ensure_nl(printed), doc_prefix_comments(input), docs_last_line(docs));
    assert(x.len() > 0 && x.last() == '\n');
    lemma_line_policy_styles(x, o, LineEnding::Crlf);
    lemma_line_policy_styles(x, o, LineEnding::Cr);
}

/// The result of formatting when no layout is done: the input unchanged
/// when it did not parse (so no content is lost), the empty text when it
/// holds no document; `None` when the documents are to be laid out.
pub fn unformatted_result(text_input: &str, parse_failed: bool, document_count: usize) -> (r: Option<String>)
    ensures
        parse_failed ==> (r matches Some(t) && t@ == text_input@),
        !parse_failed && document_count == 0 ==> (r matches Some(t) && t@ == Seq::<char>::empty()),
        !parse_failed && document_count > 0 ==> r is None,
{
    if parse_failed {
        Some(text_input.to_string())
    } else if document_count == 0 {
        Some(String::new())
    } else {
        None
    }
}

/// The steps of formatting after the printer has laid out `docs` (parsed
/// from `text_input`) as `printed`.
pub fn finish_formatting(text_input: &str, printed: &str, docs: &Vec<Document>, options: &YamlFormatOptions) -> (r: String)
    ensures
        r@ == finished_text(text_input@, printed@, docs@, *options),
{
    let prefix = extract_doc_prefix_comments(text_input);
    let mut p = str_chars(printed);
    ensure_trailing_nl(&mut p);
    let ps = string_from_chars(&p);
    let hint = last_content_line_from_ast(docs);
    let attached = attach_comments(text_input, ps.as_str(), prefix.as_slice(), hint);
    let av = str_chars(attached.as_str());
    let out = apply_line_ending_policy(&av, options);
    string_from_chars(&out)
}

/// `s` without its final line feeds (`trim_end_matches('\n')`).
pub open spec fn trim_final_newlines(s: Seq<char>) -> Seq<char>
    decreases s.len(),
{
    if s.len() > 0 && s.last() == '\n' {
        trim_final_newlines(s.drop_last())
    } else {
        s
    }
}

/// The lines after the first, each on a new line behind `ind`.
pub open spec fn continuation(ls: Seq<Seq<char>>, ind: Seq<char>) -> Seq<char>
    decreases ls.len(),
{
    if ls.len() == 0 {
        seq![]
    } else {
        continuation(ls.drop_last(), ind) + seq!['\n'] + ind + ls.last()
    }
}

/// A printed subtree placed at column `base`: trailing line feeds dropped,
/// every line after the first indented by `base` spaces.
pub open spec fn subtree_text(printed: Seq<char>, base: nat) -> Seq<char> {
    let t = trim_final_newlines(printed);
    if base == 0 {
        t
    } else {
        let ls = lines_of(t);
        if ls.len() == 0 {
            seq![]
        } else {
            ls[0] + continuation(ls.drop_first(), spaces(base))
        }
    }
}

/// `t`'s lines, every line after the first behind `base` spaces.
pub open spec fn indent_continuations(t: Seq<char>, base: nat) -> Seq<char> {
    let ls = lines_of(t);
    if ls.len() == 0 {
        seq![]
    } else {
        ls[0] + continuation(ls.drop_first(), spaces(base))
    }
}

proof fn lemma_trim_final_newlines(s: Seq<char>)
    ensures
        !(trim_final_newlines(s).len() > 0 && trim_final_newlines(s).last() == '\n'),
    decreases s.len(),
{
    if s.len() > 0 && s.last() == '\n' {
        lemma_trim_final_newlines(s.drop_last());
    }
}

/// A subtree placed at column `base > 0` is the subtree placed at column 0
/// with every line after the first indented by `base` spaces; placed at
/// column 0 it has no final line feed.
pub proof fn law_subtree_base_indent(printed: Seq<char>, base: nat)
    ensures
        base > 0 ==> subtree_text(printed, base) == indent_continuations(subtree_text(printed, 0), base),
        !(subtree_text(printed, 0).len() > 0 && subtree_text(printed, 0).last() == '\n'),
{
    lemma_trim_final_newlines(printed);
}

/// Places printed subtree text at column `base_indent`.
pub fn place_subtree(printed: &Vec<char>, base_indent: usize) -> (r: Vec<char>)
    ensures
        r@ == subtree_text(printed@, base_indent as nat),
{
    let mut t = crate::text::copy_chars(printed);
    while t.len() > 0 && t[t.len() - 1] == '\n'
        invariant
            trim_final_newlines(t@) == trim_final_newlines(printed@),
        decreases t.len(),
    {
        t.pop();
    }
    if base_indent == 0 {
        return t;
    }
    let ls = split_lines(&t);
    if ls.len() == 0 {
        return Vec::new();
    }
    let ind = spaces_vec(base_indent);
    let ghost lv = views(ls@);
    let mut out = crate::text::copy_chars(&ls[0]);
    let mut i: usize = 1;
    assert(lv.drop_first().take(0) =~= Seq::<Seq<char>>::empty());
    while i < ls.len()
        invariant
            1 <= i <= ls.len(),
            lv == views(ls@),
            lv == lines_of(trim_final_newlines(printed@)),
            ind@ == spaces(base_indent as nat),
            out@ == lv[0] + continuation(lv.drop_first().take(i - 1), ind@),
        decreases ls.len() - i,
    {
        out.push('\n');
        push_all(&mut out, &ind);
        push_all(&mut out, &ls[i]);
        proof {
            assert(lv.drop_first().take(i as int).drop_last() =~= lv.drop_first().take(i - 1));
            assert(lv.drop_first().take(i as int).last() == ls@[i as int]@);
        }
        i += 1;
        assert(out@ =~= lv[0] + continuation(lv.drop_first().take(i - 1), ind@));
    }
    assert(lv.drop_first().take(i - 1) =~= lv.drop_first());
    out
}

/// The text of a flat layout (only text pieces): `None` when the layout
/// holds line breaks or groups, which only the pretty printer can lay out.
pub fn flat_text(d: &Doc) -> (r: Option<Vec<char>>)
    ensures
        match r {
            Some(t) => is_flat(doc_view(*d)) && t@ == flat_string(doc_view(*d)),
            None => !is_flat(doc_view(*d)),
        },
    decreases crate::doc::doc_size(*d),
{
    match d {
        Doc::Text(s) => Some(str_chars(s.as_str())),
        Doc::Concat(v) => {
            let ghost dv = docs_view(v@);
            proof {
                lemma_docs_view_len(v@);
                assert(doc_view(*d) == DocSpec::Concat(dv));
            }
            let mut out: Vec<char> = Vec::new();
            let mut i: usize = 0;
            while i < v.len()
                invariant
                    i <= v@.len(),
                    dv == docs_view(v@),
                    dv.len() == v@.len(),
                    crate::doc::docs_size(v@) < crate::doc::doc_size(*d),
                    doc_view(*d) == DocSpec::Concat(dv),
                    forall|k: int| 0 <= k < v@.len() ==> #[trigger] dv[k] == doc_view(v@[k]),
                    crate::doc::all_flat(dv.take(i as int)),
                    out@ == flat_strings(dv.take(i as int)),
                decreases v.len() - i,
            {
                proof {
                    crate::doc::lemma_docs_size(v@, i as int);
                }
                match flat_text(&v[i]) {
                    Some(t) => {
                        push_all(&mut out, &t);
                        assert(dv.take(i + 1).subrange(0, i as int) =~= dv.take(i as int));
                        assert(dv.take(i + 1)[i as int] == dv[i as int]);
                    },
                    None => {
                        assert(!is_flat(dv[i as int]));
                        proof {
                            crate::doc::lemma_is_flat_concat(dv, i as int);
                        }
                        return None;
                    },
                }
                i += 1;
            }
            assert(dv.take(i as int) =~= dv);
            Some(out)
        },
        _ => None,
    }
}

/// Format a single node to text, when its layout needs no pretty printing.
///
/// The first output line starts at column 0; every continuation line gets
/// `base_indent` leading spaces. `None` when the layout holds line breaks or
/// groups: the caller then lays it out with the pretty printer and places
/// the printed text with [`place_subtree`].
pub fn format_subtree(node: &Node, options: &YamlFormatOptions, base_indent: usize) -> (r: Option<String>)
    ensures
        match r {
            Some(s) => is_flat(node_doc(*node, *options, false)) && s@ == subtree_text(
                flat_string(node_doc(*node, *options, false)),
                base_indent as nat,
            ),
            None => !is_flat(node_doc(*node, *options, false)),
        },
{
    let d = node_to_doc(node, options, false);
    match flat_text(&d) {
        Some(t) => {
            let placed = place_subtree(&t, base_indent);
            Some(string_from_chars(&placed))
        },
        None => None,
    }
}

} // verus!
