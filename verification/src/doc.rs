//! The layout document that the formatter builds for the pretty printer:
//! text pieces, line breaks, indentation and groups.
//!
//! The printer itself lays the document out within the print width; the
//! formatter only decides the document's structure.
use vstd::prelude::*;

use crate::text::{push_all, str_chars, string_from_chars};

verus! {

/// A layout document.
#[derive(Debug)]
pub enum Doc {
    /// Literal text (no line breaks).
    Text(String),
    /// A line break that is always taken.
    HardLine,
    /// A line break that becomes a space when its group fits on one line.
    Line,
    /// The first document when laid out flat, the second when broken.
    FlatAlt(Box<Doc>, Box<Doc>),
    /// The inner document, one indentation level deeper.
    Indent(Box<Doc>),
    /// The inner document, laid out flat when it fits.
    Group(Box<Doc>),
    /// The documents one after the other.
    Concat(Vec<Doc>),
}

/// The mathematical value of a layout document.
pub enum DocSpec {
    Text(Seq<char>),
    HardLine,
    Line,
    FlatAlt(Box<DocSpec>, Box<DocSpec>),
    Indent(Box<DocSpec>),
    Group(Box<DocSpec>),
    Concat(Seq<DocSpec>),
}

pub open spec fn doc_view(d: Doc) -> DocSpec
    decreases d,
{
    match d {
        Doc::Text(s) => DocSpec::Text(s@),
        Doc::HardLine => DocSpec::HardLine,
        Doc::Line => DocSpec::Line,
        Doc::FlatAlt(a, b) => DocSpec::FlatAlt(Box::new(doc_view(*a)), Box::new(doc_view(*b))),
        Doc::Indent(a) => DocSpec::Indent(Box::new(doc_view(*a))),
        Doc::Group(a) => DocSpec::Group(Box::new(doc_view(*a))),
        Doc::Concat(v) => DocSpec::Concat(docs_view(v@)),
    }
}

pub open spec fn docs_view(s: Seq<Doc>) -> Seq<DocSpec>
    decreases s,
{
    if s.len() == 0 {
        seq![]
    } else {
        docs_view(s.subrange(0, s.len() - 1)).push(doc_view(s[s.len() - 1]))
    }
}

pub proof fn lemma_docs_view_push(s: Seq<Doc>, d: Doc)
    ensures
        docs_view(s.push(d)) == docs_view(s).push(doc_view(d)),
{
    assert(s.push(d).subrange(0, s.len() as int) =~= s);
}

pub proof fn lemma_docs_view_len(s: Seq<Doc>)
    ensures
        docs_view(s).len() == s.len(),
        forall|i: int| 0 <= i < s.len() ==> #[trigger] docs_view(s)[i] == doc_view(s[i]),
    decreases s.len(),
{
    if s.len() > 0 {
        let t = s.subrange(0, s.len() - 1);
        lemma_docs_view_len(t);
        assert forall|i: int| 0 <= i < s.len() implies #[trigger] docs_view(s)[i] == doc_view(
            s[i],
        ) by {
            if i < s.len() - 1 {
                assert(t[i] == s[i]);
            }
        }
    }
}

/// The number of parts of a layout document.
pub open spec fn doc_size(d: Doc) -> nat
    decreases d,
{
    match d {
        Doc::FlatAlt(a, b) => 1 + doc_size(*a) + doc_size(*b),
        Doc::Indent(a) => 1 + doc_size(*a),
        Doc::Group(a) => 1 + doc_size(*a),
        Doc::Concat(v) => 1 + docs_size(v@),
        _ => 1,
    }
}

pub open spec fn docs_size(s: Seq<Doc>) -> nat
    decreases s,
{
    if s.len() == 0 {
        0
    } else {
        docs_size(s.subrange(0, s.len() - 1)) + doc_size(s[s.len() - 1])
    }
}

/// Every document of a list is no larger than the list.
pub proof fn lemma_docs_size(s: Seq<Doc>, i: int)
    requires
        0 <= i < s.len(),
    ensures
        doc_size(s[i]) <= docs_size(s),
    decreases s.len(),
{
    if i < s.len() - 1 {
        let t = s.subrange(0, s.len() - 1);
        assert(t[i] == s[i]);
        lemma_docs_size(t, i);
    }
}

/// The documents of `items` with `sep` between each two.
pub open spec fn interleave(sep: DocSpec, items: Seq<DocSpec>) -> Seq<DocSpec>
    decreases items.len(),
{
    if items.len() == 0 {
        seq![]
    } else if items.len() == 1 {
        items
    } else {
        interleave(sep, items.drop_last()).push(sep).push(items.last())
    }
}

/// `join(sep, items)`: the items separated by `sep`.
pub open spec fn join_spec(sep: DocSpec, items: Seq<DocSpec>) -> DocSpec {
    DocSpec::Concat(interleave(sep, items))
}

/// The separator of flow collections: a comma, then a soft line break.
pub open spec fn comma_line() -> DocSpec {
    DocSpec::Concat(seq![DocSpec::Text(seq![',']), DocSpec::Line])
}

/// A text piece.
pub fn text(s: String) -> (r: Doc)
    ensures
        doc_view(r) == DocSpec::Text(s@),
{
    Doc::Text(s)
}

/// A text piece from a literal.
pub fn text_lit(s: &str) -> (r: Doc)
    ensures
        doc_view(r) == DocSpec::Text(s@),
{
    Doc::Text(s.to_owned())
}

/// A text piece from characters.
pub fn text_chars(s: &Vec<char>) -> (r: Doc)
    ensures
        doc_view(r) == DocSpec::Text(s@),
{
    Doc::Text(string_from_chars(s.as_slice()))
}

pub fn hard_line() -> (r: Doc)
    ensures
        doc_view(r) == DocSpec::HardLine,
{
    Doc::HardLine
}

pub fn line() -> (r: Doc)
    ensures
        doc_view(r) == DocSpec::Line,
{
    Doc::Line
}

pub fn indent(d: Doc) -> (r: Doc)
    ensures
        doc_view(r) == DocSpec::Indent(Box::new(doc_view(d))),
{
    Doc::Indent(Box::new(d))
}

pub fn group(d: Doc) -> (r: Doc)
    ensures
        doc_view(r) == DocSpec::Group(Box::new(doc_view(d))),
{
    Doc::Group(Box::new(d))
}

pub fn flat_alt(a: Doc, b: Doc) -> (r: Doc)
    ensures
        doc_view(r) == DocSpec::FlatAlt(Box::new(doc_view(a)), Box::new(doc_view(b))),
{
    Doc::FlatAlt(Box::new(a), Box::new(b))
}

pub fn concat(parts: Vec<Doc>) -> (r: Doc)
    ensures
        doc_view(r) == DocSpec::Concat(docs_view(parts@)),
{
    Doc::Concat(parts)
}

/// Two documents one after the other.
pub fn concat2(a: Doc, b: Doc) -> (r: Doc)
    ensures
        doc_view(r) == DocSpec::Concat(seq![doc_view(a), doc_view(b)]),
{
    let mut v: Vec<Doc> = Vec::new();
    let ghost a0 = a;
    let ghost b0 = b;
    v.push(a);
    proof {
        lemma_docs_view_push(Seq::empty(), a0);
        assert(Seq::<Doc>::empty().push(a0) =~= v@);
    }
    let ghost v1 = v@;
    v.push(b);
    proof {
        lemma_docs_view_push(v1, b0);
        assert(docs_view(Seq::<Doc>::empty()) =~= Seq::<DocSpec>::empty());
        assert(docs_view(v@) =~= seq![doc_view(a0), doc_view(b0)]);
    }
    Doc::Concat(v)
}

/// Three documents one after the other.
pub fn concat3(a: Doc, b: Doc, c: Doc) -> (r: Doc)
    ensures
        doc_view(r) == DocSpec::Concat(seq![doc_view(a), doc_view(b), doc_view(c)]),
{
    let mut v: Vec<Doc> = Vec::new();
    let ghost (a0, b0, c0) = (a, b, c);
    v.push(a);
    proof {
        lemma_docs_view_push(Seq::empty(), a0);
    }
    let ghost v1 = v@;
    v.push(b);
    proof {
        lemma_docs_view_push(v1, b0);
    }
    let ghost v2 = v@;
    v.push(c);
    proof {
        lemma_docs_view_push(v2, c0);
        assert(docs_view(Seq::<Doc>::empty()) =~= Seq::<DocSpec>::empty());
        assert(Seq::<Doc>::empty().push(a0) =~= v1);
        assert(docs_view(v@) =~= seq![doc_view(a0), doc_view(b0), doc_view(c0)]);
    }
    Doc::Concat(v)
}

/// The separator document `sep_kind` stands for: a hard line break (`true`)
/// or a comma followed by a soft line break (`false`).
pub open spec fn separator(hard: bool) -> DocSpec {
    if hard {
        DocSpec::HardLine
    } else {
        comma_line()
    }
}

fn make_separator(hard: bool) -> (r: Doc)
    ensures
        doc_view(r) == separator(hard),
{
    proof {
        reveal_strlit(",");
    }
    if hard {
        hard_line()
    } else {
        let c = text_lit(",");
        assert(","@ =~= seq![',']);
        concat2(c, line())
    }
}

/// The items separated by hard line breaks (`hard`) or by `,` and a soft
/// line break.
pub fn join(hard: bool, items: Vec<Doc>) -> (r: Doc)
    ensures
        doc_view(r) == join_spec(separator(hard), docs_view(items@)),
{
    let ghost src = items@;
    proof {
        lemma_docs_view_len(src);
        reveal_strlit(",");
    }
    let mut out: Vec<Doc> = Vec::new();
    let ghost n = src.len();
    assert(n == items.len());
    let mut rest = items;
    let mut k: usize = 0;
    while rest.len() > 0
        invariant
            k + rest@.len() == n,
            n == src.len(),
            n <= usize::MAX,
            rest@ == src.skip(k as int),
            docs_view(out@) == interleave(separator(hard), docs_view(src.take(k as int))),
            docs_view(src).len() == src.len(),
            forall|i: int| 0 <= i < src.len() ==> #[trigger] docs_view(src)[i] == doc_view(src[i]),
        decreases rest.len(),
    {
        let d = rest.remove(0);
        assert(d == src[k as int]);
        assert(rest@ =~= src.skip(k + 1));
        proof {
            lemma_docs_view_len(src.take(k as int));
            lemma_docs_view_len(src.take(k + 1));
            assert(docs_view(src.take(k + 1)).drop_last() =~= docs_view(src.take(k as int)));
        }
        if k > 0 {
            let ghost o = out@;
            let s = make_separator(hard);
            out.push(s);
            proof {
                lemma_docs_view_push(o, s);
            }
        }
        let ghost o2 = out@;
        out.push(d);
        proof {
            lemma_docs_view_push(o2, d);
            if k == 0 {
                assert(docs_view(src.take(1)) =~= seq![doc_view(d)]);
                assert(docs_view(o2) =~= Seq::<DocSpec>::empty());
            }
        }
        k += 1;
    }
    assert(src.take(k as int) =~= src);
    Doc::Concat(out)
}

/// The document holds only text pieces, in concatenations: any printer lays
/// it out as the concatenation of its texts.
pub open spec fn is_flat(d: DocSpec) -> bool
    decreases d,
{
    match d {
        DocSpec::Text(_) => true,
        DocSpec::Concat(s) => all_flat(s),
        _ => false,
    }
}

/// Every document of the list is flat.
pub open spec fn all_flat(s: Seq<DocSpec>) -> bool
    decreases s,
{
    if s.len() == 0 {
        true
    } else {
        all_flat(s.subrange(0, s.len() - 1)) && is_flat(s[s.len() - 1])
    }
}

/// A concatenation is flat only when each of its parts is.
pub proof fn lemma_is_flat_concat(s: Seq<DocSpec>, i: int)
    requires
        0 <= i < s.len(),
        !is_flat(s[i]),
    ensures
        !all_flat(s),
    decreases s.len(),
{
    if i < s.len() - 1 {
        let t = s.subrange(0, s.len() - 1);
        assert(t[i] == s[i]);
        lemma_is_flat_concat(t, i);
    }
}

/// The text of a flat document.
pub open spec fn flat_string(d: DocSpec) -> Seq<char>
    decreases d,
{
    match d {
        DocSpec::Text(s) => s,
        DocSpec::Concat(s) => flat_strings(s),
        _ => seq![],
    }
}

pub open spec fn flat_strings(s: Seq<DocSpec>) -> Seq<char>
    decreases s,
{
    if s.len() == 0 {
        seq![]
    } else {
        flat_strings(s.subrange(0, s.len() - 1)) + flat_string(s[s.len() - 1])
    }
}

} // verus!
