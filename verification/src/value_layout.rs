//! Layout of loaded YAML values (without comments or source styles, apart
//! from block and quoted scalars kept as written) in block style.
use vstd::prelude::*;

use crate::doc::{
    concat, concat2, concat3, doc_view, docs_view, hard_line, indent, join, join_spec,
    lemma_docs_view_push, separator, text, text_chars, text_lit, Doc, DocSpec,
};
use crate::formatter::{string_scalar, string_to_doc, YamlFormatOptions};
use crate::scalar_render::{decimal, decimal_digits};
use saphyr::{LoadableYamlNode, ScalarOwned, ScalarStyle as SaphyrStyle, YamlOwned};

use crate::text::{contains_char, eq_lit, lines_of, push_all, split_lines, str_chars, string_from_chars, views};

verus! {

/// How a scalar kept as written was written.
#[derive(Debug, Clone, Copy, PartialEq, Eq, Structural)]
pub enum ReprStyle {
    Plain,
    SingleQuoted,
    DoubleQuoted,
    Literal,
    Folded,
}

/// A loaded YAML value. `Float` holds the float as Rust prints it
/// (`NaN`, `inf`, `-inf` or a decimal); `Alias` the index of the anchored
/// value.
#[derive(Debug)]
pub enum YamlValue {
    Null,
    Bool(bool),
    Int(i64),
    Float(String),
    Str(String),
    Repr(String, ReprStyle),
    Mapping(Vec<(YamlValue, YamlValue)>),
    Sequence(Vec<YamlValue>),
    Tagged(String, Box<YamlValue>),
    Alias(usize),
    Bad,
}

pub open spec fn vsize(n: YamlValue) -> nat
    decreases n,
{
    match n {
        YamlValue::Mapping(es) => 1 + vpairs_size(es@),
        YamlValue::Sequence(s) => 1 + vitems_size(s@),
        YamlValue::Tagged(_, b) => 1 + vsize(*b),
        _ => 1,
    }
}

pub open spec fn vpairs_size(s: Seq<(YamlValue, YamlValue)>) -> nat
    decreases s,
{
    if s.len() == 0 {
        0
    } else {
        vpairs_size(s.subrange(0, s.len() - 1)) + vsize(s[s.len() - 1].0) + vsize(s[s.len() - 1].1)
    }
}

pub open spec fn vitems_size(s: Seq<YamlValue>) -> nat
    decreases s,
{
    if s.len() == 0 {
        0
    } else {
        vitems_size(s.subrange(0, s.len() - 1)) + vsize(s[s.len() - 1])
    }
}

pub proof fn lemma_vsize_pos(n: YamlValue)
    ensures
        vsize(n) >= 1,
{
}

pub proof fn lemma_vpairs_size(s: Seq<(YamlValue, YamlValue)>, i: int)
    requires
        0 <= i < s.len(),
    ensures
        vsize(s[i].0) + vsize(s[i].1) <= vpairs_size(s),
        vpairs_size(s.take(i)) + vsize(s[i].0) + vsize(s[i].1) <= vpairs_size(s),
    decreases s.len(),
{
    let t = s.subrange(0, s.len() - 1);
    if i < s.len() - 1 {
        assert(t[i] == s[i]);
        assert(t.take(i) =~= s.take(i));
        lemma_vpairs_size(t, i);
    } else {
        assert(t =~= s.take(i));
    }
}

pub proof fn lemma_vitems_size(s: Seq<YamlValue>, i: int)
    requires
        0 <= i < s.len(),
    ensures
        vsize(s[i]) <= vitems_size(s),
    decreases s.len(),
{
    if i < s.len() - 1 {
        let t = s.subrange(0, s.len() - 1);
        assert(t[i] == s[i]);
        lemma_vitems_size(t, i);
    }
}

/// A float as the formatter writes it, from the text Rust prints for it:
/// `.nan`, `.inf` or `-.inf` for the special values, a decimal with a point
/// or an exponent kept as it is, and `.0` after a whole number.
pub open spec fn float_output(t: Seq<char>) -> Seq<char> {
    if t == "NaN"@ {
        ".nan"@
    } else if t == "inf"@ {
        ".inf"@
    } else if t == "-inf"@ {
        "-.inf"@
    } else if t.contains('.') || t.contains('e') {
        t
    } else {
        t + ".0"@
    }
}

/// Writes a float, given as the text Rust prints for it, in YAML: `.nan`,
/// `.inf`, `-.inf`, or a decimal that always holds a point or an exponent.
pub fn format_float(display: &str) -> (r: String)
    ensures
        r@ == float_output(display@),
{
    let v = str_chars(display);
    if eq_lit(&v, "NaN") {
        return ".nan".to_string();
    }
    if eq_lit(&v, "inf") {
        return ".inf".to_string();
    }
    if eq_lit(&v, "-inf") {
        return "-.inf".to_string();
    }
    if contains_char(&v, '.') || contains_char(&v, 'e') {
        return string_from_chars(&v);
    }
    let mut out = v;
    push_all(&mut out, str_chars(".0").as_slice());
    string_from_chars(&out)
}

/// The decimal text of an integer, with a minus sign when negative.
pub open spec fn int_text(i: i64) -> Seq<char> {
    if i < 0 {
        seq!['-'] + decimal((-(i as int)) as nat)
    } else {
        decimal(i as nat)
    }
}

/// Each line after a hard line break.
pub open spec fn block_lines(ls: Seq<Seq<char>>) -> Seq<DocSpec>
    decreases ls.len(),
{
    if ls.len() == 0 {
        seq![]
    } else {
        block_lines(ls.drop_last()) + seq![DocSpec::HardLine, DocSpec::Text(ls.last())]
    }
}

/// A block scalar kept as written: the plain header (`|` or `>`, without
/// its chomping indicator), then each of its lines on a line of its own.
pub open spec fn repr_block(s: Seq<char>, literal: bool) -> DocSpec {
    DocSpec::Concat(
        seq![
            DocSpec::Text(if literal {
                seq!['|']
            } else {
                seq!['>']
            }),
        ] + block_lines(lines_of(s)),
    )
}

/// The layout of a value.
pub open spec fn value_doc(n: YamlValue, sq: bool) -> DocSpec
    decreases vsize(n), 0int,
{
    match n {
        YamlValue::Null => DocSpec::Text("null"@),
        YamlValue::Bool(b) => DocSpec::Text(
            if b {
                "true"@
            } else {
                "false"@
            },
        ),
        YamlValue::Int(i) => DocSpec::Text(int_text(i)),
        YamlValue::Float(f) => DocSpec::Text(float_output(f@)),
        YamlValue::Str(s) => DocSpec::Text(string_scalar(s@, sq)),
        YamlValue::Repr(s, style) => match style {
            ReprStyle::Literal => repr_block(s@, true),
            ReprStyle::Folded => repr_block(s@, false),
            ReprStyle::SingleQuoted => DocSpec::Text(seq!['\''] + s@ + seq!['\'']),
            ReprStyle::DoubleQuoted => DocSpec::Text(seq!['"'] + s@ + seq!['"']),
            ReprStyle::Plain => DocSpec::Text(s@),
        },
        YamlValue::Mapping(es) => value_mapping(es@, sq),
        YamlValue::Sequence(items) => value_sequence(items@, sq),
        YamlValue::Tagged(t, b) => DocSpec::Concat(seq![DocSpec::Text(seq!['!'] + t@ + seq![' ']), value_doc(*b, sq)]),
        YamlValue::Alias(i) => DocSpec::Text("*alias"@ + decimal(i as nat)),
        YamlValue::Bad => DocSpec::Text("null"@),
    }
}

/// A mapping: `{}` when empty, else its entries on lines of their own.
pub open spec fn value_mapping(es: Seq<(YamlValue, YamlValue)>, sq: bool) -> DocSpec
    decreases vpairs_size(es), 3int,
{
    if es.len() == 0 {
        DocSpec::Text("{}"@)
    } else {
        join_spec(DocSpec::HardLine, value_entries(es, sq))
    }
}

pub open spec fn value_entries(es: Seq<(YamlValue, YamlValue)>, sq: bool) -> Seq<DocSpec>
    decreases vpairs_size(es), 2int,
{
    if es.len() == 0 {
        seq![]
    } else {
        proof {
            lemma_vpairs_size(es, es.len() - 1);
        }
        value_entries(es.subrange(0, es.len() - 1), sq).push(value_entry(es[es.len() - 1].0, es[es.len() - 1].1, sq))
    }
}

/// One entry: a non-empty mapping or sequence value goes below the key,
/// one level deeper; any other value follows `: ` on the key's line.
pub open spec fn value_entry(k: YamlValue, v: YamlValue, sq: bool) -> DocSpec
    decreases vsize(k) + vsize(v), 1int,
{
    proof {
        lemma_vsize_pos(k);
        lemma_vsize_pos(v);
    }
    let key = value_doc(k, sq);
    match v {
        YamlValue::Mapping(m) if m@.len() > 0 => DocSpec::Concat(
            seq![key, DocSpec::Text(seq![':']), DocSpec::Indent(Box::new(DocSpec::Concat(seq![DocSpec::HardLine, value_mapping(m@, sq)])))],
        ),
        YamlValue::Sequence(s) if s@.len() > 0 => DocSpec::Concat(
            seq![key, DocSpec::Text(seq![':']), DocSpec::Indent(Box::new(DocSpec::Concat(seq![DocSpec::HardLine, value_sequence(s@, sq)])))],
        ),
        _ => DocSpec::Concat(seq![key, DocSpec::Text(": "@), value_doc(v, sq)]),
    }
}

/// A sequence: `[]` when empty, else its items on lines of their own.
pub open spec fn value_sequence(s: Seq<YamlValue>, sq: bool) -> DocSpec
    decreases vitems_size(s), 3int,
{
    if s.len() == 0 {
        DocSpec::Text("[]"@)
    } else {
        join_spec(DocSpec::HardLine, value_items(s, sq))
    }
}

pub open spec fn value_items(s: Seq<YamlValue>, sq: bool) -> Seq<DocSpec>
    decreases vitems_size(s), 2int,
{
    if s.len() == 0 {
        seq![]
    } else {
        proof {
            lemma_vitems_size(s, s.len() - 1);
        }
        value_items(s.subrange(0, s.len() - 1), sq).push(value_item(s[s.len() - 1], sq))
    }
}

/// One item behind `- `: a non-empty mapping with its first entry on the
/// dash line and the others aligned below it; a non-empty sequence below
/// the dash, one level deeper; anything else on the dash line.
pub open spec fn value_item(n: YamlValue, sq: bool) -> DocSpec
    decreases vsize(n), 1int,
{
    match n {
        YamlValue::Mapping(m) if m@.len() > 0 => DocSpec::Concat(
            seq![DocSpec::Text("- "@), DocSpec::Indent(Box::new(join_spec(DocSpec::HardLine, value_entries(m@, sq))))],
        ),
        YamlValue::Sequence(s) if s@.len() > 0 => DocSpec::Concat(
            seq![DocSpec::Text("- "@), DocSpec::Indent(Box::new(DocSpec::Concat(seq![DocSpec::HardLine, value_sequence(s@, sq)])))],
        ),
        _ => DocSpec::Concat(seq![DocSpec::Text("- "@), value_doc(n, sq)]),
    }
}

/// The documents of a stream, separated by `---` lines.
pub open spec fn value_stream(docs: Seq<YamlValue>, sq: bool) -> Seq<DocSpec>
    decreases docs.len(),
{
    if docs.len() == 0 {
        seq![]
    } else if docs.len() == 1 {
        seq![value_doc(docs[0], sq)]
    } else {
        value_stream(docs.drop_last(), sq) + seq![DocSpec::HardLine, DocSpec::Text("---"@), DocSpec::HardLine, value_doc(docs.last(), sq)]
    }
}

fn int_chars(i: i64) -> (r: Vec<char>)
    ensures
        r@ == int_text(i),
{
    if i < 0 {
        let m: u64 = if i == i64::MIN {
            9223372036854775808u64
        } else {
            (-i) as u64
        };
        let mut v: Vec<char> = Vec::new();
        v.push('-');
        let d = decimal_u64(m);
        push_all(&mut v, d.as_slice());
        v
    } else {
        decimal_u64(i as u64)
    }
}

/// The decimal spelling of `n`.
fn decimal_u64(n: u64) -> (r: Vec<char>)
    ensures
        r@ == decimal(n as nat),
    decreases n,
{
    if n < 10 {
        let d = decimal_digits(n as usize);
        d
    } else {
        let mut v = decimal_u64(n / 10);
        let last = decimal_digits((n % 10) as usize);
        assert(last@ == decimal((n % 10) as nat));
        push_all(&mut v, last.as_slice());
        v
    }
}

fn block_to_doc(s: &str, literal: bool) -> (r: Doc)
    ensures
        doc_view(r) == repr_block(s@, literal),
{
    let v = str_chars(s);
    let ls = split_lines(v.as_slice());
    let mut parts: Vec<Doc> = Vec::new();
    let h = if literal {
        text_lit("|")
    } else {
        text_lit(">")
    };
    proof {
        reveal_strlit("|");
        reveal_strlit(">");
        assert("|"@ =~= seq!['|']);
        assert(">"@ =~= seq!['>']);
    }
    let ghost hv = doc_view(h);
    parts.push(h);
    proof {
        lemma_docs_view_push(Seq::empty(), h);
        assert(docs_view(Seq::<Doc>::empty()) =~= Seq::<DocSpec>::empty());
    }
    let mut i: usize = 0;
    while i < ls.len()
        invariant
            i <= ls@.len(),
            views(ls@) == lines_of(s@),
            docs_view(parts@) == seq![hv] + block_lines(views(ls@).take(i as int)),
        decreases ls.len() - i,
    {
        let ghost before = parts@;
        let hl = hard_line();
        parts.push(hl);
        proof {
            lemma_docs_view_push(before, hl);
        }
        let ghost mid = parts@;
        let t = text_chars(&ls[i]);
        parts.push(t);
        proof {
            lemma_docs_view_push(mid, t);
            assert(views(ls@)[i as int] == ls@[i as int]@);
            assert(views(ls@).take(i + 1).drop_last() =~= views(ls@).take(i as int));
        }
        i += 1;
        assert(docs_view(parts@) =~= seq![hv] + block_lines(views(ls@).take(i as int)));
    }
    assert(views(ls@).take(i as int) =~= views(ls@));
    let r = concat(parts);
    assert(hv == DocSpec::Text(if literal { seq!['|'] } else { seq!['>'] }));
    r
}

/// The layout of a scalar value.
pub fn scalar_to_doc(n: &YamlValue, options: &YamlFormatOptions) -> (r: Doc)
    requires
        !(n is Mapping || n is Sequence || n is Tagged),
    ensures
        doc_view(r) == value_doc(*n, options.single_quote),
{
    proof {
        reveal_strlit("null");
        reveal_strlit("true");
        reveal_strlit("false");
    }
    match n {
        YamlValue::Null => text_lit("null"),
        YamlValue::Bool(b) => if *b {
            text_lit("true")
        } else {
            text_lit("false")
        },
        YamlValue::Int(i) => text_chars(&int_chars(*i)),
        YamlValue::Float(f) => text(format_float(f.as_str())),
        YamlValue::Str(s) => text(string_to_doc(s.as_str(), options)),
        YamlValue::Repr(s, style) => match style {
            ReprStyle::Literal => block_to_doc(s.as_str(), true),
            ReprStyle::Folded => block_to_doc(s.as_str(), false),
            ReprStyle::SingleQuoted => {
                let mut v: Vec<char> = Vec::new();
                v.push('\'');
                push_all(&mut v, str_chars(s.as_str()).as_slice());
                v.push('\'');
                assert(v@ =~= seq!['\''] + s@ + seq!['\'']);
                text_chars(&v)
            },
            ReprStyle::DoubleQuoted => {
                let mut v: Vec<char> = Vec::new();
                v.push('"');
                push_all(&mut v, str_chars(s.as_str()).as_slice());
                v.push('"');
                assert(v@ =~= seq!['"'] + s@ + seq!['"']);
                text_chars(&v)
            },
            ReprStyle::Plain => text_chars(&str_chars(s.as_str())),
        },
        YamlValue::Alias(i) => {
            let mut v = str_chars("*alias");
            push_all(&mut v, decimal_digits(*i).as_slice());
            text_chars(&v)
        },
        _ => text_lit("null"),
    }
}

/// The layout of a value.
pub fn node_to_doc(n: &YamlValue, options: &YamlFormatOptions) -> (r: Doc)
    ensures
        doc_view(r) == value_doc(*n, options.single_quote),
    decreases vsize(*n), 0int,
{
    match n {
        YamlValue::Mapping(es) => mapping_to_doc(es, options),
        YamlValue::Sequence(items) => sequence_to_doc(items, options),
        YamlValue::Tagged(t, b) => {
            let mut v: Vec<char> = Vec::new();
            v.push('!');
            push_all(&mut v, str_chars(t.as_str()).as_slice());
            v.push(' ');
            assert(v@ =~= seq!['!'] + t@ + seq![' ']);
            let inner = node_to_doc(b, options);
            concat2(text_chars(&v), inner)
        },
        _ => scalar_to_doc(n, options),
    }
}

/// The entry layouts of a mapping.
fn kv_docs(es: &Vec<(YamlValue, YamlValue)>, options: &YamlFormatOptions) -> (r: Vec<Doc>)
    ensures
        docs_view(r@) == value_entries(es@, options.single_quote),
    decreases vpairs_size(es@), 2int,
{
    let mut out: Vec<Doc> = Vec::new();
    let mut i: usize = 0;
    assert(docs_view(out@) =~= value_entries(es@.take(0), options.single_quote));
    while i < es.len()
        invariant
            i <= es@.len(),
            docs_view(out@) == value_entries(es@.take(i as int), options.single_quote),
        decreases es.len() - i,
    {
        proof {
            lemma_vpairs_size(es@, i as int);
            assert(es@.take(i + 1).subrange(0, i as int) =~= es@.take(i as int));
            assert(es@.take(i + 1)[i as int] == es@[i as int]);
            assert(vpairs_size(es@.take(i + 1)) == vpairs_size(es@.take(i as int)) + vsize(es@[i as int].0) + vsize(es@[i as int].1));
        }
        let d = key_value_to_doc(&es[i].0, &es[i].1, options);
        let ghost before = out@;
        out.push(d);
        proof {
            lemma_docs_view_push(before, d);
        }
        i += 1;
    }
    assert(es@.take(i as int) =~= es@);
    out
}

/// The layout of a mapping.
pub fn mapping_to_doc(es: &Vec<(YamlValue, YamlValue)>, options: &YamlFormatOptions) -> (r: Doc)
    ensures
        doc_view(r) == value_mapping(es@, options.single_quote),
    decreases vpairs_size(es@), 3int,
{
    if es.len() == 0 {
        proof {
            reveal_strlit("{}");
        }
        return text_lit("{}");
    }
    let pairs = kv_docs(es, options);
    join(true, pairs)
}

/// The layout of one mapping entry.
pub fn key_value_to_doc(key: &YamlValue, value: &YamlValue, options: &YamlFormatOptions) -> (r: Doc)
    ensures
        doc_view(r) == value_entry(*key, *value, options.single_quote),
    decreases vsize(*key) + vsize(*value), 1int,
{
    proof {
        lemma_vsize_pos(*key);
        lemma_vsize_pos(*value);
    }
    let key_doc = node_to_doc(key, options);
    proof {
        reveal_strlit(":");
        reveal_strlit(": ");
    }
    match value {
        YamlValue::Mapping(m) => {
            if m.len() > 0 {
                let body = concat2(hard_line(), mapping_to_doc(m, options));
                let r = concat3(key_doc, text_lit(":"), indent(body));
                assert(":"@ =~= seq![':']);
                return r;
            }
        },
        YamlValue::Sequence(s) => {
            if s.len() > 0 {
                let body = concat2(hard_line(), sequence_to_doc(s, options));
                let r = concat3(key_doc, text_lit(":"), indent(body));
                assert(":"@ =~= seq![':']);
                return r;
            }
        },
        _ => {},
    }
    concat3(key_doc, text_lit(": "), node_to_doc(value, options))
}

/// The item layouts of a sequence.
fn item_docs(s: &Vec<YamlValue>, options: &YamlFormatOptions) -> (r: Vec<Doc>)
    ensures
        docs_view(r@) == value_items(s@, options.single_quote),
    decreases vitems_size(s@), 2int,
{
    let mut out: Vec<Doc> = Vec::new();
    let mut i: usize = 0;
    assert(docs_view(out@) =~= value_items(s@.take(0), options.single_quote));
    while i < s.len()
        invariant
            i <= s@.len(),
            docs_view(out@) == value_items(s@.take(i as int), options.single_quote),
        decreases s.len() - i,
    {
        proof {
            lemma_vitems_size(s@, i as int);
            assert(s@.take(i + 1).subrange(0, i as int) =~= s@.take(i as int));
            assert(s@.take(i + 1)[i as int] == s@[i as int]);
        }
        let d = sequence_item_to_doc(&s[i], options);
        let ghost before = out@;
        out.push(d);
        proof {
            lemma_docs_view_push(before, d);
        }
        i += 1;
    }
    assert(s@.take(i as int) =~= s@);
    out
}

/// The layout of a sequence.
pub fn sequence_to_doc(s: &Vec<YamlValue>, options: &YamlFormatOptions) -> (r: Doc)
    ensures
        doc_view(r) == value_sequence(s@, options.single_quote),
    decreases vitems_size(s@), 3int,
{
    if s.len() == 0 {
        proof {
            reveal_strlit("[]");
        }
        return text_lit("[]");
    }
    let items = item_docs(s, options);
    join(true, items)
}

/// The layout of one sequence item with its `- ` prefix.
pub fn sequence_item_to_doc(item: &YamlValue, options: &YamlFormatOptions) -> (r: Doc)
    ensures
        doc_view(r) == value_item(*item, options.single_quote),
    decreases vsize(*item), 1int,
{
    match item {
        YamlValue::Mapping(m) => {
            if m.len() > 0 {
                let pairs = kv_docs(m, options);
                return concat2(text_lit("- "), indent(join(true, pairs)));
            }
        },
        YamlValue::Sequence(s) => {
            if s.len() > 0 {
                let body = concat2(hard_line(), sequence_to_doc(s, options));
                return concat2(text_lit("- "), indent(body));
            }
        },
        _ => {},
    }
    concat2(text_lit("- "), node_to_doc(item, options))
}

/// The layout of a stream: the documents separated by `---` lines.
pub fn layout_stream(docs: &Vec<YamlValue>, options: &YamlFormatOptions) -> (r: Doc)
    ensures
        doc_view(r) == DocSpec::Concat(value_stream(docs@, options.single_quote)),
{
    let mut parts: Vec<Doc> = Vec::new();
    let mut i: usize = 0;
    assert(docs_view(parts@) =~= value_stream(docs@.take(0), options.single_quote));
    while i < docs.len()
        invariant
            i <= docs@.len(),
            docs_view(parts@) == value_stream(docs@.take(i as int), options.single_quote),
        decreases docs.len() - i,
    {
        proof {
            assert(docs@.take(i + 1).drop_last() =~= docs@.take(i as int));
            assert(docs@.take(i + 1).last() == docs@[i as int]);
        }
        if i > 0 {
            let ghost p0 = parts@;
            let a = hard_line();
            parts.push(a);
            proof {
                lemma_docs_view_push(p0, a);
            }
            let ghost p1 = parts@;
            let b = text_lit("---");
            parts.push(b);
            proof {
                lemma_docs_view_push(p1, b);
            }
            let ghost p2 = parts@;
            let c = hard_line();
            parts.push(c);
            proof {
                lemma_docs_view_push(p2, c);
            }
        }
        let ghost p3 = parts@;
        let d = node_to_doc(&docs[i], options);
        parts.push(d);
        proof {
            lemma_docs_view_push(p3, d);
        }
        i += 1;
        assert(docs_view(parts@) =~= value_stream(docs@.take(i as int), options.single_quote));
    }
    assert(docs@.take(i as int) =~= docs@);
    concat(parts)
}


#[verifier::external_type_specification]
#[verifier::external_body]
pub struct ExYamlOwned(YamlOwned);

#[verifier::external_type_specification]
#[verifier::external_body]
pub struct ExScalarOwned(ScalarOwned);

#[verifier::external_type_specification]
#[verifier::external_body]
pub struct ExScalarStyle(SaphyrStyle);

/// What `saphyr` loads from `text` (each document's value, or `None` when
/// loading fails), converted to [`YamlValue`]s.
pub uninterp spec fn loaded_values(text: Seq<char>) -> Option<Seq<YamlValue>>;

/// Calls `saphyr`'s `YamlOwned::load_from_str`: `None` when it returns an
/// error, else the loaded documents, each converted to a [`YamlValue`]. The
/// contract only names the result: it depends on the text alone.
#[verifier::external_body]
pub fn load_values(text: &str) -> (r: Option<Vec<YamlValue>>)
    ensures
        match r {
            Some(v) => loaded_values(text@) == Some(v@),
            None => loaded_values(text@) is None,
        },
{
    match YamlOwned::load_from_str(text) {
        Ok(docs) => Some(docs.iter().map(value_of).collect()),
        Err(_) => None,
    }
}

/// Converts a loaded `saphyr` node, one variant to one variant.
#[verifier::external_body]
fn value_of(node: &YamlOwned) -> YamlValue {
    match node {
        YamlOwned::Value(s) => scalar_of(s),
        YamlOwned::Representation(s, style, _) => YamlValue::Repr(s.clone(), repr_style_of(style)),
        YamlOwned::Mapping(m) => YamlValue::Mapping(m.iter().map(|(k, v)| (value_of(k), value_of(v))).collect()),
        YamlOwned::Sequence(items) => YamlValue::Sequence(items.iter().map(value_of).collect()),
        YamlOwned::Tagged(t, inner) => YamlValue::Tagged(t.suffix.clone(), Box::new(value_of(inner))),
        YamlOwned::Alias(i) => YamlValue::Alias(*i),
        YamlOwned::BadValue => YamlValue::Bad,
    }
}

/// Converts a resolved `saphyr` scalar; a float is carried as the text
/// Rust prints for it.
#[verifier::external_body]
fn scalar_of(s: &ScalarOwned) -> YamlValue {
    match s {
        ScalarOwned::Null => YamlValue::Null,
        ScalarOwned::Boolean(b) => YamlValue::Bool(*b),
        ScalarOwned::Integer(i) => YamlValue::Int(*i),
        ScalarOwned::FloatingPoint(f) => YamlValue::Float(f.to_string()),
        ScalarOwned::String(t) => YamlValue::Str(t.clone()),
    }
}

/// Converts a `saphyr` scalar style.
#[verifier::external_body]
fn repr_style_of(style: &SaphyrStyle) -> ReprStyle {
    match style {
        SaphyrStyle::Plain => ReprStyle::Plain,
        SaphyrStyle::SingleQuoted => ReprStyle::SingleQuoted,
        SaphyrStyle::DoubleQuoted => ReprStyle::DoubleQuoted,
        SaphyrStyle::Literal => ReprStyle::Literal,
        SaphyrStyle::Folded => ReprStyle::Folded,
    }
}

/// Loads `text_input` and lays its documents out. `Err` carries the text to
/// return instead: the input unchanged when it does not load (so no content
/// is lost), the empty text when it holds no document.
pub fn lay_out_text(text_input: &str, options: &YamlFormatOptions) -> (r: Result<Doc, String>)
    ensures
        loaded_values(text_input@) is None ==> (r matches Err(t) && t@ == text_input@),
        loaded_values(text_input@) matches Some(vs) ==> (vs.len() == 0 ==> (r matches Err(t) && t@.len() == 0)),
        loaded_values(text_input@) matches Some(vs) ==> (vs.len() > 0 ==> (r matches Ok(d) && doc_view(d)
            == DocSpec::Concat(value_stream(vs, options.single_quote)))),
{
    let loaded = load_values(text_input);
    let count = match &loaded {
        Some(v) => v.len(),
        None => 0,
    };
    match crate::yaml_format::unformatted_result(text_input, loaded.is_none(), count) {
        Some(t) => Err(t),
        None => match loaded {
            Some(vs) => Ok(layout_stream(&vs, options)),
            None => Err(text_input.to_string()),
        },
    }
}

} // verus!
