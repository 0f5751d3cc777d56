//! How the formatter writes scalars: quoting decisions, escapes, tags and
//! block scalar layout.
use vstd::prelude::*;

use crate::ast::{Chomp, ScalarStyle};
use crate::doc::{
    concat, concat2, doc_view, docs_view, hard_line, indent, lemma_docs_view_push, text_chars,
    text_lit, Doc, DocSpec,
};
use crate::format_options::{YamlFormatOptions, YamlVersion};
use crate::formatter::{indicator_start, looks_like_number, number_like};
use crate::text::{
    char_is_ws, contains_char, contains_lit, contains_text, eq_lit, is_ws, lines_of, push_all,
    split_lines, starts_with_lit, str_chars, string_from_chars, views,
};

verus! {

/// The prefix of the YAML Core Schema tags.
pub open spec fn core_prefix() -> Seq<char> {
    "tag:yaml.org,2002:"@
}

/// Returns `true` if the tag string is a YAML Core Schema tag.
pub fn is_core_schema_tag(tag: &str) -> (r: bool)
    ensures
        r == core_prefix().is_prefix_of(tag@),
{
    let v = str_chars(tag);
    starts_with_lit(&v, "tag:yaml.org,2002:")
}

/// How a tag is written: handle-based tags (starting with `!`) as they are,
/// URI tags in the verbatim form `!<uri>`.
pub open spec fn tag_text(tag: Seq<char>) -> Seq<char> {
    if tag.len() > 0 && tag[0] == '!' {
        tag
    } else {
        "!<"@ + tag + ">"@
    }
}

/// Format a tag string for emission in YAML output.
pub fn format_tag(tag: &str) -> (r: Vec<char>)
    ensures
        r@ == tag_text(tag@),
{
    let v = str_chars(tag);
    if v.len() > 0 && v[0] == '!' {
        v
    } else {
        let mut out = str_chars("!<");
        push_all(&mut out, &v);
        let close = str_chars(">");
        push_all(&mut out, &close);
        out
    }
}

/// Characters that delimit flow collections.
pub open spec fn flow_delimiter(c: char) -> bool {
    c == ',' || c == '[' || c == ']' || c == '{' || c == '}'
}

/// Returns true if a plain scalar value would be ambiguous in a flow collection
/// context (it holds `,`, `[`, `]`, `{` or `}`).
pub fn needs_flow_quoting(s: &str) -> (r: bool)
    ensures
        r == exists|i: int| 0 <= i < s@.len() && flow_delimiter(#[trigger] s@[i]),
{
    let v = str_chars(s);
    let mut i: usize = 0;
    while i < v.len()
        invariant
            i <= v.len(),
            v@ == s@,
            forall|j: int| 0 <= j < i ==> !flow_delimiter(#[trigger] v@[j]),
        decreases v.len() - i,
    {
        if v[i] == ',' || v[i] == '[' || v[i] == ']' || v[i] == '{' || v[i] == '}' {
            assert(flow_delimiter(s@[i as int]));
            return true;
        }
        i += 1;
    }
    false
}

/// Words that read as null or boolean in every YAML version.
pub open spec fn always_reserved(s: Seq<char>) -> bool {
    s == "null"@ || s == "~"@ || s == "true"@ || s == "false"@ || s == "Null"@ || s == "NULL"@
        || s == "True"@ || s == "TRUE"@ || s == "False"@ || s == "FALSE"@
}

/// Words that read as booleans under YAML 1.1 only.
pub open spec fn v1_1_reserved(s: Seq<char>) -> bool {
    s == "yes"@ || s == "no"@ || s == "on"@ || s == "off"@ || s == "Yes"@ || s == "No"@ || s
        == "On"@ || s == "Off"@ || s == "YES"@ || s == "NO"@ || s == "ON"@ || s == "OFF"@
}

/// The quoting rule: a value must be quoted when, written plain, it would be
/// lost, read as something else, or break the line structure.
pub open spec fn must_quote(s: Seq<char>, version: YamlVersion) -> bool {
    ||| s.len() == 0
    ||| is_ws(s[0])
    ||| is_ws(s.last())
    ||| s.contains('\n')
    ||| always_reserved(s)
    ||| (version == YamlVersion::V1_1 && v1_1_reserved(s))
    ||| number_like(s)
    ||| indicator_start(s[0])
    ||| s[0] == '"'
    ||| s[0] == '\''
    ||| contains_text(s, ": "@)
    ||| contains_text(s, " #"@)
    ||| "- "@.is_prefix_of(s)
    ||| "--- "@.is_prefix_of(s)
    ||| s == "---"@
    ||| s == "..."@
}

fn is_always_reserved(v: &[char]) -> (r: bool)
    ensures
        r == always_reserved(v@),
{
    eq_lit(v, "null") || eq_lit(v, "~") || eq_lit(v, "true") || eq_lit(v, "false") || eq_lit(
        v,
        "Null",
    ) || eq_lit(v, "NULL") || eq_lit(v, "True") || eq_lit(v, "TRUE") || eq_lit(v, "False")
        || eq_lit(v, "FALSE")
}

fn is_v1_1_reserved(v: &[char]) -> (r: bool)
    ensures
        r == v1_1_reserved(v@),
{
    eq_lit(v, "yes") || eq_lit(v, "no") || eq_lit(v, "on") || eq_lit(v, "off") || eq_lit(v, "Yes")
        || eq_lit(v, "No") || eq_lit(v, "On") || eq_lit(v, "Off") || eq_lit(v, "YES") || eq_lit(
        v,
        "NO",
    ) || eq_lit(v, "ON") || eq_lit(v, "OFF")
}

/// Returns true if a string value requires quoting to avoid YAML ambiguity.
///
/// The `version` parameter controls whether YAML 1.1-only boolean keywords
/// (`yes`, `no`, `on`, `off` and their capitalised variants) count as reserved.
pub fn needs_quoting(s: &str, version: YamlVersion) -> (r: bool)
    ensures
        r == must_quote(s@, version),
{
    let v = str_chars(s);
    if v.len() == 0 {
        return true;
    }
    let c = v[0];
    let last = v[v.len() - 1];
    if char_is_ws(c) || char_is_ws(last) || contains_char(&v, '\n') {
        return true;
    }
    let v11 = match version {
        YamlVersion::V1_1 => is_v1_1_reserved(&v),
        YamlVersion::V1_2 => false,
    };
    is_always_reserved(&v) || v11 || looks_like_number(s) || (c == ':' || c == '#' || c == '&'
        || c == '*' || c == '?' || c == '|' || c == '-' || c == '<' || c == '>' || c == '=' || c
        == '!' || c == '%' || c == '@' || c == '`' || c == '{' || c == '}' || c == '[' || c == ']')
        || c == '"' || c == '\'' || contains_lit(&v, ": ") || contains_lit(&v, " #")
        || starts_with_lit(&v, "- ") || starts_with_lit(&v, "--- ") || eq_lit(&v, "---") || eq_lit(
        &v,
        "...",
    )
}

/// Characters that cannot stand in a plain or single-quoted scalar: the
/// backslash, C0 controls, NEL and the Unicode line and paragraph separators.
pub open spec fn double_quote_only(c: char) -> bool {
    c == '\\' || (c as u32) <= 0x1F || c == '\u{85}' || c == '\u{2028}' || c == '\u{2029}'
}

/// Returns `true` if the decoded string value contains characters that require
/// double-quoting to represent in YAML.
pub fn requires_double_quoting(s: &str) -> (r: bool)
    ensures
        r == exists|i: int| 0 <= i < s@.len() && double_quote_only(#[trigger] s@[i]),
{
    let v = str_chars(s);
    let mut i: usize = 0;
    while i < v.len()
        invariant
            i <= v.len(),
            v@ == s@,
            forall|j: int| 0 <= j < i ==> !double_quote_only(#[trigger] v@[j]),
        decreases v.len() - i,
    {
        let c = v[i];
        if c == '\\' || (c as u32) <= 0x1F || c == '\u{85}' || c == '\u{2028}' || c == '\u{2029}' {
            assert(double_quote_only(s@[i as int]));
            return true;
        }
        i += 1;
    }
    false
}

/// Upper-case hexadecimal digit of `n < 16`.
pub open spec fn hex_digit(n: int) -> char {
    if n == 0 {
        '0'
    } else if n == 1 {
        '1'
    } else if n == 2 {
        '2'
    } else if n == 3 {
        '3'
    } else if n == 4 {
        '4'
    } else if n == 5 {
        '5'
    } else if n == 6 {
        '6'
    } else if n == 7 {
        '7'
    } else if n == 8 {
        '8'
    } else if n == 9 {
        '9'
    } else if n == 10 {
        'A'
    } else if n == 11 {
        'B'
    } else if n == 12 {
        'C'
    } else if n == 13 {
        'D'
    } else if n == 14 {
        'E'
    } else {
        'F'
    }
}

fn hex_char(n: u32) -> (r: char)
    requires
        n < 16,
    ensures
        r == hex_digit(n as int),
{
    if n == 0 {
        '0'
    } else if n == 1 {
        '1'
    } else if n == 2 {
        '2'
    } else if n == 3 {
        '3'
    } else if n == 4 {
        '4'
    } else if n == 5 {
        '5'
    } else if n == 6 {
        '6'
    } else if n == 7 {
        '7'
    } else if n == 8 {
        '8'
    } else if n == 9 {
        '9'
    } else if n == 10 {
        'A'
    } else if n == 11 {
        'B'
    } else if n == 12 {
        'C'
    } else if n == 13 {
        'D'
    } else if n == 14 {
        'E'
    } else {
        'F'
    }
}

/// The escape of one character in a double-quoted scalar: the named YAML
/// escapes, `\xNN` for the other C0 controls, the character itself otherwise.
pub open spec fn escape_char(c: char) -> Seq<char> {
    if c == '"' {
        seq!['\\', '"']
    } else if c == '\\' {
        seq!['\\', '\\']
    } else if c == '\0' {
        seq!['\\', '0']
    } else if c == '\x07' {
        seq!['\\', 'a']
    } else if c == '\x08' {
        seq!['\\', 'b']
    } else if c == '\t' {
        seq!['\\', 't']
    } else if c == '\n' {
        seq!['\\', 'n']
    } else if c == '\x0B' {
        seq!['\\', 'v']
    } else if c == '\x0C' {
        seq!['\\', 'f']
    } else if c == '\r' {
        seq!['\\', 'r']
    } else if c == '\x1B' {
        seq!['\\', 'e']
    } else if c == '\u{85}' {
        seq!['\\', 'N']
    } else if c == '\u{A0}' {
        seq!['\\', '_']
    } else if c == '\u{2028}' {
        seq!['\\', 'L']
    } else if c == '\u{2029}' {
        seq!['\\', 'P']
    } else if (c as u32) <= 0x1F {
        seq!['\\', 'x', hex_digit((c as u32) as int / 16), hex_digit((c as u32) as int % 16)]
    } else {
        seq![c]
    }
}

/// The escaped form of `s`: each character replaced by its escape.
pub open spec fn escaped(s: Seq<char>) -> Seq<char>
    decreases s.len(),
{
    if s.len() == 0 {
        seq![]
    } else {
        escaped(s.drop_last()) + escape_char(s.last())
    }
}

/// Escaped text holds no control character below U+0020: every one of
/// them, line breaks and tabs included, is written as an escape sequence.
pub proof fn law_escaped_no_controls(s: Seq<char>)
    ensures
        forall|i: int| 0 <= i < escaped(s).len() ==> (#[trigger] escaped(s)[i] as u32) > 0x1F,
    decreases s.len(),
{
    if s.len() > 0 {
        law_escaped_no_controls(s.drop_last());
        let a = escaped(s.drop_last());
        let b = escape_char(s.last());
        assert forall|i: int| 0 <= i < (a + b).len() implies ((a + b)[i] as u32) > 0x1F by {
            if i < a.len() {
                assert((a + b)[i] == a[i]);
            } else {
                assert((a + b)[i] == b[i - a.len()]);
                let c = s.last();
                if (c as u32) <= 0x1F && c != '\0' && c != '\x07' && c != '\x08' && c != '\t' && c != '\n' && c != '\x0B' && c != '\x0C' && c != '\r' && c != '\x1B' {
                    let h = (c as u32) as int / 16;
                    let l = (c as u32) as int % 16;
                    assert(0 <= h < 16 && 0 <= l < 16);
                    lemma_hex_digit_printable(h);
                    lemma_hex_digit_printable(l);
                }
            }
        }
    }
}

proof fn lemma_hex_digit_printable(n: int)
    requires
        0 <= n < 16,
    ensures
        (hex_digit(n) as u32) > 0x1F,
{
}

fn push_escape(out: &mut Vec<char>, c: char)
    ensures
        final(out)@ == old(out)@ + escape_char(c),
{
    let ghost o = out@;
    let e: char = if c == '"' {
        '"'
    } else if c == '\\' {
        '\\'
    } else if c == '\0' {
        '0'
    } else if c == '\x07' {
        'a'
    } else if c == '\x08' {
        'b'
    } else if c == '\t' {
        't'
    } else if c == '\n' {
        'n'
    } else if c == '\x0B' {
        'v'
    } else if c == '\x0C' {
        'f'
    } else if c == '\r' {
        'r'
    } else if c == '\x1B' {
        'e'
    } else if c == '\u{85}' {
        'N'
    } else if c == '\u{A0}' {
        '_'
    } else if c == '\u{2028}' {
        'L'
    } else if c == '\u{2029}' {
        'P'
    } else {
        'x'
    };
    if e != 'x' {
        out.push('\\');
        out.push(e);
        assert(out@ =~= o + escape_char(c));
    } else if (c as u32) <= 0x1F {
        let n = c as u32;
        out.push('\\');
        out.push('x');
        out.push(hex_char(n / 16));
        out.push(hex_char(n % 16));
        assert(out@ =~= o + escape_char(c));
    } else {
        out.push(c);
        assert(out@ =~= o + escape_char(c));
    }
}

/// Escape a string for use in a double-quoted YAML scalar.
///
/// Handles all YAML 1.2 named escapes and falls back to `\xNN` hex
/// notation for remaining C0 control characters.
pub fn escape_double_quoted(s: &str) -> (r: Vec<char>)
    ensures
        r@ == escaped(s@),
{
    let v = str_chars(s);
    let mut out: Vec<char> = Vec::new();
    let mut i: usize = 0;
    while i < v.len()
        invariant
            i <= v.len(),
            v@ == s@,
            out@ == escaped(v@.take(i as int)),
        decreases v.len() - i,
    {
        push_escape(&mut out, v[i]);
        assert(v@.take(i + 1).drop_last() =~= v@.take(i as int));
        i += 1;
    }
    assert(v@.take(i as int) =~= v@);
    out
}

/// `"` + escaped(s) + `"`.
pub open spec fn double_quoted(s: Seq<char>) -> Seq<char> {
    seq!['"'] + escaped(s) + seq!['"']
}

/// `'` + s + `'` (for text that holds no `'`).
pub open spec fn single_quoted(s: Seq<char>) -> Seq<char> {
    seq!['\''] + s + seq!['\'']
}

/// The double-quoted form of `s` as characters.
pub fn double_quote(s: &str) -> (r: Vec<char>)
    ensures
        r@ == double_quoted(s@),
{
    let e = escape_double_quoted(s);
    let mut out: Vec<char> = Vec::new();
    out.push('"');
    push_all(&mut out, &e);
    out.push('"');
    assert(out@ =~= double_quoted(s@));
    out
}

/// How a string scalar is written: quoted when the quoting rule asks for it
/// (single quotes when preferred and the text holds none, else double quotes
/// with escapes); otherwise single-quoted when preferred outside keys, else
/// plain.
pub open spec fn string_text(s: Seq<char>, o: YamlFormatOptions, in_key: bool) -> Seq<char> {
    if must_quote(s, o.yaml_version) {
        if o.single_quote && !s.contains('\'') {
            single_quoted(s)
        } else {
            double_quoted(s)
        }
    } else if o.single_quote && !in_key {
        single_quoted(s)
    } else {
        s
    }
}

/// Keys are never wrapped in single quotes by style preference alone: a key
/// that need not be quoted is written as it is, whatever the quote options.
pub proof fn law_key_unquoted_unless_needed(s: Seq<char>, o: YamlFormatOptions)
    requires
        !must_quote(s, o.yaml_version),
    ensures
        string_text(s, o, true) == s,
        string_text(s, o, false) == (if o.single_quote { single_quoted(s) } else { s }),
{
}

/// Convert a string scalar to a Doc, quoting as necessary.
///
/// When `in_key` is `true`, the `single_quote` option is ignored unless the
/// value must be quoted — keys are never wrapped in single quotes by style
/// preference alone.
pub fn string_to_doc(s: &str, options: &YamlFormatOptions, in_key: bool) -> (r: Doc)
    ensures
        doc_view(r) == DocSpec::Text(string_text(s@, *options, in_key)),
{
    let v = str_chars(s);
    let mut out: Vec<char> = Vec::new();
    if needs_quoting(s, options.yaml_version) {
        if options.single_quote && !contains_char(&v, '\'') {
            out.push('\'');
            push_all(&mut out, &v);
            out.push('\'');
        } else {
            out = double_quote(s);
        }
    } else if options.single_quote && !in_key {
        out.push('\'');
        push_all(&mut out, &v);
        out.push('\'');
    } else {
        out = v;
    }
    assert(out@ =~= string_text(s@, *options, in_key));
    text_chars(&out)
}


/// The block scalar header without an indentation indicator.
pub open spec fn base_header(style: ScalarStyle) -> Seq<char> {
    match style {
        ScalarStyle::Literal(Chomp::Clip) => seq!['|'],
        ScalarStyle::Literal(Chomp::Strip) => seq!['|', '-'],
        ScalarStyle::Literal(Chomp::Keep) => seq!['|', '+'],
        ScalarStyle::Folded(Chomp::Clip) => seq!['>'],
        ScalarStyle::Folded(Chomp::Strip) => seq!['>', '-'],
        ScalarStyle::Folded(Chomp::Keep) => seq!['>', '+'],
        _ => seq![],
    }
}

/// The first non-empty line of `ls`.
pub open spec fn first_nonempty(ls: Seq<Seq<char>>) -> Option<Seq<char>>
    decreases ls.len(),
{
    if ls.len() == 0 {
        None
    } else if ls[0].len() > 0 {
        Some(ls[0])
    } else {
        first_nonempty(ls.drop_first())
    }
}

/// The value's first non-empty line starts with a space or is all
/// whitespace: the header then needs an explicit indentation indicator.
pub open spec fn needs_indent_indicator(s: Seq<char>) -> bool {
    match first_nonempty(lines_of(s)) {
        Some(l) => l[0] == ' ' || crate::text::all_ws(l),
        None => false,
    }
}

/// Decimal digit of `n < 10`.
pub open spec fn dec_digit(n: int) -> char {
    hex_digit(n)
}

/// The decimal spelling of `n`.
pub open spec fn decimal(n: nat) -> Seq<char>
    decreases n,
{
    if n < 10 {
        seq![dec_digit(n as int)]
    } else {
        decimal(n / 10).push(dec_digit((n % 10) as int))
    }
}

/// The decimal spelling of `n`.
pub fn decimal_digits(n: usize) -> (r: Vec<char>)
    ensures
        r@ == decimal(n as nat),
    decreases n,
{
    if n < 10 {
        let mut v: Vec<char> = Vec::new();
        v.push(hex_char(n as u32));
        assert(v@ =~= decimal(n as nat));
        v
    } else {
        let mut v = decimal_digits(n / 10);
        v.push(hex_char((n % 10) as u32));
        v
    }
}

/// The header of a block scalar: `|` or `>`, the indentation indicator
/// (`tab_width`) when needed, then the chomping indicator.
pub open spec fn block_header(s: Seq<char>, style: ScalarStyle, tab_width: nat) -> Seq<char> {
    let b = base_header(style);
    if needs_indent_indicator(s) && b.len() > 0 {
        seq![b[0]] + decimal(tab_width) + b.skip(1)
    } else {
        b
    }
}

/// A content line of a block scalar: a line break, then the text, one
/// level deeper.
pub open spec fn indented_line(l: Seq<char>) -> DocSpec {
    DocSpec::Indent(Box::new(DocSpec::Concat(seq![DocSpec::HardLine, DocSpec::Text(l)])))
}

/// Literal block content: the non-empty lines, each on its own line.
pub open spec fn literal_parts(ls: Seq<Seq<char>>) -> Seq<DocSpec>
    decreases ls.len(),
{
    if ls.len() == 0 {
        seq![]
    } else {
        literal_parts(ls.drop_last()) + if ls.last().len() > 0 {
            seq![indented_line(ls.last())]
        } else {
            seq![]
        }
    }
}

/// `str::split('\n')`: the pieces between line feeds (an empty text gives
/// one empty piece).
pub open spec fn split_nl(s: Seq<char>) -> Seq<Seq<char>>
    decreases s.len(),
{
    let i = crate::text::nl_index(s) as int;
    if i >= s.len() {
        seq![s]
    } else {
        seq![s.take(i)] + split_nl(s.skip(i + 1))
    }
}

/// The segments of a folded scalar: the `'\n'`-separated pieces, without a
/// final empty piece.
pub open spec fn folded_segments(s: Seq<char>) -> Seq<Seq<char>> {
    let p = split_nl(s);
    if p.len() > 0 && p.last().len() == 0 {
        p.drop_last()
    } else {
        p
    }
}

/// A line that starts with a space or a tab (more indented than the block).
pub open spec fn more_indented(l: Seq<char>) -> bool {
    l.len() > 0 && (l[0] == ' ' || l[0] == '\t')
}

/// `n` hard line breaks.
pub open spec fn hard_lines(n: nat) -> Seq<DocSpec> {
    Seq::new(n, |i: int| DocSpec::HardLine)
}

/// The folded layout after the first `n` segments: the parts so far, the
/// number of empty segments since the last content segment, and that
/// segment. Between two content segments stand as many blank lines as empty
/// segments, plus one when neither is more indented.
pub open spec fn folded_state(segs: Seq<Seq<char>>, n: int) -> (Seq<DocSpec>, nat, Option<
    Seq<char>,
>)
    decreases n,
{
    if n <= 0 {
        (seq![], 0, None)
    } else {
        let st = folded_state(segs, n - 1);
        let seg = segs[n - 1];
        if seg.len() == 0 {
            (st.0, st.1 + 1, st.2)
        } else {
            let blanks: nat = match st.2 {
                Some(p) => if more_indented(p) || more_indented(seg) {
                    st.1
                } else {
                    st.1 + 1
                },
                None => 0,
            };
            (st.0 + hard_lines(blanks) + seq![indented_line(seg)], 0, Some(seg))
        }
    }
}

/// The layout of a block scalar: its header, then its content lines.
pub open spec fn block_doc(s: Seq<char>, style: ScalarStyle, tab_width: nat) -> DocSpec {
    let body = match style {
        ScalarStyle::Folded(_) => {
            let segs = folded_segments(s);
            folded_state(segs, segs.len() as int).0
        },
        _ => literal_parts(lines_of(s)),
    };
    DocSpec::Concat(seq![DocSpec::Text(block_header(s, style, tab_width))] + body)
}

fn header_chars(style: ScalarStyle) -> (r: Vec<char>)
    ensures
        r@ == base_header(style),
{
    let mut v: Vec<char> = Vec::new();
    match style {
        ScalarStyle::Literal(c) => {
            v.push('|');
            match c {
                Chomp::Strip => v.push('-'),
                Chomp::Keep => v.push('+'),
                Chomp::Clip => {},
            }
        },
        ScalarStyle::Folded(c) => {
            v.push('>');
            match c {
                Chomp::Strip => v.push('-'),
                Chomp::Keep => v.push('+'),
                Chomp::Clip => {},
            }
        },
        _ => {},
    }
    assert(v@ =~= base_header(style));
    v
}

/// The pieces of `v` between line feeds.
pub fn split_on_nl(v: &[char]) -> (r: Vec<Vec<char>>)
    ensures
        views(r@) == split_nl(v@),
{
    let mut out: Vec<Vec<char>> = Vec::new();
    let mut start: usize = 0;
    assert(v@.skip(0) =~= v@);
    assert(views(out@) =~= Seq::<Seq<char>>::empty());
    loop
        invariant
            start <= v.len(),
            split_nl(v@) == views(out@) + split_nl(v@.skip(start as int)),
        decreases v.len() - start,
    {
        let ghost rest = v@.skip(start as int);
        let mut j = start;
        while j < v.len() && v[j] != '\n'
            invariant
                start <= j <= v.len(),
                forall|k: int| start <= k < j ==> v@[k] != '\n',
            decreases v.len() - j,
        {
            j += 1;
        }
        proof {
            crate::text::lemma_nl_index(rest, (j - start) as int);
        }
        let piece = crate::text::slice_range(v, start, j);
        proof {
            assert(v@.subrange(start as int, j as int) =~= rest.take((j - start) as int));
        }
        let ghost old_out = out@;
        out.push(piece);
        proof {
            crate::text::lemma_views_push(old_out, piece);
        }
        if j < v.len() {
            proof {
                assert(rest.skip((j - start) + 1) =~= v@.skip(j + 1));
            }
            start = j + 1;
            assert(split_nl(v@) =~= views(out@) + split_nl(v@.skip(start as int)));
        } else {
            assert(rest.take((j - start) as int) =~= rest);
            assert(split_nl(v@) =~= views(out@));
            return out;
        }
    }
}

/// The first non-empty line of `ls`.
fn find_first_nonempty(ls: &Vec<Vec<char>>) -> (r: Option<usize>)
    ensures
        match r {
            Some(i) => i < ls@.len() && ls@[i as int]@.len() > 0 && first_nonempty(views(ls@))
                == Some(ls@[i as int]@),
            None => first_nonempty(views(ls@)) is None,
        },
{
    let mut i: usize = 0;
    assert(views(ls@).skip(0) =~= views(ls@));
    while i < ls.len()
        invariant
            i <= ls.len(),
            first_nonempty(views(ls@)) == first_nonempty(views(ls@).skip(i as int)),
        decreases ls.len() - i,
    {
        let ghost r = views(ls@).skip(i as int);
        assert(r[0] == ls@[i as int]@);
        if ls[i].len() > 0 {
            return Some(i);
        }
        assert(r.drop_first() =~= views(ls@).skip(i + 1));
        i += 1;
    }
    None
}

fn all_whitespace(v: &[char]) -> (r: bool)
    ensures
        r == crate::text::all_ws(v@),
{
    let mut i: usize = 0;
    while i < v.len()
        invariant
            i <= v.len(),
            forall|j: int| 0 <= j < i ==> is_ws(#[trigger] v@[j]),
        decreases v.len() - i,
    {
        if !char_is_ws(v[i]) {
            return false;
        }
        i += 1;
    }
    true
}

fn indented_line_doc(l: &Vec<char>) -> (r: Doc)
    ensures
        doc_view(r) == indented_line(l@),
{
    indent(concat2(hard_line(), text_chars(l)))
}

/// Convert a block scalar to Doc using hard lines.
///
/// The header keeps the chomping indicator (`|`, `|-`, `|+`, `>`, `>-`,
/// `>+`) and gets an indentation indicator equal to `tab_width` when the
/// first non-empty line starts with a space or is all whitespace. Literal
/// content keeps its non-empty lines; folded content keeps the blank lines
/// that its line breaks need to survive folding.
pub fn repr_block_to_doc(s: &str, style: ScalarStyle, tab_width: usize) -> (r: Doc)
    ensures
        doc_view(r) == block_doc(s@, style, tab_width as nat),
{
    let v = str_chars(s);
    let ls = split_lines(&v);
    let needs = match find_first_nonempty(&ls) {
        Some(i) => {
            let l = &ls[i];
            l[0] == ' ' || all_whitespace(l)
        },
        None => false,
    };
    let base = header_chars(style);
    let mut header: Vec<char> = Vec::new();
    if needs && base.len() > 0 {
        header.push(base[0]);
        let d = decimal_digits(tab_width);
        push_all(&mut header, &d);
        let rest = crate::text::slice_range(&base, 1, base.len());
        push_all(&mut header, &rest);
    } else {
        header = base;
    }
    assert(header@ =~= block_header(s@, style, tab_width as nat));
    let mut parts: Vec<Doc> = Vec::new();
    let h = text_chars(&header);
    parts.push(h);
    proof {
        lemma_docs_view_push(Seq::empty(), h);
        assert(Seq::<Doc>::empty().push(h) =~= parts@);
        assert(docs_view(Seq::<Doc>::empty()) =~= Seq::<DocSpec>::empty());
    }
    let ghost head = seq![DocSpec::Text(block_header(s@, style, tab_width as nat))];
    let is_folded = match style {
        ScalarStyle::Folded(_) => true,
        _ => false,
    };
    if is_folded {
        let mut segs = split_on_nl(&v);
        if segs.len() > 0 && segs[segs.len() - 1].len() == 0 {
            let ghost before = segs@;
            segs.pop();
            assert(views(segs@) =~= views(before).drop_last());
        }
        let ghost sv = views(segs@);
        assert(sv == folded_segments(s@));
        let mut pending: usize = 0;
        let mut prev: Option<usize> = None;
        let mut i: usize = 0;
        while i < segs.len()
            invariant
                i <= segs.len(),
                sv == views(segs@),
                pending <= i,
                docs_view(parts@) == head + folded_state(sv, i as int).0,
                pending == folded_state(sv, i as int).1,
                match prev {
                    Some(p) => p < i && folded_state(sv, i as int).2 == Some(sv[p as int]),
                    None => folded_state(sv, i as int).2 is None,
                },
            decreases segs.len() - i,
        {
            let seg = &segs[i];
            assert(sv[i as int] == seg@);
            if seg.len() == 0 {
                pending += 1;
            } else {
                let blanks: usize = match prev {
                    Some(p) => {
                        let pl = &segs[p];
                        let prev_more = pl.len() > 0 && (pl[0] == ' ' || pl[0] == '\t');
                        let cur_more = seg[0] == ' ' || seg[0] == '\t';
                        if prev_more || cur_more {
                            pending
                        } else {
                            pending + 1
                        }
                    },
                    None => 0,
                };
                let ghost st = folded_state(sv, i as int);
                let mut k: usize = 0;
                while k < blanks
                    invariant
                        k <= blanks,
                        docs_view(parts@) == head + st.0 + hard_lines(k as nat),
                    decreases blanks - k,
                {
                    let ghost o = parts@;
                    let hl = hard_line();
                    parts.push(hl);
                    proof {
                        lemma_docs_view_push(o, hl);
                    }
                    k += 1;
                    assert(docs_view(parts@) =~= head + st.0 + hard_lines(k as nat));
                }
                let ghost o = parts@;
                let il = indented_line_doc(seg);
                parts.push(il);
                proof {
                    lemma_docs_view_push(o, il);
                }
                assert(docs_view(parts@) =~= head + folded_state(sv, i + 1).0);
                pending = 0;
                prev = Some(i);
            }
            i += 1;
        }
    } else {
        let ghost lv = views(ls@);
        let mut i: usize = 0;
        while i < ls.len()
            invariant
                i <= ls.len(),
                lv == views(ls@),
                lv == lines_of(s@),
                docs_view(parts@) == head + literal_parts(lv.take(i as int)),
            decreases ls.len() - i,
        {
            assert(lv.take(i + 1).drop_last() =~= lv.take(i as int));
            assert(lv[i as int] == ls@[i as int]@);
            if ls[i].len() > 0 {
                let ghost o = parts@;
                let il = indented_line_doc(&ls[i]);
                parts.push(il);
                proof {
                    lemma_docs_view_push(o, il);
                }
            }
            i += 1;
            assert(docs_view(parts@) =~= head + literal_parts(lv.take(i as int)));
        }
        assert(lv.take(i as int) =~= lv);
    }
    concat(parts)
}

} // verus!
