//! Text scanning for anchor (`&name`) and alias (`*name`) tokens, used by
//! go-to-definition, find-references and rename on the raw document text.
use vstd::prelude::*;

use crate::text::{
    byte_len, byte_len_prefix, eq_lit, lemma_byte_len_subrange, lines_of, slice_range, split_lines,
    str_byte_len, str_chars, string_from_chars, trim, trimmed, views,
};

verus! {

/// Check if a character is valid in a YAML anchor/alias name.
/// Valid characters: alphanumeric, `-`, `_`, `.`
pub open spec fn anchor_char(c: char) -> bool {
    ('a' <= c && c <= 'z') || ('A' <= c && c <= 'Z') || ('0' <= c && c <= '9') || c == '-' || c
        == '_' || c == '.'
}

/// Check if a character is valid in a YAML anchor/alias name.
pub fn is_anchor_name_char(ch: char) -> (r: bool)
    ensures
        r == anchor_char(ch),
{
    ('a' <= ch && ch <= 'z') || ('A' <= ch && ch <= 'Z') || ('0' <= ch && ch <= '9') || ch == '-'
        || ch == '_' || ch == '.'
}

/// End of the run of anchor-name characters starting at `i`.
pub open spec fn name_end(s: Seq<char>, i: int) -> int
    decreases s.len() - i,
{
    if 0 <= i < s.len() && anchor_char(s[i]) {
        name_end(s, i + 1)
    } else {
        i
    }
}

/// A token found on a line, in character indices:
/// `(is_anchor, index of the '&'/'*', end of the name)`.
pub type RawToken = (bool, int, int);

/// The tokens of line `s` found when scanning from index `i`.
pub open spec fn tokens_from(s: Seq<char>, i: int) -> Seq<RawToken>
    decreases s.len() - i,
{
    if i < 0 || i >= s.len() {
        seq![]
    } else if s[i] == '&' || s[i] == '*' {
        let e = name_end(s, i + 1);
        if e > i + 1 {
            proof {
                lemma_name_end(s, i + 1);
            }
            seq![(s[i] == '&', i, e)] + tokens_from(s, e)
        } else {
            tokens_from(s, i + 1)
        }
    } else {
        tokens_from(s, i + 1)
    }
}

pub proof fn lemma_name_end(s: Seq<char>, i: int)
    requires
        0 <= i,
    ensures
        i <= name_end(s, i),
        name_end(s, i) <= s.len() || name_end(s, i) == i,
        forall|k: int| i <= k < name_end(s, i) ==> anchor_char(#[trigger] s[k]),
        name_end(s, i) < s.len() ==> !anchor_char(s[name_end(s, i)]),
    decreases s.len() - i,
{
    if 0 <= i < s.len() && anchor_char(s[i]) {
        lemma_name_end(s, i + 1);
    }
}

/// A token of the document: name, 0-based line, byte columns, and whether
/// it is an anchor (`&`) rather than an alias (`*`).
#[derive(Debug, Clone)]
pub struct Token {
    pub name: String,
    pub line: u32,
    pub start_col: u32,
    pub end_col: u32,
    pub is_anchor: bool,
}

/// Mathematical content of a token: `(name, line, start byte, end byte, is_anchor)`.
pub type TokenView = (Seq<char>, int, int, int, bool);

pub open spec fn token_view(t: Token) -> TokenView {
    (t.name@, t.line as int, t.start_col as int, t.end_col as int, t.is_anchor)
}

pub open spec fn tokens_view(ts: Seq<Token>) -> Seq<TokenView> {
    ts.map_values(|t: Token| token_view(t))
}

/// The token `raw` of line `s` (line number `idx`) with positions in bytes,
/// truncated to `u32` as the editor protocol stores them.
pub open spec fn located(s: Seq<char>, idx: int, raw: RawToken) -> TokenView {
    (
        s.subrange(raw.1 + 1, raw.2),
        (idx as u32) as int,
        (byte_len(s.take(raw.1)) as u32) as int,
        (byte_len(s.take(raw.2)) as u32) as int,
        raw.0,
    )
}

/// The tokens of one line; comment lines hold none.
pub open spec fn line_tokens(s: Seq<char>, idx: int) -> Seq<TokenView> {
    let t = trim(s);
    if t.len() > 0 && t[0] == '#' {
        seq![]
    } else {
        tokens_from(s, 0).map_values(|raw: RawToken| located(s, idx, raw))
    }
}

/// The tokens of lines `start..end` (lines past the end hold none).
pub open spec fn tokens_in(ls: Seq<Seq<char>>, start: int, end: int) -> Seq<TokenView>
    decreases end - start,
{
    if end <= start {
        seq![]
    } else {
        tokens_in(ls, start, end - 1) + if end - 1 < ls.len() {
            line_tokens(ls[end - 1], end - 1)
        } else {
            seq![]
        }
    }
}

/// Scan one line for tokens, appending them to `out`.
fn scan_line(line: &Vec<char>, idx: usize, out: &mut Vec<Token>)
    requires
        byte_len(line@) <= usize::MAX,
    ensures
        tokens_view(final(out)@) == tokens_view(old(out)@) + tokens_from(line@, 0).map_values(
            |raw: RawToken| located(line@, idx as int, raw),
        ),
{
    let ghost s = line@;
    let ghost o = tokens_view(out@);
    let mut i: usize = 0;
    proof {
        lemma_byte_len_subrange(s, 0, s.len() as int);
        assert(s.subrange(0, s.len() as int) =~= s);
    }
    while i < line.len()
        invariant
            i <= line.len(),
            s == line@,
            byte_len(s) <= usize::MAX,
            o + tokens_from(s, 0).map_values(|raw: RawToken| located(s, idx as int, raw))
                == tokens_view(out@) + tokens_from(s, i as int).map_values(
                |raw: RawToken| located(s, idx as int, raw),
            ),
        decreases line.len() - i,
    {
        let ch = line[i];
        if ch == '&' || ch == '*' {
            let mut e = i + 1;
            while e < line.len() && is_anchor_name_char(line[e])
                invariant
                    i + 1 <= e <= line.len(),
                    name_end(s, i + 1) == name_end(s, e as int),
                    s == line@,
                decreases line.len() - e,
            {
                e += 1;
            }
            if e > i + 1 {
                let name = slice_range(line, i + 1, e);
                let sc = byte_len_prefix(line, i);
                let ec = byte_len_prefix(line, e);
                let tok = Token {
                    name: string_from_chars(&name),
                    line: idx as u32,
                    start_col: sc as u32,
                    end_col: ec as u32,
                    is_anchor: ch == '&',
                };
                let ghost before = out@;
                out.push(tok);
                proof {
                    assert(tokens_view(out@) =~= tokens_view(before).push(token_view(tok)));
                    assert(token_view(tok) == located(s, idx as int, (ch == '&', i as int, e as int)));
                    let rest = tokens_from(s, e as int);
                    assert(tokens_from(s, i as int) == seq![(ch == '&', i as int, e as int)] + rest);
                    assert((seq![(ch == '&', i as int, e as int)] + rest).map_values(
                        |raw: RawToken| located(s, idx as int, raw),
                    ) =~= seq![located(s, idx as int, (ch == '&', i as int, e as int))]
                        + rest.map_values(|raw: RawToken| located(s, idx as int, raw)));
                    assert(tokens_view(out@) + rest.map_values(
                        |raw: RawToken| located(s, idx as int, raw),
                    ) =~= tokens_view(before) + tokens_from(s, i as int).map_values(
                        |raw: RawToken| located(s, idx as int, raw),
                    ));
                }
                i = e;
            } else {
                i += 1;
            }
        } else {
            i += 1;
        }
    }
    assert(tokens_from(s, i as int) =~= Seq::<RawToken>::empty());
    assert(tokens_view(out@) + Seq::<RawToken>::empty().map_values(
        |raw: RawToken| located(s, idx as int, raw),
    ) =~= tokens_view(out@));
}

/// Scan lines for anchor (`&name`) and alias (`*name`) tokens within the
/// given line range. Skips comment lines.
pub fn scan_tokens(lines: &Vec<Vec<char>>, start_line: usize, end_line: usize) -> (r: Vec<Token>)
    requires
        forall|j: int| 0 <= j < lines@.len() ==> byte_len(#[trigger] lines@[j]@) <= usize::MAX,
    ensures
        tokens_view(r@) == tokens_in(views(lines@), start_line as int, end_line as int),
{
    let mut out: Vec<Token> = Vec::new();
    let mut idx = start_line;
    assert(tokens_view(out@) =~= tokens_in(views(lines@), start_line as int, start_line as int));
    while idx < end_line
        invariant
            start_line <= idx <= end_line || (end_line < start_line && idx == start_line),
            forall|j: int| 0 <= j < lines@.len() ==> byte_len(#[trigger] lines@[j]@) <= usize::MAX,
            tokens_view(out@) == tokens_in(views(lines@), start_line as int, idx as int),
        decreases end_line - idx,
    {
        let ghost pre = tokens_view(out@);
        if idx < lines.len() {
            let line = &lines[idx];
            assert(views(lines@)[idx as int] == line@);
            let t = trimmed(line);
            if !(t.len() > 0 && t[0] == '#') {
                scan_line(line, idx, &mut out);
            }
        }
        idx += 1;
        assert(tokens_view(out@) =~= tokens_in(views(lines@), start_line as int, idx as int));
    }
    if end_line < start_line {
        assert(tokens_in(views(lines@), start_line as int, end_line as int) =~= Seq::<TokenView>::empty());
        assert(tokens_view(out@) =~= Seq::<TokenView>::empty());
    }
    out
}

/// Start line of the `---`-separated document holding line `idx`: one past
/// the last separator before `idx`, or 0.
pub open spec fn doc_start(ls: Seq<Seq<char>>, idx: int) -> int
    decreases idx,
{
    if idx <= 0 {
        0
    } else if idx - 1 < ls.len() && trim(ls[idx - 1]) == "---"@ {
        idx
    } else {
        doc_start(ls, idx - 1)
    }
}

/// End line (exclusive) of the document holding line `idx`: the first
/// separator after `idx`, or the number of lines.
pub open spec fn doc_end(ls: Seq<Seq<char>>, from: int) -> int
    decreases ls.len() - from,
{
    if from >= ls.len() {
        ls.len() as int
    } else if trim(ls[from]) == "---"@ {
        from
    } else {
        doc_end(ls, from + 1)
    }
}

/// Determine the document boundaries for the YAML document containing the
/// given line. Returns `(start_line, end_line)` where end is exclusive.
/// Documents are separated by `---`.
pub fn document_range_for_line(lines: &Vec<Vec<char>>, line_idx: usize) -> (r: (usize, usize))
    ensures
        r.0 as int == doc_start(views(lines@), line_idx as int),
        r.1 as int == doc_end(views(lines@), line_idx + 1),
{
    let start = doc_start_exec(lines, line_idx);
    if line_idx >= lines.len() {
        return (start, lines.len());
    }
    let mut j = line_idx + 1;
    while j < lines.len()
        invariant
            line_idx < j <= lines.len(),
            start as int == doc_start(views(lines@), line_idx as int),
            doc_end(views(lines@), line_idx + 1) == doc_end(views(lines@), j as int),
        decreases lines.len() - j,
    {
        let t = trimmed(&lines[j]);
        assert(views(lines@)[j as int] == lines@[j as int]@);
        if eq_lit(&t, "---") {
            return (start, j);
        }
        j += 1;
    }
    (start, lines.len())
}

fn doc_start_exec(lines: &Vec<Vec<char>>, line_idx: usize) -> (r: usize)
    ensures
        r as int == doc_start(views(lines@), line_idx as int),
{
    let mut i = line_idx;
    while i > 0
        invariant
            i <= line_idx,
            doc_start(views(lines@), line_idx as int) == doc_start(views(lines@), i as int),
        decreases i,
    {
        if i - 1 < lines.len() {
            let t = trimmed(&lines[i - 1]);
            assert(views(lines@)[i - 1] == lines@[i - 1]@);
            if eq_lit(&t, "---") {
                return i;
            }
        }
        i -= 1;
    }
    0
}

/// The text split into lines, with every line's byte length bounded.
pub fn text_lines(text: &str) -> (r: Vec<Vec<char>>)
    ensures
        views(r@) == lines_of(text@),
        forall|j: int| 0 <= j < r@.len() ==> byte_len(#[trigger] r@[j]@) <= usize::MAX,
        forall|j: int| 0 <= j < r@.len() ==> byte_len(#[trigger] r@[j]@) <= byte_len(text@),
{
    let total = str_byte_len(text);
    let v = str_chars(text);
    let lines = split_lines(&v);
    proof {
        crate::text::lemma_lines_byte_len(text@);
        assert forall|j: int| 0 <= j < lines@.len() implies byte_len(#[trigger] lines@[j]@) <= byte_len(
            text@,
        ) by {
            assert(views(lines@)[j] == lines@[j]@);
        }
    }
    lines
}

} // verus!
