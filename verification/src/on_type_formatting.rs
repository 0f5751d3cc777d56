//! Indentation of a new line, computed from the text of the line above it.
use vstd::prelude::*;

use crate::folding::{find_mapping_colon, mapping_colon};
use crate::lsp::{Position, Range, TextEdit};
use crate::text::{
    byte_len, byte_len_prefix, eq_lit, is_blank, lead_ws, leading_ws_count, lemma_lines_byte_len,
    lemma_byte_len_subrange, lines_of, slice_range, spaces, spaces_vec, split_lines, str_byte_len,
    str_chars, string_from_chars, trail_ws, trim, trim_end, trim_start, trimmed, views,
};

verus! {

/// The most recent non-blank line among the lines `0..=idx` (all lines when
/// `idx` is past the end), or the empty text.
pub open spec fn prev_non_empty(ls: Seq<Seq<char>>, idx: int) -> Seq<char> {
    let n = if idx + 1 <= ls.len() {
        idx + 1
    } else {
        ls.len() as int
    };
    last_non_blank(ls, n)
}

/// The last non-blank line among the first `n` lines, or the empty text.
pub open spec fn last_non_blank(ls: Seq<Seq<char>>, n: int) -> Seq<char>
    decreases n,
{
    if n <= 0 {
        seq![]
    } else if trim(ls[n - 1]).len() > 0 {
        ls[n - 1]
    } else {
        last_non_blank(ls, n - 1)
    }
}

/// A block scalar header with at most one chomping indicator: `|`, `>`,
/// `|+`, `|-`, `>+`, `>-`.
pub open spec fn chomp_header(v: Seq<char>) -> bool {
    (v.len() == 1 || (v.len() == 2 && (v[1] == '+' || v[1] == '-'))) && (v[0] == '|' || v[0]
        == '>')
}

/// A right-trimmed line after which the next line is indented one level
/// deeper: it ends with `:`, or its mapping colon is followed by a block
/// scalar header.
pub open spec fn deepens(t: Seq<char>) -> bool {
    (t.len() > 0 && t.last() == ':') || match mapping_colon(t) {
        Some(k) => chomp_header(trim(t.skip(k + 1))),
        None => false,
    }
}

/// Indentation (in spaces) for the line after `prev_line`.
pub open spec fn next_indent(prev: Seq<char>, tab: int) -> int {
    let base = byte_len(prev.take(lead_ws(prev) as int)) as int;
    if deepens(trim_end(prev)) {
        base + tab
    } else {
        base
    }
}

/// Return `true` when the string is a block scalar indicator:
/// `|` or `>` optionally followed by chomping (`+`, `-`) only.
pub fn is_block_scalar_indicator(value: &[char]) -> (r: bool)
    ensures
        r == chomp_header(value@),
{
    if value.len() == 0 || (value[0] != '|' && value[0] != '>') {
        return false;
    }
    value.len() == 1 || (value.len() == 2 && (value[1] == '+' || value[1] == '-'))
}

/// Determine whether a line (already right-trimmed) should cause the next
/// line to be indented one level deeper.
///
/// Returns `true` for:
/// - Lines ending with `:` (mapping key expecting a block value)
/// - Lines ending with `|`, `>`, `|-`, `>-`, `|+`, `>+` (block scalars)
pub fn needs_extra_indent(trimmed_line: &[char]) -> (r: bool)
    ensures
        r == deepens(trimmed_line@),
{
    if trimmed_line.len() > 0 && trimmed_line[trimmed_line.len() - 1] == ':' {
        return true;
    }
    match find_mapping_colon(trimmed_line) {
        Some(k) => {
            let rest = slice_range(trimmed_line, k + 1, trimmed_line.len());
            assert(rest@ =~= trimmed_line@.skip(k + 1));
            let after = trimmed(&rest);
            is_block_scalar_indicator(&after)
        },
        None => false,
    }
}

/// Find the most recent non-empty line at or before `idx`.
///
/// Falls back to the empty string if all lines above are empty.
pub fn find_prev_non_empty_line(lines: &Vec<Vec<char>>, idx: usize) -> (r: Vec<char>)
    ensures
        r@ == prev_non_empty(views(lines@), idx as int),
{
    let mut n: usize = if idx < lines.len() {
        idx + 1
    } else {
        lines.len()
    };
    let ghost n0 = n as int;
    while n > 0
        invariant
            n <= lines@.len(),
            prev_non_empty(views(lines@), idx as int) == last_non_blank(views(lines@), n as int),
        decreases n,
    {
        assert(views(lines@)[n - 1] == lines@[n - 1]@);
        if !is_blank(&lines[n - 1]) {
            let r = slice_range(&lines[n - 1], 0, lines[n - 1].len());
            assert(r@ =~= lines@[n - 1]@);
            return r;
        }
        n -= 1;
    }
    Vec::new()
}

/// Count leading whitespace bytes on a line.
pub fn leading_spaces(line: &[char]) -> (n: usize)
    requires
        byte_len(line@) <= usize::MAX,
    ensures
        n == byte_len(line@.take(lead_ws(line@) as int)),
{
    let k = leading_ws_count(line);
    byte_len_prefix(line, k)
}

/// The text is a single newline character.
pub open spec fn is_newline_trigger(ch: Seq<char>) -> bool {
    ch == "\n"@
}

/// Compute text edits for on-type formatting when a newline is typed.
///
/// Returns indentation edits for the new line based on the context of the
/// previous line. Only handles `ch == "\n"` — returns an empty vec for
/// anything else.
pub fn format_on_type(text: &str, position: Position, ch: &str, tab_size: u32) -> (r: Vec<TextEdit>)
    requires
        byte_len(text@) + tab_size + 2 <= usize::MAX,
    ensures
        !is_newline_trigger(ch@) || position.line == 0 ==> r@.len() == 0,
        is_newline_trigger(ch@) && position.line > 0 ==> {
            let tab = if tab_size == 0 {
                2
            } else {
                tab_size as int
            };
            let prev = prev_non_empty(lines_of(text@), position.line - 1);
            &&& r@.len() == 1
            &&& r@[0].range == Range { start: Position { line: position.line, character: 0 }, end: position }
            &&& r@[0].new_text@ == spaces(next_indent(prev, tab) as nat)
        },
{
    let chv = str_chars(ch);
    if !eq_lit(&chv, "\n") {
        return Vec::new();
    }
    if position.line == 0 {
        return Vec::new();
    }
    let tab: usize = if tab_size == 0 {
        2
    } else {
        tab_size as usize
    };
    let total = str_byte_len(text);
    let v = str_chars(text);
    let lines = split_lines(&v);
    let prev_idx = (position.line - 1) as usize;
    let prev = find_prev_non_empty_line(&lines, prev_idx);
    proof {
        lemma_lines_byte_len(text@);
        let ls = lines_of(text@);
        let n = if prev_idx + 1 <= ls.len() { prev_idx + 1 } else { ls.len() as int };
        lemma_last_non_blank_is_line(ls, n);
        crate::text::lemma_lead_ws_bound(prev@);
        lemma_byte_len_subrange(prev@, 0, lead_ws(prev@) as int);
        assert(prev@.subrange(0, lead_ws(prev@) as int) =~= prev@.take(lead_ws(prev@) as int));
    }
    let prev_indent = leading_spaces(&prev);
    let (lo, hi) = trim_end_bounds(&prev);
    let prev_trimmed = slice_range(&prev, 0, hi);
    let indent_level = if needs_extra_indent(&prev_trimmed) {
        prev_indent + tab
    } else {
        prev_indent
    };
    let sp = spaces_vec(indent_level);
    let mut out: Vec<TextEdit> = Vec::new();
    out.push(
        TextEdit {
            range: Range { start: Position { line: position.line, character: 0 }, end: position },
            new_text: string_from_chars(&sp),
        },
    );
    out
}

/// End of `trim_end(v)` inside `v`.
fn trim_end_bounds(v: &[char]) -> (r: (usize, usize))
    ensures
        r.1 <= v@.len(),
        v@.take(r.1 as int) == trim_end(v@),
{
    let mut hi: usize = v.len();
    while hi > 0 && crate::text::char_is_ws(v[hi - 1])
        invariant
            hi <= v.len(),
            forall|i: int| hi <= i < v.len() ==> crate::text::is_ws(#[trigger] v@[i]),
        decreases hi,
    {
        hi -= 1;
    }
    proof {
        crate::text::lemma_trail_ws_char(v@, (v.len() - hi) as int);
    }
    (0, hi)
}

proof fn lemma_last_non_blank_is_line(ls: Seq<Seq<char>>, n: int)
    requires
        0 <= n <= ls.len(),
    ensures
        last_non_blank(ls, n).len() == 0 || exists|j: int| 0 <= j < n && last_non_blank(ls, n)
            == ls[j],
    decreases n,
{
    if n > 0 && trim(ls[n - 1]).len() == 0 {
        lemma_last_non_blank_is_line(ls, n - 1);
    }
}


/// A character a plain mapping key may hold here: no whitespace, colon or
/// quote.
pub open spec fn plain_key_char(c: char) -> bool {
    !crate::text::is_ws(c) && c != ':' && c != '\'' && c != '"'
}

proof fn lemma_spaces_lead(w: nat, rest: Seq<char>)
    requires
        rest.len() > 0,
        !crate::text::is_ws(rest[0]),
    ensures
        lead_ws(spaces(w) + rest) == w,
        byte_len(spaces(w)) == w,
    decreases w,
{
    if w == 0 {
        assert(spaces(0) + rest =~= rest);
    } else {
        lemma_spaces_lead((w - 1) as nat, rest);
        assert((spaces(w) + rest).drop_first() =~= spaces((w - 1) as nat) + rest);
        assert(spaces(w).drop_first() =~= spaces((w - 1) as nat));
    }
}

proof fn lemma_colon_scan_skip(s: Seq<char>, i: int, j: int)
    requires
        0 <= i <= j <= s.len(),
        forall|k: int| i <= k < j ==> s[k] != ':' && s[k] != '\'' && s[k] != '"',
    ensures
        crate::folding::colon_scan(s, i, false, false) == crate::folding::colon_scan(s, j, false, false),
    decreases j - i,
{
    if i < j {
        lemma_colon_scan_skip(s, i + 1, j);
    }
}

/// After a line `key: |` or `key: >` (with an optional chomping indicator
/// `+`/`-`), the new line is indented one level deeper than that line:
/// the line's indentation plus the tab size.
pub proof fn law_block_scalar_header_indents(w: nat, key: Seq<char>, ind: char, chomp: Seq<char>, tab: int)
    requires
        key.len() > 0,
        forall|k: int| 0 <= k < key.len() ==> plain_key_char(#[trigger] key[k]),
        ind == '|' || ind == '>',
        chomp == Seq::<char>::empty() || chomp == seq!['+'] || chomp == seq!['-'],
    ensures
        next_indent(spaces(w) + key + seq![':', ' ', ind] + chomp, tab) == w + tab,
{
    let rest = key + seq![':', ' ', ind] + chomp;
    let p = spaces(w) + rest;
    assert(p =~= spaces(w) + key + seq![':', ' ', ind] + chomp);
    assert(rest[0] == key[0]);
    lemma_spaces_lead(w, rest);
    assert(p.take(w as int) =~= spaces(w));
    // No trailing whitespace: the line ends with the indicator or chomping sign.
    assert(!crate::text::is_ws(p.last()));
    assert(trail_ws(p) == 0);
    assert(trim_end(p) =~= p);
    // The mapping colon follows the key.
    let k: int = (w + key.len()) as int;
    assert forall|m: int| 0 <= m < k implies p[m] != ':' && p[m] != '\'' && p[m] != '"' by {
        if m < w {
            assert(p[m] == ' ');
        } else {
            assert(p[m] == key[m - w]);
        }
    }
    assert(p[k] == ':' && p[k + 1] == ' ');
    lemma_colon_scan_skip(p, 0, k);
    assert(mapping_colon(p) == Some(k));
    let after = p.skip(k + 1);
    assert(after =~= seq![' ', ind] + chomp);
    let hd = seq![ind] + chomp;
    assert(lead_ws(after) == 1) by {
        assert(after.drop_first() =~= hd);
        assert(lead_ws(hd) == 0);
    }
    assert(trim_start(after) =~= hd);
    assert(!crate::text::is_ws(hd.last()));
    assert(trail_ws(hd) == 0);
    assert(trim(after) =~= hd);
    assert(chomp_header(hd));
    assert(deepens(p));
}

} // verus!
