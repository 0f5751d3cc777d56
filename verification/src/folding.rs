//! Folding ranges computed from the text of a YAML document: indentation
//! blocks, `---`-separated document sections, and runs of comment lines.
use vstd::prelude::*;

use crate::text::{
    byte_len, copy_chars, eq_lit, is_blank, lead_ws, leading_ws_count, lemma_lines_byte_len, lines_of,
    slice_range, split_lines, str_byte_len, str_chars, trim, trimmed, views,
};

verus! {

/// The kind of a folding range.
#[derive(Debug, Clone, Copy, PartialEq, Eq, Structural)]
pub enum FoldingRangeKind {
    /// A run of comment lines.
    Comment,
    /// Import statements (never produced for YAML).
    Imports,
    /// A document section between `---` separators.
    Region,
}

/// A foldable range of lines (0-based, both ends inclusive).
#[derive(Debug, Clone, Copy, PartialEq, Eq, Structural)]
pub struct FoldingRange {
    pub start_line: usize,
    pub end_line: usize,
    pub kind: Option<FoldingRangeKind>,
}

/// A line that is blank, `---` or `...` once trimmed: it neither opens nor closes a fold.
pub open spec fn is_separator_or_blank(t: Seq<char>) -> bool {
    t.len() == 0 || t == "---"@ || t == "..."@
}

/// A line counts as content: non-blank and not a document marker.
pub open spec fn content_line(l: Seq<char>) -> bool {
    !is_separator_or_blank(trim(l))
}

/// Last content line with index in `(start, before)`, or `start` when none.
pub open spec fn last_content_before(ls: Seq<Seq<char>>, start: int, before: int) -> int
    decreases before - start,
{
    if before <= start + 1 {
        start
    } else if before - 1 < ls.len() && content_line(ls[before - 1]) {
        before - 1
    } else {
        last_content_before(ls, start, before - 1)
    }
}

/// Last content line with index in `[from, before)`, if any.
pub open spec fn last_content_in(ls: Seq<Seq<char>>, from: int, before: int) -> Option<int>
    decreases before - from,
{
    if before <= from {
        None
    } else if before - 1 < ls.len() && content_line(ls[before - 1]) {
        Some(before - 1)
    } else {
        last_content_in(ls, from, before - 1)
    }
}

/// `value` (after a mapping colon) is a block scalar header such as `|`,
/// `>-`, `|2+`, possibly followed by whitespace or a comment.
pub open spec fn block_indicator(v: Seq<char>) -> bool {
    v.len() > 0 && (v[0] == '|' || v[0] == '>') && forall|i: int|
        1 <= i < v.len() ==> {
            let c = #[trigger] v[i];
            (c == '+' || c == '-' || ('0' <= c && c <= '9')) || exists|j: int|
                1 <= j <= i && (v[j] == ' ' || v[j] == '\t' || v[j] == '#')
        }
}

/// Character index of the first mapping colon (a `:` outside quotes that is
/// followed by a space, a tab or the end of the line), scanning from `i`.
pub open spec fn colon_scan(s: Seq<char>, i: int, sq: bool, dq: bool) -> Option<int>
    decreases s.len() - i,
{
    if i < 0 || i >= s.len() {
        None
    } else {
        let c = s[i];
        if c == '\'' && !dq {
            colon_scan(s, i + 1, !sq, dq)
        } else if c == '"' && !sq {
            colon_scan(s, i + 1, sq, !dq)
        } else if c == ':' && !sq && !dq && (i + 1 == s.len() || s[i + 1] == ' ' || s[i + 1]
            == '\t') {
            Some(i)
        } else {
            colon_scan(s, i + 1, sq, dq)
        }
    }
}

pub open spec fn mapping_colon(s: Seq<char>) -> Option<int> {
    colon_scan(s, 0, false, false)
}

pub proof fn lemma_colon_scan(s: Seq<char>, i: int, sq: bool, dq: bool)
    ensures
        colon_scan(s, i, sq, dq) matches Some(k) ==> i <= k < s.len() && s[k] == ':',
    decreases s.len() - i,
{
    if 0 <= i < s.len() {
        lemma_colon_scan(s, i + 1, !sq, dq);
        lemma_colon_scan(s, i + 1, sq, !dq);
        lemma_colon_scan(s, i + 1, sq, dq);
    }
}

/// A trimmed line that opens a fold: it ends with `:`, or its mapping colon
/// is followed by nothing or by a block scalar header.
pub open spec fn opens_fold(t: Seq<char>) -> bool {
    (t.len() > 0 && t.last() == ':') || match mapping_colon(t) {
        Some(k) => {
            let after = trim(t.skip(k + 1));
            after.len() == 0 || block_indicator(after)
        },
        None => false,
    }
}

/// Check if the value after a colon is a block scalar indicator.
///
/// Block scalar indicators are `|` or `>` optionally followed by
/// chomping indicators (`+`, `-`) and/or an indentation digit.
/// But NOT something like `a > b` which has content after the `>`.
pub fn is_block_scalar_indicator(value: &[char]) -> (r: bool)
    ensures
        r == block_indicator(value@),
{
    if value.len() == 0 || (value[0] != '|' && value[0] != '>') {
        return false;
    }
    let mut i: usize = 1;
    while i < value.len()
        invariant
            1 <= i <= value.len(),
            value@[0] == '|' || value@[0] == '>',
            forall|k: int|
                1 <= k < i ==> {
                    let c = #[trigger] value@[k];
                    c == '+' || c == '-' || ('0' <= c && c <= '9')
                },
        decreases value.len() - i,
    {
        let c = value[i];
        if c == '+' || c == '-' || ('0' <= c && c <= '9') {
            i += 1;
        } else if c == ' ' || c == '\t' || c == '#' {
            proof {
                assert forall|k: int| 1 <= k < value@.len() implies {
                    let c = #[trigger] value@[k];
                    (c == '+' || c == '-' || ('0' <= c && c <= '9')) || exists|j: int|
                        1 <= j <= k && (value@[j] == ' ' || value@[j] == '\t' || value@[j] == '#')
                } by {
                    if k >= i {
                        assert(1 <= i <= k);
                    }
                }
            }
            return true;
        } else {
            proof {
                assert forall|j: int| 1 <= j <= i implies !(value@[j] == ' ' || value@[j] == '\t'
                    || value@[j] == '#') by {
                    if j < i {
                        let cj = value@[j];
                        assert(cj == '+' || cj == '-' || ('0' <= cj && cj <= '9'));
                    }
                }
                let ci = value@[i as int];
                assert(!((ci == '+' || ci == '-' || ('0' <= ci && ci <= '9')) || exists|j: int|
                    1 <= j <= i && (value@[j] == ' ' || value@[j] == '\t' || value@[j] == '#')));
            }
            return false;
        }
    }
    true
}

/// Find the position of the mapping colon in a YAML line.
/// Skips colons inside quoted strings.
pub fn find_mapping_colon(line: &[char]) -> (r: Option<usize>)
    ensures
        r is Some <==> mapping_colon(line@) is Some,
        r is Some ==> r->0 as int == mapping_colon(line@)->0 && r->0 < line@.len(),
{
    let mut sq = false;
    let mut dq = false;
    let mut i: usize = 0;
    while i < line.len()
        invariant
            i <= line.len(),
            colon_scan(line@, 0, false, false) == colon_scan(line@, i as int, sq, dq),
        decreases line.len() - i,
    {
        let c = line[i];
        if c == '\'' && !dq {
            sq = !sq;
        } else if c == '"' && !sq {
            dq = !dq;
        } else if c == ':' && !sq && !dq && (i + 1 == line.len() || line[i + 1] == ' ' || line[i
            + 1] == '\t') {
            return Some(i);
        }
        i += 1;
    }
    None
}

/// Determine if a trimmed line could start a fold region.
///
/// A line starts a fold when it ends with `:` (mapping), `: |`, `: >`,
/// or similar patterns indicating children follow on subsequent lines.
pub fn starts_fold_region(t: &[char]) -> (r: bool)
    ensures
        r == opens_fold(t@),
{
    if t.len() > 0 && t[t.len() - 1] == ':' {
        return true;
    }
    match find_mapping_colon(t) {
        Some(k) => {
            let rest = slice_range(t, k + 1, t.len());
            assert(rest@ =~= t@.skip(k + 1));
            let after = trimmed(&rest);
            after.len() == 0 || is_block_scalar_indicator(&after)
        },
        None => false,
    }
}

fn is_separator_or_blank_exec(t: &[char]) -> (r: bool)
    ensures
        r == is_separator_or_blank(t@),
{
    t.len() == 0 || eq_lit(t, "---") || eq_lit(t, "...")
}

fn is_content_line(l: &[char]) -> (r: bool)
    ensures
        r == content_line(l@),
{
    let t = trimmed(l);
    !is_separator_or_blank_exec(&t)
}

/// Find the last non-blank, non-separator content line between `start` (exclusive)
/// and `before` (exclusive).
pub fn find_last_content_line(lines: &Vec<Vec<char>>, start: usize, before: usize) -> (r: usize)
    ensures
        r as int == last_content_before(views(lines@), start as int, before as int),
{
    let mut b = before;
    while b > start && b - start > 1
        invariant
            last_content_before(views(lines@), start as int, before as int) == last_content_before(
                views(lines@),
                start as int,
                b as int,
            ),
        decreases b,
    {
        if b - 1 < lines.len() && is_content_line(&lines[b - 1]) {
            return b - 1;
        }
        b -= 1;
    }
    start
}

/// Find the last content line in the range `[from, before)`.
pub fn find_last_content_line_in_range(lines: &Vec<Vec<char>>, from: usize, before: usize) -> (r:
    Option<usize>)
    ensures
        r is Some <==> last_content_in(views(lines@), from as int, before as int) is Some,
        r is Some ==> r->0 as int == last_content_in(views(lines@), from as int, before as int)->0,
{
    let mut b = before;
    while b > from
        invariant
            last_content_in(views(lines@), from as int, before as int) == last_content_in(
                views(lines@),
                from as int,
                b as int,
            ),
        decreases b,
    {
        if b - 1 < lines.len() && is_content_line(&lines[b - 1]) {
            return Some(b - 1);
        }
        b -= 1;
    }
    None
}

/// An open region on the indentation stack: `(start line, indentation)`.
pub type Region = (int, int);

/// Folds pushed so far, as `(start, end, kind)`.
pub type FoldV = (int, int, Option<FoldingRangeKind>);

/// Closing the regions whose indentation is at least `indent`, from the top
/// of the stack, at line `cur`: `(remaining stack, folds added)`.
pub open spec fn close_at_or_above(ls: Seq<Seq<char>>, stack: Seq<Region>, indent: int, cur: int) -> (
    Seq<Region>,
    Seq<FoldV>,
)
    decreases stack.len(),
{
    if stack.len() > 0 && stack.last().1 >= indent {
        let top = stack.last();
        let end = last_content_before(ls, top.0, cur);
        let (st, fs) = close_at_or_above(ls, stack.drop_last(), indent, cur);
        (st, if end > top.0 {
            seq![(top.0, end, None)] + fs
        } else {
            fs
        })
    } else {
        (stack, seq![])
    }
}

/// Byte count of the leading whitespace of `l` (`len() - trim_start().len()`).
pub open spec fn indent_of(l: Seq<char>) -> int {
    byte_len(l.take(lead_ws(l) as int)) as int
}

/// Indentation pass: `(stack, folds)` after the first `n` lines.
pub open spec fn indent_pass(ls: Seq<Seq<char>>, n: int) -> (Seq<Region>, Seq<FoldV>)
    decreases n,
{
    if n <= 0 {
        (seq![], seq![])
    } else {
        let (stack, folds) = indent_pass(ls, n - 1);
        let i = n - 1;
        let l = ls[i];
        let t = trim(l);
        if is_separator_or_blank(t) {
            (stack, folds)
        } else {
            let (st, fs) = close_at_or_above(ls, stack, indent_of(l), i);
            if t[0] == '#' {
                (st, folds + fs)
            } else if opens_fold(t) {
                (st.push((i, indent_of(l))), folds + fs)
            } else {
                (st, folds + fs)
            }
        }
    }
}

/// Folds for the regions still open at the end of the text, innermost first.
pub open spec fn close_remaining(ls: Seq<Seq<char>>, stack: Seq<Region>) -> Seq<FoldV>
    decreases stack.len(),
{
    if stack.len() == 0 {
        seq![]
    } else {
        let top = stack.last();
        let end = last_content_before(ls, top.0, ls.len() as int);
        (if end > top.0 {
            seq![(top.0, end, None)]
        } else {
            seq![]
        }) + close_remaining(ls, stack.drop_last())
    }
}

/// All indentation folds of the lines `ls`.
pub open spec fn indentation_folds(ls: Seq<Seq<char>>) -> Seq<FoldV> {
    let (stack, folds) = indent_pass(ls, ls.len() as int);
    folds + close_remaining(ls, stack)
}

pub open spec fn fold_view(f: FoldingRange) -> FoldV {
    (f.start_line as int, f.end_line as int, f.kind)
}

pub open spec fn folds_view(fs: Seq<FoldingRange>) -> Seq<FoldV> {
    fs.map_values(|f: FoldingRange| fold_view(f))
}

proof fn lemma_folds_view_push(fs: Seq<FoldingRange>, f: FoldingRange)
    ensures
        folds_view(fs.push(f)) == folds_view(fs).push(fold_view(f)),
{
    assert(folds_view(fs.push(f)) =~= folds_view(fs).push(fold_view(f)));
}

fn push_fold(ranges: &mut Vec<FoldingRange>, start: usize, end: usize, kind: Option<FoldingRangeKind>)
    ensures
        folds_view(final(ranges)@) == folds_view(old(ranges)@).push((start as int, end as int, kind)),
{
    let ghost o = ranges@;
    ranges.push(FoldingRange { start_line: start, end_line: end, kind });
    proof {
        lemma_folds_view_push(o, FoldingRange { start_line: start, end_line: end, kind });
    }
}

pub open spec fn stack_view(st: Seq<(usize, usize)>) -> Seq<Region> {
    st.map_values(|r: (usize, usize)| (r.0 as int, r.1 as int))
}

/// Close stack regions whose indentation is >= the current line's indent.
fn close_regions_at_or_above(
    stack: &mut Vec<(usize, usize)>,
    indent: usize,
    current_line: usize,
    lines: &Vec<Vec<char>>,
    ranges: &mut Vec<FoldingRange>,
)
    ensures
        stack_view(final(stack)@) == close_at_or_above(
            views(lines@),
            stack_view(old(stack)@),
            indent as int,
            current_line as int,
        ).0,
        folds_view(final(ranges)@) == folds_view(old(ranges)@) + close_at_or_above(
            views(lines@),
            stack_view(old(stack)@),
            indent as int,
            current_line as int,
        ).1,
{
    let ghost ls = views(lines@);
    let ghost st0 = stack_view(stack@);
    let ghost r0 = folds_view(ranges@);
    while stack.len() > 0 && stack[stack.len() - 1].1 >= indent
        invariant
            close_at_or_above(ls, st0, indent as int, current_line as int) == {
                let (s2, f2) = close_at_or_above(
                    ls,
                    stack_view(stack@),
                    indent as int,
                    current_line as int,
                );
                (s2, (folds_view(ranges@) + f2).skip(r0.len() as int))
            },
            r0.is_prefix_of(folds_view(ranges@)),
            ls == views(lines@),
        decreases stack.len(),
    {
        let top = stack[stack.len() - 1];
        let ghost sv = stack_view(stack@);
        let ghost fv = folds_view(ranges@);
        stack.pop();
        assert(stack_view(stack@) =~= sv.drop_last());
        let end = find_last_content_line(lines, top.0, current_line);
        if end > top.0 {
            push_fold(ranges, top.0, end, None);
        }
        proof {
            let (s2, f2) = close_at_or_above(ls, stack_view(stack@), indent as int, current_line as int);
            if end > top.0 {
                assert(fv + (seq![(top.0 as int, end as int, None::<FoldingRangeKind>)] + f2) =~= (
                fv.push((top.0 as int, end as int, None))) + f2);
            } else {
                assert(folds_view(ranges@) == fv);
            }
            assert(r0.is_prefix_of(folds_view(ranges@))) by {
                assert forall|j: int| 0 <= j < r0.len() implies r0[j] == folds_view(ranges@)[j] by {
                    assert(fv[j] == r0[j]);
                }
            }
        }
    }
    proof {
        assert((folds_view(ranges@) + Seq::<FoldV>::empty()).skip(r0.len() as int) =~= folds_view(ranges@).skip(r0.len() as int));
        assert(folds_view(ranges@) =~= r0 + folds_view(ranges@).skip(r0.len() as int));
    }
}

/// Collect folding ranges based on indentation changes.
///
/// A line that introduces deeper indentation on subsequent lines starts a
/// fold region. The region ends at the last line before indentation returns
/// to the same or lesser level.
fn collect_indentation_folds(lines: &Vec<Vec<char>>, ranges: &mut Vec<FoldingRange>)
    requires
        forall|j: int| 0 <= j < lines@.len() ==> byte_len(#[trigger] lines@[j]@) <= usize::MAX,
    ensures
        folds_view(final(ranges)@) == folds_view(old(ranges)@) + indentation_folds(views(lines@)),
{
    let ghost ls = views(lines@);
    let ghost r0 = folds_view(ranges@);
    let mut stack: Vec<(usize, usize)> = Vec::new();
    let mut i: usize = 0;
    while i < lines.len()
        invariant
            i <= lines.len(),
            ls == views(lines@),
            forall|j: int| 0 <= j < lines@.len() ==> byte_len(#[trigger] lines@[j]@) <= usize::MAX,
            stack_view(stack@) == indent_pass(ls, i as int).0,
            folds_view(ranges@) == r0 + indent_pass(ls, i as int).1,
        decreases lines.len() - i,
    {
        let line = &lines[i];
        assert(ls[i as int] == line@);
        let t = trimmed(line);
        if !is_separator_or_blank_exec(&t) {
            let lw = leading_ws_count(line);
            let indent = crate::text::byte_len_prefix(line, lw);
            let ghost fv = folds_view(ranges@);
            close_regions_at_or_above(&mut stack, indent, i, lines, ranges);
            assert(folds_view(ranges@) =~= r0 + indent_pass(ls, i + 1).1);
            if t[0] != '#' && starts_fold_region(&t) {
                let ghost sv = stack@;
                stack.push((i, indent));
                assert(stack_view(stack@) =~= stack_view(sv).push((i as int, indent as int)));
            }
        }
        i += 1;
    }
    // Close any remaining open regions at end of document.
    let total = lines.len();
    let ghost fv = folds_view(ranges@);
    let ghost full = stack_view(stack@);
    while stack.len() > 0
        invariant
            ls == views(lines@),
            total == ls.len(),
            fv + close_remaining(ls, full) == folds_view(ranges@) + close_remaining(ls, stack_view(stack@)),
        decreases stack.len(),
    {
        let top = stack[stack.len() - 1];
        let ghost sv = stack_view(stack@);
        let ghost before = folds_view(ranges@);
        stack.pop();
        assert(stack_view(stack@) =~= sv.drop_last());
        let end = find_last_content_line(lines, top.0, total);
        if end > top.0 {
            push_fold(ranges, top.0, end, None);
            assert(before + close_remaining(ls, sv) =~= folds_view(ranges@) + close_remaining(ls, stack_view(stack@)));
        } else {
            assert(before + close_remaining(ls, sv) =~= folds_view(ranges@) + close_remaining(ls, stack_view(stack@)));
        }
    }
    assert(folds_view(ranges@) =~= r0 + indentation_folds(ls));
}

/// Indices of the `---` lines among the first `n` lines.
pub open spec fn separators(ls: Seq<Seq<char>>, n: int) -> Seq<int>
    decreases n,
{
    if n <= 0 {
        seq![]
    } else {
        separators(ls, n - 1) + if trim(ls[n - 1]) == "---"@ {
            seq![n - 1]
        } else {
            seq![]
        }
    }
}

/// The region fold of the section `[from, before)` when its last content
/// line lies beyond `from`.
pub open spec fn section_fold(ls: Seq<Seq<char>>, from: int, before: int) -> Seq<FoldV> {
    match last_content_in(ls, from, before) {
        Some(e) => if e > from {
            seq![(from, e, Some(FoldingRangeKind::Region))]
        } else {
            seq![]
        },
        None => seq![],
    }
}

/// Folds of the sections between consecutive separators `seps[j-1]`, `seps[j]`
/// for `1 <= j < n`.
pub open spec fn between_folds(ls: Seq<Seq<char>>, seps: Seq<int>, n: int) -> Seq<FoldV>
    decreases n,
{
    if n <= 1 {
        seq![]
    } else {
        between_folds(ls, seps, n - 1) + if seps[n - 2] + 1 < seps[n - 1] {
            section_fold(ls, seps[n - 2] + 1, seps[n - 1])
        } else {
            seq![]
        }
    }
}

/// Region folds of the `---`-separated sections.
pub open spec fn section_folds(ls: Seq<Seq<char>>) -> Seq<FoldV> {
    let seps = separators(ls, ls.len() as int);
    if seps.len() == 0 {
        seq![]
    } else {
        (if seps[0] > 0 {
            section_fold(ls, 0, seps[0])
        } else {
            seq![]
        }) + between_folds(ls, seps, seps.len() as int) + if seps.last() + 1 < ls.len() {
            section_fold(ls, seps.last() + 1, ls.len() as int)
        } else {
            seq![]
        }
    }
}

fn push_section_fold(lines: &Vec<Vec<char>>, ranges: &mut Vec<FoldingRange>, from: usize, before: usize)
    ensures
        folds_view(final(ranges)@) == folds_view(old(ranges)@) + section_fold(
            views(lines@),
            from as int,
            before as int,
        ),
{
    match find_last_content_line_in_range(lines, from, before) {
        Some(end) => {
            if end > from {
                push_fold(ranges, from, end, Some(FoldingRangeKind::Region));
            } else {
                assert(folds_view(ranges@) =~= folds_view(ranges@) + Seq::<FoldV>::empty());
            }
        },
        None => {
            assert(folds_view(ranges@) =~= folds_view(ranges@) + Seq::<FoldV>::empty());
        },
    }
}

/// Collect folding ranges for document sections separated by `---`.
fn collect_document_section_folds(lines: &Vec<Vec<char>>, ranges: &mut Vec<FoldingRange>)
    ensures
        folds_view(final(ranges)@) == folds_view(old(ranges)@) + section_folds(views(lines@)),
{
    let ghost ls = views(lines@);
    let mut seps: Vec<usize> = Vec::new();
    let mut i: usize = 0;
    while i < lines.len()
        invariant
            i <= lines.len(),
            ls == views(lines@),
            seps@.map_values(|x: usize| x as int) == separators(ls, i as int),
            forall|j: int| 0 <= j < seps@.len() ==> #[trigger] seps@[j] < i,
        decreases lines.len() - i,
    {
        let t = trimmed(&lines[i]);
        assert(ls[i as int] == lines@[i as int]@);
        if eq_lit(&t, "---") {
            let ghost o = seps@;
            seps.push(i);
            assert(seps@.map_values(|x: usize| x as int) =~= o.map_values(|x: usize| x as int).push(i as int));
        }
        i += 1;
    }
    let ghost sp = separators(ls, ls.len() as int);
    assert(sp =~= seps@.map_values(|x: usize| x as int));
    let ghost r0 = folds_view(ranges@);
    if seps.len() == 0 {
        assert(folds_view(ranges@) =~= r0 + section_folds(ls));
        return;
    }
    if seps[0] > 0 {
        push_section_fold(lines, ranges, 0, seps[0]);
    } else {
        assert(folds_view(ranges@) =~= r0 + Seq::<FoldV>::empty());
    }
    let ghost r1 = folds_view(ranges@);
    let mut j: usize = 1;
    while j < seps.len()
        invariant
            1 <= j <= seps.len(),
            ls == views(lines@),
            sp == seps@.map_values(|x: usize| x as int),
            forall|k: int| 0 <= k < seps@.len() ==> #[trigger] seps@[k] < lines@.len(),
            folds_view(ranges@) == r1 + between_folds(ls, sp, j as int),
        decreases seps.len() - j,
    {
        let a = seps[j - 1];
        let b = seps[j];
        assert(sp[j - 1] == a as int && sp[j as int] == b as int);
        assert(seps@[j - 1] < lines@.len());
        if a < b && b - a > 1 {
            push_section_fold(lines, ranges, a + 1, b);
        }
        j += 1;
        assert(folds_view(ranges@) =~= r1 + between_folds(ls, sp, j as int));
    }
    let last = seps[seps.len() - 1];
    assert(sp.last() == last as int);
    assert(seps@[seps.len() - 1] < lines@.len());
    if last + 1 < lines.len() {
        push_section_fold(lines, ranges, last + 1, lines.len());
    }
    assert(folds_view(ranges@) =~= r0 + section_folds(ls));
}

/// A trimmed line that is a comment line.
pub open spec fn comment_line(l: Seq<char>) -> bool {
    let t = trim(l);
    t.len() > 0 && t[0] == '#'
}

/// Comment-run pass: `(open run start, folds)` after the first `n` lines.
pub open spec fn comment_pass(ls: Seq<Seq<char>>, n: int) -> (Option<int>, Seq<FoldV>)
    decreases n,
{
    if n <= 0 {
        (None, seq![])
    } else {
        let (start, folds) = comment_pass(ls, n - 1);
        let i = n - 1;
        if comment_line(ls[i]) {
            (if start is None {
                Some(i)
            } else {
                start
            }, folds)
        } else {
            (None, match start {
                Some(s) => if i - 1 > s {
                    folds.push((s, i - 1, Some(FoldingRangeKind::Comment)))
                } else {
                    folds
                },
                None => folds,
            })
        }
    }
}

/// Folds of the runs of three or more consecutive comment lines.
pub open spec fn comment_folds(ls: Seq<Seq<char>>) -> Seq<FoldV> {
    let (start, folds) = comment_pass(ls, ls.len() as int);
    match start {
        Some(s) => if ls.len() - 1 > s {
            folds.push((s, ls.len() - 1, Some(FoldingRangeKind::Comment)))
        } else {
            folds
        },
        None => folds,
    }
}

/// Collect folding ranges for consecutive comment blocks (3+ lines).
fn collect_comment_block_folds(lines: &Vec<Vec<char>>, ranges: &mut Vec<FoldingRange>)
    ensures
        folds_view(final(ranges)@) == folds_view(old(ranges)@) + comment_folds(views(lines@)),
{
    let ghost ls = views(lines@);
    let ghost r0 = folds_view(ranges@);
    let mut comment_start: Option<usize> = None;
    let mut i: usize = 0;
    while i < lines.len()
        invariant
            i <= lines.len(),
            ls == views(lines@),
            comment_start matches Some(s) ==> s < i,
            comment_pass(ls, i as int).0 == match comment_start {
                Some(s) => Some(s as int),
                None => None,
            },
            folds_view(ranges@) == r0 + comment_pass(ls, i as int).1,
        decreases lines.len() - i,
    {
        let t = trimmed(&lines[i]);
        assert(ls[i as int] == lines@[i as int]@);
        if t.len() > 0 && t[0] == '#' {
            if comment_start.is_none() {
                comment_start = Some(i);
            }
        } else {
            match comment_start {
                Some(start) => {
                    if i - 1 > start {
                        push_fold(ranges, start, i - 1, Some(FoldingRangeKind::Comment));
                    }
                },
                None => {},
            }
            comment_start = None;
        }
        i += 1;
    }
    match comment_start {
        Some(start) => {
            let end = lines.len() - 1;
            if end > start {
                push_fold(ranges, start, end, Some(FoldingRangeKind::Comment));
            }
        },
        None => {},
    }
}

/// All folding ranges of the text: indentation folds, then section folds,
/// then comment-run folds.
pub open spec fn all_folds(text: Seq<char>) -> Seq<FoldV> {
    let ls = lines_of(text);
    if ls.len() == 0 {
        seq![]
    } else {
        indentation_folds(ls) + section_folds(ls) + comment_folds(ls)
    }
}

/// Every fold ends on a later line than it starts.
pub open spec fn multi_line(fs: Seq<FoldV>) -> bool {
    forall|k: int| 0 <= k < fs.len() ==> (#[trigger] fs[k]).0 < fs[k].1
}

/// Every fold starts on a line of the text and ends on a later line of it
/// (the text has `n` lines).
pub open spec fn folds_in(fs: Seq<FoldV>, n: int) -> bool {
    forall|k: int| 0 <= k < fs.len() ==> 0 <= (#[trigger] fs[k]).0 < fs[k].1 < n
}

/// Every open region starts on a line at or after 0 and before `n`.
pub open spec fn regions_in(stack: Seq<Region>, n: int) -> bool {
    forall|k: int| 0 <= k < stack.len() ==> 0 <= (#[trigger] stack[k]).0 < n
}

proof fn lemma_folds_in_add(a: Seq<FoldV>, b: Seq<FoldV>, n: int)
    requires
        folds_in(a, n),
        folds_in(b, n),
    ensures
        folds_in(a + b, n),
{
    assert forall|k: int| 0 <= k < (a + b).len() implies 0 <= (#[trigger] (a + b)[k]).0 < (a + b)[k].1 < n by {
        if k < a.len() {
            assert((a + b)[k] == a[k]);
        } else {
            assert((a + b)[k] == b[k - a.len()]);
        }
    }
}

proof fn lemma_last_content_before(ls: Seq<Seq<char>>, start: int, before: int)
    ensures
        last_content_before(ls, start, before) == start || (start < last_content_before(ls, start, before)
            < before && last_content_before(ls, start, before) < ls.len()),
    decreases before - start,
{
    if before > start + 1 && !(before - 1 < ls.len() && content_line(ls[before - 1])) {
        lemma_last_content_before(ls, start, before - 1);
    }
}

proof fn lemma_last_content_in(ls: Seq<Seq<char>>, from: int, before: int)
    ensures
        last_content_in(ls, from, before) matches Some(e) ==> from <= e < before && e < ls.len(),
    decreases before - from,
{
    if before > from && !(before - 1 < ls.len() && content_line(ls[before - 1])) {
        lemma_last_content_in(ls, from, before - 1);
    }
}

proof fn lemma_close_in(ls: Seq<Seq<char>>, stack: Seq<Region>, indent: int, cur: int)
    requires
        regions_in(stack, ls.len() as int),
    ensures
        folds_in(close_at_or_above(ls, stack, indent, cur).1, ls.len() as int),
        regions_in(close_at_or_above(ls, stack, indent, cur).0, ls.len() as int),
        close_at_or_above(ls, stack, indent, cur).0.len() <= stack.len(),
        forall|k: int| 0 <= k < close_at_or_above(ls, stack, indent, cur).0.len() ==> #[trigger] close_at_or_above(ls, stack, indent, cur).0[k] == stack[k],
    decreases stack.len(),
{
    if stack.len() > 0 && stack.last().1 >= indent {
        let rest = stack.drop_last();
        assert forall|k: int| 0 <= k < rest.len() implies 0 <= (#[trigger] rest[k]).0 < ls.len() by {
            assert(rest[k] == stack[k]);
        }
        lemma_close_in(ls, rest, indent, cur);
        let top = stack.last();
        assert(0 <= top.0 < ls.len());
        let end = last_content_before(ls, top.0, cur);
        lemma_last_content_before(ls, top.0, cur);
        let fs = close_at_or_above(ls, rest, indent, cur).1;
        if end > top.0 {
            lemma_folds_in_add(seq![(top.0, end, None)], fs, ls.len() as int);
        }
    }
}

proof fn lemma_indent_pass_in(ls: Seq<Seq<char>>, n: int)
    requires
        n <= ls.len(),
    ensures
        folds_in(indent_pass(ls, n).1, ls.len() as int),
        regions_in(indent_pass(ls, n).0, ls.len() as int),
    decreases n,
{
    if n > 0 {
        lemma_indent_pass_in(ls, n - 1);
        let (stack, folds) = indent_pass(ls, n - 1);
        let l = ls[n - 1];
        lemma_close_in(ls, stack, indent_of(l), n - 1);
        let st = close_at_or_above(ls, stack, indent_of(l), n - 1).0;
        lemma_folds_in_add(folds, close_at_or_above(ls, stack, indent_of(l), n - 1).1, ls.len() as int);
        let pushed = st.push((n - 1, indent_of(l)));
        assert forall|k: int| 0 <= k < pushed.len() implies 0 <= (#[trigger] pushed[k]).0 < ls.len() by {
            if k < st.len() {
                assert(pushed[k] == st[k]);
            }
        }
    }
}

proof fn lemma_remaining_in(ls: Seq<Seq<char>>, stack: Seq<Region>)
    requires
        regions_in(stack, ls.len() as int),
    ensures
        folds_in(close_remaining(ls, stack), ls.len() as int),
    decreases stack.len(),
{
    if stack.len() > 0 {
        let rest = stack.drop_last();
        assert forall|k: int| 0 <= k < rest.len() implies 0 <= (#[trigger] rest[k]).0 < ls.len() by {
            assert(rest[k] == stack[k]);
        }
        lemma_remaining_in(ls, rest);
        let top = stack.last();
        let end = last_content_before(ls, top.0, ls.len() as int);
        lemma_last_content_before(ls, top.0, ls.len() as int);
        let head: Seq<FoldV> = if end > top.0 {
            seq![(top.0, end, None)]
        } else {
            seq![]
        };
        lemma_folds_in_add(head, close_remaining(ls, rest), ls.len() as int);
    }
}

proof fn lemma_section_fold_in(ls: Seq<Seq<char>>, from: int, before: int)
    requires
        0 <= from,
    ensures
        folds_in(section_fold(ls, from, before), ls.len() as int),
{
    lemma_last_content_in(ls, from, before);
}

proof fn lemma_separators_in(ls: Seq<Seq<char>>, n: int)
    requires
        n <= ls.len(),
    ensures
        forall|k: int| 0 <= k < separators(ls, n).len() ==> 0 <= #[trigger] separators(ls, n)[k] < n,
    decreases n,
{
    if n > 0 {
        lemma_separators_in(ls, n - 1);
        let a = separators(ls, n - 1);
        let b: Seq<int> = if trim(ls[n - 1]) == "---"@ { seq![n - 1] } else { seq![] };
        assert forall|k: int| 0 <= k < (a + b).len() implies 0 <= #[trigger] (a + b)[k] < n by {
            if k < a.len() {
                assert((a + b)[k] == a[k]);
            } else {
                assert((a + b)[k] == b[k - a.len()]);
            }
        }
    }
}

proof fn lemma_between_in(ls: Seq<Seq<char>>, seps: Seq<int>, n: int)
    requires
        n <= seps.len(),
        forall|k: int| 0 <= k < seps.len() ==> 0 <= #[trigger] seps[k],
    ensures
        folds_in(between_folds(ls, seps, n), ls.len() as int),
    decreases n,
{
    if n > 1 {
        lemma_between_in(ls, seps, n - 1);
        assert(0 <= seps[n - 2]);
        let tail = if seps[n - 2] + 1 < seps[n - 1] {
            section_fold(ls, seps[n - 2] + 1, seps[n - 1])
        } else {
            seq![]
        };
        lemma_section_fold_in(ls, seps[n - 2] + 1, seps[n - 1]);
        lemma_folds_in_add(between_folds(ls, seps, n - 1), tail, ls.len() as int);
    }
}

proof fn lemma_comment_pass_in(ls: Seq<Seq<char>>, n: int)
    requires
        n <= ls.len(),
    ensures
        folds_in(comment_pass(ls, n).1, ls.len() as int),
        match comment_pass(ls, n).0 {
            Some(s) => 0 <= s < n,
            None => true,
        },
    decreases n,
{
    if n > 0 {
        lemma_comment_pass_in(ls, n - 1);
        let folds = comment_pass(ls, n - 1).1;
        match comment_pass(ls, n - 1).0 {
            Some(s) => {
                if n - 2 > s {
                    lemma_folds_in_add(folds, seq![(s, n - 2, Some(FoldingRangeKind::Comment))], ls.len() as int);
                    assert(folds.push((s, n - 2, Some(FoldingRangeKind::Comment))) =~= folds + seq![(s, n - 2, Some(FoldingRangeKind::Comment))]);
                }
            },
            None => {},
        }
    }
}

/// Every folding range lies within the text and spans more than one line:
/// it starts on a line of the text and ends on a later line of it.
pub proof fn law_folds_span_lines(text: Seq<char>)
    ensures
        multi_line(all_folds(text)),
        folds_in(all_folds(text), lines_of(text).len() as int),
{
    let ls = lines_of(text);
    let n = ls.len() as int;
    if ls.len() > 0 {
        let (stack, folds) = indent_pass(ls, n);
        lemma_indent_pass_in(ls, n);
        lemma_remaining_in(ls, stack);
        lemma_folds_in_add(folds, close_remaining(ls, stack), n);
        let seps = separators(ls, n);
        lemma_separators_in(ls, n);
        if seps.len() > 0 {
            let first: Seq<FoldV> = if seps[0] > 0 {
                section_fold(ls, 0, seps[0])
            } else {
                seq![]
            };
            let last: Seq<FoldV> = if seps.last() + 1 < ls.len() {
                section_fold(ls, seps.last() + 1, n)
            } else {
                seq![]
            };
            lemma_section_fold_in(ls, 0, seps[0]);
            lemma_section_fold_in(ls, seps.last() + 1, n);
            lemma_between_in(ls, seps, seps.len() as int);
            lemma_folds_in_add(first, between_folds(ls, seps, seps.len() as int), n);
            lemma_folds_in_add(first + between_folds(ls, seps, seps.len() as int), last, n);
        }
        lemma_comment_pass_in(ls, n);
        let (start, cf) = comment_pass(ls, n);
        match start {
            Some(s) => if ls.len() - 1 > s {
                lemma_folds_in_add(cf, seq![(s, ls.len() - 1, Some(FoldingRangeKind::Comment))], n);
                assert(cf.push((s, ls.len() - 1, Some(FoldingRangeKind::Comment))) =~= cf + seq![(s, ls.len() - 1, Some(FoldingRangeKind::Comment))]);
            },
            None => {},
        }
        lemma_folds_in_add(indentation_folds(ls), section_folds(ls), n);
        lemma_folds_in_add(indentation_folds(ls) + section_folds(ls), comment_folds(ls), n);
    }
}

/// Lines `a..=b` (two or more) are a whole run of comment lines: every one
/// is a comment line, and the lines just before and after the run (where
/// there are any) are not.
pub open spec fn comment_run(ls: Seq<Seq<char>>, a: int, b: int) -> bool {
    &&& 0 <= a < b < ls.len()
    &&& forall|k: int| a <= k <= b ==> comment_line(#[trigger] ls[k])
    &&& (a == 0 || !comment_line(ls[a - 1]))
    &&& (b + 1 == ls.len() || !comment_line(ls[b + 1]))
}

/// The start of the comment run that holds the lines `x..=e` is `x` and no
/// other such start.
proof fn lemma_run_start_unique(ls: Seq<Seq<char>>, x: int, y: int, e: int)
    requires
        0 <= x <= e < ls.len(),
        0 <= y <= e,
        forall|k: int| x <= k <= e ==> comment_line(#[trigger] ls[k]),
        forall|k: int| y <= k <= e ==> comment_line(#[trigger] ls[k]),
        x == 0 || !comment_line(ls[x - 1]),
        y == 0 || !comment_line(ls[y - 1]),
    ensures
        x == y,
{
    if x < y {
        assert(comment_line(ls[y - 1]));
    } else if y < x {
        assert(comment_line(ls[x - 1]));
    }
}

proof fn lemma_comment_pass_runs(ls: Seq<Seq<char>>, n: int)
    requires
        0 <= n <= ls.len(),
    ensures
        match comment_pass(ls, n).0 {
            Some(s) => 0 <= s < n && (forall|k: int| s <= k < n ==> comment_line(#[trigger] ls[k])) && (s
                == 0 || !comment_line(ls[s - 1])),
            None => n == 0 || !comment_line(ls[n - 1]),
        },
        forall|a: int, b: int| #[trigger] comment_run(ls, a, b) && b + 1 < n ==> comment_pass(ls, n).1.contains(
            (a, b, Some(FoldingRangeKind::Comment)),
        ),
    decreases n,
{
    if n > 0 {
        lemma_comment_pass_runs(ls, n - 1);
        let (start, folds) = comment_pass(ls, n - 1);
        let i = n - 1;
        if !comment_line(ls[i]) {
            let out = comment_pass(ls, n).1;
            assert forall|a: int, b: int| #[trigger] comment_run(ls, a, b) && b + 1 < n implies out.contains(
                (a, b, Some(FoldingRangeKind::Comment)),
            ) by {
                let f = (a, b, Some(FoldingRangeKind::Comment));
                if b + 1 < n - 1 {
                    assert(folds.contains(f));
                    let k = choose|k: int| 0 <= k < folds.len() && folds[k] == f;
                    match start {
                        Some(s) => if i - 1 > s {
                            assert(out[k] == f);
                        },
                        None => {},
                    }
                } else {
                    // The run ends on line `n - 2`, so the open run is it.
                    assert(b == n - 2);
                    assert(comment_line(ls[b]));
                    match start {
                        Some(s) => {
                            lemma_run_start_unique(ls, s, a, b);
                            assert(out == folds.push(f));
                            assert(out[folds.len() as int] == f);
                        },
                        None => {},
                    }
                }
            }
        }
    }
}

/// Every whole run of two or more comment lines is folded, from its first
/// line to its last, as a comment fold, whether a non-comment line or the
/// end of the text closes it.
pub proof fn law_comment_runs_folded(text: Seq<char>, a: int, b: int)
    requires
        comment_run(lines_of(text), a, b),
    ensures
        all_folds(text).contains((a, b, Some(FoldingRangeKind::Comment))),
{
    let ls = lines_of(text);
    let n = ls.len() as int;
    let f = (a, b, Some(FoldingRangeKind::Comment));
    lemma_comment_pass_runs(ls, n);
    let (start, folds) = comment_pass(ls, n);
    let cf = comment_folds(ls);
    if b + 1 < n {
        assert(comment_run(ls, a, b));
        assert(folds.contains(f));
        let k = choose|k: int| 0 <= k < folds.len() && folds[k] == f;
        match start {
            Some(s) => if n - 1 > s {
                assert(cf[k] == f);
            },
            None => {},
        }
        assert(cf.contains(f));
    } else {
        assert(comment_line(ls[b]));
        match start {
            Some(s) => {
                lemma_run_start_unique(ls, s, a, b);
                assert(cf == folds.push(f));
                assert(cf[folds.len() as int] == f);
            },
            None => {},
        }
        assert(cf.contains(f));
    }
    let all = indentation_folds(ls) + section_folds(ls) + cf;
    let j = choose|j: int| 0 <= j < cf.len() && cf[j] == f;
    assert(all[(indentation_folds(ls) + section_folds(ls)).len() + j] == f);
    assert(all_folds(text) == all);
}

/// Compute folding ranges for the given YAML text.
///
/// Returns foldable regions for mappings, sequences, block scalars,
/// and multi-document sections. Returns an empty list for empty documents.
pub fn folding_ranges(text: &str) -> (r: Vec<FoldingRange>)
    ensures
        folds_view(r@) == all_folds(text@),
{
    let total = str_byte_len(text);
    let v = str_chars(text);
    let lines = split_lines(&v);
    let mut ranges: Vec<FoldingRange> = Vec::new();
    if lines.len() == 0 {
        assert(folds_view(ranges@) =~= Seq::<FoldV>::empty());
        return ranges;
    }
    proof {
        lemma_lines_byte_len(text@);
        assert forall|j: int| 0 <= j < lines@.len() implies byte_len(#[trigger] lines@[j]@) <= usize::MAX by {
            assert(views(lines@)[j] == lines@[j]@);
        }
    }
    assert(folds_view(ranges@) =~= Seq::<FoldV>::empty());
    collect_indentation_folds(&lines, &mut ranges);
    collect_document_section_folds(&lines, &mut ranges);
    collect_comment_block_folds(&lines, &mut ranges);
    assert(folds_view(ranges@) =~= all_folds(text@));
    ranges
}

} // verus!
