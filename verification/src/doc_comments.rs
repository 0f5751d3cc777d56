//! Document-prefix comments and blank lines: the parts of a YAML text that
//! the syntax tree does not carry, recovered from the raw text and put back
//! into the formatted output.
use vstd::prelude::*;

use crate::comments::{comment_index, comment_start, signature, signature_of};
use crate::formatter::indented_leads;
use crate::text::{
    byte_len, byte_len_prefix, chars_eq, copy_chars, ensure_nl, ensure_trailing_nl, is_blank,
    join_lines, join_nl, lead_ws, leading_ws_count, lemma_lines_byte_len, lemma_views_push,
    lines_of, push_all, slice_range, spaces, spaces_vec, split_lines, str_byte_len, str_chars,
    string_from_chars, trim, trim_start, trimmed, views,
};

verus! {

/// A document-prefix comment: a comment line before the first content line.
#[derive(Debug)]
pub struct PrefixComment {
    /// 0-based line number in the original text.
    pub line: usize,
    /// The comment text including `#`.
    pub text: String,
}

pub open spec fn prefix_view(c: PrefixComment) -> (int, Seq<char>) {
    (c.line as int, c.text@)
}

pub open spec fn prefixes_view(cs: Seq<PrefixComment>) -> Seq<(int, Seq<char>)> {
    cs.map_values(|c: PrefixComment| prefix_view(c))
}

/// The prefix comments among the first `n` lines, and whether the scan has
/// stopped at a content line.
pub open spec fn prefix_scan(ls: Seq<Seq<char>>, n: int) -> (Seq<(int, Seq<char>)>, bool)
    decreases n,
{
    if n <= 0 {
        (seq![], false)
    } else {
        let st = prefix_scan(ls, n - 1);
        let l = ls[n - 1];
        if st.1 || trim(l).len() == 0 {
            st
        } else {
            match comment_start(l) {
                Some(k) => if trim(l.take(k)).len() == 0 {
                    (st.0.push((n - 1, l.skip(k))), false)
                } else {
                    (st.0, true)
                },
                None => (st.0, true),
            }
        }
    }
}

/// The comments on their own lines before the first content line.
pub open spec fn doc_prefix_comments(text: Seq<char>) -> Seq<(int, Seq<char>)> {
    prefix_scan(lines_of(text), lines_of(text).len() as int).0
}

/// Extract only the leading comments that appear before the first content
/// line in the input. Blank lines are skipped; scanning stops at the first
/// line that is neither blank nor a comment line.
pub fn extract_doc_prefix_comments(text: &str) -> (r: Vec<PrefixComment>)
    ensures
        prefixes_view(r@) == doc_prefix_comments(text@),
{
    let v = str_chars(text);
    let ls = split_lines(&v);
    let mut out: Vec<PrefixComment> = Vec::new();
    let mut i: usize = 0;
    let mut stopped = false;
    while i < ls.len() && !stopped
        invariant
            i <= ls.len(),
            views(ls@) == lines_of(text@),
            prefixes_view(out@) == prefix_scan(lines_of(text@), i as int).0,
            !prefix_scan(lines_of(text@), i as int).1,
            stopped ==> i < ls@.len() && {
                let l = lines_of(text@)[i as int];
                trim(l).len() != 0 && match comment_start(l) {
                    Some(k) => trim(l.take(k)).len() != 0,
                    None => true,
                }
            },
        decreases ls.len() - i, if stopped { 0int } else { 1int },
    {
        let l = &ls[i];
        assert(l@ == lines_of(text@)[i as int]);
        if is_blank(l.as_slice()) {
            i += 1;
        } else {
            match comment_index(l.as_slice()) {
                Some(k) => {
                    let before = slice_range(l.as_slice(), 0, k);
                    assert(before@ =~= l@.take(k as int));
                    if is_blank(before.as_slice()) {
                        let t = slice_range(l.as_slice(), k, l.len());
                        assert(t@ =~= l@.skip(k as int));
                        let c = PrefixComment { line: i, text: string_from_chars(&t) };
                        let ghost o = out@;
                        out.push(c);
                        assert(prefixes_view(out@) =~= prefixes_view(o).push(prefix_view(c)));
                        i += 1;
                    } else {
                        stopped = true;
                    }
                },
                None => {
                    stopped = true;
                },
            }
        }
    }
    proof {
        lemma_prefix_scan_stopped(lines_of(text@), i as int, lines_of(text@).len() as int);
    }
    out
}

/// Once the scan has stopped, later lines change nothing.
pub proof fn lemma_prefix_scan_stopped(ls: Seq<Seq<char>>, i: int, n: int)
    requires
        0 <= i <= n,
        i < n ==> {
            let l = ls[i];
            trim(l).len() != 0 && match comment_start(l) {
                Some(k) => trim(l.take(k)).len() != 0,
                None => true,
            }
        },
        !prefix_scan(ls, i).1,
    ensures
        prefix_scan(ls, n).0 == prefix_scan(ls, i).0,
    decreases n - i,
{
    if i < n {
        lemma_prefix_scan_stopped_from(ls, i + 1, n);
    }
}

proof fn lemma_prefix_scan_stopped_from(ls: Seq<Seq<char>>, i: int, n: int)
    requires
        1 <= i <= n,
        prefix_scan(ls, i).1,
    ensures
        prefix_scan(ls, n) == prefix_scan(ls, i),
    decreases n - i,
{
    if i < n {
        lemma_prefix_scan_stopped_from(ls, i + 1, n);
    }
}

/// The text of the prefix comment on line `idx` (the last one given for
/// that line).
pub open spec fn comment_at(cs: Seq<(int, Seq<char>)>, idx: int) -> Option<Seq<char>>
    decreases cs.len(),
{
    if cs.len() == 0 {
        None
    } else if cs.last().0 == idx {
        Some(cs.last().1)
    } else {
        comment_at(cs.drop_last(), idx)
    }
}

fn find_prefix_comment(cs: &[PrefixComment], idx: usize) -> (r: Option<usize>)
    ensures
        match r {
            Some(j) => j < cs@.len() && comment_at(prefixes_view(cs@), idx as int) == Some(cs@[j as int].text@),
            None => comment_at(prefixes_view(cs@), idx as int) is None,
        },
{
    let mut j = cs.len();
    assert(cs@.take(j as int) =~= cs@);
    while j > 0
        invariant
            j <= cs.len(),
            comment_at(prefixes_view(cs@), idx as int) == comment_at(prefixes_view(cs@.take(j as int)), idx as int),
        decreases j,
    {
        let ghost t = prefixes_view(cs@.take(j as int));
        assert(t.drop_last() =~= prefixes_view(cs@.take(j - 1)));
        if cs[j - 1].line == idx {
            return Some(j - 1);
        }
        j -= 1;
    }
    assert(prefixes_view(cs@.take(0)) =~= Seq::<(int, Seq<char>)>::empty());
    None
}

/// The line is YAML content for the end-of-file test: not blank, and not a
/// standalone comment unless it is one of the prefix comments.
pub open spec fn content_line(l: Seq<char>, idx: int, cs: Seq<(int, Seq<char>)>) -> bool {
    trim(l).len() != 0 && (!(trim_start(l).len() > 0 && trim_start(l)[0] == '#') || comment_at(cs, idx) is Some)
}

/// The index of the last content line among the first `n` lines.
pub open spec fn last_content_in(ls: Seq<Seq<char>>, n: int, cs: Seq<(int, Seq<char>)>) -> Option<int>
    decreases n,
{
    if n <= 0 {
        None
    } else if content_line(ls[n - 1], n - 1, cs) {
        Some(n - 1)
    } else {
        last_content_in(ls, n - 1, cs)
    }
}

/// The last content line of the text, combined with the hint from the
/// syntax tree: the later of the two.
pub open spec fn last_content(ls: Seq<Seq<char>>, cs: Seq<(int, Seq<char>)>, hint: Option<int>) -> Option<int> {
    match (last_content_in(ls, ls.len() as int, cs), hint) {
        (Some(t), Some(h)) => Some(if t >= h { t } else { h }),
        (Some(t), None) => Some(t),
        (None, h) => h,
    }
}

/// A content entry of the original text: its signature, whether a blank
/// line preceded it (0 or 1), and the comment lines attached before it.
pub type ContentEntry = (Seq<char>, nat, Seq<Seq<char>>);

/// The first pass: `(entries, pending comment lines, pending blank lines,
/// no entry yet)`.
pub type PassState = (Seq<ContentEntry>, Seq<Seq<char>>, nat, bool);

/// `pending`, with an empty separator line first when blank lines came
/// before.
pub open spec fn with_gap(pending: Seq<Seq<char>>, blanks: nat) -> Seq<Seq<char>> {
    if blanks > 0 {
        pending.push(seq![])
    } else {
        pending
    }
}

pub open spec fn pass_step(st: PassState, l: Seq<char>, idx: int, cs: Seq<(int, Seq<char>)>, last: Option<int>) -> PassState {
    let (es, pending, blanks, first) = st;
    match comment_at(cs, idx) {
        Some(t) => (es, with_gap(pending, blanks).push(t), 0, first),
        None => if l.len() == 0 {
            (es, pending, blanks + 1, first)
        } else if trim_start(l).len() > 0 && trim_start(l)[0] == '#' && (last matches Some(m) && idx > m) {
            (es, with_gap(pending, blanks).push(trim(l)), 0, first)
        } else {
            (es.push((signature(l), if first { 0 } else if blanks > 0 { 1 } else { 0 }, pending)), seq![], 0, false)
        },
    }
}

pub open spec fn pass_after(ls: Seq<Seq<char>>, n: int, cs: Seq<(int, Seq<char>)>, last: Option<int>) -> PassState
    decreases n,
{
    if n <= 0 {
        (seq![], seq![], 0, true)
    } else {
        pass_step(pass_after(ls, n - 1, cs, last), ls[n - 1], n - 1, cs, last)
    }
}

/// From entry `j`, skip entries with empty signatures: the next entry with
/// a signature, and whether any skipped entry had a blank line before it.
pub open spec fn skip_empty(es: Seq<ContentEntry>, j: int) -> (int, nat)
    decreases es.len() - j,
{
    if 0 <= j < es.len() && es[j].0.len() == 0 {
        let r = skip_empty(es, j + 1);
        (r.0, if es[j].1 > r.1 { es[j].1 } else { r.1 })
    } else {
        (j, 0)
    }
}

/// The second pass: `(lines emitted, next entry)` after the first `n`
/// formatted lines.
pub open spec fn emit_state(fs: Seq<Seq<char>>, n: int, es: Seq<ContentEntry>) -> (Seq<Seq<char>>, int)
    decreases n,
{
    if n <= 0 {
        (seq![], 0)
    } else {
        let (out, j) = emit_state(fs, n - 1, es);
        let f = fs[n - 1];
        if signature(f).len() == 0 {
            if 0 <= j < es.len() && es[j].0.len() == 0 {
                (if es[j].1 > 0 { out.push(seq![]) } else { out }.push(f), j + 1)
            } else {
                (out.push(f), j)
            }
        } else {
            let (j2, carried) = skip_empty(es, j);
            if 0 <= j2 < es.len() && es[j2].0 == signature(f) {
                let ind = spaces(byte_len(f.take(lead_ws(f) as int)));
                let last_blank = out.len() > 0 && out.last().len() == 0;
                let pre = if (es[j2].1 > 0 || carried > 0) && !last_blank {
                    out.push(seq![])
                } else {
                    out
                };
                ((pre + indented_leads(es[j2].2, ind)).push(f), j2 + 1)
            } else {
                (out.push(f), j2)
            }
        }
    }
}

/// The formatted text with the original's prefix comments, end-of-file
/// comments and blank-line separators put back.
pub open spec fn reattached(original: Seq<char>, formatted: Seq<char>, cs: Seq<(int, Seq<char>)>, hint: Option<int>) -> Seq<char> {
    let ls = lines_of(original);
    let p = pass_after(ls, ls.len() as int, cs, last_content(ls, cs, hint));
    let fl = lines_of(formatted);
    ensure_nl(join_nl(emit_state(fl, fl.len() as int, p.0).0 + p.1))
}

/// `m` places the lines `a` in `b`, in order: `b[m[i]] == a[i]` with `m`
/// strictly increasing.
pub open spec fn placed_in_order(a: Seq<Seq<char>>, b: Seq<Seq<char>>, m: Seq<int>) -> bool {
    &&& m.len() == a.len()
    &&& forall|i: int| 0 <= i < m.len() ==> 0 <= #[trigger] m[i] < b.len() && b[m[i]] == a[i]
    &&& forall|i: int, j: int| 0 <= i < j < m.len() ==> #[trigger] m[i] < #[trigger] m[j]
}

/// The second pass keeps every formatted line, in order, and only adds
/// lines before them.
proof fn lemma_emit_keeps(fs: Seq<Seq<char>>, n: int, es: Seq<ContentEntry>) -> (m: Seq<int>)
    requires
        0 <= n <= fs.len(),
    ensures
        placed_in_order(fs.take(n), emit_state(fs, n, es).0, m),
    decreases n,
{
    if n <= 0 {
        assert(fs.take(0) =~= Seq::<Seq<char>>::empty());
        Seq::empty()
    } else {
        let m0 = lemma_emit_keeps(fs, n - 1, es);
        let out0 = emit_state(fs, n - 1, es).0;
        let out = emit_state(fs, n, es).0;
        let f = fs[n - 1];
        // `out` is `out0`, then some added lines, then `f`.
        assert(out.len() >= out0.len() + 1);
        assert(out.last() == f);
        assert(out.subrange(0, out0.len() as int) =~= out0) by {
            let j = emit_state(fs, n - 1, es).1;
            if signature(f).len() != 0 {
                let (j2, carried) = skip_empty(es, j);
                if 0 <= j2 < es.len() && es[j2].0 == signature(f) {
                    let ind = spaces(byte_len(f.take(lead_ws(f) as int)));
                    let last_blank = out0.len() > 0 && out0.last().len() == 0;
                    let pre = if (es[j2].1 > 0 || carried > 0) && !last_blank {
                        out0.push(seq![])
                    } else {
                        out0
                    };
                    assert(out == (pre + indented_leads(es[j2].2, ind)).push(f));
                }
            }
        }
        let m = m0.push(out.len() - 1);
        assert(fs.take(n) =~= fs.take(n - 1).push(f));
        assert forall|i: int| 0 <= i < m.len() implies 0 <= #[trigger] m[i] < out.len() && out[m[i]] == fs.take(n)[i] by {
            if i < m0.len() {
                assert(out[m0[i]] == out.subrange(0, out0.len() as int)[m0[i]]);
            }
        }
        m
    }
}

/// The comment lines that come after the last content line of `original`.
pub open spec fn trailing_comments(original: Seq<char>, cs: Seq<(int, Seq<char>)>, hint: Option<int>) -> Seq<Seq<char>> {
    let ls = lines_of(original);
    pass_after(ls, ls.len() as int, cs, last_content(ls, cs, hint)).1
}

/// Re-attaching prefix comments never loses or reorders a formatted line:
/// the result is a sequence of lines, joined and ended with a newline, in
/// which the formatted text's lines appear in their order, and which ends
/// with the comment lines that came after the last content line.
pub proof fn law_reattached_keeps_formatted_lines(
    original: Seq<char>,
    formatted: Seq<char>,
    cs: Seq<(int, Seq<char>)>,
    hint: Option<int>,
)
    ensures
        exists|out: Seq<Seq<char>>, m: Seq<int>|
            #![trigger placed_in_order(lines_of(formatted), out, m)]
            {
                &&& reattached(original, formatted, cs, hint) == ensure_nl(join_nl(out))
                &&& placed_in_order(lines_of(formatted), out, m)
                &&& out.len() >= trailing_comments(original, cs, hint).len()
                &&& out.skip(out.len() - trailing_comments(original, cs, hint).len())
                    == trailing_comments(original, cs, hint)
            },
{
    let ls = lines_of(original);
    let p = pass_after(ls, ls.len() as int, cs, last_content(ls, cs, hint));
    let fl = lines_of(formatted);
    let emitted = emit_state(fl, fl.len() as int, p.0).0;
    let m = lemma_emit_keeps(fl, fl.len() as int, p.0);
    assert(fl.take(fl.len() as int) =~= fl);
    let out = emitted + p.1;
    assert(out.skip(out.len() - p.1.len()) =~= p.1);
    assert forall|i: int| 0 <= i < m.len() implies 0 <= #[trigger] m[i] < out.len() && out[m[i]] == fl[i] by {
        assert(out[m[i]] == emitted[m[i]]);
    }
    assert(placed_in_order(fl, out, m));
}

/// The index of the last content line among the lines `ls`: a non-blank
/// line that is not a comment line, or that holds a prefix comment.
fn last_content_in_lines(ls: &Vec<Vec<char>>, cs: &[PrefixComment]) -> (r: Option<usize>)
    ensures
        match r {
            Some(x) => last_content_in(views(ls@), views(ls@).len() as int, prefixes_view(cs@)) == Some(x as int),
            None => last_content_in(views(ls@), views(ls@).len() as int, prefixes_view(cs@)) is None,
        },
{
    let ghost lv = views(ls@);
    let ghost cv = prefixes_view(cs@);
    let mut i = ls.len();
    let mut found: Option<usize> = None;
    while i > 0 && found.is_none()
        invariant
            i <= ls.len(),
            lv == views(ls@),
            cv == prefixes_view(cs@),
            found is None ==> last_content_in(lv, lv.len() as int, cv) == last_content_in(lv, i as int, cv),
            found matches Some(x) ==> last_content_in(lv, lv.len() as int, cv) == Some(x as int),
        decreases i,
    {
        let l = &ls[i - 1];
        assert(lv[i - 1] == l@);
        let t = trimmed(l.as_slice());
        let lw = leading_ws_count(l.as_slice());
        let starts_hash = lw < l.len() && l[lw] == '#';
        let is_content = t.len() != 0 && (!starts_hash || find_prefix_comment(cs, i - 1).is_some());
        if is_content {
            found = Some(i - 1);
        }
        i -= 1;
    }
    found
}

/// The index of the last content line of `original`: the last non-blank
/// line that is not a comment line, or that holds one of `comments`.
pub fn last_content_line_idx(original: &str, comments: &[PrefixComment]) -> (r: Option<usize>)
    ensures
        match r {
            Some(x) => last_content_in(lines_of(original@), lines_of(original@).len() as int, prefixes_view(comments@)) == Some(x as int),
            None => last_content_in(lines_of(original@), lines_of(original@).len() as int, prefixes_view(comments@)) is None,
        },
{
    let ov = str_chars(original);
    let ol = split_lines(&ov);
    last_content_in_lines(&ol, comments)
}

/// The last content line index, combining the text scan with the hint.
fn last_content_idx(ls: &Vec<Vec<char>>, cs: &[PrefixComment], hint: Option<usize>) -> (r: Option<usize>)
    ensures
        match r {
            Some(x) => last_content(views(ls@), prefixes_view(cs@), match hint { Some(h) => Some(h as int), None => None }) == Some(x as int),
            None => last_content(views(ls@), prefixes_view(cs@), match hint { Some(h) => Some(h as int), None => None }) is None,
        },
{
    match (last_content_in_lines(ls, cs), hint) {
        (Some(t), Some(h)) => Some(if t >= h { t } else { h }),
        (Some(t), None) => Some(t),
        (None, h) => h,
    }
}

/// The entries held by the parallel vectors of the first pass.
pub open spec fn entries_of(sigs: Seq<Vec<char>>, blanks: Seq<usize>, leads: Seq<Vec<Vec<char>>>) -> Seq<ContentEntry> {
    Seq::new(sigs.len(), |i: int| (sigs[i]@, blanks[i] as nat, views(leads[i]@)))
}

pub open spec fn opt_usize(o: Option<usize>) -> Option<int> {
    match o {
        Some(h) => Some(h as int),
        None => None,
    }
}

pub open spec fn max_nat(a: nat, b: nat) -> nat {
    if a >= b {
        a
    } else {
        b
    }
}

/// Attach document-prefix leading comments and blank lines back to the
/// formatted output.
///
/// The original's content lines become entries (with the blank line and the
/// prefix comments before them); a formatted line whose signature matches
/// the next entry gets that blank line and those comments, indented like
/// it. Comment lines after the last content line (the later of the text
/// scan and `last_content_hint`) are appended at the end.
pub fn attach_comments(original: &str, formatted: &str, comments: &[PrefixComment], last_content_hint: Option<usize>) -> (r: String)
    ensures
        r@ == reattached(original@, formatted@, prefixes_view(comments@), opt_usize(last_content_hint)),
{
    let ghost cs = prefixes_view(comments@);
    let ov = str_chars(original);
    let ol = split_lines(&ov);
    let ghost olv = lines_of(original@);
    let last = last_content_idx(&ol, comments, last_content_hint);
    let ghost lastv = last_content(olv, cs, opt_usize(last_content_hint));
    let mut sigs: Vec<Vec<char>> = Vec::new();
    let mut blank_marks: Vec<usize> = Vec::new();
    let mut leads: Vec<Vec<Vec<char>>> = Vec::new();
    let mut pending: Vec<Vec<char>> = Vec::new();
    let mut pb: usize = 0;
    let mut first = true;
    let mut i: usize = 0;
    while i < ol.len()
        invariant
            i <= ol.len(),
            views(ol@) == olv,
            olv == lines_of(original@),
            cs == prefixes_view(comments@),
            opt_usize(last) == lastv,
            sigs@.len() == blank_marks@.len() == leads@.len(),
            entries_of(sigs@, blank_marks@, leads@) == pass_after(olv, i as int, cs, lastv).0,
            views(pending@) == pass_after(olv, i as int, cs, lastv).1,
            pb as nat == pass_after(olv, i as int, cs, lastv).2,
            first == pass_after(olv, i as int, cs, lastv).3,
            pb <= i,
        decreases ol.len() - i,
    {
        let l = &ol[i];
        assert(l@ == olv[i as int]);
        let ghost pre_e = entries_of(sigs@, blank_marks@, leads@);
        let ghost pre_p = views(pending@);
        match find_prefix_comment(comments, i) {
            Some(j) => {
                if pb > 0 {
                    pending.push(Vec::new());
                }
                pb = 0;
                pending.push(str_chars(comments[j].text.as_str()));
                assert(views(pending@) =~= pass_after(olv, i + 1, cs, lastv).1);
            },
            None => {
                let lw = leading_ws_count(l.as_slice());
                let hash = lw < l.len() && l[lw] == '#';
                let after_last = match last {
                    Some(m) => i > m,
                    None => false,
                };
                proof {
                    assert(trim_start(l@) == l@.skip(lw as int));
                }
                if l.len() == 0 {
                    pb = pb + 1;
                } else if hash && after_last {
                    if pb > 0 {
                        pending.push(Vec::new());
                    }
                    pb = 0;
                    pending.push(trimmed(l.as_slice()));
                    assert(views(pending@) =~= pass_after(olv, i + 1, cs, lastv).1);
                } else {
                    let mark: usize = if first {
                        0
                    } else if pb > 0 {
                        1
                    } else {
                        0
                    };
                    sigs.push(signature_of(l.as_slice()));
                    blank_marks.push(mark);
                    leads.push(pending);
                    pending = Vec::new();
                    pb = 0;
                    first = false;
                    assert(entries_of(sigs@, blank_marks@, leads@) =~= pre_e.push(
                        (signature(l@), mark as nat, pre_p),
                    ));
                    assert(views(pending@) =~= Seq::<Seq<char>>::empty());
                }
            },
        }
        i += 1;
    }
    let ghost es = entries_of(sigs@, blank_marks@, leads@);
    // Second pass: walk the formatted output.
    let fv = str_chars(formatted);
    let fl = split_lines(&fv);
    let ghost flv = lines_of(formatted@);
    let mut out: Vec<Vec<char>> = Vec::new();
    let mut j: usize = 0;
    let mut n: usize = 0;
    let total = str_byte_len(formatted);
    proof {
        lemma_lines_byte_len(formatted@);
    }
    while n < fl.len()
        invariant
            n <= fl.len(),
            total == byte_len(formatted@),
            forall|q: int| 0 <= q < flv.len() ==> byte_len(#[trigger] flv[q]) <= byte_len(formatted@),
            views(fl@) == flv,
            flv == lines_of(formatted@),
            sigs@.len() == blank_marks@.len() == leads@.len(),
            es == entries_of(sigs@, blank_marks@, leads@),
            views(out@) == emit_state(flv, n as int, es).0,
            j as int == emit_state(flv, n as int, es).1,
            j <= sigs@.len(),
        decreases fl.len() - n,
    {
        let f = &fl[n];
        assert(f@ == flv[n as int]);
        let sig = signature_of(f.as_slice());
        let ghost pre = views(out@);
        if sig.len() == 0 {
            if j < sigs.len() && sigs[j].len() == 0 {
                if blank_marks[j] > 0 {
                    out.push(Vec::new());
                }
                out.push(copy_chars(f));
                assert(views(out@) =~= emit_state(flv, n + 1, es).0);
                j += 1;
            } else {
                out.push(copy_chars(f));
                assert(views(out@) =~= pre.push(f@));
            }
        } else {
            let mut carried: usize = 0;
            let ghost j0 = j;
            while j < sigs.len() && sigs[j].len() == 0
                invariant
                    j0 <= j <= sigs@.len(),
                    sigs@.len() == blank_marks@.len() == leads@.len(),
                    es == entries_of(sigs@, blank_marks@, leads@),
                    skip_empty(es, j0 as int) == (skip_empty(es, j as int).0, max_nat(carried as nat, skip_empty(es, j as int).1)),
                decreases sigs.len() - j,
            {
                if blank_marks[j] > carried {
                    carried = blank_marks[j];
                }
                j += 1;
            }
            assert(skip_empty(es, j as int) == (j as int, 0nat));
            if j < sigs.len() && chars_eq(sigs[j].as_slice(), sig.as_slice()) {
                let lw = leading_ws_count(f.as_slice());
                let ind_n = byte_len_prefix(f.as_slice(), lw);
                let ind = spaces_vec(ind_n);
                let last_blank = out.len() > 0 && out[out.len() - 1].len() == 0;
                if (blank_marks[j] > 0 || carried > 0) && !last_blank {
                    out.push(Vec::new());
                }
                proof {
                    assert(out.len() > 0 ==> views(out@).last() == out@.last()@);
                    assert(pre.len() > 0 ==> pre.last() == views(out@)[pre.len() - 1]);
                }
                let ghost mid0 = views(out@);
                crate::formatter::push_indented_lines(&mut out, &leads[j], &ind);
                let ghost mid = out@;
                let last_line = copy_chars(f);
                out.push(last_line);
                proof {
                    lemma_views_push(mid, last_line);
                    assert(ind@ == spaces(byte_len(f@.take(lead_ws(f@) as int))));
                    assert(es[j as int].2 == views(leads@[j as int]@));
                    assert(views(out@) =~= emit_state(flv, n + 1, es).0);
                }
                j += 1;
            } else {
                out.push(copy_chars(f));
                assert(views(out@) =~= pre.push(f@));
            }
        }
        n += 1;
    }
    crate::formatter::push_all_lines(&mut out, &pending);
    let mut joined = join_lines(&out);
    ensure_trailing_nl(&mut joined);
    string_from_chars(&joined)
}

} // verus!
