//! Text-level parts of the value formatter: comment
//! extraction and re-attachment, plain-scalar quoting rules and escaping.
//!
//! The formatter proper renders a parsed document through a pretty printer
//! (done by the caller); the functions here decide how scalars are quoted
//! and carry the source's comments over to the printed text.
use vstd::prelude::*;

use crate::comments::{comment_index, comment_start, signature, signature_of};
use crate::numbers::{float_syntax, float_syntax_check, parse_radix, radix_parse};
use crate::text::{
    all_ws, byte_len, byte_len_prefix, chars_eq, ensure_nl, ensure_trailing_nl, is_blank, join_lines,
    join_nl, lead_ws, leading_ws_count, lemma_lines_byte_len, lines_of, push_all, slice_range, spaces,
    spaces_vec, split_lines, copy_chars, lemma_views_push, contains_lit, contains_text, eq_lit,
    starts_with_lit, str_byte_len, str_chars, string_from_chars, trim, views,
};

verus! {

/// Classification of a YAML comment.
#[derive(Debug, Clone, Copy, PartialEq, Eq, Structural)]
pub enum CommentKind {
    /// On the same line as code: `key: value  # comment`
    Trailing,
    /// On a line by itself (possibly with leading whitespace): `# comment`
    Leading,
}

/// A comment extracted from raw YAML text.
#[derive(Debug, Clone)]
pub struct Comment {
    /// 0-based line number in the original text.
    pub line: usize,
    /// The comment text including `#` (e.g. `# this is a comment`).
    pub text: String,
    /// Classification.
    pub kind: CommentKind,
}

/// The mathematical content of a comment: `(line, text, kind)`.
pub open spec fn comment_view(c: Comment) -> (int, Seq<char>, CommentKind) {
    (c.line as int, c.text@, c.kind)
}

pub open spec fn comments_view(cs: Seq<Comment>) -> Seq<(int, Seq<char>, CommentKind)> {
    cs.map_values(|c: Comment| comment_view(c))
}

/// The comment (if any) found on line number `idx` with text `line`.
pub open spec fn line_comment(line: Seq<char>, idx: int) -> Option<(int, Seq<char>, CommentKind)> {
    match comment_start(line) {
        Some(k) => Some(
            (
                idx,
                line.skip(k),
                if all_ws(line.take(k)) {
                    CommentKind::Leading
                } else {
                    CommentKind::Trailing
                },
            ),
        ),
        None => None,
    }
}

/// The comments of the first `n` lines of `ls`, in line order.
pub open spec fn comments_in(ls: Seq<Seq<char>>, n: int) -> Seq<(int, Seq<char>, CommentKind)>
    decreases n,
{
    if n <= 0 {
        seq![]
    } else {
        comments_in(ls, n - 1) + match line_comment(ls[n - 1], n - 1) {
            Some(c) => seq![c],
            None => seq![],
        }
    }
}

/// Scan raw YAML text and extract all comments with their positions.
///
/// A `#` starts a comment if it is not inside a quoted string and is either:
/// - the first non-whitespace character on the line (Leading), or
/// - preceded by at least one whitespace character (Trailing).
pub fn extract_comments(text: &str) -> (r: Vec<Comment>)
    ensures
        comments_view(r@) == comments_in(lines_of(text@), lines_of(text@).len() as int),
{
    let v = str_chars(text);
    let ls = split_lines(&v);
    let mut out: Vec<Comment> = Vec::new();
    let mut i: usize = 0;
    while i < ls.len()
        invariant
            i <= ls.len(),
            views(ls@) == lines_of(text@),
            comments_view(out@) == comments_in(lines_of(text@), i as int),
        decreases ls.len() - i,
    {
        let line = &ls[i];
        assert(line@ == lines_of(text@)[i as int]);
        let ghost old_out = out@;
        match comment_index(line.as_slice()) {
            Some(k) => {
                let before = slice_range(line.as_slice(), 0, k);
                assert(before@ =~= line@.take(k as int));
                let kind = if is_blank(&before) {
                    CommentKind::Leading
                } else {
                    CommentKind::Trailing
                };
                let t = slice_range(line.as_slice(), k, line.len());
                assert(t@ =~= line@.skip(k as int));
                out.push(Comment { line: i, text: string_from_chars(&t), kind });
                assert(comments_view(out@) =~= comments_view(old_out).push(
                    line_comment(line@, i as int)->0,
                ));
            },
            None => {},
        }
        i += 1;
        assert(comments_view(out@) =~= comments_in(lines_of(text@), i as int));
    }
    out
}

/// The last comment of `cs` that sits on line `idx` (a later comment for the
/// same line replaces an earlier one).
pub open spec fn comment_for_line(cs: Seq<(int, Seq<char>, CommentKind)>, idx: int) -> Option<
    (int, Seq<char>, CommentKind),
>
    decreases cs.len(),
{
    if cs.len() == 0 {
        None
    } else if cs.last().0 == idx {
        Some(cs.last())
    } else {
        comment_for_line(cs.drop_last(), idx)
    }
}

fn find_comment_for_line(cs: &[Comment], idx: usize) -> (r: Option<usize>)
    ensures
        r is Some <==> comment_for_line(comments_view(cs@), idx as int) is Some,
        r matches Some(j) ==> j < cs@.len() && comment_for_line(comments_view(cs@), idx as int)
            == Some(comment_view(cs@[j as int])),
{
    let mut j = cs.len();
    assert(cs@.take(j as int) =~= cs@);
    while j > 0
        invariant
            j <= cs.len(),
            comment_for_line(comments_view(cs@), idx as int) == comment_for_line(
                comments_view(cs@.take(j as int)),
                idx as int,
            ),
        decreases j,
    {
        let ghost t = comments_view(cs@.take(j as int));
        assert(t.drop_last() =~= comments_view(cs@.take(j - 1)));
        assert(t.last() == comment_view(cs@[j - 1]));
        if cs[j - 1].line == idx {
            return Some(j - 1);
        }
        j -= 1;
    }
    assert(comments_view(cs@.take(0)) =~= Seq::<(int, Seq<char>, CommentKind)>::empty());
    None
}

/// A content line of the original text: its signature, the leading comment
/// lines before it, and its trailing comment.
pub type EntryView = (Seq<char>, Seq<Seq<char>>, Option<Seq<char>>);

/// State of the first pass over the original text:
/// `(entries, pending leading lines, pending blank count)`.
pub type EntriesState = (Seq<EntryView>, Seq<Seq<char>>, nat);

/// One step of the first pass, for the original line `line` at index `idx`.
pub open spec fn entries_step(
    st: EntriesState,
    line: Seq<char>,
    idx: int,
    cs: Seq<(int, Seq<char>, CommentKind)>,
) -> EntriesState {
    let (entries, pending, blanks) = st;
    match comment_for_line(cs, idx) {
        Some(c) => if c.2 == CommentKind::Leading {
            let p = if blanks > 0 && pending.len() > 0 {
                pending.push(seq![])
            } else {
                pending
            };
            (entries, p.push(c.1), 0)
        } else {
            (entries.push((signature(line), pending, Some(c.1))), seq![], 0)
        },
        None => if trim(line).len() == 0 {
            (entries, pending, blanks + 1)
        } else {
            (entries.push((signature(line), pending, None)), seq![], 0)
        },
    }
}

/// The first-pass state after the first `n` original lines.
pub open spec fn entries_after(
    ls: Seq<Seq<char>>,
    n: int,
    cs: Seq<(int, Seq<char>, CommentKind)>,
) -> EntriesState
    decreases n,
{
    if n <= 0 {
        (seq![], seq![], 0)
    } else {
        entries_step(entries_after(ls, n - 1, cs), ls[n - 1], n - 1, cs)
    }
}

/// The lines emitted for formatted line `f` when it matches the entry `e`:
/// its leading comments indented like `f`, then `f` with the trailing comment.
pub open spec fn matched_lines(f: Seq<char>, e: EntryView) -> Seq<Seq<char>> {
    let ind = spaces(byte_len(f.take(lead_ws(f) as int)));
    indented_leads(e.1, ind).push(
        match e.2 {
            Some(tc) => f + seq![' ', ' '] + tc,
            None => f,
        },
    )
}

/// The leading comment lines `ls`, each non-empty one prefixed with `ind`.
pub open spec fn indented_leads(ls: Seq<Seq<char>>, ind: Seq<char>) -> Seq<Seq<char>> {
    Seq::new(ls.len(), |i: int| if ls[i].len() == 0 { ls[i] } else { ind + ls[i] })
}

/// Second pass: `(lines emitted, entries consumed)` after the first `n`
/// formatted lines.  A formatted line consumes the next entry when its
/// signature is non-empty and equals the entry's.
pub open spec fn emit_after(fs: Seq<Seq<char>>, n: int, es: Seq<EntryView>) -> (Seq<Seq<char>>, nat)
    decreases n,
{
    if n <= 0 {
        (seq![], 0)
    } else {
        let (out, k) = emit_after(fs, n - 1, es);
        let f = fs[n - 1];
        let sig = signature(f);
        if sig.len() > 0 && k < es.len() && es[k as int].0 == sig {
            (out + matched_lines(f, es[k as int]), k + 1)
        } else {
            (out.push(f), k)
        }
    }
}

/// The result of re-attaching the comments `cs` of `original` to `formatted`.
pub open spec fn attached(
    original: Seq<char>,
    formatted: Seq<char>,
    cs: Seq<(int, Seq<char>, CommentKind)>,
) -> Seq<char> {
    let ol = lines_of(original);
    let st = entries_after(ol, ol.len() as int, cs);
    let fl = lines_of(formatted);
    let out = emit_after(fl, fl.len() as int, st.0).0;
    ensure_nl(join_nl(out + st.1))
}

/// `m` places each line of `a` at the start of a line of `b`, in order:
/// `a[i]` is a prefix of `b[m[i]]` with `m` strictly increasing.
pub open spec fn prefixes_in_order(a: Seq<Seq<char>>, b: Seq<Seq<char>>, m: Seq<int>) -> bool {
    &&& m.len() == a.len()
    &&& forall|i: int| 0 <= i < m.len() ==> 0 <= #[trigger] m[i] < b.len() && a[i].is_prefix_of(b[m[i]])
    &&& forall|i: int, j: int| 0 <= i < j < m.len() ==> #[trigger] m[i] < #[trigger] m[j]
}

/// The second pass keeps every formatted line, in order, at the start of
/// an emitted line (a trailing comment may follow it).
proof fn lemma_emit_keeps_prefixes(fs: Seq<Seq<char>>, n: int, es: Seq<EntryView>) -> (m: Seq<int>)
    requires
        0 <= n <= fs.len(),
    ensures
        prefixes_in_order(fs.take(n), emit_after(fs, n, es).0, m),
    decreases n,
{
    if n <= 0 {
        assert(fs.take(0) =~= Seq::<Seq<char>>::empty());
        Seq::empty()
    } else {
        let m0 = lemma_emit_keeps_prefixes(fs, n - 1, es);
        let (out0, k) = emit_after(fs, n - 1, es);
        let out = emit_after(fs, n, es).0;
        let f = fs[n - 1];
        let sig = signature(f);
        if sig.len() > 0 && k < es.len() && es[k as int].0 == sig {
            let ml = matched_lines(f, es[k as int]);
            assert(out == out0 + ml);
            assert(f.is_prefix_of(ml.last())) by {
                match es[k as int].2 {
                    Some(tc) => assert((f + seq![' ', ' '] + tc).subrange(0, f.len() as int) =~= f),
                    None => assert(f.subrange(0, f.len() as int) =~= f),
                }
            }
        } else {
            assert(f.subrange(0, f.len() as int) =~= f);
        }
        assert(out.len() >= out0.len() + 1);
        assert(out.subrange(0, out0.len() as int) =~= out0);
        assert(f.is_prefix_of(out.last()));
        let m = m0.push(out.len() - 1);
        assert(fs.take(n) =~= fs.take(n - 1).push(f));
        assert forall|i: int| 0 <= i < m.len() implies 0 <= #[trigger] m[i] < out.len() && fs.take(n)[i].is_prefix_of(out[m[i]]) by {
            if i < m0.len() {
                assert(out[m0[i]] == out.subrange(0, out0.len() as int)[m0[i]]);
            }
        }
        m
    }
}

/// The leading comment lines of `original` left over after its last
/// content line.
pub open spec fn left_over_comments(original: Seq<char>, cs: Seq<(int, Seq<char>, CommentKind)>) -> Seq<Seq<char>> {
    let ol = lines_of(original);
    entries_after(ol, ol.len() as int, cs).1
}

/// Re-attaching comments never loses or reorders a formatted line: the
/// result is a sequence of lines, joined and ended with a newline, in which
/// each formatted line starts a line of its own, in order (a trailing
/// comment may follow it), and which ends with the leading comments that
/// came after the last content line.
pub proof fn law_attached_keeps_formatted_lines(
    original: Seq<char>,
    formatted: Seq<char>,
    cs: Seq<(int, Seq<char>, CommentKind)>,
)
    ensures
        exists|out: Seq<Seq<char>>, m: Seq<int>|
            #![trigger prefixes_in_order(lines_of(formatted), out, m)]
            {
                &&& attached(original, formatted, cs) == ensure_nl(join_nl(out))
                &&& prefixes_in_order(lines_of(formatted), out, m)
                &&& out.len() >= left_over_comments(original, cs).len()
                &&& out.skip(out.len() - left_over_comments(original, cs).len())
                    == left_over_comments(original, cs)
            },
{
    let ol = lines_of(original);
    let st = entries_after(ol, ol.len() as int, cs);
    let fl = lines_of(formatted);
    let emitted = emit_after(fl, fl.len() as int, st.0).0;
    let m = lemma_emit_keeps_prefixes(fl, fl.len() as int, st.0);
    assert(fl.take(fl.len() as int) =~= fl);
    let out = emitted + st.1;
    assert(out.skip(out.len() - st.1.len()) =~= st.1);
    assert forall|i: int| 0 <= i < m.len() implies 0 <= #[trigger] m[i] < out.len() && fl[i].is_prefix_of(out[m[i]]) by {
        assert(out[m[i]] == emitted[m[i]]);
    }
    assert(prefixes_in_order(fl, out, m));
}

/// Attach extracted comments back to formatted YAML output.
///
/// Strategy:
/// - Build a list of content entries from the original (one per non-blank, non-leading-comment line).
/// - For each entry, record leading comments that preceded it and any trailing comment on the line.
/// - Walk the formatted output; when a line's signature matches the next entry, emit leading
///   comments (indented to match the content line) before it, and append any trailing comment.
/// - Any unmatched leading comments (e.g. at end of file) are appended at the end.
pub fn attach_comments(original: &str, formatted: &str, comments: &[Comment]) -> (r: String)
    ensures
        comments@.len() == 0 ==> r@ == formatted@,
        comments@.len() > 0 ==> r@ == attached(original@, formatted@, comments_view(comments@)),
{
    if comments.len() == 0 {
        return formatted.to_string();
    }
    let ghost cs = comments_view(comments@);
    let ov = str_chars(original);
    let ol = split_lines(&ov);
    // First pass: content entries of the original text.
    let mut sigs: Vec<Vec<char>> = Vec::new();
    let mut leads: Vec<Vec<Vec<char>>> = Vec::new();
    let mut trails: Vec<Option<Vec<char>>> = Vec::new();
    let mut pending: Vec<Vec<char>> = Vec::new();
    let mut blanks: usize = 0;
    let mut i: usize = 0;
    while i < ol.len()
        invariant
            i <= ol.len(),
            views(ol@) == lines_of(original@),
            cs == comments_view(comments@),
            sigs@.len() == leads@.len() == trails@.len(),
            entries_view(sigs@, leads@, trails@) == entries_after(lines_of(original@), i as int, cs).0,
            views(pending@) == entries_after(lines_of(original@), i as int, cs).1,
            blanks as nat == entries_after(lines_of(original@), i as int, cs).2,
            blanks <= i,
        decreases ol.len() - i,
    {
        let line = &ol[i];
        assert(line@ == lines_of(original@)[i as int]);
        let ghost pre_e = entries_view(sigs@, leads@, trails@);
        let ghost pre_p = views(pending@);
        match find_comment_for_line(comments, i) {
            Some(j) => {
                let ct = str_chars(comments[j].text.as_str());
                if comments[j].kind == CommentKind::Leading {
                    if blanks > 0 && pending.len() > 0 {
                        pending.push(Vec::new());
                    }
                    blanks = 0;
                    pending.push(ct);
                    assert(views(pending@) =~= entries_after(lines_of(original@), i + 1, cs).1);
                } else {
                    sigs.push(signature_of(line.as_slice()));
                    leads.push(pending);
                    trails.push(Some(ct));
                    pending = Vec::new();
                    blanks = 0;
                    assert(entries_view(sigs@, leads@, trails@) =~= pre_e.push(
                        (signature(line@), pre_p, Some(ct@)),
                    ));
                    assert(views(pending@) =~= Seq::<Seq<char>>::empty());
                }
            },
            None => {
                if is_blank(line.as_slice()) {
                    blanks = blanks + 1;
                } else {
                    sigs.push(signature_of(line.as_slice()));
                    leads.push(pending);
                    trails.push(None);
                    pending = Vec::new();
                    blanks = 0;
                    assert(entries_view(sigs@, leads@, trails@) =~= pre_e.push(
                        (signature(line@), pre_p, None),
                    ));
                    assert(views(pending@) =~= Seq::<Seq<char>>::empty());
                }
            },
        }
        i += 1;
    }
    let ghost es = entries_view(sigs@, leads@, trails@);
    // Second pass: walk the formatted output.
    let fv = str_chars(formatted);
    let fl = split_lines(&fv);
    let mut out: Vec<Vec<char>> = Vec::new();
    let mut k: usize = 0;
    let mut n: usize = 0;
    let total = str_byte_len(formatted);
    proof {
        lemma_lines_byte_len(formatted@);
    }
    while n < fl.len()
        invariant
            n <= fl.len(),
            total == byte_len(formatted@),
            forall|j: int| 0 <= j < lines_of(formatted@).len() ==> byte_len(#[trigger] lines_of(formatted@)[j]) <= byte_len(formatted@),
            views(fl@) == lines_of(formatted@),
            sigs@.len() == leads@.len() == trails@.len(),
            es == entries_view(sigs@, leads@, trails@),
            views(out@) == emit_after(lines_of(formatted@), n as int, es).0,
            k as nat == emit_after(lines_of(formatted@), n as int, es).1,
            k <= n,
        decreases fl.len() - n,
    {
        let f = &fl[n];
        assert(f@ == lines_of(formatted@)[n as int]);
        let sig = signature_of(f.as_slice());
        let ghost pre = views(out@);
        if sig.len() > 0 && k < sigs.len() && chars_eq(sigs[k].as_slice(), sig.as_slice()) {
            let lw = leading_ws_count(f.as_slice());
            let ind_n = byte_len_prefix(f.as_slice(), lw);
            let ind = spaces_vec(ind_n);
            push_indented_lines(&mut out, &leads[k], &ind);
            let ghost mid = out@;
            let mut last = copy_chars(f);
            match &trails[k] {
                Some(tc) => {
                    last.push(' ');
                    last.push(' ');
                    push_all(&mut last, tc.as_slice());
                    assert(last@ =~= f@ + seq![' ', ' '] + tc@);
                },
                None => {},
            }
            let ghost last_v = last@;
            out.push(last);
            proof {
                let e = es[k as int];
                assert(e.1 == views(leads@[k as int]@));
                assert(ind@ == spaces(byte_len(f@.take(lead_ws(f@) as int))));
                assert(e.2 == match trails@[k as int] {
                    Some(t) => Some(t@),
                    None => None,
                });
                assert(last_v == match e.2 {
                    Some(tc) => f@ + seq![' ', ' '] + tc,
                    None => f@,
                });
                lemma_views_push(mid, last);
                assert(views(out@) =~= views(mid).push(last_v));
                assert(views(out@) =~= pre + matched_lines(f@, es[k as int]));
            }
            k += 1;
        } else {
            out.push(copy_chars(f));
            assert(views(out@) =~= pre.push(f@));
        }
        n += 1;
    }
    assert(views(fl@).take(n as int) =~= views(fl@));
    // Append the leading comments left after all content.
    push_all_lines(&mut out, &pending);
    let mut joined = join_lines(&out);
    ensure_trailing_nl(&mut joined);
    string_from_chars(&joined)
}

/// Appends each line of `lead` to `out`, the non-empty ones prefixed with `ind`.
pub fn push_indented_lines(out: &mut Vec<Vec<char>>, lead: &Vec<Vec<char>>, ind: &Vec<char>)
    ensures
        views(final(out)@) == views(old(out)@) + indented_leads(views(lead@), ind@),
{
    let ghost pre = views(out@);
    let mut m: usize = 0;
    while m < lead.len()
        invariant
            m <= lead@.len(),
            views(out@) == pre + indented_leads(views(lead@).take(m as int), ind@),
        decreases lead.len() - m,
    {
        let ghost o = out@;
        let lc = &lead[m];
        if lc.len() == 0 {
            out.push(Vec::new());
        } else {
            let mut line = copy_chars(ind);
            push_all(&mut line, lc.as_slice());
            out.push(line);
        }
        proof {
            let elem = if lead@[m as int]@.len() == 0 {
                lead@[m as int]@
            } else {
                ind@ + lead@[m as int]@
            };
            assert(out@.last()@ =~= elem);
            lemma_views_push(o, out@.last());
            assert(out@ =~= o.push(out@.last()));
            assert(views(lead@).take(m + 1)[m as int] == lead@[m as int]@);
            assert(indented_leads(views(lead@).take(m + 1), ind@) =~= indented_leads(
                views(lead@).take(m as int),
                ind@,
            ).push(elem));
        }
        m += 1;
        assert(views(out@) =~= pre + indented_leads(views(lead@).take(m as int), ind@));
    }
    assert(views(lead@).take(m as int) =~= views(lead@));
}

/// Appends copies of the lines `src` to `out`.
pub fn push_all_lines(out: &mut Vec<Vec<char>>, src: &Vec<Vec<char>>)
    ensures
        views(final(out)@) == views(old(out)@) + views(src@),
{
    let ghost pre = views(out@);
    let mut m: usize = 0;
    while m < src.len()
        invariant
            m <= src@.len(),
            views(out@) == pre + views(src@).take(m as int),
        decreases src.len() - m,
    {
        let ghost o = out@;
        out.push(copy_chars(&src[m]));
        proof {
            lemma_views_push(o, out@.last());
            assert(out@ =~= o.push(out@.last()));
        }
        m += 1;
        assert(views(out@) =~= pre + views(src@).take(m as int));
    }
    assert(views(src@).take(m as int) =~= views(src@));
}

/// The entries held by the three parallel vectors of the first pass.
pub open spec fn entries_view(
    sigs: Seq<Vec<char>>,
    leads: Seq<Vec<Vec<char>>>,
    trails: Seq<Option<Vec<char>>>,
) -> Seq<EntryView> {
    Seq::new(
        sigs.len(),
        |i: int|
            (
                sigs[i]@,
                views(leads[i]@),
                match trails[i] {
                    Some(t) => Some(t@),
                    None => None,
                },
            ),
    )
}

/// The plain spellings that YAML reads as null or boolean (YAML 1.1 included).
pub open spec fn reserved_word(s: Seq<char>) -> bool {
    s == "null"@ || s == "~"@ || s == "true"@ || s == "false"@ || s == "yes"@ || s == "no"@ || s
        == "on"@ || s == "off"@ || s == "True"@ || s == "False"@ || s == "Yes"@ || s == "No"@ || s
        == "On"@ || s == "Off"@ || s == "TRUE"@ || s == "FALSE"@ || s == "YES"@ || s == "NO"@ || s
        == "ON"@ || s == "OFF"@ || s == "NULL"@ || s == "Null"@
}

fn is_reserved_word(v: &[char]) -> (r: bool)
    ensures
        r == reserved_word(v@),
{
    eq_lit(v, "null") || eq_lit(v, "~") || eq_lit(v, "true") || eq_lit(v, "false") || eq_lit(
        v,
        "yes",
    ) || eq_lit(v, "no") || eq_lit(v, "on") || eq_lit(v, "off") || eq_lit(v, "True") || eq_lit(
        v,
        "False",
    ) || eq_lit(v, "Yes") || eq_lit(v, "No") || eq_lit(v, "On") || eq_lit(v, "Off") || eq_lit(
        v,
        "TRUE",
    ) || eq_lit(v, "FALSE") || eq_lit(v, "YES") || eq_lit(v, "NO") || eq_lit(v, "ON") || eq_lit(
        v,
        "OFF",
    ) || eq_lit(v, "NULL") || eq_lit(v, "Null")
}

/// The text reads as a number: an `i64`, anything `f64` parsing accepts, or
/// a YAML special float spelling.
pub open spec fn number_like(s: Seq<char>) -> bool {
    radix_parse(s, 10) is Some || float_syntax(s) || s == ".inf"@ || s == ".Inf"@ || s == ".INF"@
        || s == "+.inf"@ || s == "-.inf"@ || s == ".nan"@ || s == ".NaN"@ || s == ".NAN"@
}

/// Returns true if the string looks like a YAML number (integer or float).
pub fn looks_like_number(s: &str) -> (r: bool)
    ensures
        r == number_like(s@),
{
    let v = str_chars(s);
    parse_radix(&v, 10).is_some() || float_syntax_check(&v) || eq_lit(&v, ".inf") || eq_lit(
        &v,
        ".Inf",
    ) || eq_lit(&v, ".INF") || eq_lit(&v, "+.inf") || eq_lit(&v, "-.inf") || eq_lit(&v, ".nan")
        || eq_lit(&v, ".NaN") || eq_lit(&v, ".NAN")
}

/// Characters that cannot begin a plain scalar without changing its meaning.
pub open spec fn indicator_start(c: char) -> bool {
    c == ':' || c == '#' || c == '&' || c == '*' || c == '?' || c == '|' || c == '-' || c == '<'
        || c == '>' || c == '=' || c == '!' || c == '%' || c == '@' || c == '`' || c == '{' || c
        == '}' || c == '[' || c == ']'
}

/// The quoting rule of this formatter: the text is empty, a reserved word,
/// number-like, starts with an indicator character, holds `": "` or `" #"`,
/// starts with `"- "` or `"--- "`, or is a document marker.
pub open spec fn must_quote(s: Seq<char>) -> bool {
    s.len() == 0 || reserved_word(s) || number_like(s) || (s.len() > 0 && indicator_start(s[0]))
        || contains_text(s, ": "@) || contains_text(s, " #"@) || "- "@.is_prefix_of(s)
        || "--- "@.is_prefix_of(s) || s == "---"@ || s == "..."@
}

/// Returns true if a string value requires quoting to avoid YAML ambiguity.
pub fn needs_quoting(s: &str) -> (r: bool)
    ensures
        r == must_quote(s@),
{
    let v = str_chars(s);
    if v.len() == 0 {
        return true;
    }
    let c = v[0];
    is_reserved_word(&v) || looks_like_number(s) || (c == ':' || c == '#' || c == '&' || c == '*'
        || c == '?' || c == '|' || c == '-' || c == '<' || c == '>' || c == '=' || c == '!' || c
        == '%' || c == '@' || c == '`' || c == '{' || c == '}' || c == '[' || c == ']')
        || contains_lit(&v, ": ") || contains_lit(&v, " #") || starts_with_lit(&v, "- ")
        || starts_with_lit(&v, "--- ") || eq_lit(&v, "---") || eq_lit(&v, "...")
}

/// The escape of one character in this formatter's double-quoted scalars.
pub open spec fn escape_char(c: char) -> Seq<char> {
    if c == '"' {
        seq!['\\', '"']
    } else if c == '\\' {
        seq!['\\', '\\']
    } else if c == '\n' {
        seq!['\\', 'n']
    } else if c == '\r' {
        seq!['\\', 'r']
    } else if c == '\t' {
        seq!['\\', 't']
    } else {
        seq![c]
    }
}

/// The escaped form of `s`: each character replaced by its escape.
pub open spec fn escaped(s: Seq<char>) -> Seq<char>
    decreases s.len(),
{
    if s.len() == 0 {
        seq![]
    } else {
        escaped(s.drop_last()) + escape_char(s.last())
    }
}

/// Escaped text stays on one line: it holds no line feed, carriage return
/// or tab.
pub proof fn law_escaped_single_line(s: Seq<char>)
    ensures
        !escaped(s).contains('\n'),
        !escaped(s).contains('\r'),
        !escaped(s).contains('\t'),
    decreases s.len(),
{
    if s.len() > 0 {
        law_escaped_single_line(s.drop_last());
        let a = escaped(s.drop_last());
        let b = escape_char(s.last());
        assert forall|i: int| 0 <= i < (a + b).len() implies (a + b)[i] != '\n' && (a + b)[i] != '\r' && (a + b)[i] != '\t' by {
            if i < a.len() {
                assert((a + b)[i] == a[i]);
            } else {
                assert((a + b)[i] == b[i - a.len()]);
            }
        }
    }
}

/// Escape a string for use in a double-quoted YAML scalar.
pub fn escape_double_quoted(s: &str) -> (r: String)
    ensures
        r@ == escaped(s@),
{
    let v = str_chars(s);
    let mut out: Vec<char> = Vec::new();
    let mut i: usize = 0;
    while i < v.len()
        invariant
            i <= v.len(),
            out@ == escaped(v@.take(i as int)),
        decreases v.len() - i,
    {
        let c = v[i];
        if c == '"' {
            out.push('\\');
            out.push('"');
        } else if c == '\\' {
            out.push('\\');
            out.push('\\');
        } else if c == '\n' {
            out.push('\\');
            out.push('n');
        } else if c == '\r' {
            out.push('\\');
            out.push('r');
        } else if c == '\t' {
            out.push('\\');
            out.push('t');
        } else {
            out.push(c);
        }
        proof {
            assert(v@.take(i + 1).drop_last() =~= v@.take(i as int));
        }
        i += 1;
        assert(out@ =~= escaped(v@.take(i as int)));
    }
    assert(v@.take(i as int) =~= v@);
    string_from_chars(&out)
}


/// Options of the value formatter.
#[derive(Debug, Clone, Copy, PartialEq, Eq, Structural)]
pub struct YamlFormatOptions {
    /// Maximum line width. Default: 80.
    pub print_width: usize,
    /// Spaces per indent level. Default: 2.
    pub tab_width: usize,
    /// Use tabs instead of spaces. Default: false.
    pub use_tabs: bool,
    /// Prefer single-quoted strings. Default: false (double quotes).
    pub single_quote: bool,
    /// Add spaces inside flow braces: `{ a: 1 }` vs `{a: 1}`. Default: true.
    pub bracket_spacing: bool,
}

impl Default for YamlFormatOptions {
    fn default() -> (r: Self)
        ensures
            r == (YamlFormatOptions {
                print_width: 80,
                tab_width: 2,
                use_tabs: false,
                single_quote: false,
                bracket_spacing: true,
            }),
    {
        YamlFormatOptions {
            print_width: 80,
            tab_width: 2,
            use_tabs: false,
            single_quote: false,
            bracket_spacing: true,
        }
    }
}

/// How a string scalar is written: quoted when the quoting rule asks for it
/// (single quotes when preferred and the text holds none, else double quotes
/// with escapes), single-quoted when single quotes are preferred, else plain.
pub open spec fn string_scalar(s: Seq<char>, single_quote: bool) -> Seq<char> {
    if must_quote(s) {
        if single_quote && !s.contains('\'') {
            seq!['\''] + s + seq!['\'']
        } else {
            seq!['"'] + escaped(s) + seq!['"']
        }
    } else if single_quote {
        seq!['\''] + s + seq!['\'']
    } else {
        s
    }
}

/// A string that YAML would read as something else when written plain is
/// always written quoted, whatever the quote preference: the Core schema
/// null and boolean spellings (the empty text, `~`, `null`, `true`,
/// `False`, ...) and the YAML 1.1 words `yes`, `no`, `on`, `off` in their
/// three casings come out between matching quotes.
pub proof fn law_reserved_strings_quoted(s: Seq<char>, single_quote: bool)
    requires
        crate::scalar_helpers::null_text(s) || crate::scalar_helpers::bool_text(s) || (
        (crate::scalar_helpers::yaml11_true_text(s) || crate::scalar_helpers::yaml11_false_text(s))
            && s.len() > 1),
    ensures
        string_scalar(s, single_quote).len() >= 2,
        string_scalar(s, single_quote)[0] == '"' || string_scalar(s, single_quote)[0] == '\'',
        string_scalar(s, single_quote).last() == string_scalar(s, single_quote)[0],
{
    reveal_strlit("y");
    reveal_strlit("Y");
    reveal_strlit("n");
    reveal_strlit("N");
    assert(must_quote(s));
}

/// Convert a string scalar to its text, quoting as necessary.
pub fn string_to_doc(s: &str, options: &YamlFormatOptions) -> (r: String)
    ensures
        r@ == string_scalar(s@, options.single_quote),
{
    let v = str_chars(s);
    let mut out: Vec<char> = Vec::new();
    if needs_quoting(s) {
        if options.single_quote && !crate::text::contains_char(&v, '\'') {
            out.push('\'');
            push_all(&mut out, &v);
            out.push('\'');
        } else {
            let e = escape_double_quoted(s);
            let ev = str_chars(e.as_str());
            out.push('"');
            push_all(&mut out, &ev);
            out.push('"');
        }
    } else if options.single_quote {
        out.push('\'');
        push_all(&mut out, &v);
        out.push('\'');
    } else {
        push_all(&mut out, &v);
    }
    string_from_chars(&out)
}

/// The formatter's last step on printed text: a final newline is ensured and
/// the comments of the input are carried over.
pub open spec fn finished(input: Seq<char>, printed: Seq<char>) -> Seq<char> {
    let p = ensure_nl(printed);
    let cs = comments_in(lines_of(input), lines_of(input).len() as int);
    if cs.len() == 0 {
        p
    } else {
        attached(input, p, cs)
    }
}

/// Ends the formatting of `input` whose documents printed as `printed`:
/// ensures the output ends with a newline, then reattaches the input's
/// comments.
pub fn finish_output(input: &str, printed: &str) -> (r: String)
    ensures
        r@ == finished(input@, printed@),
{
    let mut p = str_chars(printed);
    ensure_trailing_nl(&mut p);
    let ps = string_from_chars(&p);
    let comments = extract_comments(input);
    if comments.len() == 0 {
        ps
    } else {
        attach_comments(input, ps.as_str(), comments.as_slice())
    }
}

} // verus!
