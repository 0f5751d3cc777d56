//! Go-to-definition and find-references for anchors and aliases, on the
//! raw document text.
use vstd::prelude::*;

use crate::anchor_scan::{
    doc_end, doc_start, document_range_for_line, line_tokens, located, scan_tokens, text_lines,
    token_view, tokens_from, tokens_in, tokens_view, Token, TokenView,
};
use crate::lsp::{Position, Range};
use crate::text::{byte_len, chars_eq, lines_of, str_chars, trim, views};

verus! {

/// Index of the first token of `ts` satisfying `p`.
pub open spec fn first_where(ts: Seq<TokenView>, p: spec_fn(TokenView) -> bool) -> Option<int>
    decreases ts.len(),
{
    if ts.len() == 0 {
        None
    } else {
        match first_where(ts.drop_last(), p) {
            Some(i) => Some(i),
            None => if p(ts.last()) {
                Some(ts.len() - 1)
            } else {
                None
            },
        }
    }
}

pub proof fn lemma_first_where(ts: Seq<TokenView>, p: spec_fn(TokenView) -> bool, n: int)
    requires
        0 <= n <= ts.len(),
        forall|j: int| 0 <= j < n ==> !p(#[trigger] ts[j]),
        n < ts.len() ==> p(ts[n]),
    ensures
        first_where(ts, p) == if n < ts.len() {
            Some(n)
        } else {
            None::<int>
        },
    decreases ts.len(),
{
    if ts.len() > 0 {
        let t = ts.drop_last();
        if n < ts.len() - 1 {
            assert(t[n] == ts[n]);
            assert forall|j: int| 0 <= j < n implies !p(#[trigger] t[j]) by {
                assert(t[j] == ts[j]);
            }
            lemma_first_where(t, p, n);
        } else {
            assert forall|j: int| 0 <= j < t.len() implies !p(#[trigger] t[j]) by {
                assert(t[j] == ts[j]);
            }
            lemma_first_where(t, p, t.len() as int);
        }
    }
}

/// An optional index as a mathematical integer.
pub open spec fn opt_int(o: Option<usize>) -> Option<int> {
    match o {
        Some(i) => Some(i as int),
        None => None,
    }
}

/// The token lies on `line` and its byte span `[start, end)` holds `col`.
pub open spec fn at_cursor(t: TokenView, line: int, col: int) -> bool {
    t.1 == line && t.2 <= col < t.3
}

/// The tokens of the document that holds line `line` of `text`.
pub open spec fn doc_tokens(text: Seq<char>, line: int) -> Seq<TokenView> {
    let ls = lines_of(text);
    tokens_in(ls, doc_start(ls, line), doc_end(ls, line + 1))
}

/// The position is on a line of `text` and its character does not pass the
/// line's byte length.
pub open spec fn in_bounds(text: Seq<char>, p: Position) -> bool {
    let ls = lines_of(text);
    (p.line as int) < ls.len() && (p.character as int) <= byte_len(ls[p.line as int])
}

/// The range of a token.
pub open spec fn token_range(t: TokenView) -> Range {
    Range {
        start: Position { line: t.1 as u32, character: t.2 as u32 },
        end: Position { line: t.1 as u32, character: t.3 as u32 },
    }
}

/// The index of the first token of `ts` at the cursor.
pub open spec fn cursor_token(ts: Seq<TokenView>, p: Position) -> Option<int> {
    first_where(ts, |t: TokenView| at_cursor(t, p.line as int, p.character as int))
}

/// The index of the first alias token of `ts` at the cursor.
pub open spec fn cursor_alias(ts: Seq<TokenView>, p: Position) -> Option<int> {
    first_where(ts, |t: TokenView| !t.4 && at_cursor(t, p.line as int, p.character as int))
}

/// The index of the first anchor token named `name`.
pub open spec fn anchor_named(ts: Seq<TokenView>, name: Seq<char>) -> Option<int> {
    first_where(ts, |t: TokenView| t.4 && t.0 == name)
}

/// The definition an alias at `p` refers to.
pub open spec fn definition(text: Seq<char>, p: Position) -> Option<Range> {
    if !in_bounds(text, p) {
        None
    } else {
        let ts = doc_tokens(text, p.line as int);
        match cursor_alias(ts, p) {
            Some(a) => match anchor_named(ts, ts[a].0) {
                Some(d) => Some(token_range(ts[d])),
                None => None,
            },
            None => None,
        }
    }
}

/// The tokens of the document for the position `p` of the text `text`.
pub fn position_tokens(lines: &Vec<Vec<char>>, text: &str, position: Position) -> (r: Vec<Token>)
    requires
        views(lines@) == lines_of(text@),
        forall|j: int| 0 <= j < lines@.len() ==> byte_len(#[trigger] lines@[j]@) <= usize::MAX,
    ensures
        tokens_view(r@) == doc_tokens(text@, position.line as int),
{
    let (s, e) = document_range_for_line(lines, position.line as usize);
    scan_tokens(lines, s, e)
}

/// `true` when the position lies on a line and within its byte length.
pub fn position_in_bounds(lines: &Vec<Vec<char>>, text: &str, position: Position) -> (r: bool)
    requires
        views(lines@) == lines_of(text@),
        forall|j: int| 0 <= j < lines@.len() ==> byte_len(#[trigger] lines@[j]@) <= usize::MAX,
    ensures
        r == in_bounds(text@, position),
{
    let li = position.line as usize;
    if li >= lines.len() {
        return false;
    }
    assert(views(lines@)[li as int] == lines@[li as int]@);
    let n = crate::text::byte_len_prefix(&lines[li], lines[li].len());
    assert(lines@[li as int]@.take(lines@[li as int]@.len() as int) =~= lines@[li as int]@);
    (position.character as usize) <= n
}

/// Index of the first token at the cursor (of any kind, or aliases only).
pub fn find_cursor_token(ts: &Vec<Token>, position: Position, aliases_only: bool) -> (r: Option<
    usize,
>)
    ensures
        !aliases_only ==> opt_int(r) == cursor_token(tokens_view(ts@), position),
        aliases_only ==> opt_int(r) == cursor_alias(tokens_view(ts@), position),
        r matches Some(i) ==> i < ts@.len(),
{
    let ghost tv = tokens_view(ts@);
    let ghost p = if aliases_only {
        |t: TokenView| !t.4 && at_cursor(t, position.line as int, position.character as int)
    } else {
        |t: TokenView| at_cursor(t, position.line as int, position.character as int)
    };
    let mut i: usize = 0;
    while i < ts.len()
        invariant
            i <= ts.len(),
            tv == tokens_view(ts@),
            p == if aliases_only {
                |t: TokenView| !t.4 && at_cursor(t, position.line as int, position.character as int)
            } else {
                |t: TokenView| at_cursor(t, position.line as int, position.character as int)
            },
            forall|j: int| 0 <= j < i ==> !p(#[trigger] tv[j]),
        decreases ts.len() - i,
    {
        let t = &ts[i];
        assert(tv[i as int] == token_view(*t));
        let col = position.character;
        if (!aliases_only || !t.is_anchor) && t.line == position.line && t.start_col <= col && col
            < t.end_col {
            proof {
                lemma_first_where(tv, p, i as int);
            }
            return Some(i);
        }
        i += 1;
    }
    proof {
        lemma_first_where(tv, p, tv.len() as int);
    }
    None
}

/// Index of the first anchor token named `name`.
pub fn find_anchor_named(ts: &Vec<Token>, name: &Vec<char>) -> (r: Option<usize>)
    ensures
        opt_int(r) == anchor_named(tokens_view(ts@), name@),
        r matches Some(i) ==> i < ts@.len(),
{
    let ghost tv = tokens_view(ts@);
    let ghost p = |t: TokenView| t.4 && t.0 == name@;
    let mut i: usize = 0;
    while i < ts.len()
        invariant
            i <= ts.len(),
            tv == tokens_view(ts@),
            p == |t: TokenView| t.4 && t.0 == name@,
            forall|j: int| 0 <= j < i ==> !p(#[trigger] tv[j]),
        decreases ts.len() - i,
    {
        let t = &ts[i];
        assert(tv[i as int] == token_view(*t));
        if t.is_anchor {
            let tn = str_chars(t.name.as_str());
            if chars_eq(&tn, name) {
                proof {
                    lemma_first_where(tv, p, i as int);
                }
                return Some(i);
            }
        }
        i += 1;
    }
    proof {
        lemma_first_where(tv, p, tv.len() as int);
    }
    None
}

/// The range of a token.
pub fn range_of(t: &Token) -> (r: Range)
    ensures
        r == token_range(token_view(*t)),
{
    Range {
        start: Position { line: t.line, character: t.start_col },
        end: Position { line: t.line, character: t.end_col },
    }
}

/// Go-to-definition: cursor on `*alias` returns the location of the matching `&anchor`.
///
/// Returns `None` if the cursor is not on an alias, the anchor is not found,
/// the position is out of bounds, or the document is empty.
pub fn goto_definition(text: &str, position: Position) -> (r: Option<Range>)
    ensures
        r == definition(text@, position),
{
    let lines = text_lines(text);
    if !position_in_bounds(&lines, text, position) {
        return None;
    }
    let tokens = position_tokens(&lines, text, position);
    let ghost tv = tokens_view(tokens@);
    match find_cursor_token(&tokens, position, true) {
        None => None,
        Some(a) => {
            let name = str_chars(tokens[a].name.as_str());
            assert(tv[a as int] == token_view(tokens@[a as int]));
            match find_anchor_named(&tokens, &name) {
                Some(d) => {
                    assert(tv[d as int] == token_view(tokens@[d as int]));
                    Some(range_of(&tokens[d]))
                },
                None => None,
            }
        },
    }
}

/// The ranges of all aliases named `name`, in document order.
pub open spec fn alias_ranges(ts: Seq<TokenView>, name: Seq<char>) -> Seq<Range>
    decreases ts.len(),
{
    if ts.len() == 0 {
        seq![]
    } else {
        alias_ranges(ts.drop_last(), name) + if !ts.last().4 && ts.last().0 == name {
            seq![token_range(ts.last())]
        } else {
            seq![]
        }
    }
}

/// The references of the anchor or alias at `p`: the declaration first when
/// asked for, then every alias of the same name.
pub open spec fn references(text: Seq<char>, p: Position, include_declaration: bool) -> Seq<Range> {
    if !in_bounds(text, p) {
        seq![]
    } else {
        let ts = doc_tokens(text, p.line as int);
        match cursor_token(ts, p) {
            None => seq![],
            Some(c) => {
                let name = ts[c].0;
                let decl = if include_declaration {
                    match anchor_named(ts, name) {
                        Some(d) => seq![token_range(ts[d])],
                        None => seq![],
                    }
                } else {
                    seq![]
                };
                decl + alias_ranges(ts, name)
            },
        }
    }
}

/// With the declaration asked for, find-references lists the same aliases
/// as without it, preceded by at most the declaration.
pub proof fn law_references_declaration_first(text: Seq<char>, p: Position)
    ensures
        references(text, p, true).len() <= references(text, p, false).len() + 1,
        references(text, p, true).len() >= references(text, p, false).len(),
        references(text, p, true).skip(references(text, p, true).len() - references(text, p, false).len())
            == references(text, p, false),
{
    let t = references(text, p, true);
    let f = references(text, p, false);
    if in_bounds(text, p) {
        let ts = doc_tokens(text, p.line as int);
        match cursor_token(ts, p) {
            None => {},
            Some(c) => {
                assert(f =~= alias_ranges(ts, ts[c].0));
                assert(t.skip(t.len() - f.len()) =~= f);
            },
        }
    }
}

/// The alias tokens of `ts` named `name`, in their order.
pub open spec fn aliases_named(ts: Seq<TokenView>, name: Seq<char>) -> Seq<TokenView> {
    ts.filter(|t: TokenView| !t.4 && t.0 == name)
}

proof fn lemma_alias_ranges_filter(ts: Seq<TokenView>, name: Seq<char>)
    ensures
        alias_ranges(ts, name) == aliases_named(ts, name).map_values(|t: TokenView| token_range(t)),
    decreases ts.len(),
{
    reveal(Seq::filter);
    if ts.len() > 0 {
        lemma_alias_ranges_filter(ts.drop_last(), name);
        let f = aliases_named(ts.drop_last(), name);
        if !ts.last().4 && ts.last().0 == name {
            assert(aliases_named(ts, name) == f.push(ts.last()));
            assert(alias_ranges(ts, name) =~= aliases_named(ts, name).map_values(|t: TokenView| token_range(t)));
        } else {
            assert(aliases_named(ts, name) == f);
            assert(alias_ranges(ts, name) =~= aliases_named(ts, name).map_values(|t: TokenView| token_range(t)));
        }
    }
}

/// Without the declaration, find-references lists exactly the aliases of
/// the cursor's document that carry the name of the anchor or alias under
/// the cursor, in text order; with it, the first anchor of that name comes
/// before them. Off any anchor or alias it lists nothing.
pub proof fn law_references_are_document_aliases(text: Seq<char>, p: Position)
    ensures
        !in_bounds(text, p) || cursor_token(doc_tokens(text, p.line as int), p) is None ==> references(
            text,
            p,
            false,
        ).len() == 0 && references(text, p, true).len() == 0,
        ({
            let ts = doc_tokens(text, p.line as int);
            in_bounds(text, p) && cursor_token(ts, p) is Some ==> {
                let name = ts[cursor_token(ts, p)->0].0;
                &&& references(text, p, false) == aliases_named(ts, name).map_values(|t: TokenView| token_range(t))
                &&& references(text, p, true) == match anchor_named(ts, name) {
                    Some(d) => seq![token_range(ts[d])] + references(text, p, false),
                    None => references(text, p, false),
                }
            }
        }),
{
    let ts = doc_tokens(text, p.line as int);
    if in_bounds(text, p) {
        match cursor_token(ts, p) {
            Some(c) => {
                let name = ts[c].0;
                lemma_alias_ranges_filter(ts, name);
                assert(references(text, p, false) =~= alias_ranges(ts, name));
                match anchor_named(ts, name) {
                    Some(d) => assert(references(text, p, true) =~= seq![token_range(ts[d])] + alias_ranges(ts, name)),
                    None => assert(references(text, p, true) =~= alias_ranges(ts, name)),
                }
            },
            None => {},
        }
    }
}

/// The tokens lie in line order: each on a line of `start..end`, no token
/// on an earlier line than one before it.
pub open spec fn in_line_order(ts: Seq<TokenView>) -> bool {
    forall|i: int, j: int| 0 <= i < j < ts.len() ==> (#[trigger] ts[i]).1 <= (#[trigger] ts[j]).1
}

proof fn lemma_tokens_in_order(ls: Seq<Seq<char>>, start: int, end: int)
    requires
        0 <= start,
        end <= ls.len(),
        ls.len() <= u32::MAX,
    ensures
        in_line_order(tokens_in(ls, start, end)),
        forall|k: int| 0 <= k < tokens_in(ls, start, end).len() ==> start <= (#[trigger] tokens_in(ls, start, end)[k]).1 < end,
    decreases end - start,
{
    if end > start {
        lemma_tokens_in_order(ls, start, end - 1);
        let a = tokens_in(ls, start, end - 1);
        let b = line_tokens(ls[end - 1], end - 1);
        assert forall|k: int| 0 <= k < b.len() implies (#[trigger] b[k]).1 == end - 1 by {
            let t = trim(ls[end - 1]);
            if !(t.len() > 0 && t[0] == '#') {
                let raws = tokens_from(ls[end - 1], 0);
                assert(b[k] == located(ls[end - 1], end - 1, raws[k]));
            }
        }
        let ts = a + b;
        assert(tokens_in(ls, start, end) == ts);
        assert forall|i: int, j: int| 0 <= i < j < ts.len() implies (#[trigger] ts[i]).1 <= (#[trigger] ts[j]).1 by {
            if j < a.len() {
                assert(ts[i] == a[i] && ts[j] == a[j]);
            } else if i < a.len() {
                assert(ts[i] == a[i] && ts[j] == b[j - a.len()]);
            } else {
                assert(ts[i] == b[i - a.len()] && ts[j] == b[j - a.len()]);
            }
        }
        assert forall|k: int| 0 <= k < ts.len() implies start <= (#[trigger] ts[k]).1 < end by {
            if k < a.len() {
                assert(ts[k] == a[k]);
            } else {
                assert(ts[k] == b[k - a.len()]);
            }
        }
    }
}

proof fn lemma_doc_start_nonneg(ls: Seq<Seq<char>>, idx: int)
    ensures
        doc_start(ls, idx) >= 0,
    decreases idx,
{
    if idx > 0 && !(idx - 1 < ls.len() && trim(ls[idx - 1]) == "---"@) {
        lemma_doc_start_nonneg(ls, idx - 1);
    }
}

proof fn lemma_doc_end_bounded(ls: Seq<Seq<char>>, from: int)
    ensures
        doc_end(ls, from) <= ls.len(),
    decreases ls.len() - from,
{
    if from < ls.len() && trim(ls[from]) != "---"@ {
        lemma_doc_end_bounded(ls, from + 1);
    }
}

proof fn lemma_filter_in_order(ts: Seq<TokenView>, name: Seq<char>)
    requires
        in_line_order(ts),
    ensures
        in_line_order(aliases_named(ts, name)),
        forall|k: int| 0 <= k < aliases_named(ts, name).len() ==> ts.contains(#[trigger] aliases_named(ts, name)[k]),
    decreases ts.len(),
{
    reveal(Seq::filter);
    if ts.len() > 0 {
        let pre = ts.drop_last();
        assert forall|i: int, j: int| 0 <= i < j < pre.len() implies (#[trigger] pre[i]).1 <= (#[trigger] pre[j]).1 by {
            assert(pre[i] == ts[i] && pre[j] == ts[j]);
        }
        lemma_filter_in_order(pre, name);
        let f = aliases_named(pre, name);
        assert forall|k: int| 0 <= k < f.len() implies ts.contains(#[trigger] f[k]) by {
            let m = choose|m: int| 0 <= m < pre.len() && pre[m] == f[k];
            assert(ts[m] == pre[m]);
        }
        if !ts.last().4 && ts.last().0 == name {
            let g = f.push(ts.last());
            assert(aliases_named(ts, name) == g);
            assert forall|i: int, j: int| 0 <= i < j < g.len() implies (#[trigger] g[i]).1 <= (#[trigger] g[j]).1 by {
                if j == g.len() - 1 {
                    assert(g[i] == f[i]);
                    let m = choose|m: int| 0 <= m < pre.len() && pre[m] == f[i];
                    assert(ts[m] == pre[m]);
                    assert(ts[m].1 <= ts[ts.len() - 1].1);
                } else {
                    assert(g[i] == f[i] && g[j] == f[j]);
                }
            }
            assert forall|k: int| 0 <= k < g.len() implies ts.contains(#[trigger] g[k]) by {
                if k < f.len() {
                    assert(g[k] == f[k]);
                } else {
                    assert(ts[ts.len() - 1] == g[k]);
                }
            }
        } else {
            assert(aliases_named(ts, name) == f);
        }
    }
}

/// The aliases find-references lists come in text order: no reference is
/// on an earlier line than one listed before it (for texts of up to
/// `u32::MAX` lines, whose line numbers the editor protocol can hold).
pub proof fn law_references_in_line_order(text: Seq<char>, p: Position)
    requires
        lines_of(text).len() <= u32::MAX,
    ensures
        forall|i: int, j: int| 0 <= i < j < references(text, p, false).len() ==> (#[trigger] references(text, p, false)[i]).start.line
            <= (#[trigger] references(text, p, false)[j]).start.line,
{
    let ls = lines_of(text);
    let ts = doc_tokens(text, p.line as int);
    if in_bounds(text, p) {
        match cursor_token(ts, p) {
            Some(c) => {
                let name = ts[c].0;
                let st = doc_start(ls, p.line as int);
                let en = doc_end(ls, p.line + 1);
                lemma_doc_start_nonneg(ls, p.line as int);
                lemma_doc_end_bounded(ls, p.line + 1);
                lemma_tokens_in_order(ls, st, en);
                lemma_filter_in_order(ts, name);
                law_references_are_document_aliases(text, p);
                let f = aliases_named(ts, name);
                let r = references(text, p, false);
                assert(r == f.map_values(|t: TokenView| token_range(t)));
                assert forall|i: int, j: int| 0 <= i < j < r.len() implies (#[trigger] r[i]).start.line <= (#[trigger] r[j]).start.line by {
                    assert(r[i] == token_range(f[i]) && r[j] == token_range(f[j]));
                    assert(ts.contains(f[i]) && ts.contains(f[j]));
                    let a = choose|a: int| 0 <= a < ts.len() && ts[a] == f[i];
                    let b = choose|b: int| 0 <= b < ts.len() && ts[b] == f[j];
                    assert(0 <= ts[a].1 < en && 0 <= ts[b].1 < en);
                    assert(f[i].1 <= f[j].1);
                }
            },
            None => {},
        }
    }
}

/// Find references: cursor on `&anchor` or `*alias` returns all `*alias` usage locations.
///
/// When `include_declaration` is true, the `&anchor` definition is also included.
/// Returns an empty list if the cursor is not on an anchor or alias, the position
/// is out of bounds, or the document is empty.
pub fn find_references(text: &str, position: Position, include_declaration: bool) -> (r: Vec<Range>)
    ensures
        r@ == references(text@, position, include_declaration),
{
    let lines = text_lines(text);
    if !position_in_bounds(&lines, text, position) {
        return Vec::new();
    }
    let tokens = position_tokens(&lines, text, position);
    let ghost tv = tokens_view(tokens@);
    let c = match find_cursor_token(&tokens, position, false) {
        None => {
            return Vec::new();
        },
        Some(c) => c,
    };
    let name = str_chars(tokens[c].name.as_str());
    assert(tv[c as int] == token_view(tokens@[c as int]));
    let mut out: Vec<Range> = Vec::new();
    if include_declaration {
        match find_anchor_named(&tokens, &name) {
            Some(d) => {
                assert(tv[d as int] == token_view(tokens@[d as int]));
                out.push(range_of(&tokens[d]));
            },
            None => {},
        }
    }
    let ghost decl = out@;
    let mut i: usize = 0;
    while i < tokens.len()
        invariant
            i <= tokens.len(),
            tv == tokens_view(tokens@),
            out@ == decl + alias_ranges(tv.take(i as int), name@),
        decreases tokens.len() - i,
    {
        let t = &tokens[i];
        assert(tv[i as int] == token_view(*t));
        assert(tv.take(i + 1).drop_last() =~= tv.take(i as int));
        if !t.is_anchor {
            let tn = str_chars(t.name.as_str());
            if chars_eq(&tn, &name) {
                out.push(range_of(t));
            }
        }
        i += 1;
        assert(out@ =~= decl + alias_ranges(tv.take(i as int), name@));
    }
    assert(tv.take(i as int) =~= tv);
    out
}

} // verus!
