//! Rename for anchors and aliases, on the raw document text.
use vstd::prelude::*;

use crate::anchor_scan::{anchor_char, is_anchor_name_char, text_lines, token_view, tokens_view, TokenView};
use crate::lsp::{Range, TextEdit, Position};
use crate::references::{
    cursor_token, doc_tokens, find_cursor_token, in_bounds, position_in_bounds, position_tokens,
    range_of, token_range,
};
use crate::text::{chars_eq, push_all, str_chars, string_from_chars};

verus! {

/// Longest anchor name that a rename accepts, in bytes.
pub const MAX_ANCHOR_NAME_LEN: usize = 256;

/// A proposed anchor name is valid: non-empty, at most 256 bytes, and made of
/// anchor-name characters only (which are all one byte long).
pub open spec fn valid_anchor_name(name: Seq<char>) -> bool {
    &&& name.len() > 0
    &&& name.len() <= MAX_ANCHOR_NAME_LEN
    &&& forall|i: int| 0 <= i < name.len() ==> anchor_char(#[trigger] name[i])
}

/// Validate that a proposed new anchor name is valid.
pub fn is_valid_anchor_name(name: &str) -> (r: bool)
    ensures
        r == valid_anchor_name(name@),
{
    let v = str_chars(name);
    if v.len() == 0 || v.len() > MAX_ANCHOR_NAME_LEN {
        return false;
    }
    let mut i: usize = 0;
    while i < v.len()
        invariant
            i <= v.len(),
            v@ == name@,
            forall|j: int| 0 <= j < i ==> anchor_char(#[trigger] v@[j]),
        decreases v.len() - i,
    {
        if !is_anchor_name_char(v[i]) {
            return false;
        }
        i += 1;
    }
    true
}

/// The range of the anchor or alias under the cursor.
pub open spec fn rename_target(text: Seq<char>, p: Position) -> Option<Range> {
    if !in_bounds(text, p) {
        None
    } else {
        let ts = doc_tokens(text, p.line as int);
        match cursor_token(ts, p) {
            Some(c) => Some(token_range(ts[c])),
            None => None,
        }
    }
}

/// Prepare rename: validates cursor is on anchor/alias, returns name range.
///
/// Returns `None` if the cursor is not on an anchor or alias, the position
/// is out of bounds, or the document is empty.
pub fn prepare_rename(text: &str, position: Position) -> (r: Option<Range>)
    ensures
        r == rename_target(text@, position),
{
    let lines = text_lines(text);
    if !position_in_bounds(&lines, text, position) {
        return None;
    }
    let tokens = position_tokens(&lines, text, position);
    let ghost tv = tokens_view(tokens@);
    match find_cursor_token(&tokens, position, false) {
        None => None,
        Some(c) => {
            assert(tv[c as int] == token_view(tokens@[c as int]));
            Some(range_of(&tokens[c]))
        },
    }
}

/// The text that replaces a token: its sigil followed by the new name.
pub open spec fn sigil_name(is_anchor: bool, new_name: Seq<char>) -> Seq<char> {
    (if is_anchor {
        seq!['&']
    } else {
        seq!['*']
    }) + new_name
}

/// The edits that rename every token named `name`, in document order.
pub open spec fn rename_edits_in(ts: Seq<TokenView>, name: Seq<char>, new_name: Seq<char>) -> Seq<
    (Range, Seq<char>),
>
    decreases ts.len(),
{
    if ts.len() == 0 {
        seq![]
    } else {
        rename_edits_in(ts.drop_last(), name, new_name) + if ts.last().0 == name {
            seq![(token_range(ts.last()), sigil_name(ts.last().4, new_name))]
        } else {
            seq![]
        }
    }
}

/// What a rename at `p` to `new_name` does: `None` for an invalid name, a
/// position off the text or a cursor on no anchor or alias; otherwise one
/// edit for each anchor and alias of the name under the cursor.
pub open spec fn rename_edits(text: Seq<char>, p: Position, new_name: Seq<char>) -> Option<
    Seq<(Range, Seq<char>)>,
> {
    if !valid_anchor_name(new_name) || !in_bounds(text, p) {
        None
    } else {
        let ts = doc_tokens(text, p.line as int);
        match cursor_token(ts, p) {
            Some(c) => Some(rename_edits_in(ts, ts[c].0, new_name)),
            None => None,
        }
    }
}

/// Rename is offered exactly where it can be carried out: for a valid new
/// name, `rename` gives edits at a position exactly when `prepare_rename`
/// gives a range there, and then one of the edits replaces that range.
pub proof fn law_rename_where_prepared(text: Seq<char>, p: Position, new_name: Seq<char>)
    requires
        valid_anchor_name(new_name),
    ensures
        rename_edits(text, p, new_name) is Some <==> rename_target(text, p) is Some,
        rename_target(text, p) is Some ==> exists|i: int|
            0 <= i < rename_edits(text, p, new_name).unwrap().len()
                && #[trigger] rename_edits(text, p, new_name).unwrap()[i].0 == rename_target(text, p).unwrap(),
{
    if rename_target(text, p) is Some {
        let ts = doc_tokens(text, p.line as int);
        lemma_first_in_range(ts, |t: TokenView| crate::references::at_cursor(t, p.line as int, p.character as int));
        let c = cursor_token(ts, p).unwrap();
        lemma_edits_cover(ts, ts[c].0, new_name, c);
        let es = rename_edits_in(ts, ts[c].0, new_name);
        let k = choose|k: int| 0 <= k < es.len() && #[trigger] es[k].0 == token_range(ts[c]);
        assert(rename_edits(text, p, new_name).unwrap() == es);
        assert(rename_target(text, p).unwrap() == token_range(ts[c]));
        assert(rename_edits(text, p, new_name).unwrap()[k].0 == rename_target(text, p).unwrap());
    }
}

proof fn lemma_first_in_range(ts: Seq<TokenView>, f: spec_fn(TokenView) -> bool)
    ensures
        match crate::references::first_where(ts, f) {
            Some(i) => 0 <= i < ts.len(),
            None => true,
        },
    decreases ts.len(),
{
    if ts.len() > 0 {
        lemma_first_in_range(ts.drop_last(), f);
    }
}

proof fn lemma_edits_cover(ts: Seq<TokenView>, name: Seq<char>, new_name: Seq<char>, c: int)
    requires
        0 <= c < ts.len(),
        ts[c].0 == name,
    ensures
        exists|i: int|
            0 <= i < rename_edits_in(ts, name, new_name).len() && #[trigger] rename_edits_in(ts, name, new_name)[i].0
                == token_range(ts[c]),
    decreases ts.len(),
{
    let r = rename_edits_in(ts, name, new_name);
    let prev = rename_edits_in(ts.drop_last(), name, new_name);
    if c == ts.len() - 1 {
        assert(r[prev.len() as int].0 == token_range(ts[c]));
    } else {
        lemma_edits_cover(ts.drop_last(), name, new_name, c);
        let k = choose|k: int| 0 <= k < prev.len() && #[trigger] prev[k].0 == token_range(ts.drop_last()[c]);
        assert(r[k] == prev[k]);
    }
}

/// An edit as a range and the replacement's characters.
pub open spec fn edit_view(e: TextEdit) -> (Range, Seq<char>) {
    (e.range, e.new_text@)
}

pub open spec fn edits_view(es: Seq<TextEdit>) -> Seq<(Range, Seq<char>)> {
    es.map_values(|e: TextEdit| edit_view(e))
}

/// Rename: returns edits for all occurrences of anchor and aliases.
///
/// Returns `None` if the cursor is not on an anchor or alias, the new name
/// is invalid, the position is out of bounds, or the document is empty.
pub fn rename(text: &str, position: Position, new_name: &str) -> (r: Option<Vec<TextEdit>>)
    ensures
        match r {
            Some(es) => rename_edits(text@, position, new_name@) == Some(edits_view(es@)),
            None => rename_edits(text@, position, new_name@) is None,
        },
{
    if !is_valid_anchor_name(new_name) {
        return None;
    }
    let lines = text_lines(text);
    if !position_in_bounds(&lines, text, position) {
        return None;
    }
    let tokens = position_tokens(&lines, text, position);
    let ghost tv = tokens_view(tokens@);
    let c = match find_cursor_token(&tokens, position, false) {
        None => {
            return None;
        },
        Some(c) => c,
    };
    let name = str_chars(tokens[c].name.as_str());
    assert(tv[c as int] == token_view(tokens@[c as int]));
    let nn = str_chars(new_name);
    let mut out: Vec<TextEdit> = Vec::new();
    let mut i: usize = 0;
    while i < tokens.len()
        invariant
            i <= tokens.len(),
            tv == tokens_view(tokens@),
            nn@ == new_name@,
            edits_view(out@) == rename_edits_in(tv.take(i as int), name@, new_name@),
        decreases tokens.len() - i,
    {
        let t = &tokens[i];
        assert(tv[i as int] == token_view(*t));
        assert(tv.take(i + 1).drop_last() =~= tv.take(i as int));
        let tn = str_chars(t.name.as_str());
        let ghost before = out@;
        if chars_eq(&tn, &name) {
            let mut txt: Vec<char> = Vec::new();
            if t.is_anchor {
                txt.push('&');
            } else {
                txt.push('*');
            }
            push_all(&mut txt, nn.as_slice());
            let e = TextEdit { range: range_of(t), new_text: string_from_chars(txt.as_slice()) };
            out.push(e);
            assert(edits_view(out@) =~= edits_view(before) + seq![edit_view(e)]);
        } else {
            assert(edits_view(out@) =~= edits_view(before));
        }
        i += 1;
        assert(edits_view(out@) =~= rename_edits_in(tv.take(i as int), name@, new_name@));
    }
    assert(tv.take(i as int) =~= tv);
    Some(out)
}

} // verus!
