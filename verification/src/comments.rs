//! Locating YAML comments on a line of text.
//!
//! A `#` starts a comment when it is outside single- and double-quoted
//! strings and is either preceded only by whitespace or directly preceded by
//! a whitespace character.  Inside a double-quoted string a backslash
//! escapes the character after it.
use vstd::prelude::*;

use crate::text::{
    all_ws, byte_len, byte_len_prefix, char_is_ws, is_ws, lemma_byte_len_subrange, slice_range,
    str_byte_len, str_chars, string_from_chars, trim, trimmed,
};

verus! {

/// The `#` at index `i` may start a comment: everything before it is
/// whitespace, or the character just before it is whitespace.
pub open spec fn hash_ok(s: Seq<char>, i: int) -> bool {
    all_ws(s.take(i)) || (i > 0 && is_ws(s[i - 1]))
}

/// Index of the comment-starting `#` at or after `i`, scanning with the given
/// quote state; `None` when the rest of the line holds no comment.
pub open spec fn comment_scan(s: Seq<char>, i: int, in_single: bool, in_double: bool) -> Option<
    int,
>
    decreases s.len() + 1 - i,
{
    if i < 0 || i >= s.len() {
        None
    } else {
        let c = s[i];
        if c == '\'' && !in_double {
            comment_scan(s, i + 1, !in_single, in_double)
        } else if c == '"' && !in_single {
            comment_scan(s, i + 1, in_single, !in_double)
        } else if c == '\\' && in_double {
            comment_scan(s, i + 2, in_single, in_double)
        } else if c == '#' && !in_single && !in_double && hash_ok(s, i) {
            Some(i)
        } else {
            comment_scan(s, i + 1, in_single, in_double)
        }
    }
}

/// Character index of the comment on line `s`, if any.
pub open spec fn comment_start(s: Seq<char>) -> Option<int> {
    comment_scan(s, 0, false, false)
}

pub proof fn lemma_comment_scan_bounds(s: Seq<char>, i: int, sq: bool, dq: bool)
    ensures
        comment_scan(s, i, sq, dq) matches Some(k) ==> i <= k < s.len() && s[k] == '#'
            && hash_ok(s, k),
    decreases s.len() + 1 - i,
{
    if 0 <= i < s.len() {
        let c = s[i];
        if c == '\'' && !dq {
            lemma_comment_scan_bounds(s, i + 1, !sq, dq);
        } else if c == '"' && !sq {
            lemma_comment_scan_bounds(s, i + 1, sq, !dq);
        } else if c == '\\' && dq {
            lemma_comment_scan_bounds(s, i + 2, sq, dq);
        } else if c == '#' && !sq && !dq && hash_ok(s, i) {
        } else {
            lemma_comment_scan_bounds(s, i + 1, sq, dq);
        }
    }
}

/// `true` when the `#` at `i` may start a comment.
fn hash_ok_exec(v: &[char], i: usize) -> (r: bool)
    requires
        i < v@.len(),
    ensures
        r == hash_ok(v@, i as int),
{
    if i > 0 && char_is_ws(v[i - 1]) {
        return true;
    }
    let mut k: usize = 0;
    while k < i
        invariant
            k <= i < v@.len(),
            !(i > 0 && is_ws(v@[i - 1])),
            forall|j: int| 0 <= j < k ==> is_ws(#[trigger] v@[j]),
        decreases i - k,
    {
        if !char_is_ws(v[k]) {
            assert(!is_ws(v@.take(i as int)[k as int]));
            return false;
        }
        k += 1;
    }
    assert(all_ws(v@.take(i as int)));
    true
}

/// Character index of the comment on the line `v`, if any.
pub fn comment_index(v: &[char]) -> (r: Option<usize>)
    ensures
        r is Some <==> comment_start(v@) is Some,
        r is Some ==> r->0 as int == comment_start(v@)->0,
        r is Some ==> r->0 < v@.len() && v@[r->0 as int] == '#',
{
    let mut in_single = false;
    let mut in_double = false;
    let mut i: usize = 0;
    while i < v.len()
        invariant
            comment_scan(v@, 0, false, false) == comment_scan(v@, i as int, in_single, in_double),
        decreases v.len() - i,
    {
        let c = v[i];
        if c == '\'' && !in_double {
            in_single = !in_single;
            i += 1;
        } else if c == '"' && !in_single {
            in_double = !in_double;
            i += 1;
        } else if c == '\\' && in_double {
            if v.len() - i < 2 {
                assert(comment_scan(v@, i + 2, in_single, in_double) is None);
                return None;
            }
            i += 2;
        } else if c == '#' && !in_single && !in_double && hash_ok_exec(v, i) {
            return Some(i);
        } else {
            i += 1;
        }
    }
    None
}

/// Find the comment portion of a single line, respecting quoted strings.
///
/// Returns `(byte_offset_of_hash, comment_text)` or `None` if the line has no comment.
pub fn find_comment_on_line(line: &str) -> (r: Option<(usize, String)>)
    ensures
        r is Some <==> comment_start(line@) is Some,
        r matches Some((b, t)) ==> {
            let k = comment_start(line@)->0;
            &&& b == byte_len(line@.take(k))
            &&& t@ == line@.skip(k)
        },
{
    let n = str_byte_len(line);
    let v = str_chars(line);
    match comment_index(&v) {
        None => None,
        Some(k) => {
            proof {
                lemma_byte_len_subrange(v@, 0, v@.len() as int);
                assert(v@.subrange(0, v@.len() as int) =~= v@);
            }
            let b = byte_len_prefix(&v, k);
            let t = slice_range(&v, k, v.len());
            assert(t@ =~= v@.skip(k as int));
            Some((b, string_from_chars(&t)))
        },
    }
}

/// The content signature of a line: the trimmed text before its comment
/// (the whole line trimmed when it has none).
pub open spec fn signature(s: Seq<char>) -> Seq<char> {
    match comment_start(s) {
        Some(k) => trim(s.take(k)),
        None => trim(s),
    }
}

/// The signature of the line `v`.
pub fn signature_of(v: &[char]) -> (r: Vec<char>)
    ensures
        r@ == signature(v@),
{
    match comment_index(v) {
        Some(k) => {
            let before = slice_range(v, 0, k);
            assert(before@ =~= v@.take(k as int));
            trimmed(&before)
        },
        None => trimmed(v),
    }
}

/// Extract the content signature from a line: the trimmed non-comment portion.
pub fn content_signature(line: &str) -> (r: String)
    ensures
        r@ == signature(line@),
{
    let v = str_chars(line);
    let s = signature_of(&v);
    string_from_chars(&s)
}

} // verus!
