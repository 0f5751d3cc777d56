//! EditorConfig settings that the formatter honours, and the per-directory
//! cache of resolved settings.
//!
//! Reading `.editorconfig` files is I/O and stays with the caller: it asks
//! `ec4rs` for the properties of a file and hands them to
//! [`settings_from_props`]; resolved settings are kept in a
//! [`SettingsCache`] keyed by the file's directory.
use vstd::prelude::*;

use crate::numbers::{all_digits, digits_value, eq_ignore_case};

verus! {

/// Largest `max_line_length` that is honoured; larger values are ignored.
pub const MAX_LINE_LENGTH_CAP: usize = 10_000;

/// Line-ending style requested by `end_of_line`.
#[derive(Debug, Clone, Copy, PartialEq, Eq, Structural)]
pub enum LineEnding {
    Lf,
    Crlf,
    Cr,
}

/// Formatting-relevant settings read from `.editorconfig`.
///
/// Every field is `None` when the property is absent or unparseable.
#[derive(Debug, Clone, Copy, PartialEq, Eq, Structural)]
pub struct EditorConfigSettings {
    pub max_line_length: Option<usize>,
    pub end_of_line: Option<LineEnding>,
    pub insert_final_newline: Option<bool>,
}

impl Default for EditorConfigSettings {
    fn default() -> (r: Self)
        ensures
            r.max_line_length is None,
            r.end_of_line is None,
            r.insert_final_newline is None,
    {
        EditorConfigSettings { max_line_length: None, end_of_line: None, insert_final_newline: None }
    }
}

/// The `max_line_length` property as `ec4rs` parses it.
#[derive(Debug, Clone, Copy, PartialEq, Eq, Structural)]
pub enum MaxLineLenValue {
    Value(usize),
    Off,
}

/// The settings made of parsed property values (`None` where a property is
/// absent or did not parse): a line length is kept only when it is a number
/// no larger than [`MAX_LINE_LENGTH_CAP`].
pub open spec fn settings_of(
    max_line_len: Option<MaxLineLenValue>,
    end_of_line: Option<LineEnding>,
    final_newline: Option<bool>,
) -> EditorConfigSettings {
    EditorConfigSettings {
        max_line_length: match max_line_len {
            Some(MaxLineLenValue::Value(n)) => if n <= MAX_LINE_LENGTH_CAP {
                Some(n)
            } else {
                None
            },
            _ => None,
        },
        end_of_line,
        insert_final_newline: final_newline,
    }
}

/// Builds the settings from parsed property values.
pub fn settings_from_values(
    max_line_len: Option<MaxLineLenValue>,
    end_of_line: Option<LineEnding>,
    final_newline: Option<bool>,
) -> (r: EditorConfigSettings)
    ensures
        r == settings_of(max_line_len, end_of_line, final_newline),
{
    let max_line_length = match max_line_len {
        Some(MaxLineLenValue::Value(n)) => if n <= MAX_LINE_LENGTH_CAP {
            Some(n)
        } else {
            None
        },
        _ => None,
    };
    EditorConfigSettings { max_line_length, end_of_line, insert_final_newline: final_newline }
}

#[verifier::external_type_specification]
#[verifier::external_body]
pub struct ExProperties(ec4rs::Properties);

/// What an `ec4rs::Properties` holds: each key with the raw text of its
/// value.
pub uninterp spec fn property_pairs(props: ec4rs::Properties) -> Map<Seq<char>, Seq<char>>;

/// The raw text of `key`'s value; empty (ec4rs's unset value) when the key
/// is absent.
pub open spec fn raw_property(props: ec4rs::Properties, key: Seq<char>) -> Seq<char> {
    if property_pairs(props).contains_key(key) {
        property_pairs(props)[key]
    } else {
        seq![]
    }
}

/// `s` without one leading `+`, as `usize`'s parser reads a number.
pub open spec fn unsigned_digits(s: Seq<char>) -> Seq<char> {
    if s.len() > 0 && s[0] == '+' {
        s.drop_first()
    } else {
        s
    }
}

/// Every character is ASCII: lower-casing then changes letters only,
/// `A`-`Z` to `a`-`z`.
pub open spec fn ascii_text(s: Seq<char>) -> bool {
    forall|i: int| 0 <= i < s.len() ==> (#[trigger] s[i] as u32) < 128
}

/// A non-empty string of decimal digits.
pub open spec fn decimal_text(s: Seq<char>) -> bool {
    s.len() > 0 && all_digits(s, 10)
}

/// Calls `ec4rs::Properties::get::<MaxLineLen>`, which lower-cases the raw
/// value of `max_line_length` and reads `off`, or else a `usize`: `None`
/// for an unset value, `Off` for `off` in any ASCII case, and for a string
/// of decimal digits (after at most one `+`, which `usize`'s parser admits)
/// its value when it fits in `usize` (else `None`). Any other ASCII value
/// fails to parse and gives `None`; nothing is claimed for other non-ASCII
/// values.
#[verifier::external_body]
fn prop_max_line_len(props: &ec4rs::Properties) -> (r: Option<MaxLineLenValue>)
    ensures
        !property_pairs(*props).contains_key("max_line_length"@) || property_pairs(*props)["max_line_length"@].len() == 0 ==> r is None,
        eq_ignore_case(raw_property(*props, "max_line_length"@), "off"@) ==> r == Some(MaxLineLenValue::Off),
        decimal_text(unsigned_digits(raw_property(*props, "max_line_length"@))) ==> r == (if digits_value(
            unsigned_digits(raw_property(*props, "max_line_length"@)),
            10,
        ) <= usize::MAX {
            Some(MaxLineLenValue::Value(digits_value(unsigned_digits(raw_property(*props, "max_line_length"@)), 10) as usize))
        } else {
            None
        }),
        ascii_text(raw_property(*props, "max_line_length"@)) && !eq_ignore_case(raw_property(*props, "max_line_length"@), "off"@)
            && !decimal_text(unsigned_digits(raw_property(*props, "max_line_length"@))) ==> r is None,
{
    match props.get::<ec4rs::property::MaxLineLen>() {
        Ok(ec4rs::property::MaxLineLen::Value(n)) => Some(MaxLineLenValue::Value(n)),
        Ok(ec4rs::property::MaxLineLen::Off) => Some(MaxLineLenValue::Off),
        Err(_) => None,
    }
}

/// Calls `ec4rs::Properties::get::<EndOfLine>`, which lower-cases the raw
/// value of `end_of_line` and reads `lf`, `crlf` or `cr`: `None` for an
/// unset value, the matching style for those words in any ASCII case, and
/// `None` for any other ASCII value; nothing is claimed for other non-ASCII
/// values.
#[verifier::external_body]
fn prop_end_of_line(props: &ec4rs::Properties) -> (r: Option<LineEnding>)
    ensures
        !property_pairs(*props).contains_key("end_of_line"@) || property_pairs(*props)["end_of_line"@].len() == 0 ==> r is None,
        eq_ignore_case(raw_property(*props, "end_of_line"@), "lf"@) ==> r == Some(LineEnding::Lf),
        eq_ignore_case(raw_property(*props, "end_of_line"@), "crlf"@) ==> r == Some(LineEnding::Crlf),
        eq_ignore_case(raw_property(*props, "end_of_line"@), "cr"@) ==> r == Some(LineEnding::Cr),
        ascii_text(raw_property(*props, "end_of_line"@)) && !eq_ignore_case(raw_property(*props, "end_of_line"@), "lf"@)
            && !eq_ignore_case(raw_property(*props, "end_of_line"@), "crlf"@) && !eq_ignore_case(
            raw_property(*props, "end_of_line"@),
            "cr"@,
        ) ==> r is None,
{
    match props.get::<ec4rs::property::EndOfLine>() {
        Ok(ec4rs::property::EndOfLine::Lf) => Some(LineEnding::Lf),
        Ok(ec4rs::property::EndOfLine::CrLf) => Some(LineEnding::Crlf),
        Ok(ec4rs::property::EndOfLine::Cr) => Some(LineEnding::Cr),
        Err(_) => None,
    }
}

/// Calls `ec4rs::Properties::get::<FinalNewline>`, which lower-cases the
/// raw value of `insert_final_newline` and reads a `bool`: `None` for an
/// unset value, `true`/`false` for those words in any ASCII case, and
/// `None` for any other ASCII value; nothing is claimed for other non-ASCII
/// values.
#[verifier::external_body]
fn prop_final_newline(props: &ec4rs::Properties) -> (r: Option<bool>)
    ensures
        !property_pairs(*props).contains_key("insert_final_newline"@) || property_pairs(*props)["insert_final_newline"@].len() == 0 ==> r is None,
        eq_ignore_case(raw_property(*props, "insert_final_newline"@), "true"@) ==> r == Some(true),
        eq_ignore_case(raw_property(*props, "insert_final_newline"@), "false"@) ==> r == Some(false),
        ascii_text(raw_property(*props, "insert_final_newline"@)) && !eq_ignore_case(
            raw_property(*props, "insert_final_newline"@),
            "true"@,
        ) && !eq_ignore_case(raw_property(*props, "insert_final_newline"@), "false"@) ==> r is None,
{
    match props.get::<ec4rs::property::FinalNewline>() {
        Ok(ec4rs::property::FinalNewline::Value(b)) => Some(b),
        Err(_) => None,
    }
}

/// Reads the formatting settings out of a file's EditorConfig properties.
///
/// A property that is unset gives `None`; `end_of_line` and
/// `insert_final_newline` give their value for their words in any ASCII
/// case; `max_line_length` gives a decimal number (with at most one
/// leading `+`) no larger than [`MAX_LINE_LENGTH_CAP`] and `None` for `off`
/// or a larger number. Any other ASCII value gives `None`.
pub fn settings_from_props(props: &ec4rs::Properties) -> (r: EditorConfigSettings)
    ensures
        exists|m: Option<MaxLineLenValue>, e: Option<LineEnding>, f: Option<bool>|
            r == settings_of(m, e, f),
        r.max_line_length matches Some(n) ==> n <= MAX_LINE_LENGTH_CAP,
        ({
            let raw = raw_property(*props, "max_line_length"@);
            &&& raw.len() == 0 ==> r.max_line_length is None
            &&& eq_ignore_case(raw, "off"@) ==> r.max_line_length is None
            &&& decimal_text(unsigned_digits(raw)) ==> r.max_line_length == (if digits_value(unsigned_digits(raw), 10) <= MAX_LINE_LENGTH_CAP {
                Some(digits_value(unsigned_digits(raw), 10) as usize)
            } else {
                None
            })
            &&& ascii_text(raw) && !decimal_text(unsigned_digits(raw)) ==> r.max_line_length is None
        }),
        ({
            let raw = raw_property(*props, "end_of_line"@);
            &&& raw.len() == 0 ==> r.end_of_line is None
            &&& eq_ignore_case(raw, "lf"@) ==> r.end_of_line == Some(LineEnding::Lf)
            &&& eq_ignore_case(raw, "crlf"@) ==> r.end_of_line == Some(LineEnding::Crlf)
            &&& eq_ignore_case(raw, "cr"@) ==> r.end_of_line == Some(LineEnding::Cr)
            &&& ascii_text(raw) && !eq_ignore_case(raw, "lf"@) && !eq_ignore_case(raw, "crlf"@)
                && !eq_ignore_case(raw, "cr"@) ==> r.end_of_line is None
        }),
        ({
            let raw = raw_property(*props, "insert_final_newline"@);
            &&& raw.len() == 0 ==> r.insert_final_newline is None
            &&& eq_ignore_case(raw, "true"@) ==> r.insert_final_newline == Some(true)
            &&& eq_ignore_case(raw, "false"@) ==> r.insert_final_newline == Some(false)
            &&& ascii_text(raw) && !eq_ignore_case(raw, "true"@) && !eq_ignore_case(raw, "false"@)
                ==> r.insert_final_newline is None
        }),
{
    let m = prop_max_line_len(props);
    let e = prop_end_of_line(props);
    let f = prop_final_newline(props);
    settings_from_values(m, e, f)
}

/// Resolved settings, keyed by directory path.
pub struct SettingsCache {
    entries: Vec<(String, EditorConfigSettings)>,
}

/// The entry for `key` in `es`, searching from the front.
pub open spec fn lookup(es: Seq<(Seq<char>, EditorConfigSettings)>, key: Seq<char>) -> Option<
    EditorConfigSettings,
>
    decreases es.len(),
{
    if es.len() == 0 {
        None
    } else if es[0].0 == key {
        Some(es[0].1)
    } else {
        lookup(es.drop_first(), key)
    }
}

impl SettingsCache {
    /// The entries as (directory, settings) pairs, oldest first.
    pub closed spec fn entries_view(&self) -> Seq<(Seq<char>, EditorConfigSettings)> {
        self.entries@.map_values(|e: (String, EditorConfigSettings)| (e.0@, e.1))
    }

    /// The cache as a map from directory to settings.
    pub open spec fn view(&self) -> Map<Seq<char>, EditorConfigSettings> {
        Map::new(
            |k: Seq<char>| lookup(self.entries_view(), k) is Some,
            |k: Seq<char>| lookup(self.entries_view(), k)->0,
        )
    }

    /// An empty cache.
    pub fn new() -> (r: Self)
        ensures
            r.view() == Map::<Seq<char>, EditorConfigSettings>::empty(),
    {
        let r = SettingsCache { entries: Vec::new() };
        assert(r.view() =~= Map::<Seq<char>, EditorConfigSettings>::empty());
        r
    }

    /// The settings cached for `dir`, if any.
    pub fn get(&self, dir: &str) -> (r: Option<EditorConfigSettings>)
        ensures
            r == lookup(self.entries_view(), dir@),
            r matches Some(s) ==> self.view().contains_key(dir@) && self.view()[dir@] == s,
            r is None ==> !self.view().contains_key(dir@),
    {
        let ghost es = self.entries_view();
        let mut i: usize = 0;
        assert(es.skip(0) =~= es);
        while i < self.entries.len()
            invariant
                i <= self.entries@.len(),
                es == self.entries_view(),
                lookup(es, dir@) == lookup(es.skip(i as int), dir@),
            decreases self.entries.len() - i,
        {
            assert(es.skip(i as int)[0] == (self.entries@[i as int].0@, self.entries@[i as int].1));
            if crate::text::str_eq(self.entries[i].0.as_str(), dir) {
                return Some(self.entries[i].1);
            }
            assert(es.skip(i as int).drop_first() =~= es.skip(i + 1));
            i += 1;
        }
        assert(es.skip(i as int).len() == 0);
        None
    }

    /// Stores `settings` for `dir` unless `dir` already has an entry, which
    /// then stays as it was.
    pub fn insert_if_absent(&mut self, dir: &str, settings: EditorConfigSettings)
        ensures
            final(self).view() == if old(self).view().contains_key(dir@) {
                old(self).view()
            } else {
                old(self).view().insert(dir@, settings)
            },
    {
        match self.get(dir) {
            Some(_) => {},
            None => {
                let ghost es = self.entries_view();
                let key = dir.to_owned();
                self.entries.push((key, settings));
                proof {
                    let es2 = self.entries_view();
                    assert(es2 =~= es.push((dir@, settings)));
                    lemma_lookup_push(es, dir@, settings);
                }
                assert(self.view() =~= old(self).view().insert(dir@, settings));
            },
        }
    }

    /// Drops every cached entry.
    pub fn clear(&mut self)
        ensures
            final(self).view() == Map::<Seq<char>, EditorConfigSettings>::empty(),
    {
        self.entries = Vec::new();
        assert(self.view() =~= Map::<Seq<char>, EditorConfigSettings>::empty());
    }
}

/// Appending an entry for a key that is not present adds exactly that key.
pub proof fn lemma_lookup_push(
    es: Seq<(Seq<char>, EditorConfigSettings)>,
    key: Seq<char>,
    s: EditorConfigSettings,
)
    requires
        lookup(es, key) is None,
    ensures
        forall|k: Seq<char>|
            #[trigger] lookup(es.push((key, s)), k) == if k == key {
                Some(s)
            } else {
                lookup(es, k)
            },
    decreases es.len(),
{
    if es.len() == 0 {
        assert(es.push((key, s)).drop_first() =~= es);
    } else {
        assert(es[0].0 != key);
        assert(es.push((key, s)).drop_first() =~= es.drop_first().push((key, s)));
        lemma_lookup_push(es.drop_first(), key, s);
        assert(es.push((key, s))[0] == es[0]);
        assert forall|k: Seq<char>|
            #[trigger] lookup(es.push((key, s)), k) == if k == key {
                Some(s)
            } else {
                lookup(es, k)
            } by {
            assert(lookup(es.drop_first().push((key, s)), k) == if k == key {
                Some(s)
            } else {
                lookup(es.drop_first(), k)
            });
        }
    }
}

/// Reads of the cache after its updates: after storing `s` for `dir` (by
/// [`SettingsCache::insert_if_absent`], whose result is `after`) a read of
/// `dir` gives the first settings stored for it and reads of other
/// directories are unchanged; after [`invalidate_all`] (whose result is
/// `cleared`) no directory is cached, so fresh settings are read again
/// instead of stale ones.
pub proof fn law_cache_reads(
    before: Map<Seq<char>, EditorConfigSettings>,
    after: Map<Seq<char>, EditorConfigSettings>,
    cleared: Map<Seq<char>, EditorConfigSettings>,
    dir: Seq<char>,
    s: EditorConfigSettings,
)
    requires
        after == (if before.contains_key(dir) {
            before
        } else {
            before.insert(dir, s)
        }),
        cleared == Map::<Seq<char>, EditorConfigSettings>::empty(),
    ensures
        after.contains_key(dir),
        after[dir] == (if before.contains_key(dir) {
            before[dir]
        } else {
            s
        }),
        forall|k: Seq<char>| k != dir ==> (after.contains_key(k) == before.contains_key(k) && (
        before.contains_key(k) ==> after[k] == before[k])),
        forall|k: Seq<char>| !cleared.contains_key(k),
{
}

/// Clear the entire cache (called when `.editorconfig` files change).
pub fn invalidate_all(cache: &mut SettingsCache)
    ensures
        final(cache).view() == Map::<Seq<char>, EditorConfigSettings>::empty(),
{
    cache.clear();
}

} // verus!
