//! Scalar type inference helpers for the YAML 1.2 Core schema.
//!
//! Scalars reach the editor as strings; these functions infer the logical
//! type from the string content, following the Core schema rules.
use vstd::prelude::*;

use crate::numbers::{all_digits, ascii_lower, digit_value, digits_value, eq_ignore_case, exp_index, is_decimal_digit, mantissa_ok, float_syntax, float_syntax_check, parse_radix, radix_parse, sign_split};
use crate::text::{eq_lit, str_chars};

verus! {

/// The inferred YAML Core schema type of a plain scalar value.
#[derive(Debug, Clone, Copy, PartialEq, Eq, Structural)]
pub enum PlainScalarKind {
    /// `null`, `Null`, `NULL`, `~`, or empty string.
    Null,
    /// `true`/`True`/`TRUE` or `false`/`False`/`FALSE`.
    Bool,
    /// Decimal, octal (`0o`), or hexadecimal integer with optional sign.
    Integer,
    /// Floating-point, including `.inf`/`.nan` variants.
    Float,
    /// Any value that does not match the above.
    String,
}

/// `null`, `Null`, `NULL`, `~`, or the empty string.
pub open spec fn null_text(s: Seq<char>) -> bool {
    s == "null"@ || s == "Null"@ || s == "NULL"@ || s == "~"@ || s.len() == 0
}

/// `true`/`True`/`TRUE`/`false`/`False`/`FALSE`.
pub open spec fn bool_text(s: Seq<char>) -> bool {
    s == "true"@ || s == "True"@ || s == "TRUE"@ || s == "false"@ || s == "False"@ || s
        == "FALSE"@
}

/// The value of the digit string `d` read in `radix` when it is non-empty,
/// made of digits of `radix` only, and no larger than `i64::MAX`.
pub open spec fn unsigned_value(d: Seq<char>, radix: nat) -> Option<int> {
    if d.len() > 0 && all_digits(d, radix) && digits_value(d, radix) <= i64::MAX {
        Some(digits_value(d, radix) as int)
    } else {
        None
    }
}

/// The Core schema integer denoted by `s`, if any: an optional sign, then
/// `0o` + octal digits, `0x` + hex digits, or decimal digits without a
/// leading zero, whose unsigned value is at most `i64::MAX`; the sign, when
/// `-`, negates it.
pub open spec fn integer_value(s: Seq<char>) -> Option<int> {
    let neg = sign_split(s).0;
    let rest = sign_split(s).1;
    let magnitude: Option<int> = if rest.len() == 0 {
        None
    } else if seq!['0', 'o'].is_prefix_of(rest) {
        unsigned_value(rest.skip(2), 8)
    } else if seq!['0', 'x'].is_prefix_of(rest) {
        unsigned_value(rest.skip(2), 16)
    } else if rest.len() > 1 && rest[0] == '0' {
        None
    } else {
        unsigned_value(rest, 10)
    };
    match magnitude {
        Some(m) => Some(
            if neg {
                -m
            } else {
                m
            },
        ),
        None => None,
    }
}

/// The special float spellings `.inf`, `+.inf`, `-.inf`, `.nan` in their three casings.
pub open spec fn special_float_text(s: Seq<char>) -> bool {
    s == ".inf"@ || s == ".Inf"@ || s == ".INF"@ || s == "+.inf"@ || s == "+.Inf"@ || s
        == "+.INF"@ || s == "-.inf"@ || s == "-.Inf"@ || s == "-.INF"@ || s == ".nan"@ || s
        == ".NaN"@ || s == ".NAN"@
}

/// The Core schema float test: a special spelling, or at most one sign
/// followed by a number `( . digits | digits ( . digits? )? ) ( [eE] sign? digits )?`
/// that holds a `.`, `e` or `E` (digits alone are integers).
pub open spec fn float_text(s: Seq<char>) -> bool {
    let body = sign_split(s).1;
    special_float_text(s) || (body.len() > 0 && body[0] != '+' && body[0] != '-' && (body.contains('.')
        || body.contains('e') || body.contains('E')) && float_syntax(body))
}

/// The Core schema kind of a plain scalar, tested in the order null, bool,
/// integer, float.
pub open spec fn plain_kind(s: Seq<char>) -> PlainScalarKind {
    if null_text(s) {
        PlainScalarKind::Null
    } else if bool_text(s) {
        PlainScalarKind::Bool
    } else if integer_value(s) is Some {
        PlainScalarKind::Integer
    } else if float_text(s) {
        PlainScalarKind::Float
    } else {
        PlainScalarKind::String
    }
}

proof fn lemma_exp_index_le(b: Seq<char>)
    ensures
        exp_index(b) <= b.len(),
    decreases b.len(),
{
    if b.len() > 0 && b[0] != 'e' && b[0] != 'E' {
        lemma_exp_index_le(b.drop_first());
    }
}

/// A float's number (no sign, holding `.`, `e` or `E`) starts with a digit or
/// `.`, and so does everything before its exponent.
proof fn lemma_float_number_start(b: Seq<char>)
    requires
        b.len() > 0,
        b[0] != '+' && b[0] != '-',
        b.contains('.') || b.contains('e') || b.contains('E'),
        float_syntax(b),
    ensures
        exp_index(b) > 0,
        forall|i: int| 0 <= i < exp_index(b) && i < b.len() ==> is_decimal_digit(#[trigger] b[i]) || b[i] == '.',
{
    let k = choose|k: int| 0 <= k < b.len() && (b[k] == '.' || b[k] == 'e' || b[k] == 'E');
    assert(ascii_lower(b[k]) == '.' as u32 || ascii_lower(b[k]) == 'e' as u32);
    assert(!eq_ignore_case(b, seq!['i', 'n', 'f'])) by {
        if eq_ignore_case(b, seq!['i', 'n', 'f']) {
            assert(ascii_lower(b[k]) == seq!['i', 'n', 'f'][k] as u32);
        }
    }
    assert(!eq_ignore_case(b, seq!['i', 'n', 'f', 'i', 'n', 'i', 't', 'y'])) by {
        if eq_ignore_case(b, seq!['i', 'n', 'f', 'i', 'n', 'i', 't', 'y']) {
            assert(ascii_lower(b[k]) == seq!['i', 'n', 'f', 'i', 'n', 'i', 't', 'y'][k] as u32);
        }
    }
    assert(!eq_ignore_case(b, seq!['n', 'a', 'n'])) by {
        if eq_ignore_case(b, seq!['n', 'a', 'n']) {
            assert(ascii_lower(b[k]) == seq!['n', 'a', 'n'][k] as u32);
        }
    }
    lemma_exp_index_le(b);
    let e = exp_index(b) as int;
    let m = b.take(e);
    assert(mantissa_ok(m));
    assert forall|i: int| 0 <= i < e && i < b.len() implies is_decimal_digit(#[trigger] b[i]) || b[i] == '.' by {
        assert(m[i] == b[i]);
    }
}

/// Text whose first character is not a digit, `.`, `+` or `-` is no
/// float.
proof fn lemma_not_float(s: Seq<char>)
    requires
        !special_float_text(s),
        s.len() > 0,
        !is_decimal_digit(s[0]) && s[0] != '.' && s[0] != '+' && s[0] != '-',
    ensures
        !float_text(s),
{
    let body = sign_split(s).1;
    assert(body == s);
    if float_text(s) {
        lemma_float_number_start(body);
    }
}

/// The integer's text (after its sign) and the float's number have no room
/// for one another.
proof fn lemma_integer_not_float(s: Seq<char>)
    requires
        integer_value(s) is Some,
    ensures
        !float_text(s),
{
    reveal_strlit(".inf");
    reveal_strlit(".Inf");
    reveal_strlit(".INF");
    reveal_strlit("+.inf");
    reveal_strlit("+.Inf");
    reveal_strlit("+.INF");
    reveal_strlit("-.inf");
    reveal_strlit("-.Inf");
    reveal_strlit("-.INF");
    reveal_strlit(".nan");
    reveal_strlit(".NaN");
    reveal_strlit(".NAN");
    let rest = sign_split(s).1;
    assert(rest.len() > 0);
    if special_float_text(s) {
        assert(rest[0] == '.');
        assert(digit_value('.', 10) is None);
        assert(digit_value('.', 8) is None);
        assert(digit_value('.', 16) is None);
        assert(!seq!['0', 'o'].is_prefix_of(rest));
        assert(!seq!['0', 'x'].is_prefix_of(rest));
        assert(!all_digits(rest, 10));
    }
    if seq!['0', 'o'].is_prefix_of(rest) || seq!['0', 'x'].is_prefix_of(rest) {
        assert(rest[1] == 'o' || rest[1] == 'x');
        if float_text(s) {
            assert(rest[0] == '0');
            lemma_float_number_start(rest);
            assert(rest.drop_first()[0] == rest[1]);
            assert(exp_index(rest) == 1 + exp_index(rest.drop_first()));
            assert(exp_index(rest.drop_first()) == 1 + exp_index(rest.drop_first().drop_first()));
            assert(is_decimal_digit(rest[1]) || rest[1] == '.');
        }
    } else {
        assert(all_digits(rest, 10));
        assert forall|c: char| c == '.' || c == 'e' || c == 'E' implies !rest.contains(c) by {
            if rest.contains(c) {
                let k = choose|k: int| 0 <= k < rest.len() && rest[k] == c;
                assert(digit_value(rest[k], 10) is Some);
            }
        }
    }
}

/// The Core schema kinds exclude one another: a plain scalar is null, a
/// bool, an integer or a float for at most one of these tests, and its
/// kind is the one test it passes (a string when it passes none).
pub proof fn law_scalar_kinds_exclusive(s: Seq<char>)
    ensures
        !(null_text(s) && bool_text(s)),
        !(null_text(s) && integer_value(s) is Some),
        !(null_text(s) && float_text(s)),
        !(bool_text(s) && integer_value(s) is Some),
        !(bool_text(s) && float_text(s)),
        !(integer_value(s) is Some && float_text(s)),
        (plain_kind(s) == PlainScalarKind::Null) == null_text(s),
        (plain_kind(s) == PlainScalarKind::Bool) == bool_text(s),
        (plain_kind(s) == PlainScalarKind::Integer) == (integer_value(s) is Some),
        (plain_kind(s) == PlainScalarKind::Float) == float_text(s),
        (plain_kind(s) == PlainScalarKind::String) == !(null_text(s) || bool_text(s) || integer_value(
            s,
        ) is Some || float_text(s)),
{
    reveal_strlit("null");
    reveal_strlit("Null");
    reveal_strlit("NULL");
    reveal_strlit("~");
    reveal_strlit("true");
    reveal_strlit("True");
    reveal_strlit("TRUE");
    reveal_strlit("false");
    reveal_strlit("False");
    reveal_strlit("FALSE");
    reveal_strlit(".inf");
    reveal_strlit(".Inf");
    reveal_strlit(".INF");
    reveal_strlit("+.inf");
    reveal_strlit("+.Inf");
    reveal_strlit("+.INF");
    reveal_strlit("-.inf");
    reveal_strlit("-.Inf");
    reveal_strlit("-.INF");
    reveal_strlit(".nan");
    reveal_strlit(".NaN");
    reveal_strlit(".NAN");
    if null_text(s) || bool_text(s) {
        if s.len() > 0 {
            assert(!is_decimal_digit(s[0]) && s[0] != '.' && s[0] != '+' && s[0] != '-');
            assert(!special_float_text(s));
            lemma_not_float(s);
            assert(sign_split(s).1 == s);
            assert(digit_value(s[0], 10) is None);
            assert(!all_digits(s, 10));
            assert(!seq!['0', 'o'].is_prefix_of(s));
            assert(!seq!['0', 'x'].is_prefix_of(s));
        }
    }
    if integer_value(s) is Some {
        lemma_integer_not_float(s);
    }
}

/// The digit of value `d < 16`: `0`-`9`, then `a`-`f`, or `A`-`F` when
/// `upper`.
pub open spec fn digit_char(d: nat, upper: bool) -> char {
    if d == 0 { '0' } else if d == 1 { '1' } else if d == 2 { '2' } else if d == 3 { '3' }
    else if d == 4 { '4' } else if d == 5 { '5' } else if d == 6 { '6' } else if d == 7 { '7' }
    else if d == 8 { '8' } else if d == 9 { '9' }
    else if upper {
        if d == 10 { 'A' } else if d == 11 { 'B' } else if d == 12 { 'C' } else if d == 13 { 'D' }
        else if d == 14 { 'E' } else { 'F' }
    } else {
        if d == 10 { 'a' } else if d == 11 { 'b' } else if d == 12 { 'c' } else if d == 13 { 'd' }
        else if d == 14 { 'e' } else { 'f' }
    }
}

/// The spelling of `n` in `radix` (2 to 16), most significant digit first,
/// without leading zeros.
pub open spec fn spelling(n: nat, radix: nat, upper: bool) -> Seq<char>
    decreases n,
    when radix >= 2
{
    if n < radix {
        seq![digit_char(n, upper)]
    } else {
        proof {
            assert(n / radix < n) by (nonlinear_arith)
                requires
                    n >= radix,
                    radix >= 2,
            ;
        }
        spelling(n / radix, radix, upper).push(digit_char(n % radix, upper))
    }
}

proof fn lemma_digit_char(d: nat, radix: nat, upper: bool)
    requires
        d < radix,
        radix == 8 || radix == 10 || radix == 16,
    ensures
        digit_value(digit_char(d, upper), radix) == Some(d),
        d > 0 ==> digit_char(d, upper) != '0',
        digit_char(d, upper) != '+' && digit_char(d, upper) != '-',
{
}

proof fn lemma_spelling(n: nat, radix: nat, upper: bool)
    requires
        radix == 8 || radix == 10 || radix == 16,
    ensures
        spelling(n, radix, upper).len() > 0,
        all_digits(spelling(n, radix, upper), radix),
        digits_value(spelling(n, radix, upper), radix) == n,
        n > 0 ==> spelling(n, radix, upper)[0] != '0',
        spelling(n, radix, upper)[0] != '+' && spelling(n, radix, upper)[0] != '-',
    decreases n,
{
    let s = spelling(n, radix, upper);
    if n < radix {
        lemma_digit_char(n, radix, upper);
        assert(s.drop_last() =~= Seq::<char>::empty());
        assert(digits_value(s.drop_last(), radix) == 0);
        assert(s.last() == digit_char(n, upper));
        assert(0 * radix == 0);
    } else {
        let q = n / radix;
        let r = n % radix;
        assert(q < n && r < radix && n == q * radix + r) by (nonlinear_arith)
            requires
                n >= radix,
                radix >= 8,
                q == n / radix,
                r == n % radix,
        ;
        lemma_spelling(q, radix, upper);
        lemma_digit_char(r, radix, upper);
        let t = spelling(q, radix, upper);
        assert(s == t.push(digit_char(r, upper)));
        assert(s.drop_last() =~= t);
        assert(s[0] == t[0]);
        assert forall|i: int| 0 <= i < s.len() implies (#[trigger] digit_value(s[i], radix)) is Some by {
            if i < t.len() {
                assert(s[i] == t[i]);
            }
        }
    }
}

proof fn lemma_decimal_read_back(n: nat)
    requires
        n <= i64::MAX,
    ensures
        integer_value(spelling(n, 10, false)) == Some(n as int),
        integer_value(seq!['+'] + spelling(n, 10, false)) == Some(n as int),
        integer_value(seq!['-'] + spelling(n, 10, false)) == Some(-(n as int)),
{
    lemma_spelling(n, 10, false);
    let d = spelling(n, 10, false);
    assert(unsigned_value(d, 10) == Some(n as int));
    if d.len() >= 2 {
        assert(digit_value(d[1], 10) is Some);
        assert(d[1] != 'o' && d[1] != 'x');
        assert(seq!['0', 'o'][1] == 'o');
        assert(seq!['0', 'x'][1] == 'x');
    }
    assert(!seq!['0', 'o'].is_prefix_of(d));
    assert(!seq!['0', 'x'].is_prefix_of(d));
    assert(sign_split(d) == (false, d));
    assert((seq!['+'] + d).drop_first() =~= d);
    assert((seq!['-'] + d).drop_first() =~= d);
}

proof fn lemma_prefixed_read_back(n: nat, radix: nat, upper: bool, p: Seq<char>)
    requires
        n <= i64::MAX,
        (radix == 8 && p == seq!['0', 'o']) || (radix == 16 && p == seq!['0', 'x']),
    ensures
        integer_value(p + spelling(n, radix, upper)) == Some(n as int),
        integer_value(seq!['+'] + p + spelling(n, radix, upper)) == Some(n as int),
        integer_value(seq!['-'] + p + spelling(n, radix, upper)) == Some(-(n as int)),
{
    lemma_spelling(n, radix, upper);
    let d = spelling(n, radix, upper);
    let x = p + d;
    assert(p.is_prefix_of(x));
    assert(x.skip(2) =~= d);
    if radix == 16 {
        assert(!seq!['0', 'o'].is_prefix_of(x)) by {
            assert(x[1] == 'x');
        }
    }
    assert(unsigned_value(d, radix) == Some(n as int));
    assert(sign_split(x) == (false, x));
    assert((seq!['+'] + p + d).drop_first() =~= x);
    assert((seq!['-'] + p + d).drop_first() =~= x);
}

/// Every integer in `i64`'s positive range is read back from its decimal
/// spelling (bare, with `+` or with `-`) and from `0o` and its octal
/// spelling (with an optional `-` before the prefix).
pub proof fn law_integer_spellings_read_back(n: nat)
    requires
        n <= i64::MAX,
    ensures
        integer_value(spelling(n, 10, false)) == Some(n as int),
        integer_value(seq!['+'] + spelling(n, 10, false)) == Some(n as int),
        integer_value(seq!['-'] + spelling(n, 10, false)) == Some(-(n as int)),
        integer_value(seq!['0', 'o'] + spelling(n, 8, false)) == Some(n as int),
        integer_value(seq!['-'] + seq!['0', 'o'] + spelling(n, 8, false)) == Some(-(n as int)),
{
    lemma_decimal_read_back(n);
    lemma_prefixed_read_back(n, 8, false, seq!['0', 'o']);
}

/// Every integer in `i64`'s positive range is read back from `0x` and its
/// hex spelling in either case, with an optional sign before the prefix.
pub proof fn law_hex_spellings_read_back(n: nat)
    requires
        n <= i64::MAX,
    ensures
        integer_value(seq!['0', 'x'] + spelling(n, 16, false)) == Some(n as int),
        integer_value(seq!['0', 'x'] + spelling(n, 16, true)) == Some(n as int),
        integer_value(seq!['+'] + seq!['0', 'x'] + spelling(n, 16, true)) == Some(n as int),
        integer_value(seq!['-'] + seq!['0', 'x'] + spelling(n, 16, true)) == Some(-(n as int)),
{
    lemma_prefixed_read_back(n, 16, false, seq!['0', 'x']);
    lemma_prefixed_read_back(n, 16, true, seq!['0', 'x']);
}

/// The Core schema booleans are exactly `true` and `false` in lower case,
/// title case and upper case: each of the six spellings is classified as a
/// bool, and nothing else is.
pub proof fn law_core_bool_spellings(s: Seq<char>)
    ensures
        (plain_kind(s) == PlainScalarKind::Bool) <==> (s == seq!['t', 'r', 'u', 'e'] || s == seq!['T', 'r', 'u', 'e']
            || s == seq!['T', 'R', 'U', 'E'] || s == seq!['f', 'a', 'l', 's', 'e'] || s == seq!['F', 'a', 'l', 's', 'e']
            || s == seq!['F', 'A', 'L', 'S', 'E']),
{
    reveal_strlit("true");
    reveal_strlit("True");
    reveal_strlit("TRUE");
    reveal_strlit("false");
    reveal_strlit("False");
    reveal_strlit("FALSE");
    law_scalar_kinds_exclusive(s);
    assert("true"@ =~= seq!['t', 'r', 'u', 'e']);
    assert("True"@ =~= seq!['T', 'r', 'u', 'e']);
    assert("TRUE"@ =~= seq!['T', 'R', 'U', 'E']);
    assert("false"@ =~= seq!['f', 'a', 'l', 's', 'e']);
    assert("False"@ =~= seq!['F', 'a', 'l', 's', 'e']);
    assert("FALSE"@ =~= seq!['F', 'A', 'L', 'S', 'E']);
}

/// Classify a plain (unquoted) scalar by its YAML Core schema type.
pub fn classify_plain_scalar(value: &str) -> (r: PlainScalarKind)
    ensures
        r == plain_kind(value@),
{
    if is_null(value) {
        PlainScalarKind::Null
    } else if is_bool(value) {
        PlainScalarKind::Bool
    } else if is_integer(value) {
        PlainScalarKind::Integer
    } else if is_float(value) {
        PlainScalarKind::Float
    } else {
        PlainScalarKind::String
    }
}

/// Returns `true` if the value represents a YAML null.
///
/// Matches: `null`, `Null`, `NULL`, `~`, empty string.
pub fn is_null(value: &str) -> (r: bool)
    ensures
        r == null_text(value@),
{
    let v = str_chars(value);
    eq_lit(&v, "null") || eq_lit(&v, "Null") || eq_lit(&v, "NULL") || eq_lit(&v, "~") || v.len()
        == 0
}

/// Returns `true` if the value represents a YAML boolean.
///
/// Matches: `true`/`True`/`TRUE`, `false`/`False`/`FALSE`.
pub fn is_bool(value: &str) -> (r: bool)
    ensures
        r == bool_text(value@),
{
    let v = str_chars(value);
    eq_lit(&v, "true") || eq_lit(&v, "True") || eq_lit(&v, "TRUE") || eq_lit(&v, "false")
        || eq_lit(&v, "False") || eq_lit(&v, "FALSE")
}

/// Returns `true` if the value represents a YAML integer.
///
/// Supports decimal, octal (`0o`), and hex (`0x`) with optional `+`/`-` prefix.
pub fn is_integer(value: &str) -> (r: bool)
    ensures
        r == integer_value(value@) is Some,
{
    parse_integer(value).is_some()
}

/// Returns `true` if the value represents a YAML float.
///
/// Supports decimal with `.`, exponent notation, `.inf`/`.nan` variants,
/// with at most one sign.
pub fn is_float(value: &str) -> (r: bool)
    ensures
        r == float_text(value@),
{
    let v = str_chars(value);
    if eq_lit(&v, ".inf") || eq_lit(&v, ".Inf") || eq_lit(&v, ".INF") || eq_lit(&v, "+.inf")
        || eq_lit(&v, "+.Inf") || eq_lit(&v, "+.INF") || eq_lit(&v, "-.inf") || eq_lit(&v, "-.Inf")
        || eq_lit(&v, "-.INF") || eq_lit(&v, ".nan") || eq_lit(&v, ".NaN") || eq_lit(&v, ".NAN") {
        return true;
    }
    let ghost s = v@;
    let start: usize = if v.len() > 0 && (v[0] == '-' || v[0] == '+') {
        1
    } else {
        0
    };
    let body = crate::text::slice_range(&v, start, v.len());
    proof {
        if start == 1 {
            assert(body@ =~= s.drop_first());
        } else {
            assert(body@ =~= s);
        }
        assert(sign_split(s).1 == body@);
    }
    if body.len() == 0 || body[0] == '+' || body[0] == '-' {
        return false;
    }
    if !(crate::text::contains_char(&body, '.') || crate::text::contains_char(&body, 'e')
        || crate::text::contains_char(&body, 'E')) {
        return false;
    }
    float_syntax_check(&body)
}

/// The value of `d` read in `radix` when `d` is a non-empty string of its
/// digits whose value is at most `i64::MAX`.
fn parse_unsigned(d: &[char], radix: u32) -> (r: Option<i64>)
    requires
        2 <= radix <= 36,
    ensures
        r is Some <==> unsigned_value(d@, radix as nat) is Some,
        r is Some ==> r->0 as int == unsigned_value(d@, radix as nat)->0,
{
    if d.len() == 0 {
        return None;
    }
    let mut k: usize = 0;
    while k < d.len()
        invariant
            k <= d.len(),
            2 <= radix <= 36,
            forall|j: int| 0 <= j < k ==> (#[trigger] crate::numbers::digit_value(d@[j], radix as nat)) is Some,
        decreases d.len() - k,
    {
        if crate::numbers::digit_of(d[k], radix).is_none() {
            assert(!all_digits(d@, radix as nat));
            return None;
        }
        k += 1;
    }
    assert(all_digits(d@, radix as nat));
    assert(crate::numbers::digit_value(d@[0], radix as nat) is Some);
    assert(sign_split(d@) == (false, d@));
    parse_radix(d, radix)
}

/// Parse a YAML Core schema integer from a string value.
///
/// Supports decimal, octal (`0o`), and hex (`0x`) with optional `+`/`-` prefix.
/// Leading zeros in decimal (e.g. `007`) are not valid.
pub fn parse_integer(value: &str) -> (r: Option<i64>)
    ensures
        r is Some <==> integer_value(value@) is Some,
        r is Some ==> r->0 as int == integer_value(value@)->0,
{
    let v = str_chars(value);
    let ghost s = v@;
    let mut start: usize = 0;
    let mut neg = false;
    if v.len() > 0 && v[0] == '-' {
        neg = true;
        start = 1;
    } else if v.len() > 0 && v[0] == '+' {
        start = 1;
    }
    let rest = crate::text::slice_range(&v, start, v.len());
    proof {
        if start == 1 {
            assert(rest@ =~= s.drop_first());
        } else {
            assert(rest@ =~= s);
        }
        assert(sign_split(s).1 == rest@);
        assert(sign_split(s).0 == neg);
    }
    if rest.len() == 0 {
        return None;
    }
    let magnitude: Option<i64> = if rest.len() >= 2 && rest[0] == '0' && rest[1] == 'o' {
        assert(seq!['0', 'o'].is_prefix_of(rest@));
        let digits = crate::text::slice_range(&rest, 2, rest.len());
        assert(digits@ =~= rest@.skip(2));
        parse_unsigned(&digits, 8)
    } else if rest.len() >= 2 && rest[0] == '0' && rest[1] == 'x' {
        assert(!seq!['0', 'o'].is_prefix_of(rest@));
        assert(seq!['0', 'x'].is_prefix_of(rest@));
        let digits = crate::text::slice_range(&rest, 2, rest.len());
        assert(digits@ =~= rest@.skip(2));
        parse_unsigned(&digits, 16)
    } else {
        proof {
            if rest.len() >= 2 {
                assert(!seq!['0', 'o'].is_prefix_of(rest@)) by {
                    assert(rest@[1] != seq!['0', 'o'][1] || rest@[0] != '0');
                }
                assert(!seq!['0', 'x'].is_prefix_of(rest@)) by {
                    assert(rest@[1] != seq!['0', 'x'][1] || rest@[0] != '0');
                }
            }
        }
        if rest.len() > 1 && rest[0] == '0' {
            return None;
        }
        parse_unsigned(&rest, 10)
    };
    match magnitude {
        Some(m) => {
            if neg {
                Some(-m)
            } else {
                Some(m)
            }
        },
        None => None,
    }
}

/// The YAML 1.1 boolean spellings (`y`/`yes`/`on`, `n`/`no`/`off`, in their casings).
pub open spec fn yaml11_true_text(s: Seq<char>) -> bool {
    s == "y"@ || s == "Y"@ || s == "yes"@ || s == "Yes"@ || s == "YES"@ || s == "on"@ || s
        == "On"@ || s == "ON"@
}

pub open spec fn yaml11_false_text(s: Seq<char>) -> bool {
    s == "n"@ || s == "N"@ || s == "no"@ || s == "No"@ || s == "NO"@ || s == "off"@ || s
        == "Off"@ || s == "OFF"@
}

/// Returns `true` for the sixteen YAML 1.1 boolean spellings that YAML 1.2 reads as strings.
pub fn is_yaml11_bool(value: &str) -> (r: bool)
    ensures
        r == (yaml11_true_text(value@) || yaml11_false_text(value@)),
{
    let v = str_chars(value);
    yaml11_true(&v) || yaml11_false(&v)
}

fn yaml11_true(v: &[char]) -> (r: bool)
    ensures
        r == yaml11_true_text(v@),
{
    eq_lit(v, "y") || eq_lit(v, "Y") || eq_lit(v, "yes") || eq_lit(v, "Yes") || eq_lit(v, "YES")
        || eq_lit(v, "on") || eq_lit(v, "On") || eq_lit(v, "ON")
}

fn yaml11_false(v: &[char]) -> (r: bool)
    ensures
        r == yaml11_false_text(v@),
{
    eq_lit(v, "n") || eq_lit(v, "N") || eq_lit(v, "no") || eq_lit(v, "No") || eq_lit(v, "NO")
        || eq_lit(v, "off") || eq_lit(v, "Off") || eq_lit(v, "OFF")
}

/// The YAML 1.2 boolean a YAML 1.1 boolean spelling stands for: `true` for
/// the `y`/`yes`/`on` family, `false` otherwise.
pub fn yaml11_bool_canonical(value: &str) -> (r: &'static str)
    ensures
        yaml11_true_text(value@) ==> r@ == "true"@,
        !yaml11_true_text(value@) ==> r@ == "false"@,
{
    let v = str_chars(value);
    if yaml11_true(&v) {
        "true"
    } else {
        "false"
    }
}

/// A YAML 1.1 octal literal: `0` followed by one or more octal digits (`0755`).
pub open spec fn yaml11_octal_text(s: Seq<char>) -> bool {
    s.len() >= 2 && s[0] == '0' && forall|i: int| 1 <= i < s.len() ==> '0' <= #[trigger] s[i]
        <= '7'
}

/// Returns `true` for a YAML 1.1 octal literal such as `0755`.
pub fn is_yaml11_octal(value: &str) -> (r: bool)
    ensures
        r == yaml11_octal_text(value@),
{
    let v = str_chars(value);
    if v.len() < 2 || v[0] != '0' {
        return false;
    }
    let mut i: usize = 1;
    while i < v.len()
        invariant
            1 <= i <= v.len(),
            v@ == value@,
            v@.len() >= 2,
            v@[0] == '0',
            forall|k: int| 1 <= k < i ==> '0' <= #[trigger] v@[k] <= '7',
        decreases v.len() - i,
    {
        if !('0' <= v[i] && v[i] <= '7') {
            assert(!('0' <= v@[i as int] <= '7'));
            return false;
        }
        i += 1;
    }
    true
}

} // verus!
