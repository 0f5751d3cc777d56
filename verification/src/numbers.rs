//! Number syntax of the standard library's integer and float parsers.
//!
//! `i64::from_str_radix` (and `str::parse::<i64>`, which is radix 10) accepts
//! an optional `+`/`-` sign followed by at least one digit of the radix, and
//! succeeds when the value fits in `i64`.  `str::parse::<f64>` accepts the
//! grammar its documentation gives (checked here for syntax only; no float is
//! ever produced):
//!
//! ```text
//! Float  ::= Sign? ( 'inf' | 'infinity' | 'nan' | Number )   (letters in any case)
//! Number ::= ( Digit+ | Digit+ '.' Digit* | Digit* '.' Digit+ ) Exp?
//! Exp    ::= [eE] Sign? Digit+
//! ```
use vstd::prelude::*;

verus! {

/// Value of `c` as a digit of `radix` (letters in either case), or `None`.
pub open spec fn digit_value(c: char, radix: nat) -> Option<nat> {
    let d: int = if '0' <= c && c <= '9' {
        (c as int) - ('0' as int)
    } else if 'a' <= c && c <= 'z' {
        (c as int) - ('a' as int) + 10
    } else if 'A' <= c && c <= 'Z' {
        (c as int) - ('A' as int) + 10
    } else {
        -1
    };
    if 0 <= d && d < radix {
        Some(d as nat)
    } else {
        None
    }
}

/// Every character of `s` is a digit of `radix`.
pub open spec fn all_digits(s: Seq<char>, radix: nat) -> bool {
    forall|i: int| 0 <= i < s.len() ==> (#[trigger] digit_value(s[i], radix)) is Some
}

/// Value of the digit string `s` read in `radix` (most significant first).
pub open spec fn digits_value(s: Seq<char>, radix: nat) -> nat
    decreases s.len(),
{
    if s.len() == 0 {
        0
    } else {
        let d = match digit_value(s.last(), radix) {
            Some(d) => d,
            None => 0,
        };
        digits_value(s.drop_last(), radix) * radix + d
    }
}

/// Splits an optional leading `-`/`+` off `s`: `(negative, rest)`.
pub open spec fn sign_split(s: Seq<char>) -> (bool, Seq<char>) {
    if s.len() > 0 && s[0] == '-' {
        (true, s.drop_first())
    } else if s.len() > 0 && s[0] == '+' {
        (false, s.drop_first())
    } else {
        (false, s)
    }
}

/// `i64::from_str_radix(s, radix).ok()`, as a mathematical integer.
pub open spec fn radix_parse(s: Seq<char>, radix: nat) -> Option<int> {
    let neg = sign_split(s).0;
    let body = sign_split(s).1;
    if body.len() == 0 || !all_digits(body, radix) {
        None
    } else {
        let v: int = if neg {
            -(digits_value(body, radix) as int)
        } else {
            digits_value(body, radix) as int
        };
        if i64::MIN <= v && v <= i64::MAX {
            Some(v)
        } else {
            None
        }
    }
}

pub fn digit_of(c: char, radix: u32) -> (r: Option<u32>)
    requires
        2 <= radix <= 36,
    ensures
        r is Some <==> digit_value(c, radix as nat) is Some,
        r is Some ==> r->0 as nat == digit_value(c, radix as nat)->0,
        r is Some ==> r->0 < radix,
{
    let d: u32 = if '0' <= c && c <= '9' {
        (c as u32) - ('0' as u32)
    } else if 'a' <= c && c <= 'z' {
        (c as u32) - ('a' as u32) + 10
    } else if 'A' <= c && c <= 'Z' {
        (c as u32) - ('A' as u32) + 10
    } else {
        return None;
    };
    if d < radix {
        Some(d)
    } else {
        None
    }
}

pub proof fn lemma_digits_value_take(s: Seq<char>, radix: nat, i: int, j: int)
    requires
        0 <= i <= j <= s.len(),
        radix >= 1,
    ensures
        digits_value(s.take(i), radix) <= digits_value(s.take(j), radix),
    decreases j - i,
{
    if i < j {
        lemma_digits_value_take(s, radix, i, j - 1);
        let t = s.take(j);
        assert(t.drop_last() =~= s.take(j - 1));
        let a = digits_value(s.take(j - 1), radix);
        assert(a * radix >= a) by (nonlinear_arith)
            requires
                radix >= 1,
        ;
    }
}

/// `i64::from_str_radix(v, radix).ok()`.
pub fn parse_radix(v: &[char], radix: u32) -> (r: Option<i64>)
    requires
        2 <= radix <= 36,
    ensures
        r is Some <==> radix_parse(v@, radix as nat) is Some,
        r is Some ==> r->0 as int == radix_parse(v@, radix as nat)->0,
{
    let ghost s = v@;
    let mut start: usize = 0;
    let mut neg = false;
    if v.len() > 0 && v[0] == '-' {
        neg = true;
        start = 1;
    } else if v.len() > 0 && v[0] == '+' {
        start = 1;
    }
    let ghost body = s.skip(start as int);
    proof {
        if start == 1 {
            assert(body =~= s.drop_first());
        } else {
            assert(body =~= s);
        }
        assert(sign_split(s).1 == body);
        assert(sign_split(s).0 == neg);
    }
    if start >= v.len() {
        return None;
    }
    // Magnitudes above 2^63 fit neither sign.
    let limit: i128 = 0x8000_0000_0000_0000;
    let mut acc: i128 = 0;
    let mut i = start;
    while i < v.len()
        invariant
            start <= i <= v.len(),
            body == s.skip(start as int),
            s == v@,
            sign_split(s).1 == body,
            sign_split(s).0 == neg,
            2 <= radix <= 36,
            0 <= acc <= limit,
            limit == 0x8000_0000_0000_0000,
            acc == digits_value(body.take(i - start), radix as nat),
            forall|k: int| 0 <= k < i - start ==> (#[trigger] digit_value(body[k], radix as nat)) is Some,
        decreases v.len() - i,
    {
        let d = digit_of(v[i], radix);
        match d {
            None => {
                assert(body[i - start] == v@[i as int]);
                assert(digit_value(body[i - start], radix as nat) is None);
                assert(!all_digits(body, radix as nat));
                return None;
            },
            Some(d) => {
                proof {
                    assert(body[i - start] == v@[i as int]);
                    let t = body.take(i - start + 1);
                    assert(t.drop_last() =~= body.take(i - start));
                    assert(t.last() == v@[i as int]);
                }
                assert(acc * (radix as i128) <= limit * 36) by (nonlinear_arith)
                    requires
                        0 <= acc <= limit,
                        2 <= radix <= 36,
                ;
                let next = acc * (radix as i128) + (d as i128);
                if next > limit {
                    // The value keeps growing with every further digit: out of range either way.
                    proof {
                        let mut k = i + 1;
                        assert(digits_value(body.take(i - start + 1), radix as nat) == next);
                        if all_digits(body, radix as nat) {
                            lemma_digits_value_take(body, radix as nat, i - start + 1, body.len() as int);
                            assert(body.take(body.len() as int) =~= body);
                        }
                    }
                    return None;
                }
                acc = next;
            },
        }
        i += 1;
    }
    proof {
        assert(body.take(i - start) =~= body);
        assert(all_digits(body, radix as nat));
    }
    if neg {
        Some((-acc) as i64)
    } else if acc > 0x7FFF_FFFF_FFFF_FFFF {
        None
    } else {
        Some(acc as i64)
    }
}

/// Code point of the ASCII lower-casing of a character.
pub open spec fn ascii_lower(c: char) -> u32 {
    if 'A' <= c && c <= 'Z' {
        ((c as u32) + 32) as u32
    } else {
        c as u32
    }
}

/// `true` when `s` equals `word` ignoring ASCII case (`word` is lower case).
pub open spec fn eq_ignore_case(s: Seq<char>, word: Seq<char>) -> bool {
    s.len() == word.len() && forall|i: int| 0 <= i < s.len() ==> ascii_lower(#[trigger] s[i])
        == word[i] as u32
}

pub open spec fn is_decimal_digit(c: char) -> bool {
    '0' <= c && c <= '9'
}

/// Index of the first `e`/`E` in `s`, or `s.len()`.
pub open spec fn exp_index(s: Seq<char>) -> nat
    decreases s.len(),
{
    if s.len() == 0 {
        0
    } else if s[0] == 'e' || s[0] == 'E' {
        0
    } else {
        1 + exp_index(s.drop_first())
    }
}

/// Count of `'.'` in `s`.
pub open spec fn dot_count(s: Seq<char>) -> nat
    decreases s.len(),
{
    if s.len() == 0 {
        0
    } else {
        dot_count(s.drop_last()) + if s.last() == '.' {
            1nat
        } else {
            0
        }
    }
}

/// The mantissa part of `Number`: digits with at most one `.` and at least one digit.
pub open spec fn mantissa_ok(m: Seq<char>) -> bool {
    &&& forall|i: int| 0 <= i < m.len() ==> (is_decimal_digit(#[trigger] m[i]) || m[i] == '.')
    &&& dot_count(m) <= 1
    &&& exists|i: int| 0 <= i < m.len() && is_decimal_digit(#[trigger] m[i])
}

/// The `Exp` part (after the `e`/`E`): an optional sign then at least one digit.
pub open spec fn exponent_ok(x: Seq<char>) -> bool {
    let d = sign_split(x).1;
    d.len() > 0 && forall|i: int| 0 <= i < d.len() ==> is_decimal_digit(#[trigger] d[i])
}

/// `str::parse::<f64>().is_ok()`: `s` matches the documented float grammar.
pub open spec fn float_syntax(s: Seq<char>) -> bool {
    let b = if s.len() > 0 && (s[0] == '+' || s[0] == '-') {
        s.drop_first()
    } else {
        s
    };
    let e = exp_index(b) as int;
    ||| eq_ignore_case(b, seq!['i', 'n', 'f'])
    ||| eq_ignore_case(b, seq!['i', 'n', 'f', 'i', 'n', 'i', 't', 'y'])
    ||| eq_ignore_case(b, seq!['n', 'a', 'n'])
    ||| (mantissa_ok(b.take(e)) && (e == b.len() || exponent_ok(b.skip(e + 1))))
}

fn lower_eq(v: &[char], word: &[char]) -> (r: bool)
    ensures
        r == eq_ignore_case(v@, word@),
{
    if v.len() != word.len() {
        return false;
    }
    let mut i: usize = 0;
    while i < v.len()
        invariant
            v.len() == word.len(),
            i <= v.len(),
            forall|k: int| 0 <= k < i ==> ascii_lower(#[trigger] v@[k]) == word@[k] as u32,
        decreases v.len() - i,
    {
        let c = v[i];
        let same = if 'A' <= c && c <= 'Z' {
            (c as u32) + 32 == (word[i] as u32)
        } else {
            (c as u32) == (word[i] as u32)
        };
        if !same {
            return false;
        }
        i += 1;
    }
    true
}

proof fn lemma_exp_index(s: Seq<char>, k: int)
    requires
        0 <= k <= s.len(),
        forall|i: int| 0 <= i < k ==> s[i] != 'e' && s[i] != 'E',
        k < s.len() ==> (s[k] == 'e' || s[k] == 'E'),
    ensures
        exp_index(s) == k,
    decreases s.len(),
{
    if k > 0 {
        assert forall|i: int| 0 <= i < k - 1 implies s.drop_first()[i] != 'e' && s.drop_first()[i]
            != 'E' by {
            assert(s.drop_first()[i] == s[i + 1]);
        }
        if k - 1 < s.drop_first().len() {
            assert(s.drop_first()[k - 1] == s[k]);
        }
        lemma_exp_index(s.drop_first(), k - 1);
    }
}

fn mantissa_check(m: &[char]) -> (r: bool)
    ensures
        r == mantissa_ok(m@),
{
    let mut dots: usize = 0;
    let mut digits = false;
    let mut i: usize = 0;
    while i < m.len()
        invariant
            i <= m.len(),
            dots == dot_count(m@.take(i as int)),
            dots <= 1,
            forall|k: int| 0 <= k < i ==> (is_decimal_digit(#[trigger] m@[k]) || m@[k] == '.'),
            digits <==> exists|k: int| 0 <= k < i && is_decimal_digit(#[trigger] m@[k]),
        decreases m.len() - i,
    {
        let c = m[i];
        proof {
            assert(m@.take(i + 1).drop_last() =~= m@.take(i as int));
        }
        if c == '.' {
            if dots == 1 {
                proof {
                    lemma_dot_count_prefix(m@, i + 1, m@.len() as int);
                    assert(m@.take(m@.len() as int) =~= m@);
                }
                return false;
            }
            dots = 1;
        } else if '0' <= c && c <= '9' {
            digits = true;
        } else {
            return false;
        }
        i += 1;
    }
    assert(m@.take(i as int) =~= m@);
    digits
}

proof fn lemma_dot_count_prefix(s: Seq<char>, i: int, j: int)
    requires
        0 <= i <= j <= s.len(),
    ensures
        dot_count(s.take(i)) <= dot_count(s.take(j)),
    decreases j - i,
{
    if i < j {
        lemma_dot_count_prefix(s, i, j - 1);
        assert(s.take(j).drop_last() =~= s.take(j - 1));
    }
}

fn exponent_check(x: &[char]) -> (r: bool)
    ensures
        r == exponent_ok(x@),
{
    let start: usize = if x.len() > 0 && (x[0] == '+' || x[0] == '-') {
        1
    } else {
        0
    };
    let ghost d = sign_split(x@).1;
    assert(d =~= x@.skip(start as int));
    if start >= x.len() {
        return false;
    }
    let mut i = start;
    while i < x.len()
        invariant
            start <= i <= x.len(),
            d == x@.skip(start as int),
            d == sign_split(x@).1,
            forall|k: int| 0 <= k < i - start ==> is_decimal_digit(#[trigger] d[k]),
        decreases x.len() - i,
    {
        assert(d[i - start] == x@[i as int]);
        if !('0' <= x[i] && x[i] <= '9') {
            assert(!is_decimal_digit(d[i - start]));
            return false;
        }
        i += 1;
    }
    true
}

/// `str::parse::<f64>().is_ok()` for the text `v` (syntax only).
pub fn float_syntax_check(v: &[char]) -> (r: bool)
    ensures
        r == float_syntax(v@),
{
    let start: usize = if v.len() > 0 && (v[0] == '+' || v[0] == '-') {
        1
    } else {
        0
    };
    let ghost b = if v@.len() > 0 && (v@[0] == '+' || v@[0] == '-') {
        v@.drop_first()
    } else {
        v@
    };
    let body = crate::text::slice_range(v, start, v.len());
    assert(body@ =~= b);
    let inf: [char; 3] = ['i', 'n', 'f'];
    assert(inf@ =~= seq!['i', 'n', 'f']);
    let infinity: [char; 8] = ['i', 'n', 'f', 'i', 'n', 'i', 't', 'y'];
    assert(infinity@ =~= seq!['i', 'n', 'f', 'i', 'n', 'i', 't', 'y']);
    let nan: [char; 3] = ['n', 'a', 'n'];
    assert(nan@ =~= seq!['n', 'a', 'n']);
    if lower_eq(body.as_slice(), &inf) || lower_eq(body.as_slice(), &infinity) || lower_eq(
        body.as_slice(),
        &nan,
    ) {
        return true;
    }
    let mut e: usize = 0;
    while e < body.len() && body[e] != 'e' && body[e] != 'E'
        invariant
            e <= body.len(),
            forall|k: int| 0 <= k < e ==> body@[k] != 'e' && body@[k] != 'E',
        decreases body.len() - e,
    {
        e += 1;
    }
    proof {
        lemma_exp_index(body@, e as int);
    }
    let mant = crate::text::slice_range(body.as_slice(), 0, e);
    assert(mant@ =~= b.take(e as int));
    if !mantissa_check(mant.as_slice()) {
        return false;
    }
    if e == body.len() {
        return true;
    }
    let x = crate::text::slice_range(body.as_slice(), e + 1, body.len());
    assert(x@ =~= b.skip(e + 1));
    exponent_check(x.as_slice())
}

} // verus!
