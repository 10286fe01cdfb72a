//! Classification of one raw configuration value.
//!
//! A raw string is interpreted, in strict precedence order, as a base-10
//! signed integer, a decimal floating-point literal, a canonical boolean
//! spelling, or — as the universal fallback — the string itself.

use vstd::prelude::*;

verus! {

/// An ASCII decimal digit.
pub open spec fn is_digit_char(c: char) -> bool {
    48 <= c as int && c as int <= 57
}

/// The numeric value of an ASCII decimal digit.
pub open spec fn digit_char_value(c: char) -> int {
    c as int - 48
}

/// Every character of `s` is an ASCII decimal digit.
pub open spec fn all_digits(s: Seq<char>) -> bool {
    forall|i: int| 0 <= i < s.len() ==> is_digit_char(#[trigger] s[i])
}

/// The base-10 value of a digit string (0 for the empty string).
pub open spec fn digits_value(s: Seq<char>) -> int
    decreases s.len(),
{
    if s.len() == 0 {
        0
    } else {
        digits_value(s.drop_last()) * 10 + digit_char_value(s.last())
    }
}

/// `s` begins with an explicit sign character.
pub open spec fn has_sign(s: Seq<char>) -> bool {
    s.len() > 0 && (s[0] == '+' || s[0] == '-')
}

/// `s` with an explicit leading sign removed.
pub open spec fn unsigned_part(s: Seq<char>) -> Seq<char> {
    if has_sign(s) {
        s.skip(1)
    } else {
        s
    }
}

/// `s` denotes a negative number.
pub open spec fn is_negative_literal(s: Seq<char>) -> bool {
    s.len() > 0 && s[0] == '-'
}

/// A non-empty run of ASCII decimal digits.
pub open spec fn is_digit_run(s: Seq<char>) -> bool {
    s.len() > 0 && all_digits(s)
}

/// The signed mathematical value denoted by an optionally signed digit
/// string (meaningful only when `unsigned_part(s)` is a digit run).
pub open spec fn integer_literal_value(s: Seq<char>) -> int {
    if is_negative_literal(s) {
        -digits_value(unsigned_part(s))
    } else {
        digits_value(unsigned_part(s))
    }
}

/// `s` parses in full as a base-10 signed integer that fits in `i128`:
/// an optional sign, then at least one digit, nothing else, and the
/// denoted value within the 128-bit signed range.
pub open spec fn is_integer_literal(s: Seq<char>) -> bool {
    &&& is_digit_run(unsigned_part(s))
    &&& i128::MIN <= integer_literal_value(s) <= i128::MAX
}

proof fn lemma_digits_value_nonneg(s: Seq<char>)
    requires
        all_digits(s),
    ensures
        digits_value(s) >= 0,
    decreases s.len(),
{
    if s.len() > 0 {
        lemma_digits_value_nonneg(s.drop_last());
    }
}

/// Appending digits never decreases the denoted value.
proof fn lemma_digits_value_prefix_le(s: Seq<char>, i: int)
    requires
        all_digits(s),
        0 <= i <= s.len(),
    ensures
        digits_value(s.take(i)) <= digits_value(s),
    decreases s.len() - i,
{
    if i < s.len() {
        lemma_digits_value_prefix_le(s, i + 1);
        let p = s.take(i + 1);
        assert(p.drop_last() =~= s.take(i));
        lemma_digits_value_nonneg(s.take(i));
        assert(digits_value(s.take(i)) <= digits_value(p));
    } else {
        assert(s.take(i) =~= s);
    }
}

/// Attempt to read the whole of `s` as a base-10 signed 128-bit integer.
///
/// Returns the parsed value exactly when `s` is an integer literal in
/// range, and `None` otherwise.
pub fn parse_integer(s: &str) -> (r: Option<i128>)
    ensures
        r is Some <==> is_integer_literal(s@),
        r matches Some(v) ==> v as int == integer_literal_value(s@),
{
    let n = s.unicode_len();
    if n == 0 {
        return None;
    }
    let c0 = s.get_char(0);
    let negative = c0 == '-';
    let start: usize = if c0 == '-' || c0 == '+' {
        1
    } else {
        0
    };
    proof {
        assert(unsigned_part(s@) =~= s@.subrange(start as int, n as int));
    }
    if start == n {
        // A bare sign has no digits.
        return None;
    }
    let limit: u128 = if negative {
        170141183460469231731687303715884105728u128
    } else {
        170141183460469231731687303715884105727u128
    };
    let mut magnitude: u128 = 0;
    let mut i: usize = start;
    while i < n
        invariant
            start <= i <= n,
            n == s@.len(),
            start == 0 || start == 1,
            start == 1 ==> has_sign(s@),
            start == 0 ==> !has_sign(s@),
            negative == is_negative_literal(s@),
            limit == if negative { 170141183460469231731687303715884105728u128 } else {
                170141183460469231731687303715884105727u128
            },
            all_digits(s@.subrange(start as int, i as int)),
            magnitude as int == digits_value(s@.subrange(start as int, i as int)),
            magnitude <= limit,
        decreases n - i,
    {
        let c = s.get_char(i);
        let code = c as u32;
        if code < 48 || code > 57 {
            // A non-digit after the sign: not an integer literal.
            proof {
                assert(unsigned_part(s@) =~= s@.subrange(start as int, n as int));
                assert(unsigned_part(s@)[i - start] == s@[i as int]);
                assert(!all_digits(unsigned_part(s@)));
            }
            return None;
        }
        let d = (code - 48) as u128;
        if magnitude > (limit - d) / 10 {
            // Any continuation of this digit string overflows the range.
            proof {
                let body = unsigned_part(s@);
                assert(body =~= s@.subrange(start as int, n as int));
                let prefix = s@.subrange(start as int, i + 1);
                assert(prefix.drop_last() =~= s@.subrange(start as int, i as int));
                assert(digits_value(prefix) == magnitude * 10 + d);
                assert(magnitude * 10 + d > limit) by {
                    assert(magnitude >= (limit - d) / 10 + 1);
                    assert(((limit - d) / 10 + 1) * 10 + d > limit) by (nonlinear_arith);
                    assert(magnitude * 10 >= ((limit - d) / 10 + 1) * 10) by (nonlinear_arith)
                        requires magnitude >= (limit - d) / 10 + 1;
                }
                if all_digits(body) {
                    assert(prefix =~= body.take(i + 1 - start));
                    lemma_digits_value_prefix_le(body, i + 1 - start);
                    assert(digits_value(body) > limit);
                }
            }
            return None;
        }
        proof {
            let prefix = s@.subrange(start as int, i + 1);
            assert(prefix.drop_last() =~= s@.subrange(start as int, i as int));
            assert(prefix.last() == s@[i as int]);
            assert(magnitude * 10 + d <= limit) by (nonlinear_arith)
                requires magnitude <= (limit - d) / 10, d <= limit;
        }
        magnitude = magnitude * 10 + d;
        i += 1;
    }
    proof {
        assert(s@.subrange(start as int, n as int) =~= unsigned_part(s@));
    }
    if negative {
        if magnitude == 170141183460469231731687303715884105728u128 {
            Some(i128::MIN)
        } else {
            Some(-(magnitude as i128))
        }
    } else {
        Some(magnitude as i128)
    }
}

/// `c` introduces the exponent part of a float literal.
pub open spec fn is_exp_char(c: char) -> bool {
    c == 'e' || c == 'E'
}

/// `s` spells `inf`, ignoring ASCII case.
pub open spec fn is_inf_chars(s: Seq<char>) -> bool {
    &&& s.len() == 3
    &&& (s[0] == 'i' || s[0] == 'I')
    &&& (s[1] == 'n' || s[1] == 'N')
    &&& (s[2] == 'f' || s[2] == 'F')
}

/// `s` spells `infinity`, ignoring ASCII case.
pub open spec fn is_infinity_chars(s: Seq<char>) -> bool {
    &&& s.len() == 8
    &&& (s[0] == 'i' || s[0] == 'I')
    &&& (s[1] == 'n' || s[1] == 'N')
    &&& (s[2] == 'f' || s[2] == 'F')
    &&& (s[3] == 'i' || s[3] == 'I')
    &&& (s[4] == 'n' || s[4] == 'N')
    &&& (s[5] == 'i' || s[5] == 'I')
    &&& (s[6] == 't' || s[6] == 'T')
    &&& (s[7] == 'y' || s[7] == 'Y')
}

/// `s` spells `nan`, ignoring ASCII case.
pub open spec fn is_nan_chars(s: Seq<char>) -> bool {
    &&& s.len() == 3
    &&& (s[0] == 'n' || s[0] == 'N')
    &&& (s[1] == 'a' || s[1] == 'A')
    &&& (s[2] == 'n' || s[2] == 'N')
}

/// One of the special float spellings: infinity or not-a-number.
pub open spec fn is_special_float(s: Seq<char>) -> bool {
    is_inf_chars(s) || is_infinity_chars(s) || is_nan_chars(s)
}

/// The mantissa of a decimal float literal: digits with at most one
/// decimal point, and at least one digit.
pub open spec fn is_mantissa(s: Seq<char>) -> bool {
    &&& forall|i: int| 0 <= i < s.len() ==> is_digit_char(#[trigger] s[i]) || s[i] == '.'
    &&& exists|i: int| 0 <= i < s.len() && is_digit_char(#[trigger] s[i])
    &&& forall|i: int, j: int|
        0 <= i < s.len() && 0 <= j < s.len() && #[trigger] s[i] == '.' && #[trigger] s[j] == '.'
            ==> i == j
}

/// The exponent part of a decimal float literal: `e` or `E`, an optional
/// sign, then at least one digit.
pub open spec fn is_exponent(s: Seq<char>) -> bool {
    &&& s.len() > 0
    &&& is_exp_char(s[0])
    &&& is_digit_run(unsigned_part(s.skip(1)))
}

/// `s` is a decimal number: a mantissa followed by an optional exponent.
pub open spec fn is_decimal_number(s: Seq<char>) -> bool {
    exists|i: int|
        0 <= i <= s.len() && is_mantissa(#[trigger] s.take(i)) && (i == s.len() || is_exponent(
            s.skip(i),
        ))
}

/// `s` parses in full as a decimal floating-point value: an optional
/// sign, then either a special spelling or a decimal number.
pub open spec fn is_float_literal(s: Seq<char>) -> bool {
    is_special_float(unsigned_part(s)) || is_decimal_number(unsigned_part(s))
}

fn is_special_value(s: &str, start: usize, n: usize) -> (r: bool)
    requires
        n == s@.len(),
        start <= n,
    ensures
        r == is_special_float(s@.subrange(start as int, n as int)),
{
    let len = n - start;
    if len == 3 {
        let c0 = s.get_char(start);
        let c1 = s.get_char(start + 1);
        let c2 = s.get_char(start + 2);
        let inf = (c0 == 'i' || c0 == 'I') && (c1 == 'n' || c1 == 'N') && (c2 == 'f' || c2 == 'F');
        let nan = (c0 == 'n' || c0 == 'N') && (c1 == 'a' || c1 == 'A') && (c2 == 'n' || c2 == 'N');
        inf || nan
    } else if len == 8 {
        let c0 = s.get_char(start);
        let c1 = s.get_char(start + 1);
        let c2 = s.get_char(start + 2);
        let c3 = s.get_char(start + 3);
        let c4 = s.get_char(start + 4);
        let c5 = s.get_char(start + 5);
        let c6 = s.get_char(start + 6);
        let c7 = s.get_char(start + 7);
        (c0 == 'i' || c0 == 'I') && (c1 == 'n' || c1 == 'N') && (c2 == 'f' || c2 == 'F') && (c3
            == 'i' || c3 == 'I') && (c4 == 'n' || c4 == 'N') && (c5 == 'i' || c5 == 'I') && (c6
            == 't' || c6 == 'T') && (c7 == 'y' || c7 == 'Y')
    } else {
        false
    }
}

/// The index of the first exponent character of `s` at or after `start`,
/// or `n` if there is none.
fn find_exp_char(s: &str, start: usize, n: usize) -> (r: usize)
    requires
        n == s@.len(),
        start <= n,
    ensures
        start <= r <= n,
        r == n ==> forall|k: int| start <= k < n ==> !is_exp_char(#[trigger] s@[k]),
        r < n ==> is_exp_char(s@[r as int]) && forall|k: int|
            start <= k < r ==> !is_exp_char(#[trigger] s@[k]),
{
    let mut i: usize = start;
    while i < n
        invariant
            start <= i <= n,
            n == s@.len(),
            forall|k: int| start <= k < i ==> !is_exp_char(#[trigger] s@[k]),
        decreases n - i,
    {
        let c = s.get_char(i);
        if c == 'e' || c == 'E' {
            return i;
        }
        i += 1;
    }
    n
}

/// Whether `s[lo..hi]` is a well-formed mantissa: only digits and at most
/// one decimal point, with at least one digit.
fn is_mantissa_range(s: &str, lo: usize, hi: usize) -> (r: bool)
    requires
        lo <= hi <= s@.len(),
    ensures
        r == is_mantissa(s@.subrange(lo as int, hi as int)),
{
    let ghost part = s@.subrange(lo as int, hi as int);
    let mut digit_seen = false;
    let mut dot_seen = false;
    let mut j: usize = lo;
    while j < hi
        invariant
            lo <= j <= hi <= s@.len(),
            part == s@.subrange(lo as int, hi as int),
            forall|k: int| lo <= k < j ==> is_digit_char(#[trigger] s@[k]) || s@[k] == '.',
            digit_seen <==> exists|k: int| lo <= k < j && is_digit_char(#[trigger] s@[k]),
            dot_seen <==> exists|k: int| lo <= k < j && #[trigger] s@[k] == '.',
            forall|k1: int, k2: int|
                lo <= k1 < j && lo <= k2 < j && #[trigger] s@[k1] == '.' && #[trigger] s@[k2]
                    == '.' ==> k1 == k2,
        decreases hi - j,
    {
        let c = s.get_char(j);
        let code = c as u32;
        if 48 <= code && code <= 57 {
            digit_seen = true;
        } else if c == '.' {
            if dot_seen {
                proof {
                    let d1 = choose|k: int| lo <= k < j && #[trigger] s@[k] == '.';
                    assert(part[d1 - lo] == '.');
                    assert(part[j - lo] == '.');
                }
                return false;
            }
            dot_seen = true;
        } else {
            proof {
                assert(part[j - lo] == s@[j as int]);
            }
            return false;
        }
        j += 1;
    }
    if digit_seen {
        proof {
            let d = choose|k: int| lo <= k < hi && is_digit_char(#[trigger] s@[k]);
            assert(is_digit_char(part[d - lo]));
            assert forall|k: int| 0 <= k < part.len() implies is_digit_char(#[trigger] part[k])
                || part[k] == '.' by {
            assert(part[k] == s@[lo + k]);
            }
            assert forall|k1: int, k2: int|
                0 <= k1 < part.len() && 0 <= k2 < part.len() && #[trigger] part[k1] == '.'
                    && #[trigger] part[k2] == '.' implies k1 == k2 by {
                assert(s@[lo + k1] == '.');
                assert(s@[lo + k2] == '.');
            }
        }
        true
    } else {
        proof {
            if is_mantissa(part) {
                let d = choose|k: int| 0 <= k < part.len() && is_digit_char(#[trigger] part[k]);
                assert(s@[lo + d] == part[d]);
            }
        }
        false
    }
}

/// Whether `s[lo..n]` is a non-empty run of digits.
fn is_digit_run_range(s: &str, lo: usize, n: usize) -> (r: bool)
    requires
        lo <= n == s@.len(),
    ensures
        r == is_digit_run(s@.subrange(lo as int, n as int)),
{
    let ghost part = s@.subrange(lo as int, n as int);
    if lo == n {
        return false;
    }
    let mut j: usize = lo;
    while j < n
        invariant
            lo <= j <= n == s@.len(),
            part == s@.subrange(lo as int, n as int),
            forall|k: int| lo <= k < j ==> is_digit_char(#[trigger] s@[k]),
        decreases n - j,
    {
        let c = s.get_char(j);
        let code = c as u32;
        if code < 48 || code > 57 {
            proof {
                assert(part[j - lo] == s@[j as int]);
            }
            return false;
        }
        j += 1;
    }
    proof {
        assert forall|k: int| 0 <= k < part.len() implies is_digit_char(#[trigger] part[k]) by {
            assert(part[k] == s@[lo + k]);
        }
    }
    true
}

/// When the only exponent character of the body sits at `e_pos`, the only
/// split of the body into mantissa and exponent that could succeed puts
/// the cut exactly there; this lemma discharges every other split.
proof fn lemma_only_split(s: Seq<char>, start: int, e_pos: int, n: int)
    requires
        0 <= start <= e_pos < n == s.len(),
        is_exp_char(s[e_pos]),
        forall|k: int| start <= k < e_pos ==> !is_exp_char(#[trigger] s[k]),
    ensures
        forall|m: int|
            0 <= m <= n - start && m != e_pos - start ==> !(is_mantissa(
                #[trigger] s.subrange(start, n).take(m),
            ) && (m == n - start || is_exponent(s.subrange(start, n).skip(m)))),
{
    let body = s.subrange(start, n);
    assert forall|m: int|
        0 <= m <= n - start && m != e_pos - start implies !(is_mantissa(#[trigger] body.take(m))
        && (m == n - start || is_exponent(body.skip(m)))) by {
        if m > e_pos - start {
            assert(body.take(m)[e_pos - start] == s[e_pos]);
            assert(!is_digit_char(s[e_pos]) && s[e_pos] != '.');
        } else {
            assert(body.skip(m)[0] == s[start + m]);
            assert(!is_exp_char(body.skip(m)[0]));
        }
    }
}

/// When the body has no exponent character at all, the only split that
/// could succeed is the one with no exponent part.
proof fn lemma_mantissa_only_split(s: Seq<char>, start: int, n: int)
    requires
        0 <= start <= n == s.len(),
        forall|k: int| start <= k < n ==> !is_exp_char(#[trigger] s[k]),
    ensures
        is_decimal_number(s.subrange(start, n)) == is_mantissa(s.subrange(start, n)),
{
    let body = s.subrange(start, n);
    assert forall|m: int| 0 <= m < n - start implies !is_exponent(#[trigger] body.skip(m)) by {
        assert(body.skip(m)[0] == s[start + m]);
    }
    if is_mantissa(body) {
        assert(body.take(n - start) =~= body);
        assert(is_mantissa(body.take(n - start)));
    }
    if is_decimal_number(body) {
        let m = choose|m: int|
            0 <= m <= body.len() && is_mantissa(#[trigger] body.take(m)) && (m == body.len()
                || is_exponent(body.skip(m)));
        assert(m == n - start);
        assert(body.take(m) =~= body);
    }
}

/// Decide whether the whole of `s` is a decimal floating-point literal,
/// in the form accepted for the float mapping: an optional sign, then a
/// mantissa with an optional exponent, or a special spelling.
pub fn is_float_value(s: &str) -> (r: bool)
    ensures
        r == is_float_literal(s@),
{
    let n = s.unicode_len();
    if n == 0 {
        proof {
            assert(unsigned_part(s@) =~= s@);
            if is_decimal_number(s@) {
                let m = choose|m: int|
                    0 <= m <= s@.len() && is_mantissa(#[trigger] s@.take(m)) && (m == s@.len()
                        || is_exponent(s@.skip(m)));
                assert(s@.take(m).len() == 0);
            }
        }
        return false;
    }
    let c0 = s.get_char(0);
    let start: usize = if c0 == '-' || c0 == '+' {
        1
    } else {
        0
    };
    let ghost body = s@.subrange(start as int, n as int);
    proof {
        assert(unsigned_part(s@) =~= body);
    }
    if is_special_value(s, start, n) {
        return true;
    }
    let e_pos = find_exp_char(s, start, n);
    if e_pos == n {
        // No exponent: the whole body must be a mantissa.
        let r = is_mantissa_range(s, start, n);
        proof {
            lemma_mantissa_only_split(s@, start as int, n as int);
        }
        return r;
    }
    let mant_ok = is_mantissa_range(s, start, e_pos);
    proof {
        lemma_only_split(s@, start as int, e_pos as int, n as int);
    }
    let ghost expo = body.skip(e_pos - start as int);
    proof {
        assert(expo[0] == s@[e_pos as int]);
        assert(body.take(e_pos - start as int) =~= s@.subrange(start as int, e_pos as int));
        assert(expo.skip(1) =~= s@.subrange(e_pos + 1, n as int));
    }
    if !mant_ok {
        // The one admissible split fails on its mantissa side.
        return false;
    }
    // Check the exponent: an optional sign, then at least one digit.
    let mut k: usize = e_pos + 1;
    if k < n {
        let c = s.get_char(k);
        if c == '+' || c == '-' {
            k += 1;
        }
    }
    proof {
        assert(unsigned_part(expo.skip(1)) =~= s@.subrange(k as int, n as int));
    }
    let run = is_digit_run_range(s, k, n);
    proof {
        assert(run == is_exponent(expo));
        if run {
            assert(is_mantissa(body.take(e_pos - start as int)));
            assert(is_decimal_number(body));
        }
    }
    run
}

/// `s` spells `true`.
pub open spec fn is_true_chars(s: Seq<char>) -> bool {
    s.len() == 4 && s[0] == 't' && s[1] == 'r' && s[2] == 'u' && s[3] == 'e'
}

/// `s` spells `false`.
pub open spec fn is_false_chars(s: Seq<char>) -> bool {
    s.len() == 5 && s[0] == 'f' && s[1] == 'a' && s[2] == 'l' && s[3] == 's' && s[4] == 'e'
}

/// `s` is one of the two canonical boolean spellings, case-sensitively.
pub open spec fn is_bool_literal(s: Seq<char>) -> bool {
    is_true_chars(s) || is_false_chars(s)
}

/// The truth value denoted by a canonical boolean spelling.
pub open spec fn bool_literal_value(s: Seq<char>) -> bool {
    is_true_chars(s)
}

/// Attempt to read the whole of `s` as a boolean: exactly `true` or
/// `false`, nothing else.
pub fn parse_boolean(s: &str) -> (r: Option<bool>)
    ensures
        r is Some <==> is_bool_literal(s@),
        r matches Some(b) ==> b == bool_literal_value(s@),
{
    let n = s.unicode_len();
    if n == 4 {
        if s.get_char(0) == 't' && s.get_char(1) == 'r' && s.get_char(2) == 'u' && s.get_char(3)
            == 'e' {
            Some(true)
        } else {
            None
        }
    } else if n == 5 {
        if s.get_char(0) == 'f' && s.get_char(1) == 'a' && s.get_char(2) == 'l' && s.get_char(3)
            == 's' && s.get_char(4) == 'e' {
            Some(false)
        } else {
            None
        }
    } else {
        None
    }
}

/// One raw value after classification, tagged with its inferred type.
///
/// The float arm keeps the literal text itself: the numeric reading of a
/// float is left to the consumer, while classification is decided here.
pub enum TypedValue {
    Integer(i128),
    Float(String),
    Boolean(bool),
    Text(String),
}

impl TypedValue {
    /// `self` is the correct classification of the raw text `raw` under
    /// the strict precedence order: integer, then float, then boolean,
    /// then the string fallback.
    pub open spec fn represents(self, raw: Seq<char>) -> bool {
        match self {
            TypedValue::Integer(n) => is_integer_literal(raw) && n as int == integer_literal_value(
                raw,
            ),
            TypedValue::Float(f) => !is_integer_literal(raw) && is_float_literal(raw) && f@ == raw,
            TypedValue::Boolean(b) => !is_integer_literal(raw) && !is_float_literal(raw)
                && is_bool_literal(raw) && b == bool_literal_value(raw),
            TypedValue::Text(t) => !is_integer_literal(raw) && !is_float_literal(raw)
                && !is_bool_literal(raw) && t@ == raw,
        }
    }

    /// Classify the raw text `value`, trying each interpretation in the
    /// fixed precedence order and keeping the first that parses in full.
    pub fn new(value: String) -> (r: TypedValue)
        ensures
            r.represents(value@),
    {
        match parse_integer(value.as_str()) {
            Option::Some(n) => TypedValue::Integer(n),
            Option::None => {
                if is_float_value(value.as_str()) {
                    TypedValue::Float(value)
                } else {
                    match parse_boolean(value.as_str()) {
                        Option::Some(b) => TypedValue::Boolean(b),
                        Option::None => TypedValue::Text(value),
                    }
                }
            },
        }
    }
}

} // verus!
