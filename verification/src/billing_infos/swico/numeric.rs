//! The number tokens of an amount field: decimal numbers and day counts,
//! in the forms in which the standard library reads a floating-point number
//! and an unsigned byte from text.

use crate::billing_infos::swico::text::to_chars;
use vstd::prelude::*;
use vstd::slice::slice_subrange;

verus! {

/// An ASCII digit.
pub open spec fn is_digit(c: char) -> bool {
    '0' <= c && c <= '9'
}

/// A plus or minus sign.
pub open spec fn is_sign(c: char) -> bool {
    c == '+' || c == '-'
}

/// Every character of `s` is an ASCII digit.
pub open spec fn all_digits(s: Seq<char>) -> bool {
    forall|i: int| 0 <= i < s.len() ==> is_digit(#[trigger] s[i])
}

/// `c` is the lower-case letter `letter` or its upper-case form.
pub open spec fn is_letter(c: char, letter: char) -> bool {
    c == letter || (c as int) + 32 == letter as int
}

/// One of the words `inf`, `infinity` and `nan`, in any mix of cases.
pub open spec fn is_special(s: Seq<char>) -> bool {
    ||| s.len() == 3 && is_letter(s[0], 'i') && is_letter(s[1], 'n') && is_letter(s[2], 'f')
    ||| s.len() == 3 && is_letter(s[0], 'n') && is_letter(s[1], 'a') && is_letter(s[2], 'n')
    ||| s.len() == 8 && is_letter(s[0], 'i') && is_letter(s[1], 'n') && is_letter(s[2], 'f')
        && is_letter(s[3], 'i') && is_letter(s[4], 'n') && is_letter(s[5], 'i') && is_letter(
        s[6],
        't',
    ) && is_letter(s[7], 'y')
}

/// An exponent: the letter `e`, an optional sign, and at least one digit.
pub open spec fn is_exponent(s: Seq<char>) -> bool {
    &&& s.len() >= 2
    &&& is_letter(s[0], 'e')
    &&& {
        let digits = if is_sign(s[1]) {
            s.skip(2)
        } else {
            s.skip(1)
        };
        digits.len() > 0 && all_digits(digits)
    }
}

/// A mantissa: digits, with at most one decimal point among them or at
/// either end, and at least one digit.
pub open spec fn is_mantissa(s: Seq<char>) -> bool {
    ||| s.len() > 0 && all_digits(s)
    ||| exists|p: int|
        0 <= p < s.len() && s.len() > 1 && #[trigger] s[p] == '.' && all_digits(s.take(p))
            && all_digits(s.skip(p + 1))
}

/// A decimal number: a mantissa, optionally followed by an exponent.
pub open spec fn is_number(s: Seq<char>) -> bool {
    ||| is_mantissa(s)
    ||| exists|m: int|
        0 < m < s.len() && is_mantissa(#[trigger] s.take(m)) && is_exponent(s.skip(m))
}

/// The text of a floating-point number: an optional sign before a decimal
/// number or one of the special words. Nothing may stand before or after
/// it, and the decimal point is `.`.
pub open spec fn is_float_text(s: Seq<char>) -> bool {
    let body = if s.len() > 0 && is_sign(s[0]) {
        s.skip(1)
    } else {
        s
    };
    is_special(body) || is_number(body)
}

/// Value of the digit `c`.
pub open spec fn digit_value(c: char) -> nat {
    (c as int - '0' as int) as nat
}

/// Value of a sequence of digits read as a decimal numeral.
pub open spec fn decimal_value(s: Seq<char>) -> nat
    decreases s.len(),
{
    if s.len() == 0 {
        0
    } else {
        decimal_value(s.drop_last()) * 10 + digit_value(s.last())
    }
}

/// The text of a day count: an optional plus sign before a decimal numeral
/// of at most 255, with any number of leading zeros.
pub open spec fn is_day_count_text(s: Seq<char>) -> bool {
    let digits = if s.len() > 0 && s[0] == '+' {
        s.skip(1)
    } else {
        s
    };
    digits.len() > 0 && all_digits(digits) && decimal_value(digits) <= 255
}

/// End of the longest run of digits of `s` that starts at `from`.
spec fn digits_end(s: Seq<char>, from: int) -> int
    decreases s.len() - from,
{
    if 0 <= from < s.len() && is_digit(s[from]) {
        digits_end(s, from + 1)
    } else {
        from
    }
}

/// What `digits_end` returns: the run holds digits only and cannot be
/// extended.
proof fn lemma_digits_end(s: Seq<char>, from: int)
    requires
        0 <= from <= s.len(),
    ensures
        from <= digits_end(s, from) <= s.len(),
        all_digits(s.subrange(from, digits_end(s, from))),
        digits_end(s, from) < s.len() ==> !is_digit(s[digits_end(s, from)]),
    decreases s.len() - from,
{
    if from < s.len() && is_digit(s[from]) {
        lemma_digits_end(s, from + 1);
        let e = digits_end(s, from);
        assert forall|i: int| 0 <= i < e - from implies is_digit(
            #[trigger] s.subrange(from, e)[i],
        ) by {
            if i > 0 {
                assert(s.subrange(from + 1, e)[i - 1] == s[from + i]);
            }
        }
    }
}

/// A run of digits that cannot be extended is the one `digits_end` finds.
proof fn lemma_digits_end_is(s: Seq<char>, from: int, end: int)
    requires
        0 <= from <= end <= s.len(),
        all_digits(s.subrange(from, end)),
        end < s.len() ==> !is_digit(s[end]),
    ensures
        digits_end(s, from) == end,
    decreases end - from,
{
    if from < end {
        assert(s.subrange(from, end)[0] == s[from]);
        assert forall|i: int| 0 <= i < end - from - 1 implies is_digit(
            #[trigger] s.subrange(from + 1, end)[i],
        ) by {
            assert(s.subrange(from, end)[i + 1] == s[from + 1 + i]);
        }
        lemma_digits_end_is(s, from + 1, end);
    }
}

/// The exponent test as a scan: whether the part of `s` from `at` on is an
/// exponent.
spec fn exponent_at(s: Seq<char>, at: int) -> bool {
    &&& 0 <= at
    &&& at + 2 <= s.len()
    &&& is_letter(s[at], 'e')
    &&& {
        let d = if is_sign(s[at + 1]) {
            at + 2
        } else {
            at + 1
        };
        d < s.len() && digits_end(s, d) == s.len()
    }
}

/// The number test as a scan from left to right: digits, an optional point
/// with more digits, then nothing or an exponent.
spec fn scans_as_number(s: Seq<char>) -> bool {
    let a = digits_end(s, 0);
    let has_point = a < s.len() && s[a] == '.';
    let b = if has_point {
        digits_end(s, a + 1)
    } else {
        a
    };
    let digit_count = if has_point {
        b - 1
    } else {
        a
    };
    digit_count > 0 && (b == s.len() || exponent_at(s, b))
}

/// The scan for an exponent decides `is_exponent`.
proof fn lemma_exponent_at(s: Seq<char>, at: int)
    requires
        0 <= at <= s.len(),
    ensures
        exponent_at(s, at) == is_exponent(s.skip(at)),
{
    let t = s.skip(at);
    if t.len() >= 2 && is_letter(t[0], 'e') {
        let d = if is_sign(s[at + 1]) {
            at + 2
        } else {
            at + 1
        };
        let digits = if is_sign(t[1]) {
            t.skip(2)
        } else {
            t.skip(1)
        };
        assert(digits =~= s.subrange(d, s.len() as int));
        if d < s.len() {
            if all_digits(digits) {
                lemma_digits_end_is(s, d, s.len() as int);
            }
            if digits_end(s, d) == s.len() {
                lemma_digits_end(s, d);
            }
        } else {
            lemma_digits_end(s, d);
        }
    }
}

/// Where a mantissa ends at `m` and cannot go on, the scan stops at `m`
/// having seen a digit.
proof fn lemma_mantissa_scan(s: Seq<char>, m: int)
    requires
        0 < m <= s.len(),
        is_mantissa(s.take(m)),
        m < s.len() ==> !is_digit(s[m]) && s[m] != '.',
    ensures
        ({
            let a = digits_end(s, 0);
            let has_point = a < s.len() && s[a] == '.';
            let b = if has_point {
                digits_end(s, a + 1)
            } else {
                a
            };
            let digit_count = if has_point {
                b - 1
            } else {
                a
            };
            b == m && digit_count > 0
        }),
{
    let t = s.take(m);
    if all_digits(t) {
        assert(t =~= s.subrange(0, m));
        lemma_digits_end_is(s, 0, m);
    } else {
        let p = choose|p: int|
            0 <= p < t.len() && t.len() > 1 && #[trigger] t[p] == '.' && all_digits(t.take(p))
                && all_digits(t.skip(p + 1));
        assert(t.take(p) =~= s.subrange(0, p));
        assert(t.skip(p + 1) =~= s.subrange(p + 1, m));
        assert(s[p] == t[p]);
        lemma_digits_end_is(s, 0, p);
        lemma_digits_end_is(s, p + 1, m);
    }
}

/// The scan from left to right decides `is_number`.
proof fn lemma_scans_as_number(s: Seq<char>)
    ensures
        scans_as_number(s) == is_number(s),
{
    let n = s.len() as int;
    let a = digits_end(s, 0);
    lemma_digits_end(s, 0);
    let has_point = a < n && s[a] == '.';
    let b = if has_point {
        digits_end(s, a + 1)
    } else {
        a
    };
    if has_point {
        lemma_digits_end(s, a + 1);
    }
    if scans_as_number(s) {
        let t = s.take(b);
        if has_point {
            assert(t.take(a) =~= s.subrange(0, a));
            assert(t.skip(a + 1) =~= s.subrange(a + 1, b));
            assert(t[a] == '.');
        } else {
            assert(t =~= s.subrange(0, a));
        }
        assert(is_mantissa(t));
        if b == n {
            assert(t =~= s);
        } else {
            lemma_exponent_at(s, b);
        }
    }
    if is_number(s) {
        if is_mantissa(s) {
            assert(s.take(n) =~= s);
            lemma_mantissa_scan(s, n);
        } else {
            let m = choose|m: int|
                0 < m < s.len() && is_mantissa(#[trigger] s.take(m)) && is_exponent(s.skip(m));
            assert(s.skip(m)[0] == s[m]);
            lemma_mantissa_scan(s, m);
            lemma_exponent_at(s, m);
        }
    }
}

fn is_digit_char(c: char) -> (b: bool)
    ensures
        b == is_digit(c),
{
    '0' <= c && c <= '9'
}

fn is_sign_char(c: char) -> (b: bool)
    ensures
        b == is_sign(c),
{
    c == '+' || c == '-'
}

fn is_letter_char(c: char, letter: char) -> (b: bool)
    ensures
        b == is_letter(c, letter),
{
    c == letter || c as u32 + 32 == letter as u32
}

fn skip_digits(token: &[char], from: usize) -> (end: usize)
    requires
        from <= token@.len(),
    ensures
        end == digits_end(token@, from as int),
        from <= end <= token@.len(),
{
    let mut i: usize = from;
    while i < token.len() && is_digit_char(token[i])
        invariant
            from <= i <= token@.len(),
            digits_end(token@, from as int) == digits_end(token@, i as int),
        decreases token@.len() - i,
    {
        i += 1;
    }
    i
}

/// Whether `token` holds digits only.
pub fn digit_chars(token: &[char]) -> (b: bool)
    ensures
        b == all_digits(token@),
{
    proof {
        lemma_digits_end(token@, 0);
        assert(token@.subrange(0, token@.len() as int) =~= token@);
        if all_digits(token@) {
            lemma_digits_end_is(token@, 0, token@.len() as int);
        }
    }
    skip_digits(token, 0) == token.len()
}

fn special_chars(token: &[char]) -> (b: bool)
    ensures
        b == is_special(token@),
{
    let n = token.len();
    if n == 3 {
        (is_letter_char(token[0], 'i') && is_letter_char(token[1], 'n') && is_letter_char(
            token[2],
            'f',
        )) || (is_letter_char(token[0], 'n') && is_letter_char(token[1], 'a') && is_letter_char(
            token[2],
            'n',
        ))
    } else if n == 8 {
        is_letter_char(token[0], 'i') && is_letter_char(token[1], 'n') && is_letter_char(
            token[2],
            'f',
        ) && is_letter_char(token[3], 'i') && is_letter_char(token[4], 'n') && is_letter_char(
            token[5],
            'i',
        ) && is_letter_char(token[6], 't') && is_letter_char(token[7], 'y')
    } else {
        false
    }
}

fn number_chars(token: &[char]) -> (b: bool)
    ensures
        b == is_number(token@),
{
    proof {
        lemma_scans_as_number(token@);
    }
    let n = token.len();
    let a = skip_digits(token, 0);
    let has_point = a < n && token[a] == '.';
    let b = if has_point {
        skip_digits(token, a + 1)
    } else {
        a
    };
    let digit_count = if has_point {
        b - 1
    } else {
        a
    };
    if digit_count == 0 {
        return false;
    }
    if b == n {
        return true;
    }
    if n - b < 2 || !is_letter_char(token[b], 'e') {
        return false;
    }
    let d = if is_sign_char(token[b + 1]) {
        b + 2
    } else {
        b + 1
    };
    d < n && skip_digits(token, d) == n
}

/// Whether `token` holds the text of a floating-point number.
pub fn float_chars(token: &[char]) -> (b: bool)
    ensures
        b == is_float_text(token@),
{
    let n = token.len();
    if n > 0 && is_sign_char(token[0]) {
        let body = slice_subrange(token, 1, n);
        assert(body@ =~= token@.skip(1));
        special_chars(body) || number_chars(body)
    } else {
        special_chars(token) || number_chars(token)
    }
}

/// A longer numeral is worth at least as much as its beginning.
proof fn lemma_decimal_value_grows(s: Seq<char>, k: int)
    requires
        0 <= k <= s.len(),
    ensures
        decimal_value(s.take(k)) <= decimal_value(s),
    decreases s.len(),
{
    if k == s.len() {
        assert(s.take(k) =~= s);
    } else {
        assert(s.drop_last().take(k) =~= s.take(k));
        lemma_decimal_value_grows(s.drop_last(), k);
    }
}

/// Whether `token` holds the text of a day count.
pub fn day_count_chars(token: &[char]) -> (b: bool)
    ensures
        b == is_day_count_text(token@),
{
    let n = token.len();
    let start: usize = if n > 0 && token[0] == '+' {
        1
    } else {
        0
    };
    if start == n {
        return false;
    }
    let ghost digits = token@.subrange(start as int, n as int);
    assert(digits =~= if start == 1 {
        token@.skip(1)
    } else {
        token@
    });
    let mut value: u32 = 0;
    let mut i: usize = start;
    while i < n
        invariant
            start <= i <= n,
            n == token@.len(),
            digits == token@.subrange(start as int, n as int),
            is_day_count_text(token@) == (all_digits(digits) && decimal_value(digits) <= 255),
            all_digits(digits.take(i - start)),
            value == decimal_value(digits.take(i - start)),
            value <= 255,
        decreases n - i,
    {
        let c = token[i];
        if !is_digit_char(c) {
            assert(digits[i - start] == c);
            return false;
        }
        let ghost before = digits.take(i - start);
        let ghost upto = digits.take(i - start + 1);
        assert(upto.drop_last() =~= before);
        assert(upto.last() == c);
        value = value * 10 + (c as u32 - '0' as u32);
        if value > 255 {
            proof {
                lemma_decimal_value_grows(digits, i - start + 1);
            }
            return false;
        }
        i += 1;
    }
    assert(digits.take(n - start) =~= digits);
    true
}

/// Whether `text` holds digits only.
pub fn is_digits(text: &str) -> (b: bool)
    ensures
        b == all_digits(text@),
{
    let chars = to_chars(text);
    digit_chars(chars.as_slice())
}

/// Whether `token` holds the text of a floating-point number, with `.` as
/// the decimal point.
pub fn is_float(token: &str) -> (b: bool)
    ensures
        b == is_float_text(token@),
{
    let chars = to_chars(token);
    float_chars(chars.as_slice())
}

/// Whether `token` holds the text of a day count: a whole number from 0
/// to 255.
pub fn is_day_count(token: &str) -> (b: bool)
    ensures
        b == is_day_count_text(token@),
{
    let chars = to_chars(token);
    day_count_chars(chars.as_slice())
}

} // verus!
