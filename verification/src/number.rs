use vstd::prelude::*;
use crate::text::chars_of;
use crate::token::{run_end, scan_run, CharClass};

verus! {

/// True of a plus or minus sign.
pub open spec fn sign(c: char) -> bool {
    c == '+' || c == '-'
}

/// True when `c` is the letter given in its small and its capital form.
pub open spec fn letter_is(c: char, small: char, capital: char) -> bool {
    c == small || c == capital
}

/// True when `t` from `k` on spells `inf`, `infinity` or `nan`, in letters
/// of either case.
pub open spec fn special(t: Seq<char>, k: int) -> bool {
    ||| (t.len() - k == 3 && letter_is(t[k], 'i', 'I') && letter_is(t[k + 1], 'n', 'N')
        && letter_is(t[k + 2], 'f', 'F'))
    ||| (t.len() - k == 3 && letter_is(t[k], 'n', 'N') && letter_is(t[k + 1], 'a', 'A')
        && letter_is(t[k + 2], 'n', 'N'))
    ||| (t.len() - k == 8 && letter_is(t[k], 'i', 'I') && letter_is(t[k + 1], 'n', 'N')
        && letter_is(t[k + 2], 'f', 'F') && letter_is(t[k + 3], 'i', 'I') && letter_is(
        t[k + 4],
        'n',
        'N',
    ) && letter_is(t[k + 5], 'i', 'I') && letter_is(t[k + 6], 't', 'T') && letter_is(
        t[k + 7],
        'y',
        'Y',
    ))
}

/// True when `t` from `k` on is an optional sign and then digits, at least
/// one, up to the end.
pub open spec fn exponent(t: Seq<char>, k: int) -> bool {
    let d = if 0 <= k < t.len() && sign(t[k]) {
        k + 1
    } else {
        k
    };
    d < run_end(t, d, CharClass::Digit) == t.len()
}

/// True when `t` from `k` on is digits with at most one point among them,
/// at least one digit in all, and then an exponent or nothing.
pub open spec fn decimal(t: Seq<char>, k: int) -> bool {
    let a = run_end(t, k, CharClass::Digit);
    let point = 0 <= a < t.len() && t[a] == '.';
    let b = if point {
        run_end(t, a + 1, CharClass::Digit)
    } else {
        a
    };
    let digits = if point {
        b - k - 1
    } else {
        a - k
    };
    digits > 0 && (b == t.len() || (0 <= b < t.len() && (t[b] == 'e' || t[b] == 'E') && exponent(
        t,
        b + 1,
    )))
}

/// True of the texts that read as a floating-point literal: an optional
/// sign, then `inf`, `infinity` or `nan` in letters of either case, or a
/// decimal number with an optional exponent.
pub open spec fn float_literal(t: Seq<char>) -> bool {
    t.len() > 0 && {
        let k = if sign(t[0]) {
            1int
        } else {
            0int
        };
        k < t.len() && (decimal(t, k) || special(t, k))
    }
}

fn is_letter_of(c: char, small: char, capital: char) -> (b: bool)
    ensures
        b == letter_is(c, small, capital),
{
    c == small || c == capital
}

fn is_special(t: &Vec<char>, k: usize) -> (b: bool)
    requires
        k <= t.len(),
    ensures
        b == special(t@, k as int),
{
    let n = t.len() - k;
    if n == 3 {
        (is_letter_of(t[k], 'i', 'I') && is_letter_of(t[k + 1], 'n', 'N') && is_letter_of(
            t[k + 2],
            'f',
            'F',
        )) || (is_letter_of(t[k], 'n', 'N') && is_letter_of(t[k + 1], 'a', 'A') && is_letter_of(
            t[k + 2],
            'n',
            'N',
        ))
    } else if n == 8 {
        is_letter_of(t[k], 'i', 'I') && is_letter_of(t[k + 1], 'n', 'N') && is_letter_of(
            t[k + 2],
            'f',
            'F',
        ) && is_letter_of(t[k + 3], 'i', 'I') && is_letter_of(t[k + 4], 'n', 'N') && is_letter_of(
            t[k + 5],
            'i',
            'I',
        ) && is_letter_of(t[k + 6], 't', 'T') && is_letter_of(t[k + 7], 'y', 'Y')
    } else {
        false
    }
}

fn is_exponent(t: &Vec<char>, k: usize) -> (b: bool)
    requires
        k <= t.len(),
    ensures
        b == exponent(t@, k as int),
{
    let d: usize = if k < t.len() && (t[k] == '+' || t[k] == '-') {
        k + 1
    } else {
        k
    };
    let e = scan_run(t, d, CharClass::Digit);
    d < e && e == t.len()
}

fn is_decimal(t: &Vec<char>, k: usize) -> (b: bool)
    requires
        k <= t.len(),
    ensures
        b == decimal(t@, k as int),
{
    let a = scan_run(t, k, CharClass::Digit);
    let point = a < t.len() && t[a] == '.';
    let b = if point {
        scan_run(t, a + 1, CharClass::Digit)
    } else {
        a
    };
    let some_digit = if point {
        b - k > 1
    } else {
        a > k
    };
    some_digit && (b == t.len() || ((t[b] == 'e' || t[b] == 'E') && is_exponent(t, b + 1)))
}

/// Tells whether `text` reads as a floating-point literal.
pub fn is_float_literal(text: &str) -> (b: bool)
    ensures
        b == float_literal(text@),
{
    let t = chars_of(text);
    if t.len() == 0 {
        return false;
    }
    let k: usize = if t[0] == '+' || t[0] == '-' {
        1
    } else {
        0
    };
    k < t.len() && (is_decimal(&t, k) || is_special(&t, k))
}

} // verus!
