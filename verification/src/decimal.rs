//! Decimal text of integers.

use vstd::prelude::*;
use crate::escape::push_char;
use crate::float_text::is_digit;
use crate::join::{lemma_occurrences_absent, occurrences};

verus! {

/// The character of a decimal digit.
pub open spec fn digit_char(d: nat) -> char
    recommends
        d < 10,
{
    if d == 0 {
        '0'
    } else if d == 1 {
        '1'
    } else if d == 2 {
        '2'
    } else if d == 3 {
        '3'
    } else if d == 4 {
        '4'
    } else if d == 5 {
        '5'
    } else if d == 6 {
        '6'
    } else if d == 7 {
        '7'
    } else if d == 8 {
        '8'
    } else {
        '9'
    }
}

/// The decimal digits of `n`, most significant first, without leading zeros;
/// zero is the single digit `0`.
pub open spec fn decimal(n: nat) -> Seq<char>
    decreases n,
{
    if n < 10 {
        seq![digit_char(n)]
    } else {
        decimal(n / 10).push(digit_char(n % 10))
    }
}

/// The decimal text of a signed number: a minus sign in front of the digits of
/// its magnitude where it is negative.
pub open spec fn signed_decimal(i: int) -> Seq<char> {
    if i < 0 {
        seq!['-'] + decimal((-i) as nat)
    } else {
        decimal(i as nat)
    }
}

/// The decimal text of a number is never empty and holds digits only.
pub proof fn lemma_decimal_digits(n: nat)
    ensures
        decimal(n).len() > 0,
        forall|i: int| 0 <= i < decimal(n).len() ==> is_digit(#[trigger] decimal(n)[i]),
    decreases n,
{
    if n >= 10 {
        lemma_decimal_digits(n / 10);
    }
}

/// A character that is no digit does not occur in the decimal text of a number.
pub proof fn lemma_decimal_count(n: nat, c: char)
    requires
        !is_digit(c),
    ensures
        occurrences(decimal(n), c) == 0,
{
    lemma_decimal_digits(n);
    lemma_occurrences_absent(decimal(n), c);
}

fn digit(d: u8) -> (c: char)
    requires
        d < 10,
    ensures
        c == digit_char(d as nat),
{
    match d {
        0 => '0',
        1 => '1',
        2 => '2',
        3 => '3',
        4 => '4',
        5 => '5',
        6 => '6',
        7 => '7',
        8 => '8',
        _ => '9',
    }
}

/// Appends the decimal digits of `n` to `out`.
pub fn push_decimal(out: &mut String, n: u128)
    ensures
        final(out)@ == old(out)@ + decimal(n as nat),
    decreases n,
{
    if n >= 10 {
        push_decimal(out, n / 10);
    }
    let d: u8 = (n % 10) as u8;
    push_char(out, digit(d));
}

/// Appends the decimal text of the signed number `i` to `out`.
pub fn push_signed_decimal(out: &mut String, i: i64)
    ensures
        final(out)@ == old(out)@ + signed_decimal(i as int),
{
    if i < 0 {
        push_char(out, '-');
        let magnitude: u128 = (-(i as i128)) as u128;
        push_decimal(out, magnitude);
    } else {
        push_decimal(out, i as u128);
    }
}

} // verus!
