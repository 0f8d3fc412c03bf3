//! Positional notation: digits of a number in a base, zero-padded to a width.

use vstd::prelude::*;

verus! {

/// `String::push` appends one character to the end of the string and leaves
/// the characters before it as they were.
pub assume_specification[ String::push ](s: &mut String, ch: char)
    ensures
        final(s)@ == old(s)@.push(ch),
;

/// The character that stands for the digit value `d`: `0` to `9`, then the
/// letters from `a` (or from `A` when `upper` is set).
pub open spec fn digit_char(d: nat, upper: bool) -> char {
    if d < 10 {
        ('0' as nat + d) as char
    } else if upper {
        ('A' as nat + d - 10) as char
    } else {
        ('a' as nat + d - 10) as char
    }
}

/// The digits of `n` in base `radix`, most significant first, padded with
/// leading zeros to at least `width` digits. There is always at least one
/// digit.
pub open spec fn padded_digits(n: nat, radix: nat, width: nat, upper: bool) -> Seq<char>
    decreases n, width,
    via padded_digits_terminates
{
    if radix < 2 || (n < radix && width <= 1) {
        seq![digit_char(n, upper)]
    } else {
        padded_digits(n / radix, radix, one_less(width), upper).push(digit_char(n % radix, upper))
    }
}

/// `width - 1`, or zero when `width` is zero already.
pub open spec fn one_less(width: nat) -> nat {
    if width > 0 {
        (width - 1) as nat
    } else {
        0
    }
}

#[via_fn]
proof fn padded_digits_terminates(n: nat, radix: nat, width: nat, upper: bool) {
    if radix >= 2 {
        lemma_quotient_is_smaller(n, radix);
    }
}

/// Dividing by a base of at least two gives zero below the base and a
/// strictly smaller number from the base on.
proof fn lemma_quotient_is_smaller(n: nat, radix: nat)
    requires
        radix >= 2,
    ensures
        n < radix ==> n / radix == 0,
        n >= radix ==> n / radix < n,
        n % radix < radix,
{
    assert(n < radix ==> n / radix == 0) by (nonlinear_arith)
        requires
            radix >= 2,
    ;
    assert(n >= radix ==> n / radix < n) by (nonlinear_arith)
        requires
            radix >= 2,
    ;
    assert(n % radix < radix) by (nonlinear_arith)
        requires
            radix >= 2,
    ;
}

/// The decimal digits of `n`, without padding.
pub open spec fn decimal(n: nat) -> Seq<char> {
    padded_digits(n, 10, 1, false)
}

/// A number has at least one digit, and at least as many as the width that it
/// is padded to.
pub proof fn lemma_padded_digits_min_len(n: nat, radix: nat, width: nat, upper: bool)
    requires
        radix >= 2,
    ensures
        padded_digits(n, radix, width, upper).len() >= 1,
        padded_digits(n, radix, width, upper).len() >= width,
    decreases n, width,
{
    lemma_quotient_is_smaller(n, radix);
    if !(n < radix && width <= 1) {
        lemma_padded_digits_min_len(n / radix, radix, one_less(width), upper);
    }
}

/// The character of one digit value below sixteen.
pub fn digit_to_char(d: u8, upper: bool) -> (c: char)
    requires
        d < 16,
    ensures
        c == digit_char(d as nat, upper),
{
    if d < 10 {
        ('0' as u8 + d) as char
    } else if upper {
        ('A' as u8 + (d - 10)) as char
    } else {
        ('a' as u8 + (d - 10)) as char
    }
}

/// Appends the digits of `n` in base `radix` to `out`, zero-padded to at
/// least `width` digits.
pub fn push_padded_digits(out: &mut String, n: u64, radix: u64, width: usize, upper: bool)
    requires
        2 <= radix <= 16,
    ensures
        final(out)@ == old(out)@ + padded_digits(n as nat, radix as nat, width as nat, upper),
    decreases n, width,
{
    proof {
        lemma_quotient_is_smaller(n as nat, radix as nat);
    }
    if n < radix && width <= 1 {
        out.push(digit_to_char(n as u8, upper));
    } else {
        let rest: usize = if width > 0 { width - 1 } else { 0 };
        push_padded_digits(out, n / radix, radix, rest, upper);
        out.push(digit_to_char((n % radix) as u8, upper));
    }
}

/// Appends the decimal digits of `n` to `out`.
pub fn push_decimal(out: &mut String, n: u64)
    ensures
        final(out)@ == old(out)@ + decimal(n as nat),
{
    push_padded_digits(out, n, 10, 1, false);
}

} // verus!
