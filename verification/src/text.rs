//! Decimal and hexadecimal rendering of numbers into strings.

use vstd::prelude::*;

verus! {

/// `String::push` appends one character.
pub assume_specification[ String::push ](s: &mut String, ch: char)
    ensures
        final(s)@ == old(s)@.push(ch),
;

/// The character of a digit value (0-9, then A-Z for 10 and up).
pub open spec fn digit_char(d: nat) -> char {
    if d < 10 {
        (48 + d) as char
    } else {
        (55 + d) as char
    }
}

/// The digits of `n` in base `base`, most significant first, without
/// leading zeros ("0" for zero); digits above 9 are upper-case letters.
pub open spec fn digits_in_base(n: nat, base: nat) -> Seq<char>
    recommends
        2 <= base <= 36,
    decreases n,
{
    if n < base || base < 2 {
        seq![digit_char(n)]
    } else {
        proof {
            assert(n / base < n) by (nonlinear_arith)
                requires n >= base, base >= 2;
        }
        digits_in_base(n / base, base).push(digit_char(n % base))
    }
}

/// `n` in decimal.
pub open spec fn decimal(n: nat) -> Seq<char> {
    digits_in_base(n, 10)
}

/// `n` in upper-case hexadecimal.
pub open spec fn hex_upper(n: nat) -> Seq<char> {
    digits_in_base(n, 16)
}

fn digit_to_char(d: u32) -> (c: char)
    requires
        d < 36,
    ensures
        c == digit_char(d as nat),
{
    if d < 10 {
        let b: u8 = 48 + d as u8;
        b as char
    } else {
        let b: u8 = 55 + d as u8;
        b as char
    }
}

/// Appends the digits of `n` in base `base` to `s`.
pub fn push_digits(s: &mut String, n: u32, base: u32)
    requires
        2 <= base <= 36,
    ensures
        final(s)@ == old(s)@ + digits_in_base(n as nat, base as nat),
    decreases n,
{
    if n >= base {
        assert(n / base < n) by (nonlinear_arith)
            requires n >= base, base >= 2;
        push_digits(s, n / base, base);
    }
    if n < base {
        assert(n % base == n) by (nonlinear_arith)
            requires n < base, base >= 2;
    }
    s.push(digit_to_char(n % base));
    assert(s@ =~= old(s)@ + digits_in_base(n as nat, base as nat));
}

} // verus!
