//! Small helpers on strings that the rest of the library shares.

use vstd::prelude::*;

verus! {

/// `str`'s `==` from the standard library: two string slices are equal exactly when they
/// hold the same characters.
pub assume_specification[ <str as PartialEq>::eq ](a: &str, b: &str) -> (r: bool)
    ensures
        r == (a@ == b@),
;

/// `String::push` from the standard library: appends one character.
pub assume_specification[ String::push ](s: &mut String, c: char)
    ensures
        final(s)@ == old(s)@.push(c),
;

/// Whether two string slices hold the same characters.
pub fn same_text(a: &str, b: &str) -> (r: bool)
    ensures
        r == (a@ == b@),
{
    *a == *b
}

/// The character of a digit below sixteen: `0` to `9`, then `a` to `f`.
pub open spec fn digit_char(d: int) -> char {
    if d == 0 {
        '0'
    } else if d == 1 {
        '1'
    } else if d == 2 {
        '2'
    } else if d == 3 {
        '3'
    } else if d == 4 {
        '4'
    } else if d == 5 {
        '5'
    } else if d == 6 {
        '6'
    } else if d == 7 {
        '7'
    } else if d == 8 {
        '8'
    } else if d == 9 {
        '9'
    } else if d == 10 {
        'a'
    } else if d == 11 {
        'b'
    } else if d == 12 {
        'c'
    } else if d == 13 {
        'd'
    } else if d == 14 {
        'e'
    } else {
        'f'
    }
}

/// The digits of `n` to the base `base`, most significant first, without leading zeros;
/// a single zero for zero.
pub open spec fn digits_text(n: nat, base: nat) -> Seq<char>
    decreases n,
{
    if base < 2 || n < base {
        seq![digit_char(n as int)]
    } else {
        proof {
            assert(n / base < n) by (nonlinear_arith)
                requires
                    base >= 2,
                    n >= base,
            ;
        }
        digits_text(n / base, base).push(digit_char((n % base) as int))
    }
}

/// `n` in decimal.
pub open spec fn decimal_text(n: nat) -> Seq<char> {
    digits_text(n, 10)
}

/// `n` in lower-case hexadecimal.
pub open spec fn hex_text(n: nat) -> Seq<char> {
    digits_text(n, 16)
}

/// `count` zeros.
pub open spec fn zeros(count: int) -> Seq<char> {
    Seq::new(
        if count > 0 {
            count as nat
        } else {
            0
        },
        |i: int| '0',
    )
}

/// `n` in lower-case hexadecimal, with zeros in front up to `width` characters.
pub open spec fn hex_padded(n: nat, width: nat) -> Seq<char> {
    zeros(width - hex_text(n).len()) + hex_text(n)
}

/// The character of a digit below sixteen.
fn char_of_digit(d: u8) -> (c: char)
    requires
        d < 16,
    ensures
        c == digit_char(d as int),
{
    if d == 0 {
        '0'
    } else if d == 1 {
        '1'
    } else if d == 2 {
        '2'
    } else if d == 3 {
        '3'
    } else if d == 4 {
        '4'
    } else if d == 5 {
        '5'
    } else if d == 6 {
        '6'
    } else if d == 7 {
        '7'
    } else if d == 8 {
        '8'
    } else if d == 9 {
        '9'
    } else if d == 10 {
        'a'
    } else if d == 11 {
        'b'
    } else if d == 12 {
        'c'
    } else if d == 13 {
        'd'
    } else if d == 14 {
        'e'
    } else {
        'f'
    }
}

/// Appends the digits of `n` to the base `base`, padded with zeros up to `width`
/// characters.
pub(crate) fn push_digits(text: &mut String, n: u64, base: u64, width: usize)
    requires
        base == 10 || base == 16,
    ensures
        final(text)@ == old(text)@ + zeros(width - digits_text(n as nat, base as nat).len())
            + digits_text(n as nat, base as nat),
{
    let mut reversed: Vec<char> = Vec::new();
    let mut rest = n;
    while rest >= base
        invariant
            base == 10 || base == 16,
            digits_text(n as nat, base as nat) == digits_text(rest as nat, base as nat)
                + reversed@.reverse(),
        decreases rest,
    {
        let d = (rest % base) as u8;
        let ghost before = reversed@;
        reversed.push(char_of_digit(d));
        proof {
            assert(reversed@.reverse() =~= seq![digit_char(d as int)] + before.reverse());
            assert(digits_text(rest as nat, base as nat) == digits_text(
                (rest / base) as nat,
                base as nat,
            ).push(digit_char(d as int)));
            assert(digits_text(rest as nat, base as nat) + before.reverse() =~= digits_text(
                (rest / base) as nat,
                base as nat,
            ) + reversed@.reverse());
        }
        rest = rest / base;
    }
    let ghost before = reversed@;
    reversed.push(char_of_digit(rest as u8));
    proof {
        assert(reversed@.reverse() =~= seq![digit_char(rest as int)] + before.reverse());
        assert(digits_text(n as nat, base as nat) =~= reversed@.reverse());
    }
    let ghost digits = reversed@.reverse();
    let ghost start = text@;
    let mut padding = reversed.len();
    while padding < width
        invariant
            reversed@.len() <= padding,
            padding <= width || padding == reversed@.len(),
            text@ == start + zeros(padding - reversed@.len()),
        decreases width - padding,
    {
        text.push('0');
        padding = padding + 1;
        assert(text@ =~= start + zeros(padding - reversed@.len()));
    }
    assert(text@ =~= start + zeros(width - digits.len()));
    let ghost padded = text@;
    let mut i = reversed.len();
    while i > 0
        invariant
            i <= reversed@.len(),
            digits == reversed@.reverse(),
            text@ == padded + digits.subrange(0, reversed@.len() - i),
        decreases i,
    {
        i = i - 1;
        text.push(reversed[i]);
        assert(text@ =~= padded + digits.subrange(0, reversed@.len() - i));
    }
    assert(digits.subrange(0, digits.len() as int) =~= digits);
}

/// Appends the characters of `part`.
pub(crate) fn push_text(text: &mut String, part: &str)
    ensures
        final(text)@ == old(text)@ + part@,
{
    text.append(part);
}

} // verus!
