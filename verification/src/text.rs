//! Verified helpers for building the line-oriented trace text: decimal
//! rendering of numbers, with the fixed-width zero padding the trace
//! formats use.

use vstd::prelude::*;
use vstd::string::StringExecFns;

verus! {

/// Relies on `String::push`, which appends the given character to the
/// end of the string.
pub assume_specification[ String::push ](s: &mut String, c: char)
    ensures
        final(s)@ == old(s)@.push(c),
;

/// The character for one decimal digit.
pub open spec fn digit_char(d: int) -> char {
    if d == 0 {
        '0'
    } else if d == 1 {
        '1'
    } else if d == 2 {
        '2'
    } else if d == 3 {
        '3'
    } else if d == 4 {
        '4'
    } else if d == 5 {
        '5'
    } else if d == 6 {
        '6'
    } else if d == 7 {
        '7'
    } else if d == 8 {
        '8'
    } else {
        '9'
    }
}

/// The decimal rendering of a number, most significant digit first.
pub open spec fn dec_text(n: nat) -> Seq<char>
    decreases n,
{
    if n < 10 {
        seq![digit_char(n as int)]
    } else {
        dec_text(n / 10).push(digit_char((n % 10) as int))
    }
}

/// The decimal rendering of a number, left-padded with zeros to at
/// least four characters.
pub open spec fn pad4_text(n: nat) -> Seq<char> {
    if n < 10 {
        seq!['0', '0', '0'] + dec_text(n)
    } else if n < 100 {
        seq!['0', '0'] + dec_text(n)
    } else if n < 1000 {
        seq!['0'] + dec_text(n)
    } else {
        dec_text(n)
    }
}

/// The decimal rendering of a number, left-padded with zeros to at
/// least two characters.
pub open spec fn pad2_text(n: nat) -> Seq<char> {
    if n < 10 {
        seq!['0'] + dec_text(n)
    } else {
        dec_text(n)
    }
}

/// Appends one decimal digit to a string.
pub fn push_digit(s: &mut String, d: usize)
    requires
        d < 10,
    ensures
        final(s)@ == old(s)@.push(digit_char(d as int)),
{
    let c: char = match d {
        0 => '0',
        1 => '1',
        2 => '2',
        3 => '3',
        4 => '4',
        5 => '5',
        6 => '6',
        7 => '7',
        8 => '8',
        _ => '9',
    };
    s.push(c);
}

/// Appends the decimal rendering of a number to a string.
pub fn push_decimal(s: &mut String, n: usize)
    ensures
        final(s)@ == old(s)@ + dec_text(n as nat),
    decreases n,
{
    if n < 10 {
        push_digit(s, n);
        assert(s@ =~= old(s)@ + dec_text(n as nat));
    } else {
        push_decimal(s, n / 10);
        push_digit(s, n % 10);
        assert(s@ =~= old(s)@ + dec_text(n as nat));
    }
}

/// Appends the decimal rendering of a number, zero-padded to at least
/// four characters.
pub fn push_pad4(s: &mut String, n: usize)
    ensures
        final(s)@ == old(s)@ + pad4_text(n as nat),
{
    if n < 10 {
        push_digit(s, 0);
        push_digit(s, 0);
        push_digit(s, 0);
    } else if n < 100 {
        push_digit(s, 0);
        push_digit(s, 0);
    } else if n < 1000 {
        push_digit(s, 0);
    }
    push_decimal(s, n);
    assert(s@ =~= old(s)@ + pad4_text(n as nat));
}

/// Appends the decimal rendering of a number, zero-padded to at least
/// two characters.
pub fn push_pad2(s: &mut String, n: usize)
    ensures
        final(s)@ == old(s)@ + pad2_text(n as nat),
{
    if n < 10 {
        push_digit(s, 0);
    }
    push_decimal(s, n);
    assert(s@ =~= old(s)@ + pad2_text(n as nat));
}

/// Appends every character of a sequence held as a string to another
/// string.
pub fn push_string(s: &mut String, t: &String)
    ensures
        final(s)@ == old(s)@ + t@,
{
    s.append(t.as_str());
}

} // verus!
