//! Decimal text for the integers that the engine prints: backreference
//! indices and extracted JSON numbers.

use vstd::prelude::*;

verus! {

/// The character for one decimal digit.
pub open spec fn spec_digit_char(d: int) -> char {
    if d == 0 {
        '0'
    } else if d == 1 {
        '1'
    } else if d == 2 {
        '2'
    } else if d == 3 {
        '3'
    } else if d == 4 {
        '4'
    } else if d == 5 {
        '5'
    } else if d == 6 {
        '6'
    } else if d == 7 {
        '7'
    } else if d == 8 {
        '8'
    } else {
        '9'
    }
}

/// The decimal text of a natural number, most significant digit first.
pub open spec fn spec_dec_str(n: nat) -> Seq<char>
    decreases n,
{
    if n < 10 {
        seq![spec_digit_char(n as int)]
    } else {
        spec_dec_str(n / 10) + seq![spec_digit_char((n % 10) as int)]
    }
}

/// The decimal text of a signed number: a minus sign before the magnitude.
pub open spec fn spec_int_str(n: int) -> Seq<char> {
    if n < 0 {
        seq!['-'] + spec_dec_str((-n) as nat)
    } else {
        spec_dec_str(n as nat)
    }
}

fn digit_char(d: u64) -> (c: char)
    requires
        d < 10,
    ensures
        c == spec_digit_char(d as int),
{
    if d == 0 {
        '0'
    } else if d == 1 {
        '1'
    } else if d == 2 {
        '2'
    } else if d == 3 {
        '3'
    } else if d == 4 {
        '4'
    } else if d == 5 {
        '5'
    } else if d == 6 {
        '6'
    } else if d == 7 {
        '7'
    } else if d == 8 {
        '8'
    } else {
        '9'
    }
}

/// Writes an unsigned number in decimal.
pub fn u64_dec_chars(n: u64) -> (v: Vec<char>)
    ensures
        v@ == spec_dec_str(n as nat),
    decreases n,
{
    if n < 10 {
        let mut v: Vec<char> = Vec::new();
        v.push(digit_char(n));
        v
    } else {
        let mut v = u64_dec_chars(n / 10);
        v.push(digit_char(n % 10));
        v
    }
}

/// Writes a signed number in decimal, with a leading minus sign when it is
/// negative.
pub fn i64_dec_chars(n: i64) -> (v: Vec<char>)
    ensures
        v@ == spec_int_str(n as int),
{
    if n >= 0 {
        u64_dec_chars(n as u64)
    } else {
        let m: u64 = (-(n as i128)) as u64;
        let mut v: Vec<char> = Vec::new();
        v.push('-');
        let mut w = u64_dec_chars(m);
        v.append(&mut w);
        v
    }
}

/// Writes an index in decimal.
pub fn usize_dec_chars(n: usize) -> (v: Vec<char>)
    ensures
        v@ == spec_dec_str(n as nat),
{
    u64_dec_chars(n as u64)
}

} // verus!
