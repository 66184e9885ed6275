//! Decimal rendering of unsigned numbers, used for track positions,
//! identifiers and dates in file names and display titles.

use vstd::prelude::*;

verus! {

/// The character for a single decimal digit.
pub open spec fn digit_char(d: int) -> char {
    if d == 0 {
        '0'
    } else if d == 1 {
        '1'
    } else if d == 2 {
        '2'
    } else if d == 3 {
        '3'
    } else if d == 4 {
        '4'
    } else if d == 5 {
        '5'
    } else if d == 6 {
        '6'
    } else if d == 7 {
        '7'
    } else if d == 8 {
        '8'
    } else {
        '9'
    }
}

/// The usual decimal rendering of `n`, most significant digit first,
/// without leading zeros (except for `n == 0` itself).
pub open spec fn dec_spec(n: nat) -> Seq<char>
    decreases n,
{
    if n < 10 {
        seq![digit_char(n as int)]
    } else {
        dec_spec(n / 10).push(digit_char((n % 10) as int))
    }
}

/// `n` rendered in decimal, left-padded with zeros to at least two digits.
pub open spec fn dec2_spec(n: nat) -> Seq<char> {
    if n < 10 {
        seq!['0'].add(dec_spec(n))
    } else {
        dec_spec(n)
    }
}

/// `n` rendered in decimal, left-padded with zeros to at least four digits.
pub open spec fn dec4_spec(n: nat) -> Seq<char> {
    if n < 10 {
        seq!['0', '0', '0'].add(dec_spec(n))
    } else if n < 100 {
        seq!['0', '0'].add(dec_spec(n))
    } else if n < 1000 {
        seq!['0'].add(dec_spec(n))
    } else {
        dec_spec(n)
    }
}

fn digit_of(d: u64) -> (c: char)
    requires
        d < 10,
    ensures
        c == digit_char(d as int),
{
    if d == 0 {
        '0'
    } else if d == 1 {
        '1'
    } else if d == 2 {
        '2'
    } else if d == 3 {
        '3'
    } else if d == 4 {
        '4'
    } else if d == 5 {
        '5'
    } else if d == 6 {
        '6'
    } else if d == 7 {
        '7'
    } else if d == 8 {
        '8'
    } else {
        '9'
    }
}

/// The decimal digits of `n`, most significant first.
pub fn dec_chars(n: u64) -> (r: Vec<char>)
    ensures
        r@ == dec_spec(n as nat),
        r@.len() >= 1,
    decreases n,
{
    if n < 10 {
        let mut v: Vec<char> = Vec::new();
        v.push(digit_of(n));
        v
    } else {
        let mut v = dec_chars(n / 10);
        v.push(digit_of(n % 10));
        v
    }
}

/// The decimal digits of `n`, zero-padded to at least two digits.
pub fn dec2_chars(n: u64) -> (r: Vec<char>)
    ensures
        r@ == dec2_spec(n as nat),
{
    if n < 10 {
        let mut v: Vec<char> = Vec::new();
        v.push('0');
        v.push(digit_of(n));
        proof {
            assert(v@ =~= dec2_spec(n as nat));
        }
        v
    } else {
        dec_chars(n)
    }
}

/// The decimal digits of `n`, zero-padded to at least four digits.
pub fn dec4_chars(n: u64) -> (r: Vec<char>)
    ensures
        r@ == dec4_spec(n as nat),
{
    let mut v: Vec<char> = Vec::new();
    if n < 10 {
        v.push('0');
        v.push('0');
        v.push('0');
    } else if n < 100 {
        v.push('0');
        v.push('0');
    } else if n < 1000 {
        v.push('0');
    }
    let mut d = dec_chars(n);
    v.append(&mut d);
    proof {
        assert(v@ =~= dec4_spec(n as nat));
    }
    v
}

} // verus!
