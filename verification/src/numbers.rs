//! Decimal rendering of the integers that appear in URLs (page numbers).

use vstd::prelude::*;

verus! {

/// The decimal digit character for a value below ten.
pub open spec fn dec_digit(d: int) -> char {
    if d == 0 {
        '0'
    } else if d == 1 {
        '1'
    } else if d == 2 {
        '2'
    } else if d == 3 {
        '3'
    } else if d == 4 {
        '4'
    } else if d == 5 {
        '5'
    } else if d == 6 {
        '6'
    } else if d == 7 {
        '7'
    } else if d == 8 {
        '8'
    } else {
        '9'
    }
}

/// The decimal digits of a natural number, most significant first, with no
/// leading zeros (a single '0' for zero).
pub open spec fn dec_str(n: nat) -> Seq<char>
    decreases n,
{
    if n < 10 {
        seq![dec_digit(n as int)]
    } else {
        dec_str(n / 10).push(dec_digit((n % 10) as int))
    }
}

/// A signed integer in decimal, with a leading '-' when negative.
pub open spec fn int_str(n: int) -> Seq<char> {
    if n < 0 {
        seq!['-'] + dec_str((-n) as nat)
    } else {
        dec_str(n as nat)
    }
}

fn dec_digit_char(d: u64) -> (c: char)
    requires
        d < 10,
    ensures
        c == dec_digit(d as int),
{
    if d == 0 {
        '0'
    } else if d == 1 {
        '1'
    } else if d == 2 {
        '2'
    } else if d == 3 {
        '3'
    } else if d == 4 {
        '4'
    } else if d == 5 {
        '5'
    } else if d == 6 {
        '6'
    } else if d == 7 {
        '7'
    } else if d == 8 {
        '8'
    } else {
        '9'
    }
}

/// The decimal digits of `n`, most significant first.
pub fn u64_to_chars(n: u64) -> (r: Vec<char>)
    ensures
        r@ == dec_str(n as nat),
{
    let mut digits: Vec<char> = Vec::new();
    let mut m = n;
    proof {
        assert(dec_str(n as nat) =~= dec_str(n as nat) + Seq::<char>::empty());
    }
    while m >= 10
        invariant
            dec_str(n as nat) == dec_str(m as nat) + digits@,
        decreases m,
    {
        let d = m % 10;
        let ghost before = digits@;
        digits.insert(0, dec_digit_char(d));
        proof {
            assert(digits@ =~= seq![dec_digit(d as int)] + before);
            assert(dec_str((m / 10) as nat) + digits@ =~= dec_str(m as nat) + before);
        }
        m = m / 10;
    }
    let ghost before = digits@;
    digits.insert(0, dec_digit_char(m));
    proof {
        assert(digits@ =~= seq![dec_digit(m as int)] + before);
        assert(digits@ =~= dec_str(m as nat) + before);
    }
    digits
}

/// `n` in decimal, with a leading '-' when negative.
pub fn i32_to_chars(n: i32) -> (r: Vec<char>)
    ensures
        r@ == int_str(n as int),
{
    if n >= 0 {
        u64_to_chars(n as u64)
    } else {
        let wide: i64 = n as i64;
        let mag: u64 = (-wide) as u64;
        proof {
            assert(mag as int == -(n as int));
        }
        let digits = u64_to_chars(mag);
        let mut r: Vec<char> = Vec::new();
        r.push('-');
        let mut i: usize = 0;
        while i < digits.len()
            invariant
                i <= digits@.len(),
                r@ == seq!['-'] + digits@.take(i as int),
            decreases digits@.len() - i,
        {
            r.push(digits[i]);
            proof {
                assert(r@ =~= seq!['-'] + digits@.take(i + 1 as int));
            }
            i = i + 1;
        }
        proof {
            assert(digits@.take(digits@.len() as int) =~= digits@);
        }
        r
    }
}

} // verus!
