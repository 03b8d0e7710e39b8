//! Percent-encoding of the free-text search term: characters outside the
//! kept set become `%XX` escapes of their UTF-8 bytes, uppercase hex.

use vstd::prelude::*;

verus! {

/// Characters the encoder passes through unchanged: ASCII letters and
/// digits, and the marks and reserved characters a whole URI keeps.
pub open spec fn is_kept(c: char) -> bool {
    let u = c as u32;
    (0x41 <= u && u <= 0x5a) || (0x61 <= u && u <= 0x7a) || (0x30 <= u && u <= 0x39) || c == '-'
        || c == '_' || c == '.' || c == '!' || c == '~' || c == '*' || c == '\'' || c == '(' || c
        == ')' || c == ';' || c == ':' || c == '@' || c == '&' || c == '=' || c == '+' || c == '$'
        || c == ',' || c == '/' || c == '?' || c == '#' || c == '[' || c == ']'
}

/// The uppercase hexadecimal digit for a value below sixteen.
pub open spec fn hex_digit(d: int) -> char {
    if d == 0 {
        '0'
    } else if d == 1 {
        '1'
    } else if d == 2 {
        '2'
    } else if d == 3 {
        '3'
    } else if d == 4 {
        '4'
    } else if d == 5 {
        '5'
    } else if d == 6 {
        '6'
    } else if d == 7 {
        '7'
    } else if d == 8 {
        '8'
    } else if d == 9 {
        '9'
    } else if d == 10 {
        'A'
    } else if d == 11 {
        'B'
    } else if d == 12 {
        'C'
    } else if d == 13 {
        'D'
    } else if d == 14 {
        'E'
    } else {
        'F'
    }
}

/// The UTF-8 bytes of the code point `n`.
pub open spec fn utf8_bytes(n: int) -> Seq<int> {
    if n < 0x80 {
        seq![n]
    } else if n < 0x800 {
        seq![0xc0 + n / 0x40, 0x80 + n % 0x40]
    } else if n < 0x10000 {
        seq![0xe0 + n / 0x1000, 0x80 + (n / 0x40) % 0x40, 0x80 + n % 0x40]
    } else {
        seq![
            0xf0 + n / 0x40000,
            0x80 + (n / 0x1000) % 0x40,
            0x80 + (n / 0x40) % 0x40,
            0x80 + n % 0x40,
        ]
    }
}

/// A byte as a percent escape: '%' and two uppercase hex digits.
pub open spec fn pct(b: int) -> Seq<char> {
    seq!['%', hex_digit(b / 16), hex_digit(b % 16)]
}

/// All bytes as percent escapes, in order.
pub open spec fn pct_all(bs: Seq<int>) -> Seq<char>
    decreases bs.len(),
{
    if bs.len() == 0 {
        Seq::empty()
    } else {
        pct_all(bs.drop_last()) + pct(bs.last())
    }
}

/// A character as the encoder emits it.
pub open spec fn encode_char(c: char) -> Seq<char> {
    if is_kept(c) {
        seq![c]
    } else {
        pct_all(utf8_bytes(c as int))
    }
}

/// The whole text percent-encoded.
pub open spec fn encode_uri(s: Seq<char>) -> Seq<char>
    decreases s.len(),
{
    if s.len() == 0 {
        Seq::empty()
    } else {
        encode_uri(s.drop_last()) + encode_char(s.last())
    }
}

fn is_kept_char(c: char) -> (r: bool)
    ensures
        r == is_kept(c),
{
    let u = c as u32;
    (0x41 <= u && u <= 0x5a) || (0x61 <= u && u <= 0x7a) || (0x30 <= u && u <= 0x39) || c == '-'
        || c == '_' || c == '.' || c == '!' || c == '~' || c == '*' || c == '\'' || c == '(' || c
        == ')' || c == ';' || c == ':' || c == '@' || c == '&' || c == '=' || c == '+' || c == '$'
        || c == ',' || c == '/' || c == '?' || c == '#' || c == '[' || c == ']'
}

fn hex_digit_char(d: u32) -> (c: char)
    requires
        d < 16,
    ensures
        c == hex_digit(d as int),
{
    if d == 0 {
        '0'
    } else if d == 1 {
        '1'
    } else if d == 2 {
        '2'
    } else if d == 3 {
        '3'
    } else if d == 4 {
        '4'
    } else if d == 5 {
        '5'
    } else if d == 6 {
        '6'
    } else if d == 7 {
        '7'
    } else if d == 8 {
        '8'
    } else if d == 9 {
        '9'
    } else if d == 10 {
        'A'
    } else if d == 11 {
        'B'
    } else if d == 12 {
        'C'
    } else if d == 13 {
        'D'
    } else if d == 14 {
        'E'
    } else {
        'F'
    }
}

fn push_pct(out: &mut Vec<char>, b: u32)
    requires
        b < 256,
    ensures
        final(out)@ == old(out)@ + pct(b as int),
{
    out.push('%');
    out.push(hex_digit_char(b / 16));
    out.push(hex_digit_char(b % 16));
    proof {
        assert(out@ =~= old(out)@ + pct(b as int));
    }
}

fn push_encoded(out: &mut Vec<char>, c: char)
    ensures
        final(out)@ == old(out)@ + encode_char(c),
{
    if is_kept_char(c) {
        out.push(c);
        proof {
            assert(out@ =~= old(out)@ + encode_char(c));
        }
    } else {
        let u = c as u32;
        let ghost n = c as int;
        proof {
            assert(n == u as int);
        }
        if u < 0x80 {
            push_pct(out, u);
            proof {
                reveal_with_fuel(pct_all, 5);
                let bs = utf8_bytes(n);
                assert(bs =~= seq![n]);
                assert(bs.last() == n);
                assert(bs.drop_last() =~= Seq::<int>::empty());
                assert(pct_all(bs) =~= Seq::<char>::empty() + pct(n));
                assert(out@ =~= old(out)@ + encode_char(c));
            }
        } else if u < 0x800 {
            push_pct(out, 0xc0 + u / 0x40);
            push_pct(out, 0x80 + u % 0x40);
            proof {
                reveal_with_fuel(pct_all, 5);
                let bs = utf8_bytes(n);
                assert(bs =~= seq![0xc0 + n / 0x40, 0x80 + n % 0x40]);
                assert(bs.last() == 0x80 + n % 0x40);
                assert(bs.drop_last() =~= seq![0xc0 + n / 0x40]);
                assert(bs.drop_last().last() == 0xc0 + n / 0x40);
                assert(bs.drop_last().drop_last() =~= Seq::<int>::empty());
                assert(pct_all(bs) =~= (Seq::<char>::empty() + pct(0xc0 + n / 0x40)) + pct(
                    0x80 + n % 0x40,
                ));
                assert(out@ =~= old(out)@ + encode_char(c));
            }
        } else if u < 0x10000 {
            push_pct(out, 0xe0 + u / 0x1000);
            push_pct(out, 0x80 + (u / 0x40) % 0x40);
            push_pct(out, 0x80 + u % 0x40);
            proof {
                reveal_with_fuel(pct_all, 5);
                let bs = utf8_bytes(n);
                assert(bs.drop_last() =~= seq![0xe0 + n / 0x1000, 0x80 + (n / 0x40) % 0x40]);
                assert(bs.drop_last().drop_last() =~= seq![0xe0 + n / 0x1000]);
                assert(pct_all(bs) =~= ((Seq::<char>::empty() + pct(0xe0 + n / 0x1000)) + pct(
                    0x80 + (n / 0x40) % 0x40,
                )) + pct(0x80 + n % 0x40));
                assert(out@ =~= old(out)@ + encode_char(c));
            }
        } else {
            push_pct(out, 0xf0 + u / 0x40000);
            push_pct(out, 0x80 + (u / 0x1000) % 0x40);
            push_pct(out, 0x80 + (u / 0x40) % 0x40);
            push_pct(out, 0x80 + u % 0x40);
            proof {
                reveal_with_fuel(pct_all, 5);
                let bs = utf8_bytes(n);
                assert(bs.drop_last() =~= seq![
                    0xf0 + n / 0x40000,
                    0x80 + (n / 0x1000) % 0x40,
                    0x80 + (n / 0x40) % 0x40,
                ]);
                assert(bs.drop_last().drop_last() =~= seq![
                    0xf0 + n / 0x40000,
                    0x80 + (n / 0x1000) % 0x40,
                ]);
                assert(bs.drop_last().drop_last().drop_last() =~= seq![0xf0 + n / 0x40000]);
                assert(pct_all(bs) =~= (((Seq::<char>::empty() + pct(0xf0 + n / 0x40000)) + pct(
                    0x80 + (n / 0x1000) % 0x40,
                )) + pct(0x80 + (n / 0x40) % 0x40)) + pct(0x80 + n % 0x40));
                assert(out@ =~= old(out)@ + encode_char(c));
            }
        }
    }
}

/// Percent-encodes the text.
pub fn encode_uri_chars(v: &Vec<char>) -> (r: Vec<char>)
    ensures
        r@ == encode_uri(v@),
{
    let mut r: Vec<char> = Vec::new();
    let mut i: usize = 0;
    while i < v.len()
        invariant
            i <= v@.len(),
            r@ == encode_uri(v@.take(i as int)),
        decreases v@.len() - i,
    {
        push_encoded(&mut r, v[i]);
        proof {
            assert(v@.take(i + 1 as int).drop_last() =~= v@.take(i as int));
        }
        i = i + 1;
    }
    proof {
        assert(v@.take(v@.len() as int) =~= v@);
    }
    r
}

} // verus!
