//! Decimal ports: parsing with the semantics of Rust's unsigned `parse`
//! (an optional leading `+`, then decimal digits, nothing else, no overflow),
//! and rendering a port back to decimal digits.

use vstd::prelude::*;
use crate::text::is_digit;

verus! {

/// Every character of `d` is a decimal digit.
pub open spec fn all_digits(d: Seq<char>) -> bool {
    forall|i: int| 0 <= i < d.len() ==> is_digit(d[i])
}

/// Value of a digit string read as a decimal number.
pub open spec fn digits_val(d: Seq<char>) -> int
    decreases d.len(),
{
    if d.len() == 0 {
        0
    } else {
        digits_val(d.drop_last()) * 10 + (d.last() as int - '0' as int)
    }
}

pub proof fn lemma_digits_val_nonneg(d: Seq<char>)
    requires
        all_digits(d),
    ensures
        digits_val(d) >= 0,
    decreases d.len(),
{
    if d.len() > 0 {
        assert(all_digits(d.drop_last()));
        lemma_digits_val_nonneg(d.drop_last());
    }
}

/// A prefix of an all-digit string never reads as more than the whole.
pub proof fn lemma_digits_val_prefix(d: Seq<char>, k: int)
    requires
        all_digits(d),
        0 <= k <= d.len(),
    ensures
        digits_val(d.take(k)) <= digits_val(d),
    decreases d.len() - k,
{
    if k < d.len() {
        lemma_digits_val_prefix(d, k + 1);
        assert(d.take(k + 1).drop_last() =~= d.take(k));
        assert(all_digits(d.take(k)));
        lemma_digits_val_nonneg(d.take(k));
        assert(digits_val(d.take(k + 1)) == digits_val(d.take(k)) * 10 + (d[k] as int
            - '0' as int));
    } else {
        assert(d.take(k) =~= d);
    }
}

/// What Rust's `parse::<u16>` returns on the string: `Some` exactly when an
/// optional `+` is followed by one or more digits, nothing else, and the value
/// is at most 65535.
pub open spec fn parse_u16_spec(s: Seq<char>) -> Option<u16> {
    let d = if s.len() > 0 && s[0] == '+' {
        s.skip(1)
    } else {
        s
    };
    if d.len() >= 1 && all_digits(d) && digits_val(d) <= 65535 {
        Some(digits_val(d) as u16)
    } else {
        None
    }
}

/// Parses a port with the semantics of Rust's `parse::<u16>`.
pub fn parse_port(s: &[char]) -> (r: Option<u16>)
    ensures
        r == parse_u16_spec(s@),
{
    let l: usize = s.len();
    let start: usize = if l > 0 && s[0] == '+' {
        1
    } else {
        0
    };
    let ghost d = if s@.len() > 0 && s@[0] == '+' {
        s@.skip(1)
    } else {
        s@
    };
    assert(d =~= s@.subrange(start as int, l as int));
    if l == start {
        return None;
    }
    let mut acc: u32 = 0;
    let mut i: usize = start;
    while i < l
        invariant
            l == s@.len(),
            start <= i <= l,
            d =~= s@.subrange(start as int, l as int),
            parse_u16_spec(s@) == (if d.len() >= 1 && all_digits(d) && digits_val(d) <= 65535 {
                Some(digits_val(d) as u16)
            } else {
                None::<u16>
            }),
            all_digits(s@.subrange(start as int, i as int)),
            acc <= 65535,
            acc == digits_val(s@.subrange(start as int, i as int)),
        decreases l - i,
    {
        let c = s[i];
        if !('0' <= c && c <= '9') {
            assert(!is_digit(d[i - start]));
            assert(!all_digits(d));
            return None;
        }
        let dv: u32 = (c as u32) - 48;
        assert(dv == c as int - '0' as int && dv <= 9);
        let next: u32 = acc * 10 + dv;
        assert(s@.subrange(start as int, i + 1).drop_last() =~= s@.subrange(
            start as int,
            i as int,
        ));
        assert(next == digits_val(s@.subrange(start as int, i + 1)));
        if next > 65535 {
            proof {
                if all_digits(d) {
                    lemma_digits_val_prefix(d, i + 1 - start);
                    assert(d.take(i + 1 - start) =~= s@.subrange(start as int, i + 1));
                    assert(digits_val(d) > 65535);
                }
            }
            return None;
        }
        acc = next;
        i += 1;
    }
    assert(s@.subrange(start as int, l as int) =~= d);
    Some(acc as u16)
}

/// Digit character of a value below ten.
pub open spec fn digit_char(d: int) -> char {
    if d == 0 {
        '0'
    } else if d == 1 {
        '1'
    } else if d == 2 {
        '2'
    } else if d == 3 {
        '3'
    } else if d == 4 {
        '4'
    } else if d == 5 {
        '5'
    } else if d == 6 {
        '6'
    } else if d == 7 {
        '7'
    } else if d == 8 {
        '8'
    } else {
        '9'
    }
}

/// Decimal rendering of a non-negative number, most significant digit first,
/// no leading zeroes.
pub open spec fn dec_digits(n: int) -> Seq<char>
    decreases n when n >= 0
{
    if n < 10 {
        seq![digit_char(n)]
    } else {
        dec_digits(n / 10).push(digit_char(n % 10))
    }
}

fn digit_char_exec(d: u16) -> (r: char)
    requires
        d < 10,
    ensures
        r == digit_char(d as int),
{
    match d {
        0 => '0',
        1 => '1',
        2 => '2',
        3 => '3',
        4 => '4',
        5 => '5',
        6 => '6',
        7 => '7',
        8 => '8',
        _ => '9',
    }
}

/// The decimal digits of a port.
pub fn port_digits(n: u16) -> (r: Vec<char>)
    ensures
        r@ == dec_digits(n as int),
    decreases n,
{
    if n < 10 {
        let mut r: Vec<char> = Vec::new();
        r.push(digit_char_exec(n));
        assert(r@ =~= dec_digits(n as int));
        r
    } else {
        let mut r = port_digits(n / 10);
        r.push(digit_char_exec(n % 10));
        assert(r@ =~= dec_digits(n as int));
        r
    }
}

} // verus!
