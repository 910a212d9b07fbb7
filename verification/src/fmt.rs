//! Decimal rendering used by the report generators: appending a
//! non-negative integer, and a rational as a percentage with two decimal
//! places, to a `String`.

use vstd::prelude::*;

verus! {

/// Relies on `String::push`: appends exactly the one character `c` to `s`.
#[verifier::external_body]
pub fn string_push(s: &mut String, c: char)
    ensures
        final (s)@ == old(s)@.push(c),
{
    s.push(c);
}

/// The decimal digit character for `d` in `0..10`.
pub open spec fn digit_char(d: int) -> char {
    if d == 0 {
        '0'
    } else if d == 1 {
        '1'
    } else if d == 2 {
        '2'
    } else if d == 3 {
        '3'
    } else if d == 4 {
        '4'
    } else if d == 5 {
        '5'
    } else if d == 6 {
        '6'
    } else if d == 7 {
        '7'
    } else if d == 8 {
        '8'
    } else {
        '9'
    }
}

/// The decimal digits of `n >= 0`, most significant first, without leading
/// zeros (except for `n == 0` itself).
pub open spec fn dec_str(n: int) -> Seq<char>
    recommends
        n >= 0,
    decreases n,
{
    if n < 10 {
        seq![digit_char(n)]
    } else {
        dec_str(n / 10).push(digit_char(n % 10))
    }
}

fn digit_char_exec(d: u128) -> (r: char)
    requires
        d < 10,
    ensures
        r == digit_char(d as int),
{
    if d == 0 {
        '0'
    } else if d == 1 {
        '1'
    } else if d == 2 {
        '2'
    } else if d == 3 {
        '3'
    } else if d == 4 {
        '4'
    } else if d == 5 {
        '5'
    } else if d == 6 {
        '6'
    } else if d == 7 {
        '7'
    } else if d == 8 {
        '8'
    } else {
        '9'
    }
}

/// Appends the decimal rendering of `n` to `s`.
pub fn append_dec(s: &mut String, n: u128)
    ensures
        final (s)@ == old(s)@ + dec_str(n as int),
    decreases n,
{
    if n < 10 {
        string_push(s, digit_char_exec(n));
        proof {
            assert(old(s)@.push(digit_char(n as int)) =~= old(s)@ + dec_str(n as int));
        }
    } else {
        append_dec(s, n / 10);
        string_push(s, digit_char_exec(n % 10));
        proof {
            assert((old(s)@ + dec_str(n as int / 10)).push(digit_char(n as int % 10)) =~= old(s)@
                + dec_str(n as int));
        }
    }
}

/// `num / den` scaled to hundredths of a percent and rounded to the nearest
/// integer, ties to even: the value that two-decimal percentage formatting
/// shows.
pub open spec fn percent_scaled(num: int, den: int) -> int
    recommends
        num >= 0,
        den >= 1,
{
    let q = num * 10000 / den;
    let r = num * 10000 % den;
    if 2 * r > den {
        q + 1
    } else if 2 * r < den {
        q
    } else if q % 2 == 0 {
        q
    } else {
        q + 1
    }
}

/// The rendering of `num / den` as a percentage with two decimal places.
pub open spec fn percent_str(num: int, den: int) -> Seq<char>
    recommends
        num >= 0,
        den >= 1,
{
    let v = percent_scaled(num, den);
    dec_str(v / 100) + seq!['.', digit_char(v / 10 % 10), digit_char(v % 10)]
}

/// Appends `num / den` as a percentage with two decimal places, e.g. one
/// third as `33.33`.
pub fn append_percent(s: &mut String, num: usize, den: usize)
    requires
        den >= 1,
    ensures
        final (s)@ == old(s)@ + percent_str(num as int, den as int),
{
    let nm: u128 = (num as u128) * 10000;
    let d: u128 = den as u128;
    let q: u128 = nm / d;
    let r: u128 = nm % d;
    let v: u128 = if 2 * r > d {
        q + 1
    } else if 2 * r < d {
        q
    } else if q % 2 == 0 {
        q
    } else {
        q + 1
    };
    proof {
        assert(v == percent_scaled(num as int, den as int));
    }
    append_dec(s, v / 100);
    string_push(s, '.');
    string_push(s, digit_char_exec(v / 10 % 10));
    string_push(s, digit_char_exec(v % 10));
    proof {
        assert(s@ =~= old(s)@ + percent_str(num as int, den as int));
    }
}

} // verus!
