//! Decimal number parsing for the textual formats the library reads:
//! bounding-box coordinates, confidence values and threshold arguments.

use vstd::prelude::*;
use crate::text::chars_of;

verus! {

/// An ASCII decimal digit.
pub open spec fn is_digit(c: char) -> bool {
    48 <= c as int <= 57
}

/// The value of an ASCII decimal digit.
pub open spec fn digit_val(c: char) -> int {
    c as int - 48
}

/// The value of a digit string, most significant digit first.
pub open spec fn dec_val(s: Seq<char>) -> int
    decreases s.len(),
{
    if s.len() == 0 {
        0
    } else {
        dec_val(s.drop_last()) * 10 + digit_val(s.last())
    }
}

/// The digits of a number token: an optional leading `+` sign is dropped.
pub open spec fn num_body(s: Seq<char>) -> Seq<char> {
    if s.len() > 0 && s[0] == '+' {
        s.drop_first()
    } else {
        s
    }
}

/// Whether `s` is a number a 32-bit parse accepts: an optional `+`, then
/// one or more digits, with a value that fits.
pub open spec fn is_valid_u32(s: Seq<char>) -> bool {
    let b = num_body(s);
    &&& b.len() > 0
    &&& forall|i: int| 0 <= i < b.len() ==> is_digit(#[trigger] b[i])
    &&& dec_val(b) <= u32::MAX
}

/// Whether `s` is a number an 8-bit parse accepts.
pub open spec fn is_valid_u8(s: Seq<char>) -> bool {
    let b = num_body(s);
    &&& b.len() > 0
    &&& forall|i: int| 0 <= i < b.len() ==> is_digit(#[trigger] b[i])
    &&& dec_val(b) <= 255
}

proof fn lemma_dec_val_nonneg(s: Seq<char>)
    requires
        forall|i: int| 0 <= i < s.len() ==> is_digit(#[trigger] s[i]),
    ensures
        dec_val(s) >= 0,
    decreases s.len(),
{
    if s.len() > 0 {
        lemma_dec_val_nonneg(s.drop_last());
    }
}

/// Extending a digit string can only increase its value.
proof fn lemma_dec_val_prefix(s: Seq<char>, k: int)
    requires
        0 <= k <= s.len(),
        forall|i: int| 0 <= i < s.len() ==> is_digit(#[trigger] s[i]),
    ensures
        dec_val(s) >= dec_val(s.take(k)),
    decreases s.len() - k,
{
    if k < s.len() {
        lemma_dec_val_prefix(s, k + 1);
        assert(s.take(k + 1).drop_last() =~= s.take(k));
        assert forall|i: int| 0 <= i < k implies is_digit(#[trigger] s.take(k)[i]) by {
            assert(s.take(k)[i] == s[i]);
        }
        lemma_dec_val_nonneg(s.take(k));
    } else {
        assert(s.take(k) =~= s);
    }
}

/// Parses a 32-bit unsigned decimal: an optional `+` sign, then digits.
/// Returns `None` exactly on malformed or out-of-range input.
pub fn parse_u32(s: &str) -> (r: Option<u32>)
    ensures
        r is Some <==> is_valid_u32(s@),
        match r {
            Some(v) => v == dec_val(num_body(s@)),
            None => true,
        },
{
    let cv = chars_of(s);
    let n = cv.len();
    let start: usize = if n > 0 && cv[0] == '+' {
        1
    } else {
        0
    };
    let ghost b = num_body(s@);
    proof {
        if start == 1 {
            assert(b =~= s@.drop_first());
        }
    }
    if start == n {
        return None;
    }
    let mut acc: u64 = 0;
    let mut i: usize = start;
    while i < n
        invariant
            start <= i <= n,
            n == s@.len(),
            cv@ == s@,
            b == num_body(s@),
            b.len() == n - start,
            forall|x: int| 0 <= x < b.len() ==> b[x] == s@[start + x],
            forall|x: int| 0 <= x < i - start ==> is_digit(#[trigger] b[x]),
            acc == dec_val(b.take(i - start)),
            acc <= u32::MAX,
        decreases n - i,
    {
        let c = cv[i];
        if !(c >= '0' && c <= '9') {
            proof {
                assert(!is_digit(b[i - start]));
            }
            return None;
        }
        let d: u64 = (c as u32 as u64) - 48;
        proof {
            assert(is_digit(b[i - start]));
            assert(d == digit_val(b[i - start]));
            assert(b.take(i + 1 - start).drop_last() =~= b.take(i - start));
        }
        acc = acc * 10 + d;
        i = i + 1;
        if acc > 0xFFFFFFFF {
            proof {
                if is_valid_u32(s@) {
                    lemma_dec_val_prefix(b, i - start);
                }
            }
            return None;
        }
    }
    proof {
        assert(b.take(n - start) =~= b);
    }
    Some(acc as u32)
}

/// Parses an 8-bit unsigned decimal: an optional `+` sign, then digits.
/// Returns `None` exactly on malformed or out-of-range input.
pub fn parse_u8(s: &str) -> (r: Option<u8>)
    ensures
        r is Some <==> is_valid_u8(s@),
        match r {
            Some(v) => v == dec_val(num_body(s@)),
            None => true,
        },
{
    match parse_u32(s) {
        Some(v) => {
            if v <= 255 {
                Some(v as u8)
            } else {
                None
            }
        },
        None => {
            proof {
                if is_valid_u8(s@) {
                    let b = num_body(s@);
                    assert(dec_val(b) <= u32::MAX);
                }
            }
            None
        },
    }
}

} // verus!
