//! Decimal integer text: an optional sign and at least one ASCII digit, read
//! as `str::parse` reads it for the integer types.

use vstd::prelude::*;

verus! {

pub open spec fn is_digit(b: u8) -> bool {
    48 <= b <= 57
}

pub open spec fn all_digits(d: Seq<u8>) -> bool {
    forall|i: int| 0 <= i < d.len() ==> is_digit(#[trigger] d[i])
}

/// The value of a run of decimal digits.
pub open spec fn digits_value(d: Seq<u8>) -> int
    decreases d.len(),
{
    if d.len() == 0 {
        0
    } else {
        digits_value(d.drop_last()) * 10 + (d.last() - 48)
    }
}

/// The value of decimal text with an optional `+` or `-` sign, when the
/// text is a sign followed by at least one digit, or only digits.
pub open spec fn signed_decimal(s: Seq<u8>) -> Option<int> {
    if s.len() > 0 && (s[0] == 43u8 || s[0] == 45u8) {
        let d = s.subrange(1, s.len() as int);
        if d.len() > 0 && all_digits(d) {
            Some(if s[0] == 45u8 { -digits_value(d) } else { digits_value(d) })
        } else {
            None
        }
    } else if s.len() > 0 && all_digits(s) {
        Some(digits_value(s))
    } else {
        None
    }
}

/// The value of decimal text with an optional `+` sign, when the text is a
/// `+` followed by at least one digit, or only digits.
pub open spec fn unsigned_decimal(s: Seq<u8>) -> Option<int> {
    if s.len() > 0 && s[0] == 43u8 {
        let d = s.subrange(1, s.len() as int);
        if d.len() > 0 && all_digits(d) { Some(digits_value(d)) } else { None }
    } else if s.len() > 0 && all_digits(s) {
        Some(digits_value(s))
    } else {
        None
    }
}

/// The value when it is at most the cap, else the cap.
pub open spec fn capped(v: int, cap: int) -> int {
    if v < cap { v } else { cap }
}

pub proof fn lemma_digits_value_nonneg(d: Seq<u8>)
    requires
        all_digits(d),
    ensures
        digits_value(d) >= 0,
    decreases d.len(),
{
    if d.len() > 0 {
        assert(all_digits(d.drop_last()));
        lemma_digits_value_nonneg(d.drop_last());
        assert(is_digit(d[d.len() - 1]));
    }
}

const CAP: u128 = 0x1_0000_0000_0000_0000;

/// The value of the digits `s[from..]`, capped at 2^64; `None` when a byte
/// is not a digit or there is none.
fn read_digits(s: &[u8], from: usize) -> (r: Option<u128>)
    requires
        from <= s@.len(),
    ensures
        ({
            let d = s@.subrange(from as int, s@.len() as int);
            match r {
                Some(v) => d.len() > 0 && all_digits(d) && v == capped(digits_value(d), CAP as int),
                None => !(d.len() > 0 && all_digits(d)),
            }
        }),
{
    if from == s.len() {
        return None;
    }
    let mut acc: u128 = 0;
    let mut i: usize = from;
    while i < s.len()
        invariant
            from <= i <= s@.len(),
            all_digits(s@.subrange(from as int, i as int)),
            acc == capped(digits_value(s@.subrange(from as int, i as int)), CAP as int),
            acc <= CAP,
        decreases s@.len() - i,
    {
        let b = s[i];
        if b < 48 || b > 57 {
            assert(!is_digit(s@.subrange(from as int, s@.len() as int)[i - from]));
            return None;
        }
        let ghost prev = s@.subrange(from as int, i as int);
        let ghost next = s@.subrange(from as int, i + 1);
        assert(next.drop_last() =~= prev);
        assert(next.last() == b);
        proof {
            lemma_digits_value_nonneg(prev);
        }
        if acc == CAP {
            assert(digits_value(next) >= CAP) by (nonlinear_arith)
                requires
                    digits_value(prev) >= CAP as int,
                    digits_value(next) == digits_value(prev) * 10 + (b - 48),
                    48 <= b <= 57,
            ;
        } else {
            let v = acc * 10 + (b - 48) as u128;
            acc = if v < CAP { v } else { CAP };
        }
        i = i + 1;
        assert(all_digits(s@.subrange(from as int, i as int))) by {
            assert forall|k: int| 0 <= k < next.len() implies is_digit(#[trigger] next[k]) by {
                if k < prev.len() {
                    assert(next[k] == prev[k]);
                }
            }
        }
    }
    Some(acc)
}

/// The value of decimal text with an optional sign, capped at 2^64 in
/// magnitude, with its sign.
fn read_signed(s: &[u8]) -> (r: Option<(bool, u128)>)
    ensures
        match r {
            Some((neg, m)) => signed_decimal(s@) matches Some(v) && neg == (v < 0 || (s@.len() > 0 && s@[0] == 45u8))
                && m == capped(if neg { -v } else { v }, CAP as int) && (neg ==> v <= 0) && (!neg ==> v >= 0),
            None => signed_decimal(s@) is None,
        },
{
    if s.len() > 0 && (s[0] == 43 || s[0] == 45) {
        let neg = s[0] == 45;
        match read_digits(s, 1) {
            Some(m) => {
                proof {
                    lemma_digits_value_nonneg(s@.subrange(1, s@.len() as int));
                }
                Some((neg, m))
            },
            None => None,
        }
    } else {
        proof {
            assert(s@.subrange(0, s@.len() as int) =~= s@);
        }
        match read_digits(s, 0) {
            Some(m) => {
                proof {
                    lemma_digits_value_nonneg(s@);
                }
                Some((false, m))
            },
            None => None,
        }
    }
}

/// `str::parse::<i32>` on the bytes of the text.
pub fn parse_i32(s: &[u8]) -> (r: Option<i32>)
    ensures
        match signed_decimal(s@) {
            Some(v) => if i32::MIN <= v <= i32::MAX { r == Some(v as i32) } else { r is None },
            None => r is None,
        },
{
    match read_signed(s) {
        Some((neg, m)) => {
            if neg {
                if m <= 0x8000_0000 {
                    Some((0 - (m as i64)) as i32)
                } else {
                    None
                }
            } else {
                if m <= 0x7fff_ffff {
                    Some(m as i32)
                } else {
                    None
                }
            }
        },
        None => None,
    }
}

/// `str::parse::<isize>` on the bytes of the text.
pub fn parse_isize(s: &[u8]) -> (r: Option<isize>)
    ensures
        match signed_decimal(s@) {
            Some(v) => if isize::MIN <= v <= isize::MAX { r == Some(v as isize) } else { r is None },
            None => r is None,
        },
{
    match read_signed(s) {
        Some((neg, m)) => {
            if neg {
                if m <= (isize::MAX as u128) + 1 {
                    if m == (isize::MAX as u128) + 1 {
                        Some(isize::MIN)
                    } else {
                        Some(0 - (m as isize))
                    }
                } else {
                    None
                }
            } else {
                if m <= isize::MAX as u128 {
                    Some(m as isize)
                } else {
                    None
                }
            }
        },
        None => None,
    }
}

/// `str::parse::<u32>` on the bytes of the text.
pub fn parse_u32(s: &[u8]) -> (r: Option<u32>)
    ensures
        match unsigned_decimal(s@) {
            Some(v) => if v <= u32::MAX { r == Some(v as u32) } else { r is None },
            None => r is None,
        },
{
    let from: usize = if s.len() > 0 && s[0] == 43 { 1 } else { 0 };
    proof {
        if from == 0 {
            assert(s@.subrange(0, s@.len() as int) =~= s@);
        }
    }
    match read_digits(s, from) {
        Some(m) => {
            proof {
                lemma_digits_value_nonneg(s@.subrange(from as int, s@.len() as int));
            }
            if m <= 0xffff_ffff {
                Some(m as u32)
            } else {
                None
            }
        },
        None => None,
    }
}

/// `str::parse::<usize>` on the bytes of the text.
pub fn parse_usize(s: &[u8]) -> (r: Option<usize>)
    ensures
        match unsigned_decimal(s@) {
            Some(v) => if v <= usize::MAX { r == Some(v as usize) } else { r is None },
            None => r is None,
        },
{
    let from: usize = if s.len() > 0 && s[0] == 43 { 1 } else { 0 };
    proof {
        if from == 0 {
            assert(s@.subrange(0, s@.len() as int) =~= s@);
        }
    }
    match read_digits(s, from) {
        Some(m) => {
            proof {
                lemma_digits_value_nonneg(s@.subrange(from as int, s@.len() as int));
            }
            if m <= usize::MAX as u128 {
                Some(m as usize)
            } else {
                None
            }
        },
        None => None,
    }
}

/// `str::parse::<i64>` on the bytes of the text.
pub fn parse_i64(s: &[u8]) -> (r: Option<i64>)
    ensures
        match signed_decimal(s@) {
            Some(v) => if i64::MIN <= v <= i64::MAX { r == Some(v as i64) } else { r is None },
            None => r is None,
        },
{
    match read_signed(s) {
        Some((neg, m)) => {
            if neg {
                if m <= 0x8000_0000_0000_0000 {
                    if m == 0x8000_0000_0000_0000 {
                        Some(i64::MIN)
                    } else {
                        Some(0 - (m as i64))
                    }
                } else {
                    None
                }
            } else {
                if m <= 0x7fff_ffff_ffff_ffff {
                    Some(m as i64)
                } else {
                    None
                }
            }
        },
        None => None,
    }
}

/// `str::parse::<i8>` on the bytes of the text.
pub fn parse_i8(s: &[u8]) -> (r: Option<i8>)
    ensures
        match signed_decimal(s@) {
            Some(v) => if i8::MIN <= v <= i8::MAX { r == Some(v as i8) } else { r is None },
            None => r is None,
        },
{
    match parse_i32(s) {
        Some(v) => {
            if -128 <= v && v <= 127 {
                Some(v as i8)
            } else {
                None
            }
        },
        None => None,
    }
}

} // verus!
