//! Decimal integer fields, with the exact grammar of std's `FromStr` for
//! `u32` and `i32`: an optional sign followed by one or more ASCII digits,
//! rejected when the value does not fit the target type.
use vstd::prelude::*;

verus! {

pub open spec fn is_ascii_digit(b: u8) -> bool {
    0x30 <= b <= 0x39
}

pub open spec fn all_digits(s: Seq<u8>) -> bool {
    forall|i: int| 0 <= i < s.len() ==> is_ascii_digit(s[i])
}

/// The value of a string of ASCII digits read in base ten.
pub open spec fn digits_val(s: Seq<u8>) -> int
    decreases s.len(),
{
    if s.len() == 0 {
        0
    } else {
        digits_val(s.drop_last()) * 10 + (s.last() - 0x30)
    }
}

/// What `str::parse::<u32>` accepts: an optional `+`, then one or more
/// digits, with a value of at most `u32::MAX`.
pub open spec fn spec_parse_u32(s: Seq<u8>) -> Option<u32> {
    let t = if s.len() > 0 && s[0] == 0x2b {
        s.skip(1)
    } else {
        s
    };
    if t.len() > 0 && all_digits(t) && digits_val(t) <= u32::MAX {
        Some(digits_val(t) as u32)
    } else {
        None
    }
}

/// What `str::parse::<i32>` accepts: an optional `+` or `-`, then one or
/// more digits, with a value that fits in `i32`.
pub open spec fn spec_parse_i32(s: Seq<u8>) -> Option<i32> {
    if s.len() > 0 && s[0] == 0x2d {
        let t = s.skip(1);
        if t.len() > 0 && all_digits(t) && digits_val(t) <= 0x8000_0000 {
            Some((-digits_val(t)) as i32)
        } else {
            None
        }
    } else {
        let t = if s.len() > 0 && s[0] == 0x2b {
            s.skip(1)
        } else {
            s
        };
        if t.len() > 0 && all_digits(t) && digits_val(t) <= i32::MAX {
            Some(digits_val(t) as i32)
        } else {
            None
        }
    }
}

pub proof fn lemma_digits_val_nonneg(s: Seq<u8>)
    requires
        all_digits(s),
    ensures
        digits_val(s) >= 0,
    decreases s.len(),
{
    if s.len() > 0 {
        assert(all_digits(s.drop_last())) by {
            assert(forall|i: int| 0 <= i < s.len() - 1 ==> s.drop_last()[i] == s[i]);
        }
        lemma_digits_val_nonneg(s.drop_last());
    }
}

/// Reading more digits never shrinks the value.
pub proof fn lemma_digits_val_prefix(s: Seq<u8>, k: int)
    requires
        all_digits(s),
        0 <= k <= s.len(),
    ensures
        digits_val(s.take(k)) <= digits_val(s),
    decreases s.len() - k,
{
    if k == s.len() {
        assert(s.take(k) =~= s);
    } else {
        assert(all_digits(s.take(k + 1))) by {
            assert(forall|i: int| 0 <= i < k + 1 ==> s.take(k + 1)[i] == s[i]);
        }
        assert(s.take(k + 1).drop_last() =~= s.take(k));
        lemma_digits_val_nonneg(s.take(k));
        assert(digits_val(s.take(k + 1)) == digits_val(s.take(k)) * 10 + (s[k] - 0x30));
        lemma_digits_val_prefix(s, k + 1);
    }
}

/// The digits of `s` from `start` on, read as a `u32`; `None` where a byte is
/// not a digit, no digit is present, or the value does not fit.
fn parse_digits(s: &Vec<u8>, start: usize) -> (r: Option<u32>)
    requires
        start <= s@.len(),
    ensures
        ({
            let t = s@.skip(start as int);
            match r {
                Some(v) => t.len() > 0 && all_digits(t) && digits_val(t) == v,
                None => !(t.len() > 0 && all_digits(t) && digits_val(t) <= u32::MAX),
            }
        }),
{
    let ghost t = s@.skip(start as int);
    if start == s.len() {
        return None;
    }
    let mut acc: u32 = 0;
    let mut i: usize = start;
    while i < s.len()
        invariant
            start <= i <= s@.len(),
            t == s@.skip(start as int),
            start < s@.len(),
            all_digits(t.take(i - start)),
            acc == digits_val(t.take(i - start)),
        decreases s@.len() - i,
    {
        let b = s[i];
        proof {
            assert(t[i - start] == s@[i as int]);
        }
        if !(b >= 0x30 && b <= 0x39) {
            return None;
        }
        let d: u32 = (b - 0x30) as u32;
        let wide: u64 = (acc as u64) * 10 + (d as u64);
        proof {
            assert(t.take(i - start + 1).drop_last() =~= t.take(i - start));
            assert(all_digits(t.take(i - start + 1)));
            assert(digits_val(t.take(i - start + 1)) == wide);
        }
        if wide > 0xffff_ffffu64 {
            proof {
                if all_digits(t) {
                    lemma_digits_val_prefix(t, i - start + 1);
                }
            }
            return None;
        }
        acc = wide as u32;
        i = i + 1;
    }
    proof {
        assert(t.take(s@.len() - start) =~= t);
    }
    Some(acc)
}

/// A whole field read as `u32`, with std's `FromStr` grammar.
pub fn parse_u32_field(s: &Vec<u8>) -> (r: Option<u32>)
    ensures
        r == spec_parse_u32(s@),
{
    if s.len() > 0 && s[0] == 0x2b {
        parse_digits(s, 1)
    } else {
        proof {
            assert(s@.skip(0) =~= s@);
        }
        parse_digits(s, 0)
    }
}

/// A whole field read as `i32`, with std's `FromStr` grammar.
pub fn parse_i32_field(s: &Vec<u8>) -> (r: Option<i32>)
    ensures
        r == spec_parse_i32(s@),
{
    if s.len() > 0 && s[0] == 0x2d {
        match parse_digits(s, 1) {
            Some(v) => {
                if v <= 0x8000_0000u32 {
                    Some((-(v as i64)) as i32)
                } else {
                    None
                }
            },
            None => None,
        }
    } else if s.len() > 0 && s[0] == 0x2b {
        match parse_digits(s, 1) {
            Some(v) => {
                if v <= 0x7fff_ffffu32 {
                    Some(v as i32)
                } else {
                    None
                }
            },
            None => None,
        }
    } else {
        proof {
            assert(s@.skip(0) =~= s@);
        }
        match parse_digits(s, 0) {
            Some(v) => {
                if v <= 0x7fff_ffffu32 {
                    Some(v as i32)
                } else {
                    None
                }
            },
            None => None,
        }
    }
}

} // verus!
