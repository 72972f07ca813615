//! The text form of a 32-bit float field. The grammar is the one std
//! documents for parsing floats from text: an optional sign, then a
//! case-insensitive `inf`, `infinity` or `nan`, or a number made of digits
//! with an optional point and an optional exponent. Only acceptance is
//! decided here; turning accepted text into a float value is left to callers
//! outside the verified core.
use vstd::prelude::*;

use crate::num::all_digits;
use crate::scan::find_byte;
use crate::scan::find_byte_range;
use crate::scan::lemma_find_byte_is;

verus! {

pub open spec fn is_sign(b: u8) -> bool {
    b == 0x2b || b == 0x2d
}

/// ASCII upper-case letters folded to lower case; other bytes unchanged.
pub open spec fn lower(b: u8) -> u8 {
    if 0x41 <= b <= 0x5a {
        (b + 0x20) as u8
    } else {
        b
    }
}

pub open spec fn lower_seq(s: Seq<u8>) -> Seq<u8> {
    s.map_values(|b: u8| lower(b))
}

/// Index of the first `e` or `E` in `s`, or `s.len()` if there is none.
pub open spec fn find_exp(s: Seq<u8>) -> nat {
    find_byte(lower_seq(s), 0x65)
}

pub open spec fn is_inf(t: Seq<u8>) -> bool {
    t.len() == 3 && lower(t[0]) == 0x69 && lower(t[1]) == 0x6e && lower(t[2]) == 0x66
}

pub open spec fn is_infinity(t: Seq<u8>) -> bool {
    t.len() == 8 && lower(t[0]) == 0x69 && lower(t[1]) == 0x6e && lower(t[2]) == 0x66 && lower(
        t[3],
    ) == 0x69 && lower(t[4]) == 0x6e && lower(t[5]) == 0x69 && lower(t[6]) == 0x74 && lower(t[7])
        == 0x79
}

pub open spec fn is_nan(t: Seq<u8>) -> bool {
    t.len() == 3 && lower(t[0]) == 0x6e && lower(t[1]) == 0x61 && lower(t[2]) == 0x6e
}

/// Digits with at most one point: one or more digits, optionally followed by
/// a point and more digits, or a leading point followed by one or more
/// digits.
pub open spec fn is_mantissa(m: Seq<u8>) -> bool {
    let d = find_byte(m, 0x2e);
    if d >= m.len() {
        m.len() > 0 && all_digits(m)
    } else {
        all_digits(m.take(d as int)) && all_digits(m.skip(d as int + 1)) && (d > 0 || m.len() - d
            - 1 > 0)
    }
}

/// An optional sign followed by one or more digits.
pub open spec fn is_signed_digits(y: Seq<u8>) -> bool {
    let z = if y.len() > 0 && is_sign(y[0]) {
        y.skip(1)
    } else {
        y
    };
    z.len() > 0 && all_digits(z)
}

/// An exponent: `e` or `E`, then a signed digit string.
pub open spec fn is_exp_part(x: Seq<u8>) -> bool {
    x.len() >= 1 && lower(x[0]) == 0x65 && is_signed_digits(x.skip(1))
}

/// A number: a mantissa up to the first exponent marker, then an optional
/// exponent to the end.
pub open spec fn is_number(t: Seq<u8>) -> bool {
    let k = find_exp(t);
    is_mantissa(t.take(k as int)) && (k >= t.len() || is_exp_part(t.skip(k as int)))
}

/// Whether `s` is a float literal in the grammar std documents for floats:
/// an optional sign, then `inf`, `infinity`, `nan` (case-insensitive) or a
/// number.
pub open spec fn is_float_literal(s: Seq<u8>) -> bool {
    let t = if s.len() > 0 && is_sign(s[0]) {
        s.skip(1)
    } else {
        s
    };
    is_inf(t) || is_infinity(t) || is_nan(t) || is_number(t)
}

fn lower_byte(b: u8) -> (r: u8)
    ensures
        r == lower(b),
{
    if b >= 0x41 && b <= 0x5a {
        b + 0x20
    } else {
        b
    }
}

/// Whether every byte of `s[from..to]` is an ASCII digit.
fn all_digits_range(s: &Vec<u8>, from: usize, to: usize) -> (r: bool)
    requires
        from <= to <= s@.len(),
    ensures
        r == all_digits(s@.subrange(from as int, to as int)),
{
    let ghost sub = s@.subrange(from as int, to as int);
    let mut i: usize = from;
    while i < to
        invariant
            from <= i <= to <= s@.len(),
            sub == s@.subrange(from as int, to as int),
            forall|j: int| 0 <= j < i - from ==> crate::num::is_ascii_digit(sub[j]),
        decreases to - i,
    {
        let b = s[i];
        proof {
            assert(sub[i - from] == s@[i as int]);
        }
        if !(b >= 0x30 && b <= 0x39) {
            return false;
        }
        i = i + 1;
    }
    true
}

/// Absolute index of the first `e` or `E` in `s[from..to]`, or `to`.
fn find_exp_range(s: &Vec<u8>, from: usize, to: usize) -> (r: usize)
    requires
        from <= to <= s@.len(),
    ensures
        from <= r <= to,
        find_exp(s@.subrange(from as int, to as int)) == r - from,
        r < to ==> lower(s@[r as int]) == 0x65,
        forall|j: int| from <= j < r ==> lower(s@[j]) != 0x65,
{
    let ghost sub = lower_seq(s@.subrange(from as int, to as int));
    let mut i: usize = from;
    while i < to && s[i] != 0x65 && s[i] != 0x45
        invariant
            from <= i <= to <= s@.len(),
            forall|j: int| from <= j < i ==> lower(s@[j]) != 0x65,
        decreases to - i,
    {
        i = i + 1;
    }
    proof {
        assert forall|j: int| 0 <= j < i - from implies sub[j] != 0x65 by {
            assert(sub[j] == lower(s@[from + j]));
        }
        assert(i < to ==> sub[i - from] == lower(s@[i as int]));
        lemma_find_byte_is(sub, 0x65, i - from);
    }
    i
}

/// Whether `s[start..]` is one of the keyword forms `inf`, `infinity`, `nan`.
fn keyword_range(s: &Vec<u8>, start: usize) -> (r: bool)
    requires
        start <= s@.len(),
    ensures
        r == (is_inf(s@.skip(start as int)) || is_nan(s@.skip(start as int)) || is_infinity(
            s@.skip(start as int),
        )),
{
    let ghost t = s@.skip(start as int);
    proof {
        assert(forall|j: int| 0 <= j < t.len() ==> t[j] == s@[start + j]);
    }
    let n = s.len();
    let rem = n - start;
    let r = (rem == 3 && lower_byte(s[start]) == 0x69 && lower_byte(s[start + 1]) == 0x6e
        && lower_byte(s[start + 2]) == 0x66) || (rem == 3 && lower_byte(s[start]) == 0x6e
        && lower_byte(s[start + 1]) == 0x61 && lower_byte(s[start + 2]) == 0x6e) || (rem == 8
        && lower_byte(s[start]) == 0x69 && lower_byte(s[start + 1]) == 0x6e && lower_byte(
        s[start + 2],
    ) == 0x66 && lower_byte(s[start + 3]) == 0x69 && lower_byte(s[start + 4]) == 0x6e
        && lower_byte(s[start + 5]) == 0x69 && lower_byte(s[start + 6]) == 0x74 && lower_byte(
        s[start + 7],
    ) == 0x79);
    r
}

/// Whether `s[start..ke]` is a mantissa.
fn mantissa_range(s: &Vec<u8>, start: usize, ke: usize) -> (r: bool)
    requires
        start <= ke <= s@.len(),
    ensures
        r == is_mantissa(s@.subrange(start as int, ke as int)),
{
    let ghost m = s@.subrange(start as int, ke as int);
    let dot = find_byte_range(s, start, ke, 0x2e);
    proof {
        assert(find_byte(m, 0x2e) == dot - start);
    }
    if dot == ke {
        proof {
            assert(s@.subrange(start as int, ke as int) =~= m);
        }
        ke > start && all_digits_range(s, start, ke)
    } else {
        let head_ok = all_digits_range(s, start, dot);
        let tail_ok = all_digits_range(s, dot + 1, ke);
        proof {
            assert(s@.subrange(start as int, dot as int) =~= m.take(dot - start));
            assert(s@.subrange(dot + 1, ke as int) =~= m.skip(dot - start + 1));
        }
        head_ok && tail_ok && (dot > start || ke - dot - 1 > 0)
    }
}

/// Whether `s[ke..]` is an exponent part.
fn exp_range(s: &Vec<u8>, ke: usize) -> (r: bool)
    requires
        ke < s@.len(),
    ensures
        r == is_exp_part(s@.skip(ke as int)),
{
    let ghost x = s@.skip(ke as int);
    let ghost y = x.skip(1);
    proof {
        assert(forall|j: int| 0 <= j < x.len() ==> x[j] == s@[ke + j]);
        assert(forall|j: int| 0 <= j < y.len() ==> y[j] == s@[ke + 1 + j]);
    }
    let n = s.len();
    if !(s[ke] == 0x65 || s[ke] == 0x45) {
        return false;
    }
    let sd_start: usize = if ke + 1 < n && (s[ke + 1] == 0x2b || s[ke + 1] == 0x2d) {
        ke + 2
    } else {
        ke + 1
    };
    let digits_ok = n > sd_start && all_digits_range(s, sd_start, n);
    proof {
        let z = if y.len() > 0 && is_sign(y[0]) {
            y.skip(1)
        } else {
            y
        };
        assert(z =~= s@.subrange(sd_start as int, n as int));
    }
    digits_ok
}

/// Whether the whole of `s` is a float literal.
pub fn is_float_text(s: &Vec<u8>) -> (r: bool)
    ensures
        r == is_float_literal(s@),
{
    let n = s.len();
    let start: usize = if n > 0 && (s[0] == 0x2b || s[0] == 0x2d) {
        1
    } else {
        0
    };
    let ghost t = s@.skip(start as int);
    proof {
        assert(forall|j: int| 0 <= j < t.len() ==> t[j] == s@[start + j]);
        if start == 0 {
            assert(t =~= s@);
        }
    }
    let kw = keyword_range(s, start);
    let ke = find_exp_range(s, start, n);
    proof {
        assert forall|j: int| 0 <= j < ke - start implies lower_seq(t)[j] != 0x65 by {
            assert(lower_seq(t)[j] == lower(t[j]));
        }
        assert(ke - start < t.len() ==> lower_seq(t)[ke - start] == lower(t[ke - start]));
        lemma_find_byte_is(lower_seq(t), 0x65, ke - start);
        assert(find_exp(t) == ke - start);
    }
    let mantissa_ok = mantissa_range(s, start, ke);
    proof {
        assert(s@.subrange(start as int, ke as int) =~= t.take(ke - start));
    }
    let exp_ok = if ke == n {
        true
    } else {
        exp_range(s, ke)
    };
    proof {
        if ke < n {
            assert(s@.skip(ke as int) =~= t.skip(ke - start));
        }
        assert((mantissa_ok && exp_ok) == is_number(t));
    }
    kw || (mantissa_ok && exp_ok)
}

} // verus!
