//! A bounded head-plus-tail preview of a sequence: the leading `first_n` and
//! trailing `last_n` elements, clamped so that no element is duplicated and
//! original order is kept. A pure, total function: counts beyond the length
//! are saturated, never an error.
use vstd::prelude::*;

use crate::scan::seq_views;
use crate::scan::subvec;

verus! {

/// The head length actually taken: `first_n` clamped to the length.
pub open spec fn head_len(len: int, first_n: int) -> int {
    if first_n <= len {
        first_n
    } else {
        len
    }
}

/// The tail length actually taken: `last_n` clamped to what remains after
/// the head.
pub open spec fn tail_len(len: int, first_n: int, last_n: int) -> int {
    let rem = len - head_len(len, first_n);
    if last_n <= rem {
        last_n
    } else {
        rem
    }
}

/// The preview: the first `head_len` elements followed by the last
/// `tail_len` elements.
pub open spec fn spec_window<T>(s: Seq<T>, first_n: int, last_n: int) -> Seq<T> {
    let h = head_len(s.len() as int, first_n);
    let t = tail_len(s.len() as int, first_n, last_n);
    s.take(h) + s.skip(s.len() - t)
}

/// The leading `first_n` and trailing `last_n` elements of `s`, in their
/// original order, with both counts clamped to the available elements so
/// that nothing is duplicated: when `first_n + last_n` covers the whole
/// sequence the result is the whole sequence, and when both are zero it is
/// empty.
pub fn window<T: Copy>(s: &Vec<T>, first_n: usize, last_n: usize) -> (r: Vec<T>)
    ensures
        r@ == spec_window(s@, first_n as int, last_n as int),
{
    let len = s.len();
    let h = if first_n <= len {
        first_n
    } else {
        len
    };
    let rem = len - h;
    let t = if last_n <= rem {
        last_n
    } else {
        rem
    };
    let mut r: Vec<T> = Vec::new();
    let mut i: usize = 0;
    while i < h
        invariant
            i <= h <= s@.len(),
            r@ == s@.take(i as int),
        decreases h - i,
    {
        r.push(s[i]);
        i = i + 1;
        proof {
            assert(s@.take(i as int) =~= s@.take(i - 1).push(s@[i - 1]));
        }
    }
    let mut j: usize = len - t;
    proof {
        assert(s@.take(h as int) + s@.subrange(len - t, j as int) =~= s@.take(h as int));
    }
    while j < len
        invariant
            h == head_len(s@.len() as int, first_n as int),
            t == tail_len(s@.len() as int, first_n as int, last_n as int),
            len == s@.len(),
            len - t <= j <= len,
            r@ == s@.take(h as int) + s@.subrange(len - t, j as int),
        decreases len - j,
    {
        r.push(s[j]);
        j = j + 1;
        proof {
            assert(s@.subrange(len - t, j as int) =~= s@.subrange(len - t, j - 1).push(
                s@[j - 1],
            ));
            assert(s@.take(h as int) + s@.subrange(len - t, j as int) =~= (s@.take(h as int)
                + s@.subrange(len - t, j - 1)).push(s@[j - 1]));
        }
    }
    proof {
        assert(s@.subrange(len - t, len as int) =~= s@.skip(len - t));
    }
    r
}

/// `window` for columns of raw field text, which are copied entry by entry.
pub fn window_bytes(s: &Vec<Vec<u8>>, first_n: usize, last_n: usize) -> (r: Vec<Vec<u8>>)
    ensures
        seq_views(r@) == spec_window(seq_views(s@), first_n as int, last_n as int),
{
    let ghost sv = seq_views(s@);
    let len = s.len();
    let h = if first_n <= len {
        first_n
    } else {
        len
    };
    let rem = len - h;
    let t = if last_n <= rem {
        last_n
    } else {
        rem
    };
    let mut r: Vec<Vec<u8>> = Vec::new();
    proof {
        assert(seq_views(r@) =~= sv.take(0));
    }
    let mut i: usize = 0;
    while i < h
        invariant
            i <= h <= s@.len(),
            sv == seq_views(s@),
            seq_views(r@) == sv.take(i as int),
        decreases h - i,
    {
        let entry = &s[i];
        let copy = subvec(entry, 0, entry.len());
        proof {
            assert(copy@ =~= s@[i as int]@);
            assert(seq_views(r@.push(copy)) =~= seq_views(r@).push(copy@));
            assert(sv.take(i + 1) =~= sv.take(i as int).push(sv[i as int]));
        }
        r.push(copy);
        i = i + 1;
    }
    let mut j: usize = len - t;
    proof {
        assert(sv.take(h as int) + sv.subrange(len - t, j as int) =~= sv.take(h as int));
    }
    while j < len
        invariant
            h == head_len(sv.len() as int, first_n as int),
            t == tail_len(sv.len() as int, first_n as int, last_n as int),
            len == s@.len(),
            sv == seq_views(s@),
            len - t <= j <= len,
            seq_views(r@) == sv.take(h as int) + sv.subrange(len - t, j as int),
        decreases len - j,
    {
        let entry = &s[j];
        let copy = subvec(entry, 0, entry.len());
        proof {
            assert(copy@ =~= s@[j as int]@);
            assert(seq_views(r@.push(copy)) =~= seq_views(r@).push(copy@));
            assert(sv.subrange(len - t, j + 1) =~= sv.subrange(len - t, j as int).push(
                sv[j as int],
            ));
            assert(sv.take(h as int) + sv.subrange(len - t, j + 1) =~= (sv.take(h as int)
                + sv.subrange(len - t, j as int)).push(sv[j as int]));
        }
        r.push(copy);
        j = j + 1;
    }
    proof {
        assert(sv.subrange(len - t, len as int) =~= sv.skip(len - t));
    }
    r
}

} // verus!
