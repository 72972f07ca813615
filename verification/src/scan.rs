//! Byte-level scanning helpers: locating a delimiter, copying a subrange,
//! and splitting a line into comma-separated fields.
use vstd::prelude::*;

verus! {

/// Index of the first occurrence of `b` in `s`, or `s.len()` if `b` does not
/// occur.
pub open spec fn find_byte(s: Seq<u8>, b: u8) -> nat
    decreases s.len(),
{
    if s.len() == 0 {
        0
    } else if s[0] == b {
        0
    } else {
        1 + find_byte(s.skip(1), b)
    }
}

/// `find_byte` returns the one index whose prefix is free of `b` and which
/// either carries `b` or is the end of the sequence.
pub proof fn lemma_find_byte_is(s: Seq<u8>, b: u8, i: int)
    requires
        0 <= i <= s.len(),
        forall|j: int| 0 <= j < i ==> s[j] != b,
        i < s.len() ==> s[i] == b,
    ensures
        find_byte(s, b) == i,
    decreases s.len(),
{
    if s.len() == 0 {
    } else if s[0] == b {
        assert(i == 0);
    } else {
        assert(i >= 1);
        assert forall|j: int| 0 <= j < i - 1 implies s.skip(1)[j] != b by {
            assert(s.skip(1)[j] == s[j + 1]);
        }
        assert(i - 1 < s.skip(1).len() ==> s.skip(1)[i - 1] == s[i]);
        lemma_find_byte_is(s.skip(1), b, i - 1);
    }
}

/// Absolute index of the first occurrence of `b` in `s[from..to]`, or `to`.
pub fn find_byte_range(s: &Vec<u8>, from: usize, to: usize, b: u8) -> (r: usize)
    requires
        from <= to <= s@.len(),
    ensures
        from <= r <= to,
        find_byte(s@.subrange(from as int, to as int), b) == r - from,
        r < to ==> s@[r as int] == b,
        forall|j: int| from <= j < r ==> s@[j] != b,
{
    let ghost sub = s@.subrange(from as int, to as int);
    let mut i: usize = from;
    while i < to && s[i] != b
        invariant
            from <= i <= to <= s@.len(),
            forall|j: int| from <= j < i ==> s@[j] != b,
        decreases to - i,
    {
        i = i + 1;
    }
    proof {
        assert forall|j: int| 0 <= j < i - from implies sub[j] != b by {
            assert(sub[j] == s@[from + j]);
        }
        assert(i < to ==> sub[i - from] == s@[i as int]);
        lemma_find_byte_is(sub, b, i - from);
    }
    i
}

/// A copy of `s[from..to]`.
pub fn subvec(s: &Vec<u8>, from: usize, to: usize) -> (r: Vec<u8>)
    requires
        from <= to <= s@.len(),
    ensures
        r@ == s@.subrange(from as int, to as int),
{
    let mut r: Vec<u8> = Vec::new();
    let mut i: usize = from;
    while i < to
        invariant
            from <= i <= to <= s@.len(),
            r@ == s@.subrange(from as int, i as int),
        decreases to - i,
    {
        r.push(s[i]);
        i = i + 1;
        proof {
            assert(s@.subrange(from as int, i as int) =~= s@.subrange(
                from as int,
                i - 1,
            ).push(s@[i - 1]));
        }
    }
    r
}

/// A line with one trailing carriage return removed, as the line reader of
/// the original byte stream hands lines out.
pub open spec fn strip_cr(s: Seq<u8>) -> Seq<u8> {
    if s.len() > 0 && s.last() == 0x0d {
        s.drop_last()
    } else {
        s
    }
}

/// The comma-separated fields of a line, exactly as splitting on `,` yields
/// them: no trimming, empty fields kept, and an empty line giving one empty
/// field.
pub open spec fn split_commas(s: Seq<u8>) -> Seq<Seq<u8>>
    decreases s.len(),
{
    let e = find_byte(s, 0x2c);
    if e >= s.len() {
        seq![s]
    } else {
        seq![s.take(e as int)] + split_commas(s.skip(e as int + 1))
    }
}

/// The views of a sequence of byte vectors.
pub open spec fn seq_views(s: Seq<Vec<u8>>) -> Seq<Seq<u8>> {
    s.map_values(|v: Vec<u8>| v@)
}

pub fn split_commas_exec(line: &Vec<u8>) -> (cols: Vec<Vec<u8>>)
    ensures
        seq_views(cols@) == split_commas(line@),
{
    let mut cols: Vec<Vec<u8>> = Vec::new();
    let mut start: usize = 0;
    proof {
        assert(line@.skip(0) =~= line@);
        assert(seq_views(cols@) + split_commas(line@) =~= split_commas(line@));
    }
    loop
        invariant_except_break
            start <= line@.len(),
            split_commas(line@) == seq_views(cols@) + split_commas(line@.skip(start as int)),
        ensures
            seq_views(cols@) == split_commas(line@),
        decreases line@.len() - start,
    {
        let ghost rest = line@.skip(start as int);
        let mut k = start;
        while k < line.len() && line[k] != 44
            invariant
                start <= k <= line@.len(),
                forall|j: int| start <= j < k ==> line@[j] != 44,
            decreases line@.len() - k,
        {
            k = k + 1;
        }
        proof {
            assert forall|j: int| 0 <= j < k - start implies rest[j] != 44 by {
                assert(rest[j] == line@[start + j]);
            }
            assert(k < line@.len() ==> rest[k - start] == line@[k as int]);
            lemma_find_byte_is(rest, 44, k - start);
        }
        let field = subvec(line, start, k);
        proof {
            assert(field@ =~= rest.take(k - start));
            assert(seq_views(cols@.push(field)) =~= seq_views(cols@).push(field@));
        }
        cols.push(field);
        if k == line.len() {
            proof {
                assert(split_commas(rest) == seq![rest]);
                assert(rest.take(k - start) =~= rest);
                assert(seq_views(cols@) =~= split_commas(line@));
            }
            break;
        }
        proof {
            assert(split_commas(rest) == seq![rest.take(k - start)] + split_commas(
                rest.skip(k - start + 1),
            ));
            assert(rest.skip(k - start + 1) =~= line@.skip(k + 1));
            assert(split_commas(line@) =~= seq_views(cols@) + split_commas(line@.skip(k + 1)));
        }
        start = k + 1;
    }
    cols
}

} // verus!
