//! Laws of the parser that relate whole runs: column balance, the empty
//! result on header-only input, the cap failure, and determinism.
use vstd::prelude::*;

use crate::parser::empty_model;
use crate::parser::over_cap;
use crate::parser::spec_line;
use crate::parser::spec_line_data;
use crate::parser::spec_parse;
use crate::parser::spec_parse_lines;
use crate::parser::EpwModel;
use crate::parser::Error;
use crate::scan::find_byte;
use crate::scan::strip_cr;

verus! {

/// How many lines the input holds: segments ending at a newline, plus a
/// final segment if the input does not end with one.
pub open spec fn count_lines(s: Seq<u8>) -> nat
    decreases s.len(),
{
    if s.len() == 0 {
        0
    } else {
        let e = find_byte(s, 0x0a);
        let rest = if e < s.len() {
            s.skip(e as int + 1)
        } else {
            Seq::<u8>::empty()
        };
        1 + count_lines(rest)
    }
}

/// How many of the `cnt` lines numbered from `line_no` lie past the
/// eight-line header.
pub open spec fn data_line_count(line_no: int, cnt: nat) -> nat
    decreases cnt,
{
    if cnt == 0 {
        0
    } else {
        (if line_no > 8 {
            1nat
        } else {
            0nat
        }) + data_line_count(line_no + 1, (cnt - 1) as nat)
    }
}

pub open spec fn clamp0(x: int) -> int {
    if x > 0 {
        x
    } else {
        0
    }
}

pub proof fn lemma_data_line_count_closed(line_no: int, cnt: nat)
    ensures
        data_line_count(line_no, cnt) == clamp0(line_no + cnt - 9) - clamp0(line_no - 9),
    decreases cnt,
{
    if cnt > 0 {
        lemma_data_line_count_closed(line_no + 1, (cnt - 1) as nat);
    }
}

proof fn lemma_parse_lines_balanced(s: Seq<u8>, line_no: int, ml: Option<usize>, acc: EpwModel)
    requires
        acc.ts.len() == acc.wind_dir.len(),
        acc.ts.len() == acc.wind_speed.len(),
    ensures
        match spec_parse_lines(s, line_no, ml, acc) {
            Ok(m) => {
                &&& m.ts.len() == m.wind_dir.len()
                &&& m.ts.len() == m.wind_speed.len()
                &&& m.ts.len() == acc.ts.len() + data_line_count(line_no, count_lines(s))
            },
            Err(_) => true,
        },
    decreases s.len(),
{
    if s.len() == 0 {
    } else {
        let e = find_byte(s, 0x0a);
        let line = strip_cr(s.take(e as int));
        let rest = if e < s.len() {
            s.skip(e as int + 1)
        } else {
            Seq::<u8>::empty()
        };
        match spec_line(line, line_no, ml, acc) {
            Ok(acc2) => {
                lemma_parse_lines_balanced(rest, line_no + 1, ml, acc2);
            },
            Err(_) => {},
        }
    }
}

/// Law: a successful parse yields three columns of equal length, one entry
/// per data line: every line of the input past the eight-line header.
pub proof fn lemma_columns_balanced(s: Seq<u8>, ml: Option<usize>)
    ensures
        match spec_parse(s, ml) {
            Ok(m) => {
                &&& m.ts.len() == m.wind_dir.len()
                &&& m.ts.len() == m.wind_speed.len()
                &&& m.ts.len() == clamp0(count_lines(s) - 8)
            },
            Err(_) => true,
        },
{
    lemma_parse_lines_balanced(s, 1, ml, empty_model());
    lemma_data_line_count_closed(1, count_lines(s));
}

proof fn lemma_header_lines_skipped(s: Seq<u8>, line_no: int, ml: Option<usize>, acc: EpwModel)
    requires
        line_no >= 1,
        line_no + count_lines(s) <= 9,
    ensures
        spec_parse_lines(s, line_no, ml, acc) == Ok::<EpwModel, Error>(acc),
    decreases s.len(),
{
    if s.len() == 0 {
    } else {
        let e = find_byte(s, 0x0a);
        let rest = if e < s.len() {
            s.skip(e as int + 1)
        } else {
            Seq::<u8>::empty()
        };
        lemma_header_lines_skipped(rest, line_no + 1, ml, acc);
    }
}

/// Law: input with fewer than nine lines holds no data line, so parsing it
/// succeeds with an empty dataset whatever the cap, never an error.
pub proof fn lemma_truncated_input_is_empty(s: Seq<u8>, ml: Option<usize>)
    requires
        count_lines(s) <= 8,
    ensures
        spec_parse(s, ml) == Ok::<EpwModel, Error>(empty_model()),
{
    lemma_header_lines_skipped(s, 1, ml, empty_model());
}

proof fn lemma_cap_fails_rec(s: Seq<u8>, line_no: int, cap: usize, acc: EpwModel)
    requires
        1 <= line_no,
        spec_parse_lines(s, line_no, None, acc) is Ok,
        clamp0(line_no - 9) <= cap,
        data_line_count(line_no, count_lines(s)) > cap - clamp0(line_no - 9),
    ensures
        spec_parse_lines(s, line_no, Some(cap), acc) == Err::<EpwModel, Error>(
            Error::MaxLinesReached { max_lines: cap },
        ),
    decreases s.len(),
{
    if s.len() == 0 {
    } else {
        let e = find_byte(s, 0x0a);
        let line = strip_cr(s.take(e as int));
        let rest = if e < s.len() {
            s.skip(e as int + 1)
        } else {
            Seq::<u8>::empty()
        };
        if line_no <= 8 {
            lemma_cap_fails_rec(rest, line_no + 1, cap, acc);
        } else if line_no - 8 > cap {
            assert(over_cap(line_no, Some(cap)));
        } else {
            match spec_line_data(crate::scan::split_commas(line), line_no) {
                Ok(row) => {
                    let acc2 = EpwModel {
                        ts: acc.ts.push(row.0),
                        wind_dir: acc.wind_dir.push(row.1),
                        wind_speed: acc.wind_speed.push(row.2),
                    };
                    lemma_cap_fails_rec(rest, line_no + 1, cap, acc2);
                },
                Err(_) => {
                    assert(spec_parse_lines(s, line_no, None, acc) is Err);
                },
            }
        }
    }
}

/// Law: when an uncapped parse of some content succeeds with more than `cap`
/// data lines, parsing the same content with `max_lines` set to `cap` fails
/// with the cap error carrying `cap`, after exactly `cap` data lines.
pub proof fn lemma_cap_exceeded(s: Seq<u8>, cap: usize)
    requires
        spec_parse(s, None) is Ok,
        spec_parse(s, None)->Ok_0.ts.len() > cap,
    ensures
        spec_parse(s, Some(cap)) == Err::<EpwModel, Error>(
            Error::MaxLinesReached { max_lines: cap },
        ),
{
    lemma_parse_lines_balanced(s, 1, None, empty_model());
    lemma_cap_fails_rec(s, 1, cap, empty_model());
}

/// Law: parsing is a function of the byte content and the cap alone; equal
/// content parsed twice yields equal outcomes, with no hidden state.
pub proof fn lemma_parse_deterministic(a: Seq<u8>, b: Seq<u8>, ml: Option<usize>)
    requires
        a == b,
    ensures
        spec_parse(a, ml) == spec_parse(b, ml),
{
}

} // verus!
