//! The EPW parser: it skips the fixed eight-line header, splits each data
//! line on commas, composes a timestamp from the first five integer fields,
//! takes wind direction and wind speed from fixed columns, enforces an
//! optional cap on data lines, and stops at the first error.
use vstd::prelude::*;

use crate::float_text::is_float_literal;
use crate::float_text::is_float_text;
use crate::num::parse_i32_field;
use crate::num::parse_u32_field;
use crate::num::spec_parse_i32;
use crate::num::spec_parse_u32;
use crate::scan::find_byte;
use crate::scan::find_byte_range;
use crate::scan::seq_views;
use crate::scan::split_commas;
use crate::scan::split_commas_exec;
use crate::scan::strip_cr;
use crate::scan::subvec;
use crate::time::date_exists;
use crate::time::valid_ymd;
use crate::time::Timestamp;

verus! {

/// The logical name of a required column of a data line.
#[derive(Clone, Copy, PartialEq, Eq, Structural, Debug)]
pub enum Column {
    Year,
    Month,
    Day,
    Hour,
    Minute,
    WindDirection,
    WindSpeed,
}

impl Column {
    /// The field name as diagnostics spell it.
    pub fn label(self) -> (r: &'static str) {
        match self {
            Column::Year => "Year",
            Column::Month => "Month",
            Column::Day => "Day",
            Column::Hour => "Hour",
            Column::Minute => "Minute",
            Column::WindDirection => "Wind direction",
            Column::WindSpeed => "Wind speed",
        }
    }
}

/// One of the five mutually exclusive failure kinds of a parse. All but `Io`
/// carry the context a caller needs to render a precise diagnostic.
#[derive(Debug)]
pub enum Error {
    /// The underlying byte source failed; carries its description.
    Io { msg: String },
    /// A required field is absent: the line has too few comma-separated
    /// fields.
    MissingColumn { name: Column, line_no: usize },
    /// A required field is present but not readable as its numeric type.
    CannotParseColumn { name: Column, line_no: usize },
    /// The five timestamp fields do not name a valid calendar time.
    InvalidTimestamp { line_no: usize },
    /// The configured cap on data lines was reached before the source was
    /// exhausted.
    MaxLinesReached { max_lines: usize },
}

/// Three parallel columns of equal length; the i-th element of each column
/// describes the same data line. The wind columns hold the raw field text,
/// each entry validated as a float literal; callers turn entries into float
/// values outside the verified core.
#[derive(Debug)]
pub struct Epw {
    pub ts: Vec<Timestamp>,
    pub wind_speed: Vec<Vec<u8>>,
    pub wind_dir: Vec<Vec<u8>>,
}

/// The mathematical content of an `Epw`.
pub struct EpwModel {
    pub ts: Seq<Timestamp>,
    pub wind_dir: Seq<Seq<u8>>,
    pub wind_speed: Seq<Seq<u8>>,
}

pub open spec fn empty_model() -> EpwModel {
    EpwModel { ts: Seq::empty(), wind_dir: Seq::empty(), wind_speed: Seq::empty() }
}

pub open spec fn epw_matches(e: Epw, m: EpwModel) -> bool {
    &&& e.ts@ == m.ts
    &&& seq_views(e.wind_dir@) == m.wind_dir
    &&& seq_views(e.wind_speed@) == m.wind_speed
}

pub open spec fn spec_col_u32(cols: Seq<Seq<u8>>, name: Column, idx: int, line_no: int) -> Result<
    u32,
    Error,
> {
    if idx >= cols.len() {
        Err(Error::MissingColumn { name, line_no: line_no as usize })
    } else {
        match spec_parse_u32(cols[idx]) {
            Some(v) => Ok(v),
            None => Err(Error::CannotParseColumn { name, line_no: line_no as usize }),
        }
    }
}

pub open spec fn spec_col_i32(cols: Seq<Seq<u8>>, name: Column, idx: int, line_no: int) -> Result<
    i32,
    Error,
> {
    if idx >= cols.len() {
        Err(Error::MissingColumn { name, line_no: line_no as usize })
    } else {
        match spec_parse_i32(cols[idx]) {
            Some(v) => Ok(v),
            None => Err(Error::CannotParseColumn { name, line_no: line_no as usize }),
        }
    }
}

pub open spec fn spec_col_float(cols: Seq<Seq<u8>>, name: Column, idx: int, line_no: int) -> Result<
    Seq<u8>,
    Error,
> {
    if idx >= cols.len() {
        Err(Error::MissingColumn { name, line_no: line_no as usize })
    } else if is_float_literal(cols[idx]) {
        Ok(cols[idx])
    } else {
        Err(Error::CannotParseColumn { name, line_no: line_no as usize })
    }
}

/// The timestamp of a data line: Year, Month, Day, Hour, Minute at columns
/// 0 to 4, the date a valid calendar date, the one-based Hour shifted down
/// by one to a clock hour below 24, the minute below 60.
pub open spec fn spec_compose_ts(cols: Seq<Seq<u8>>, line_no: int) -> Result<Timestamp, Error> {
    match spec_col_i32(cols, Column::Year, 0, line_no) {
        Err(e) => Err(e),
        Ok(year) => match spec_col_u32(cols, Column::Month, 1, line_no) {
            Err(e) => Err(e),
            Ok(month) => match spec_col_u32(cols, Column::Day, 2, line_no) {
                Err(e) => Err(e),
                Ok(day) => match spec_col_u32(cols, Column::Hour, 3, line_no) {
                    Err(e) => Err(e),
                    Ok(hour) => match spec_col_u32(cols, Column::Minute, 4, line_no) {
                        Err(e) => Err(e),
                        Ok(minute) => {
                            if !valid_ymd(year as int, month as int, day as int) {
                                Err(Error::InvalidTimestamp { line_no: line_no as usize })
                            } else if hour < 1 {
                                Err(Error::InvalidTimestamp { line_no: line_no as usize })
                            } else if !(hour - 1 < 24 && minute < 60) {
                                Err(Error::InvalidTimestamp { line_no: line_no as usize })
                            } else {
                                Ok(
                                    Timestamp {
                                        year,
                                        month,
                                        day,
                                        hour: (hour - 1) as u32,
                                        minute,
                                    },
                                )
                            }
                        },
                    },
                },
            },
        },
    }
}

/// What one data line contributes: its timestamp and the two wind fields.
pub open spec fn spec_line_data(cols: Seq<Seq<u8>>, line_no: int) -> Result<
    (Timestamp, Seq<u8>, Seq<u8>),
    Error,
> {
    match spec_compose_ts(cols, line_no) {
        Err(e) => Err(e),
        Ok(t) => match spec_col_float(cols, Column::WindDirection, 20, line_no) {
            Err(e) => Err(e),
            Ok(wd) => match spec_col_float(cols, Column::WindSpeed, 21, line_no) {
                Err(e) => Err(e),
                Ok(ws) => Ok((t, wd, ws)),
            },
        },
    }
}

/// Whether the line about to be processed would exceed the configured cap on
/// data lines. The check precedes reading the line's content, so exactly
/// `max_lines` data lines are processed before failure.
pub open spec fn over_cap(line_no: int, max_lines: Option<usize>) -> bool {
    match max_lines {
        Some(m) => line_no - 8 > m,
        None => false,
    }
}

/// What one line does to the accumulated dataset: the first eight lines are
/// discarded unread; a data line beyond the cap fails; any other data line
/// either appends to all three columns in lockstep or fails.
pub open spec fn spec_line(
    line: Seq<u8>,
    line_no: int,
    max_lines: Option<usize>,
    acc: EpwModel,
) -> Result<EpwModel, Error> {
    if line_no <= 8 {
        Ok(acc)
    } else if over_cap(line_no, max_lines) {
        Err(Error::MaxLinesReached { max_lines: max_lines.unwrap() })
    } else {
        match spec_line_data(split_commas(line), line_no) {
            Ok(row) => Ok(
                EpwModel {
                    ts: acc.ts.push(row.0),
                    wind_dir: acc.wind_dir.push(row.1),
                    wind_speed: acc.wind_speed.push(row.2),
                },
            ),
            Err(e) => Err(e),
        }
    }
}

/// The remaining input folded line by line, lines numbered from `line_no`:
/// each line runs to the next newline (a trailing carriage return stripped),
/// and the first failing line ends the parse.
pub open spec fn spec_parse_lines(
    s: Seq<u8>,
    line_no: int,
    max_lines: Option<usize>,
    acc: EpwModel,
) -> Result<EpwModel, Error>
    decreases s.len(),
{
    if s.len() == 0 {
        Ok(acc)
    } else {
        let e = find_byte(s, 0x0a);
        let line = strip_cr(s.take(e as int));
        let rest = if e < s.len() {
            s.skip(e as int + 1)
        } else {
            Seq::<u8>::empty()
        };
        match spec_line(line, line_no, max_lines, acc) {
            Ok(acc2) => spec_parse_lines(rest, line_no + 1, max_lines, acc2),
            Err(err) => Err(err),
        }
    }
}

/// The dataset or error that parsing a whole byte source yields.
pub open spec fn spec_parse(s: Seq<u8>, max_lines: Option<usize>) -> Result<EpwModel, Error> {
    spec_parse_lines(s, 1, max_lines, empty_model())
}

/// The field at `idx` read as an unsigned integer column.
pub fn parse_col(cols: &Vec<Vec<u8>>, name: Column, idx: usize, line_no: usize) -> (r: Result<
    u32,
    Error,
>)
    ensures
        r == spec_col_u32(seq_views(cols@), name, idx as int, line_no as int),
{
    if idx >= cols.len() {
        Err(Error::MissingColumn { name, line_no })
    } else {
        match parse_u32_field(&cols[idx]) {
            Some(v) => Ok(v),
            None => Err(Error::CannotParseColumn { name, line_no }),
        }
    }
}

/// The field at `idx` read as a signed integer column.
pub fn parse_col_i32(cols: &Vec<Vec<u8>>, name: Column, idx: usize, line_no: usize) -> (r: Result<
    i32,
    Error,
>)
    ensures
        r == spec_col_i32(seq_views(cols@), name, idx as int, line_no as int),
{
    if idx >= cols.len() {
        Err(Error::MissingColumn { name, line_no })
    } else {
        match parse_i32_field(&cols[idx]) {
            Some(v) => Ok(v),
            None => Err(Error::CannotParseColumn { name, line_no }),
        }
    }
}

/// The field at `idx` validated as float text and handed back as it stands.
pub fn parse_col_float(cols: &Vec<Vec<u8>>, name: Column, idx: usize, line_no: usize) -> (r: Result<
    Vec<u8>,
    Error,
>)
    ensures
        match (r, spec_col_float(seq_views(cols@), name, idx as int, line_no as int)) {
            (Ok(v), Ok(sv)) => v@ == sv,
            (Err(e1), Err(e2)) => e1 == e2,
            _ => false,
        },
{
    if idx >= cols.len() {
        Err(Error::MissingColumn { name, line_no })
    } else {
        let col = &cols[idx];
        if is_float_text(col) {
            let copy = subvec(col, 0, col.len());
            proof {
                assert(col@.subrange(0, col@.len() as int) =~= col@);
            }
            Ok(copy)
        } else {
            Err(Error::CannotParseColumn { name, line_no })
        }
    }
}

/// The timestamp of a data line, composed from its first five fields.
pub fn compose_ts(cols: &Vec<Vec<u8>>, line_no: usize) -> (r: Result<Timestamp, Error>)
    ensures
        r == spec_compose_ts(seq_views(cols@), line_no as int),
{
    let year = match parse_col_i32(cols, Column::Year, 0, line_no) {
        Ok(v) => v,
        Err(e) => {
            return Err(e);
        },
    };
    let month = match parse_col(cols, Column::Month, 1, line_no) {
        Ok(v) => v,
        Err(e) => {
            return Err(e);
        },
    };
    let day = match parse_col(cols, Column::Day, 2, line_no) {
        Ok(v) => v,
        Err(e) => {
            return Err(e);
        },
    };
    let hour = match parse_col(cols, Column::Hour, 3, line_no) {
        Ok(v) => v,
        Err(e) => {
            return Err(e);
        },
    };
    let minute = match parse_col(cols, Column::Minute, 4, line_no) {
        Ok(v) => v,
        Err(e) => {
            return Err(e);
        },
    };
    if !date_exists(year, month, day) {
        return Err(Error::InvalidTimestamp { line_no });
    }
    if hour < 1 {
        return Err(Error::InvalidTimestamp { line_no });
    }
    let hour0 = hour - 1;
    if !(hour0 < 24 && minute < 60) {
        return Err(Error::InvalidTimestamp { line_no });
    }
    Ok(Timestamp { year, month, day, hour: hour0, minute })
}

/// Everything one data line contributes to the dataset.
fn parse_line_data(line: &Vec<u8>, line_no: usize) -> (r: Result<(Timestamp, Vec<u8>, Vec<u8>), Error>)
    ensures
        match (r, spec_line_data(split_commas(line@), line_no as int)) {
            (Ok(row), Ok(srow)) => row.0 == srow.0 && row.1@ == srow.1 && row.2@ == srow.2,
            (Err(e1), Err(e2)) => e1 == e2,
            _ => false,
        },
{
    let cols = split_commas_exec(line);
    let t = match compose_ts(&cols, line_no) {
        Ok(v) => v,
        Err(e) => {
            return Err(e);
        },
    };
    let wd = match parse_col_float(&cols, Column::WindDirection, 20, line_no) {
        Ok(v) => v,
        Err(e) => {
            return Err(e);
        },
    };
    let ws = match parse_col_float(&cols, Column::WindSpeed, 21, line_no) {
        Ok(v) => v,
        Err(e) => {
            return Err(e);
        },
    };
    Ok((t, wd, ws))
}

/// A parser over a byte source held in memory, with an optional cap on the
/// number of data lines it may process.
pub struct EpwReader {
    pub content: Vec<u8>,
    pub max_lines: Option<usize>,
}

impl EpwReader {
    /// A reader over a byte slice.
    pub fn from_slice(s: &[u8]) -> (r: Self)
        ensures
            r.content@ == s@,
            r.max_lines is None,
    {
        EpwReader { content: vstd::slice::slice_to_vec(s), max_lines: None }
    }

    /// A reader over bytes already owned.
    pub fn new(content: Vec<u8>) -> (r: Self)
        ensures
            r.content@ == content@,
            r.max_lines is None,
    {
        EpwReader { content, max_lines: None }
    }

    /// The same reader with a cap on the number of data lines processed.
    pub fn set_max_lines(self, max_lines: usize) -> (r: Self)
        ensures
            r.content@ == self.content@,
            r.max_lines == Some(max_lines),
    {
        EpwReader { content: self.content, max_lines: Some(max_lines) }
    }

    /// The parse: either a dataset holding one entry per data line in each
    /// of its three columns, or the error of the first line that failed.
    #[verifier::rlimit(80)]
    pub fn parse(self) -> (r: Result<Epw, Error>)
        ensures
            match (r, spec_parse(self.content@, self.max_lines)) {
                (Ok(e), Ok(m)) => epw_matches(e, m),
                (Err(e1), Err(e2)) => e1 == e2,
                _ => false,
            },
            match r {
                Ok(e) => e.ts@.len() == e.wind_dir@.len() && e.ts@.len() == e.wind_speed@.len(),
                Err(_) => true,
            },
    {
        let ml = self.max_lines;
        let ghost full = self.content@;
        let n = self.content.len();
        let mut ts: Vec<Timestamp> = Vec::new();
        let mut wind_dir: Vec<Vec<u8>> = Vec::new();
        let mut wind_speed: Vec<Vec<u8>> = Vec::new();
        let mut pos: usize = 0;
        let mut lines_done: usize = 0;
        proof {
            assert(full.skip(0) =~= full);
            assert(seq_views(wind_dir@) =~= Seq::<Seq<u8>>::empty());
            assert(seq_views(wind_speed@) =~= Seq::<Seq<u8>>::empty());
            assert(EpwModel {
                ts: ts@,
                wind_dir: seq_views(wind_dir@),
                wind_speed: seq_views(wind_speed@),
            } == empty_model());
        }
        loop
            invariant_except_break
                full == self.content@,
                ml == self.max_lines,
                n == full.len(),
                pos <= n,
                lines_done <= pos,
                spec_parse(full, ml) == spec_parse_lines(
                    full.skip(pos as int),
                    lines_done + 1,
                    ml,
                    EpwModel {
                        ts: ts@,
                        wind_dir: seq_views(wind_dir@),
                        wind_speed: seq_views(wind_speed@),
                    },
                ),
            ensures
                spec_parse(full, ml) == Ok::<EpwModel, Error>(
                    EpwModel {
                        ts: ts@,
                        wind_dir: seq_views(wind_dir@),
                        wind_speed: seq_views(wind_speed@),
                    },
                ),
            decreases n - pos,
        {
            if pos >= n {
                proof {
                    assert(full.skip(pos as int).len() == 0);
                }
                break;
            }
            let ghost rest = full.skip(pos as int);
            let k = find_byte_range(&self.content, pos, n, 0x0a);
            proof {
                assert(full.subrange(pos as int, n as int) =~= rest);
                assert(find_byte(rest, 0x0a) == k - pos);
                assert(rest.len() > 0);
            }
            let mut line = subvec(&self.content, pos, k);
            if line.len() > 0 && line[line.len() - 1] == 0x0d {
                line.truncate(line.len() - 1);
            }
            proof {
                assert(full.subrange(pos as int, k as int) =~= rest.take(k - pos));
                assert(line@ == strip_cr(rest.take(k - pos)));
            }
            let line_no = lines_done + 1;
            let ghost acc = EpwModel {
                ts: ts@,
                wind_dir: seq_views(wind_dir@),
                wind_speed: seq_views(wind_speed@),
            };
            if line_no > 8 {
                match ml {
                    Some(m) => {
                        if line_no - 8 > m {
                            proof {
                                assert(over_cap(line_no as int, ml));
                                assert(spec_line(line@, line_no as int, ml, acc) == Err::<
                                    EpwModel,
                                    Error,
                                >(Error::MaxLinesReached { max_lines: m }));
                                assert(spec_parse_lines(rest, line_no as int, ml, acc) == Err::<
                                    EpwModel,
                                    Error,
                                >(Error::MaxLinesReached { max_lines: m }));
                            }
                            return Err(Error::MaxLinesReached { max_lines: m });
                        }
                    },
                    None => {},
                }
                match parse_line_data(&line, line_no) {
                    Ok(row) => {
                        let (t, wd, ws) = row;
                        proof {
                            assert(seq_views(wind_dir@.push(wd)) =~= seq_views(
                                wind_dir@,
                            ).push(wd@));
                            assert(seq_views(wind_speed@.push(ws)) =~= seq_views(
                                wind_speed@,
                            ).push(ws@));
                        }
                        ts.push(t);
                        wind_dir.push(wd);
                        wind_speed.push(ws);
                    },
                    Err(e) => {
                        proof {
                            assert(spec_line(line@, line_no as int, ml, acc) == Err::<
                                EpwModel,
                                Error,
                            >(e));
                            assert(spec_parse_lines(rest, line_no as int, ml, acc) == Err::<
                                EpwModel,
                                Error,
                            >(e));
                        }
                        return Err(e);
                    },
                }
            }
            let ghost acc2 = EpwModel {
                ts: ts@,
                wind_dir: seq_views(wind_dir@),
                wind_speed: seq_views(wind_speed@),
            };
            proof {
                assert(spec_line(line@, line_no as int, ml, acc) == Ok::<EpwModel, Error>(acc2));
            }
            if k == n {
                proof {
                    assert(spec_parse_lines(rest, line_no as int, ml, acc) == spec_parse_lines(
                        Seq::<u8>::empty(),
                        line_no + 1,
                        ml,
                        acc2,
                    ));
                    assert(spec_parse_lines(Seq::<u8>::empty(), line_no + 1, ml, acc2) == Ok::<
                        EpwModel,
                        Error,
                    >(acc2));
                }
                pos = n;
                break;
            }
            proof {
                assert(rest.skip(k - pos + 1) =~= full.skip(k + 1));
                assert(spec_parse_lines(rest, line_no as int, ml, acc) == spec_parse_lines(
                    full.skip(k + 1),
                    line_no + 1,
                    ml,
                    acc2,
                ));
            }
            pos = k + 1;
            lines_done = lines_done + 1;
        }
        proof {
            crate::laws::lemma_columns_balanced(full, ml);
        }
        Ok(Epw { ts, wind_speed, wind_dir })
    }
}

} // verus!
