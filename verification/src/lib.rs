//! A verified parser for EnergyPlus Weather (EPW) text: it skips the fixed
//! eight-line header, extracts timestamp and wind columns from each data
//! line, and accumulates three parallel columns of equal length, failing on
//! the first malformed line with a positioned error. A bounded head/tail
//! windowing utility previews large columns without copying them whole.
use vstd::prelude::*;

mod float_text;
mod laws;
mod num;
mod parser;
mod scan;
mod time;
mod window;

verus! {

pub use float_text::is_float_literal;
pub use float_text::is_float_text;
pub use laws::count_lines;
pub use laws::lemma_cap_exceeded;
pub use laws::lemma_columns_balanced;
pub use laws::lemma_parse_deterministic;
pub use laws::lemma_truncated_input_is_empty;
pub use num::parse_i32_field;
pub use num::parse_u32_field;
pub use num::spec_parse_i32;
pub use num::spec_parse_u32;
pub use parser::compose_ts;
pub use parser::epw_matches;
pub use parser::parse_col;
pub use parser::parse_col_float;
pub use parser::parse_col_i32;
pub use parser::spec_parse;
pub use parser::Column;
pub use parser::Epw;
pub use parser::EpwModel;
pub use parser::EpwReader;
pub use parser::Error;
pub use scan::split_commas;
pub use scan::split_commas_exec;
pub use time::valid_ymd;
pub use time::Timestamp;
pub use window::spec_window;
pub use window::window;
pub use window::window_bytes;

} // verus!
