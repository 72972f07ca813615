use epw::{Column, Epw, EpwReader, Error, Timestamp};

fn header() -> String {
    let mut s = String::new();
    s.push_str("LOCATION,Example City,ST,USA,TMY3,000000,0.0,0.0,0.0,0.0\n");
    s.push_str("DESIGN CONDITIONS,0\n");
    s.push_str("TYPICAL/EXTREME PERIODS,0\n");
    s.push_str("GROUND TEMPERATURES,0\n");
    s.push_str("HOLIDAYS/DAYLIGHT SAVINGS,No,0,0,0\n");
    s.push_str("COMMENTS 1,synthetic sample\n");
    s.push_str("COMMENTS 2,none\n");
    s.push_str("DATA PERIODS,1,1,Data,Sunday,1/1,12/31\n");
    s
}

fn data_line(year: i32, month: u32, day: u32, hour: u32, minute: u32, wd: &str, ws: &str) -> String {
    let mut s = format!("{},{},{},{},{}", year, month, day, hour, minute);
    let mut i = 5;
    while i < 20 {
        s.push_str(",99");
        i += 1;
    }
    s.push_str(&format!(",{},{}\n", wd, ws));
    s
}

fn example_1() -> String {
    let mut s = header();
    let mut h = 1;
    while h <= 10 {
        s.push_str(&data_line(2024, 1, 1, h, 0, "340", "4.5"));
        h += 1;
    }
    s
}

fn parse_ok(content: &str) -> Epw {
    match EpwReader::from_slice(content.as_bytes()).parse() {
        Ok(epw) => epw,
        Err(e) => panic!("expected success, got {:?}", e),
    }
}

#[test]
fn fixture_1() {
    let epw = parse_ok(&example_1());
    assert_eq!(epw.ts.len(), 10);
    assert_eq!(epw.wind_dir.len(), 10);
    assert_eq!(epw.wind_speed.len(), 10);
    assert_eq!(
        epw.ts[0],
        Timestamp { year: 2024, month: 1, day: 1, hour: 0, minute: 0 }
    );
    assert_eq!(epw.ts[9].hour, 9);
    assert_eq!(epw.wind_dir[0], b"340".to_vec());
    assert_eq!(epw.wind_speed[0], b"4.5".to_vec());
    let wd: f32 = std::str::from_utf8(&epw.wind_dir[0]).unwrap().parse().unwrap();
    let ws: f32 = std::str::from_utf8(&epw.wind_speed[0]).unwrap().parse().unwrap();
    assert_eq!(wd, 340.0);
    assert_eq!(ws, 4.5);
}

#[test]
fn over_max_lines() {
    let res = EpwReader::from_slice(example_1().as_bytes()).set_max_lines(5).parse();
    assert!(matches!(res, Err(Error::MaxLinesReached { max_lines: 5 })));
}

#[test]
fn missing_cols() {
    // The first data line stops after field index 19: wind direction absent.
    let mut content = header();
    content.push_str("2024,1,1,1,0,99,99,99,99,99,99,99,99,99,99,99,99,99,99,99\n");
    let res = EpwReader::from_slice(content.as_bytes()).parse();
    match res {
        Err(Error::MissingColumn { name, line_no }) => {
            assert_eq!(name, Column::WindDirection);
            assert_eq!(name.label(), "Wind direction");
            assert_eq!(line_no, 9);
        }
        other => panic!("expected missing column, got {:?}", other),
    }
}

#[test]
fn cannot_parse_col() {
    let mut content = header();
    content.push_str(&data_line(2024, 1, 1, 1, 0, "abc", "4.5"));
    let res = EpwReader::from_slice(content.as_bytes()).parse();
    match res {
        Err(Error::CannotParseColumn { name, line_no }) => {
            assert_eq!(name, Column::WindDirection);
            assert_eq!(name.label(), "Wind direction");
            assert_eq!(line_no, 9);
        }
        other => panic!("expected unparsable column, got {:?}", other),
    }
}

#[test]
fn invalid_timestamp() {
    // Three good data lines, then a calendar day that does not exist.
    let mut content = header();
    content.push_str(&data_line(2024, 1, 1, 1, 0, "340", "4.5"));
    content.push_str(&data_line(2024, 1, 1, 2, 0, "340", "4.5"));
    content.push_str(&data_line(2024, 1, 1, 3, 0, "340", "4.5"));
    content.push_str(&data_line(2024, 2, 30, 4, 0, "340", "4.5"));
    let res = EpwReader::new(content.as_bytes().to_vec()).parse();
    assert!(matches!(res, Err(Error::InvalidTimestamp { line_no: 12 })));
}

#[test]
fn truncated_header_yields_empty() {
    let content = "LOCATION,x\nDESIGN,0\nTYPICAL,0\nGROUND,0\nHOLIDAYS,0\n";
    let epw = parse_ok(content);
    assert_eq!(epw.ts.len(), 0);
    assert_eq!(epw.wind_dir.len(), 0);
    assert_eq!(epw.wind_speed.len(), 0);
}

#[test]
fn exactly_eight_lines_yields_empty() {
    let epw = parse_ok(&header());
    assert_eq!(epw.ts.len(), 0);
}

#[test]
fn nine_lines_yield_one_entry() {
    let mut content = header();
    content.push_str(&data_line(2024, 6, 15, 24, 30, "12.5", "-3e0"));
    let epw = parse_ok(&content);
    assert_eq!(epw.ts.len(), 1);
    assert_eq!(
        epw.ts[0],
        Timestamp { year: 2024, month: 6, day: 15, hour: 23, minute: 30 }
    );
}

#[test]
fn cap_equal_to_data_lines_succeeds() {
    let res = EpwReader::from_slice(example_1().as_bytes()).set_max_lines(10).parse();
    assert!(res.is_ok());
    assert_eq!(res.unwrap().ts.len(), 10);
}

#[test]
fn cap_checked_before_line_content() {
    // The line past the cap is malformed; the cap error still wins because it
    // precedes reading the line.
    let mut content = header();
    for h in 1..=5 {
        content.push_str(&data_line(2024, 1, 1, h, 0, "340", "4.5"));
    }
    content.push_str("garbage\n");
    let res = EpwReader::from_slice(content.as_bytes()).set_max_lines(5).parse();
    assert!(matches!(res, Err(Error::MaxLinesReached { max_lines: 5 })));
}

#[test]
fn hour_zero_is_invalid_timestamp() {
    let mut content = header();
    content.push_str(&data_line(2024, 1, 1, 0, 0, "340", "4.5"));
    let res = EpwReader::from_slice(content.as_bytes()).parse();
    assert!(matches!(res, Err(Error::InvalidTimestamp { line_no: 9 })));
}

#[test]
fn hour_25_is_invalid_timestamp() {
    let mut content = header();
    content.push_str(&data_line(2024, 1, 1, 25, 0, "340", "4.5"));
    let res = EpwReader::from_slice(content.as_bytes()).parse();
    assert!(matches!(res, Err(Error::InvalidTimestamp { line_no: 9 })));
}

#[test]
fn minute_60_is_invalid_timestamp() {
    let mut content = header();
    content.push_str(&data_line(2024, 1, 1, 1, 60, "340", "4.5"));
    let res = EpwReader::from_slice(content.as_bytes()).parse();
    assert!(matches!(res, Err(Error::InvalidTimestamp { line_no: 9 })));
}

#[test]
fn leap_day_valid_only_in_leap_year() {
    let mut good = header();
    good.push_str(&data_line(2024, 2, 29, 1, 0, "340", "4.5"));
    assert!(EpwReader::from_slice(good.as_bytes()).parse().is_ok());

    let mut bad = header();
    bad.push_str(&data_line(2023, 2, 29, 1, 0, "340", "4.5"));
    let res = EpwReader::from_slice(bad.as_bytes()).parse();
    assert!(matches!(res, Err(Error::InvalidTimestamp { line_no: 9 })));
}

#[test]
fn crlf_lines_parse_like_lf_lines() {
    let mut content = header().replace('\n', "\r\n");
    content.push_str(&data_line(2024, 1, 1, 1, 0, "340", "4.5").replace('\n', "\r\n"));
    let epw = parse_ok(&content);
    assert_eq!(epw.ts.len(), 1);
    assert_eq!(epw.wind_speed[0], b"4.5".to_vec());
}

#[test]
fn reparse_is_deterministic() {
    let content = example_1();
    let a = parse_ok(&content);
    let b = parse_ok(&content);
    assert_eq!(a.ts, b.ts);
    assert_eq!(a.wind_dir, b.wind_dir);
    assert_eq!(a.wind_speed, b.wind_speed);
}

#[test]
fn bad_month_field_names_month() {
    let mut content = header();
    content.push_str("2024,x,1,1,0,99,99,99,99,99,99,99,99,99,99,99,99,99,99,99,340,4.5\n");
    let res = EpwReader::from_slice(content.as_bytes()).parse();
    match res {
        Err(Error::CannotParseColumn { name, line_no }) => {
            assert_eq!(name, Column::Month);
            assert_eq!(name.label(), "Month");
            assert_eq!(line_no, 9);
        }
        other => panic!("expected unparsable column, got {:?}", other),
    }
}

#[test]
fn empty_line_fails_on_year() {
    let mut content = header();
    content.push_str("\n");
    let res = EpwReader::from_slice(content.as_bytes()).parse();
    assert!(matches!(
        res,
        Err(Error::CannotParseColumn { name: Column::Year, line_no: 9 })
    ));
}
