use epw::{
    compose_ts, is_float_text, parse_col, parse_col_float, parse_col_i32, parse_i32_field,
    parse_u32_field, Column, Error, Timestamp,
};

fn cols_of(fields: &[&str]) -> Vec<Vec<u8>> {
    fields.iter().map(|f| f.as_bytes().to_vec()).collect()
}

#[test]
fn unsigned_field_grammar() {
    assert_eq!(parse_u32_field(&b"0".to_vec()), Some(0));
    assert_eq!(parse_u32_field(&b"12".to_vec()), Some(12));
    assert_eq!(parse_u32_field(&b"+12".to_vec()), Some(12));
    assert_eq!(parse_u32_field(&b"0012".to_vec()), Some(12));
    assert_eq!(parse_u32_field(&b"4294967295".to_vec()), Some(u32::MAX));
    assert_eq!(parse_u32_field(&b"4294967296".to_vec()), None);
    assert_eq!(parse_u32_field(&b"99999999999999999999".to_vec()), None);
    assert_eq!(parse_u32_field(&b"".to_vec()), None);
    assert_eq!(parse_u32_field(&b"+".to_vec()), None);
    assert_eq!(parse_u32_field(&b"-1".to_vec()), None);
    assert_eq!(parse_u32_field(&b" 1".to_vec()), None);
    assert_eq!(parse_u32_field(&b"1 ".to_vec()), None);
    assert_eq!(parse_u32_field(&b"1.0".to_vec()), None);
}

#[test]
fn signed_field_grammar() {
    assert_eq!(parse_i32_field(&b"2024".to_vec()), Some(2024));
    assert_eq!(parse_i32_field(&b"+7".to_vec()), Some(7));
    assert_eq!(parse_i32_field(&b"-7".to_vec()), Some(-7));
    assert_eq!(parse_i32_field(&b"-0".to_vec()), Some(0));
    assert_eq!(parse_i32_field(&b"2147483647".to_vec()), Some(i32::MAX));
    assert_eq!(parse_i32_field(&b"2147483648".to_vec()), None);
    assert_eq!(parse_i32_field(&b"-2147483648".to_vec()), Some(i32::MIN));
    assert_eq!(parse_i32_field(&b"-2147483649".to_vec()), None);
    assert_eq!(parse_i32_field(&b"-".to_vec()), None);
    assert_eq!(parse_i32_field(&b"+-5".to_vec()), None);
    assert_eq!(parse_i32_field(&b"".to_vec()), None);
}

#[test]
fn int_grammar_matches_std() {
    let samples = [
        "0", "12", "+12", "0012", "4294967295", "4294967296", "", "+", "-1", " 1", "1 ", "1.0",
        "2147483647", "2147483648", "-2147483648", "-2147483649", "-", "+-5", "abc", "1_0",
    ];
    for s in samples {
        assert_eq!(
            parse_u32_field(&s.as_bytes().to_vec()),
            s.parse::<u32>().ok(),
            "u32 grammar differs on {:?}",
            s
        );
        assert_eq!(
            parse_i32_field(&s.as_bytes().to_vec()),
            s.parse::<i32>().ok(),
            "i32 grammar differs on {:?}",
            s
        );
    }
}

#[test]
fn float_grammar_matches_std() {
    let samples = [
        "0", "340", "4.5", "-4.5", "+4.5", "3.5e-2", "3.5E+2", "1e5", ".5", "5.", "5.e2", ".5e1",
        "inf", "INF", "-inf", "infinity", "Infinity", "nan", "NaN", "NAN", "+nan", ".", "", "+",
        "-", "e5", "1e", "1e+", "1..2", "1.2.3", "--5", "1 ", " 1", "0x10", "1_000", "in",
        "infinit", "nana", "1e999", "1e-999",
    ];
    for s in samples {
        assert_eq!(
            is_float_text(&s.as_bytes().to_vec()),
            s.parse::<f32>().is_ok(),
            "float grammar differs on {:?}",
            s
        );
    }
}

#[test]
fn column_extraction_distinguishes_missing_from_malformed() {
    let cols = cols_of(&["2024", "1", "x"]);
    assert!(matches!(
        parse_col(&cols, Column::Month, 1, 9),
        Ok(1)
    ));
    assert!(matches!(
        parse_col(&cols, Column::Day, 2, 9),
        Err(Error::CannotParseColumn { name: Column::Day, line_no: 9 })
    ));
    assert!(matches!(
        parse_col(&cols, Column::Hour, 3, 9),
        Err(Error::MissingColumn { name: Column::Hour, line_no: 9 })
    ));
    assert!(matches!(parse_col_i32(&cols, Column::Year, 0, 9), Ok(2024)));
    assert!(matches!(
        parse_col_float(&cols, Column::WindDirection, 20, 9),
        Err(Error::MissingColumn { name: Column::WindDirection, line_no: 9 })
    ));
    let wind = cols_of(&["350.5"]);
    assert_eq!(
        parse_col_float(&wind, Column::WindDirection, 0, 9).unwrap(),
        b"350.5".to_vec()
    );
}

#[test]
fn compose_ts_shifts_hour_down() {
    let cols = cols_of(&["2024", "12", "31", "24", "59"]);
    assert_eq!(
        compose_ts(&cols, 9).unwrap(),
        Timestamp { year: 2024, month: 12, day: 31, hour: 23, minute: 59 }
    );
    let zero_hour = cols_of(&["2024", "12", "31", "0", "0"]);
    assert!(matches!(
        compose_ts(&zero_hour, 9),
        Err(Error::InvalidTimestamp { line_no: 9 })
    ));
}

#[test]
fn year_range_matches_date_library() {
    let ok_max = cols_of(&["262142", "12", "31", "24", "0"]);
    assert!(compose_ts(&ok_max, 9).is_ok());
    let too_big = cols_of(&["262143", "1", "1", "1", "0"]);
    assert!(matches!(
        compose_ts(&too_big, 9),
        Err(Error::InvalidTimestamp { line_no: 9 })
    ));
    let ok_min = cols_of(&["-262143", "1", "1", "1", "0"]);
    assert!(compose_ts(&ok_min, 9).is_ok());
    let too_small = cols_of(&["-262144", "1", "1", "1", "0"]);
    assert!(matches!(
        compose_ts(&too_small, 9),
        Err(Error::InvalidTimestamp { line_no: 9 })
    ));
}

#[test]
fn column_labels() {
    assert_eq!(Column::Year.label(), "Year");
    assert_eq!(Column::Month.label(), "Month");
    assert_eq!(Column::Day.label(), "Day");
    assert_eq!(Column::Hour.label(), "Hour");
    assert_eq!(Column::Minute.label(), "Minute");
    assert_eq!(Column::WindDirection.label(), "Wind direction");
    assert_eq!(Column::WindSpeed.label(), "Wind speed");
}
