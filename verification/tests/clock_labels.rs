use clockcurve::clock::parse_clock_time;

#[test]
fn parses_midnight() {
    assert_eq!(parse_clock_time("00:00"), Some(0));
}

#[test]
fn parses_morning_time() {
    assert_eq!(parse_clock_time("08:00"), Some(28800));
}

#[test]
fn parses_six_am() {
    assert_eq!(parse_clock_time("06:00"), Some(21600));
}

#[test]
fn parses_last_minute_of_day() {
    assert_eq!(parse_clock_time("23:59"), Some(86340));
}

#[test]
fn parses_minutes_exactly() {
    assert_eq!(parse_clock_time("13:37"), Some(13 * 3600 + 37 * 60));
}

#[test]
fn rejects_hour_out_of_range() {
    assert_eq!(parse_clock_time("24:00"), None);
    assert_eq!(parse_clock_time("99:00"), None);
}

#[test]
fn rejects_minute_out_of_range() {
    assert_eq!(parse_clock_time("08:60"), None);
    assert_eq!(parse_clock_time("08:99"), None);
}

#[test]
fn rejects_short_forms() {
    assert_eq!(parse_clock_time("8:00"), None);
    assert_eq!(parse_clock_time("08:0"), None);
    assert_eq!(parse_clock_time(""), None);
}

#[test]
fn rejects_missing_or_misplaced_colon() {
    assert_eq!(parse_clock_time("0800"), None);
    assert_eq!(parse_clock_time("08-00"), None);
    assert_eq!(parse_clock_time("0:800"), None);
}

#[test]
fn rejects_non_digits() {
    assert_eq!(parse_clock_time("ab:cd"), None);
    assert_eq!(parse_clock_time("08:0x"), None);
    assert_eq!(parse_clock_time(" 8:00"), None);
}

#[test]
fn rejects_trailing_text() {
    assert_eq!(parse_clock_time("08:00 "), None);
    assert_eq!(parse_clock_time("08:00:00"), None);
}
