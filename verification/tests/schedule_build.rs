use clockcurve::schedule::{Schedule, ScheduleError};

fn rec(label: &str, value: i64) -> (String, i64) {
    (label.to_string(), value)
}

#[test]
fn duplicate_time_rejected() {
    let r = Schedule::from_records(vec![rec("08:00", 10_000), rec("08:00", 20_000)]);
    assert_eq!(r.err(), Some(ScheduleError::DuplicateTime));
}

#[test]
fn single_record_rejected() {
    let r = Schedule::from_records(vec![rec("08:00", 10_000)]);
    assert_eq!(r.err(), Some(ScheduleError::InsufficientKeyframes));
}

#[test]
fn empty_records_rejected() {
    let r = Schedule::from_records(vec![]);
    assert_eq!(r.err(), Some(ScheduleError::InsufficientKeyframes));
}

#[test]
fn bad_label_rejected() {
    let r = Schedule::from_records(vec![rec("06:00", 0), rec("6pm", 50_000)]);
    assert_eq!(r.err(), Some(ScheduleError::InvalidTimeFormat));
}

#[test]
fn bad_label_reported_before_count() {
    let r = Schedule::from_records(vec![rec("25:00", 10_000)]);
    assert_eq!(r.err(), Some(ScheduleError::InvalidTimeFormat));
}

#[test]
fn three_records_parse_to_seconds() {
    let s = Schedule::from_records(vec![
        rec("06:00", 0),
        rec("12:00", 50_000),
        rec("18:00", 100_000),
    ])
    .unwrap();
    let times: Vec<i64> = s.keyframes().iter().map(|kf| kf.time).collect();
    assert_eq!(times, vec![21_600, 43_200, 64_800]);
}

#[test]
fn unsorted_records_are_sorted_keeping_pairs() {
    let s = Schedule::from_records(vec![
        rec("18:00", 3),
        rec("06:00", 1),
        rec("12:00", 2),
    ])
    .unwrap();
    let times: Vec<i64> = s.keyframes().iter().map(|kf| kf.time).collect();
    let values: Vec<i64> = s.keyframes().iter().map(|kf| kf.value).collect();
    assert_eq!(times, vec![21_600, 43_200, 64_800]);
    assert_eq!(values, vec![1, 2, 3]);
}

#[test]
fn len_counts_keyframes() {
    let s = Schedule::from_records(vec![rec("00:00", 5), rec("23:59", 6)]).unwrap();
    assert_eq!(s.len(), 2);
    assert_eq!(s.frame(0).value, 5);
    assert_eq!(s.frame(1).value, 6);
}
