use clockcurve::interp::Interpolator;
use clockcurve::schedule::Schedule;

fn rec(label: &str, value: i64) -> (String, i64) {
    (label.to_string(), value)
}

/// Values carry three implied decimal places (thousandths of a percent),
/// so a percentage like 12.5 is written 12_500.
fn day_curve() -> Schedule {
    Schedule::from_records(vec![
        rec("06:00", 0),
        rec("12:00", 50_000),
        rec("18:00", 100_000),
    ])
    .unwrap()
}

#[test]
fn early_query_clamps_to_first_value() {
    let s = day_curve();
    assert_eq!(Interpolator::sample(&s, 200), Ok(0));
}

#[test]
fn late_query_clamps_to_last_value() {
    let s = day_curve();
    assert_eq!(Interpolator::sample(&s, 86_399), Ok(100_000));
}

#[test]
fn nine_am_is_halfway_up_the_first_segment() {
    // 09:00 = 32400 s lies halfway between 06:00 and 12:00, so the value is
    // halfway from 0 to 50.000 percent.
    let s = day_curve();
    assert_eq!(Interpolator::sample(&s, 32_400), Ok(25_000));
}

#[test]
fn keyframe_times_reproduce_keyframe_values() {
    let s = day_curve();
    assert_eq!(Interpolator::sample(&s, 21_600), Ok(0));
    assert_eq!(Interpolator::sample(&s, 43_200), Ok(50_000));
    assert_eq!(Interpolator::sample(&s, 64_800), Ok(100_000));
}

#[test]
fn midpoint_is_mean_of_endpoints() {
    let s = Schedule::from_records(vec![rec("00:00", 10), rec("01:00", 20)]).unwrap();
    assert_eq!(Interpolator::sample(&s, 1_800), Ok(15));
}

#[test]
fn sampling_is_idempotent() {
    let s = day_curve();
    let a = Interpolator::sample(&s, 40_000);
    let b = Interpolator::sample(&s, 40_000);
    assert_eq!(a, b);
}

#[test]
fn interior_result_lies_between_endpoints() {
    let s = day_curve();
    for q in [22_000i64, 30_000, 43_000, 50_000, 64_000] {
        let v = Interpolator::sample(&s, q).unwrap();
        assert!(0 <= v && v <= 100_000);
    }
}

#[test]
fn decreasing_segment_interpolates_downward() {
    let s = Schedule::from_records(vec![rec("00:00", 90_000), rec("00:03", 0)]).unwrap();
    // a third of the way through the 180 s segment: 90.000 - 60 * 90000 / 180
    let v = Interpolator::sample(&s, 60).unwrap();
    assert_eq!(v, 60_000);
    let w = Interpolator::sample(&s, 100).unwrap();
    assert!(0 < w && w < 60_000);
}

#[test]
fn fractional_results_round_toward_segment_start() {
    // increasing: 60 * 10 / 180 = 3.33.. rounds down to 3
    let up = Schedule::from_records(vec![rec("00:00", 0), rec("00:03", 10)]).unwrap();
    assert_eq!(Interpolator::sample(&up, 60), Ok(3));
    // decreasing: 10 - 3.33.. rounds up to 7, toward the segment's start value
    let down = Schedule::from_records(vec![rec("00:00", 10), rec("00:03", 0)]).unwrap();
    assert_eq!(Interpolator::sample(&down, 60), Ok(7));
}

#[test]
fn extreme_values_interpolate_without_overflow() {
    let s = Schedule::from_records(vec![
        rec("00:00", i64::MIN),
        rec("23:59", i64::MAX),
    ])
    .unwrap();
    // halfway through the 86340 s span, the value change (2^64 - 1) halves
    // to 2^63 - 1 with the fraction dropped
    assert_eq!(Interpolator::sample(&s, 43_170), Ok(-1));
    assert_eq!(Interpolator::sample(&s, 21_585), Ok(-4_611_686_018_427_387_905));
    assert_eq!(Interpolator::sample(&s, 0), Ok(i64::MIN));
    assert_eq!(Interpolator::sample(&s, 86_340), Ok(i64::MAX));
}

#[test]
fn negative_values_interpolate_exactly() {
    let s = Schedule::from_records(vec![rec("00:00", -10_000), rec("00:02", 10_000)]).unwrap();
    assert_eq!(Interpolator::sample(&s, 60), Ok(0));
    assert_eq!(Interpolator::sample(&s, 30), Ok(-5_000));
}
