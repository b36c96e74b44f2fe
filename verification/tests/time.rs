use tiny_player::arith::{byte_of, can_scale, div_i64, rem_i64, scale};
use tiny_player::clock::{clock_of_seconds, clock_text, local_date_time_text, ClockTime, DateTime};

fn at(hour: u8, minute: u8, second: u8) -> ClockTime {
    ClockTime { hour, minute, second }
}

#[test]
fn division_rounds_toward_zero() {
    assert_eq!(div_i64(7, 2), 3);
    assert_eq!(div_i64(-7, 2), -3);
    assert_eq!(div_i64(7, -2), -3);
    assert_eq!(div_i64(-7, -2), 3);
    assert_eq!(div_i64(i64::MIN, 1), i64::MIN);
    assert_eq!(rem_i64(-7, 2), -1);
    assert_eq!(rem_i64(7, 2), 1);
}

#[test]
fn casts_keep_the_low_byte() {
    assert_eq!(byte_of(257), 1);
    assert_eq!(byte_of(-1), 255);
    assert_eq!(byte_of(0), 0);
}

#[test]
fn scaling_tells_whether_it_fits() {
    assert!(can_scale(10, 3, 4));
    assert_eq!(scale(10, 3, 4), 7);
    assert!(!can_scale(10, 3, 0));
    assert!(!can_scale(i64::MAX, 2, 1));
    assert!(!can_scale(i64::MIN, 1, -1));
}

#[test]
fn seconds_become_a_clock() {
    assert_eq!(clock_of_seconds(0), Some(at(0, 0, 0)));
    assert_eq!(clock_of_seconds(3661), Some(at(1, 1, 1)));
    assert_eq!(clock_of_seconds(86399), Some(at(23, 59, 59)));
}

#[test]
fn a_day_is_too_long_for_a_clock() {
    assert_eq!(clock_of_seconds(86400), None);
    assert_eq!(clock_of_seconds(-5), None);
}

#[test]
fn hours_wrap_at_a_byte() {
    assert_eq!(clock_of_seconds(256 * 3600 + 61), Some(at(0, 1, 1)));
    assert_eq!(clock_of_seconds(-256 * 3600), Some(at(0, 0, 0)));
}

#[test]
fn every_second_of_a_day_can_be_told_again() {
    for seconds in 0..86400_i64 {
        match clock_of_seconds(seconds) {
            Some(time) => assert_eq!(
                time.hour as i64 * 3600 + time.minute as i64 * 60 + time.second as i64,
                seconds
            ),
            None => panic!("no time of day"),
        }
    }
}

#[test]
fn clocks_are_shown_in_two_digits_each() {
    assert_eq!(clock_text(at(1, 2, 3)), Some("01:02:03".to_string()));
    assert_eq!(clock_text(at(23, 59, 59)), Some("23:59:59".to_string()));
}

#[test]
fn dates_are_shown_with_the_year_first() {
    let shown = local_date_time_text(DateTime { year: 2024, month: 2, day: 29, time: at(7, 8, 9) });
    assert_eq!(shown, Some("2024-02-29 07:08:09".to_string()));
}

#[test]
fn early_years_have_four_digits_and_a_sign() {
    let early = DateTime { year: 33, month: 12, day: 1, time: at(0, 0, 0) };
    assert_eq!(local_date_time_text(early), Some("0033-12-01 00:00:00".to_string()));
    let earlier = DateTime { year: -33, ..early };
    assert_eq!(local_date_time_text(earlier), Some("-0033-12-01 00:00:00".to_string()));
    let late = DateTime { year: 9999, ..early };
    assert_eq!(local_date_time_text(late), Some("9999-12-01 00:00:00".to_string()));
    let first = DateTime { year: -9999, ..early };
    assert_eq!(local_date_time_text(first), Some("-9999-12-01 00:00:00".to_string()));
}
