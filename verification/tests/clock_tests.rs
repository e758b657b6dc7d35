use time_event::clock::{lex_less_vec, local_time_in_at, old_time_compare_at, ClockReading, WindowNote};

fn clock(month: u32, day: u32, hour: u32, minute: u32, second: u32) -> ClockReading {
    ClockReading { month, day, hour, minute, second, nanosecond: 0, unix_seconds: 0 }
}

#[test]
fn fixed_time_matches_two_digit_fields() {
    let c = clock(3, 7, 12, 30, 5);
    assert!(local_time_in_at("05", &c));
    assert!(local_time_in_at("30:05", &c));
    assert!(local_time_in_at("12:30:05", &c));
    assert!(local_time_in_at("07:12:30:05", &c));
    assert!(local_time_in_at("03:07:12:30:05", &c));
}

#[test]
fn fixed_time_is_compared_by_numbers() {
    let c = clock(3, 7, 12, 30, 0);
    assert!(local_time_in_at("12:30:0", &c));
    assert!(local_time_in_at("12:30:00", &c));
    assert!(local_time_in_at("30:0", &c));
    assert!(local_time_in_at("0", &c));
    assert!(local_time_in_at("3:7:12:30:0", &c));
    assert!(!local_time_in_at("12:30:1", &c));
    assert!(!local_time_in_at("12:x:0", &c));
    assert!(!local_time_in_at("", &c));
}

#[test]
fn fixed_time_with_too_many_parts_never_matches() {
    let c = clock(3, 7, 12, 30, 5);
    assert!(!local_time_in_at("00:03:07:12:30:05", &c));
}

#[test]
fn leap_second_shows_as_sixty() {
    let c = ClockReading { month: 12, day: 31, hour: 23, minute: 59, second: 59, nanosecond: 1_000_000_000, unix_seconds: 59 };
    assert!(local_time_in_at("59:60", &c));
    assert!(!local_time_in_at("59:59", &c));
}

#[test]
fn start_up_test_needs_clock_strictly_between() {
    let c = clock(1, 1, 12, 45, 0);
    assert!(old_time_compare_at("13:0:0", "12:30:0", &c).0);
    assert!(!old_time_compare_at("12:30:0", "13:0:0", &c).0);
    assert!(!old_time_compare_at("12:45:0", "12:30:0", &c).0);
    assert!(!old_time_compare_at("13:0:0", "12:45:0", &c).0);
}

#[test]
fn start_up_test_needs_equal_lengths_and_numbers() {
    let c = clock(1, 1, 12, 45, 0);
    assert!(!old_time_compare_at("13:0", "12:30:0", &c).0);
    assert!(!old_time_compare_at("13:x:0", "12:30:0", &c).0);
    assert!(!old_time_compare_at("1:1:13:0:0:0", "1:1:12:30:0:0", &c).0);
}

#[test]
fn start_up_test_is_irreflexive() {
    let c = clock(1, 1, 12, 45, 0);
    for t in ["12:45:0", "0", "1:1:1:1:1"] {
        assert!(!old_time_compare_at(t, t, &c).0);
    }
}

#[test]
fn lexicographic_order_of_vectors() {
    assert!(lex_less_vec(&vec![1, 2], &vec![1, 3]));
    assert!(!lex_less_vec(&vec![1, 3], &vec![1, 2]));
    assert!(lex_less_vec(&vec![1], &vec![1, 0]));
    assert!(!lex_less_vec(&vec![2], &vec![2]));
    assert_eq!(lex_less_vec(&vec![-5, 9], &vec![-4, 0]), vec![-5, 9] < vec![-4, 0]);
}

#[test]
fn start_up_test_reports_mismatched_lengths() {
    let c = clock(1, 1, 12, 45, 0);
    assert_eq!(old_time_compare_at("13:0:0", "30:15", &c), (false, Some(WindowNote::LengthMismatch)));
}

#[test]
fn start_up_test_reports_too_many_parts() {
    let c = clock(1, 1, 12, 45, 0);
    assert_eq!(old_time_compare_at("1:2:3:4:5:6", "1:2:3:4:5:6", &c), (false, Some(WindowNote::BadFormat)));
}

#[test]
fn start_up_test_reports_nothing_else() {
    let c = clock(1, 1, 12, 45, 0);
    assert_eq!(old_time_compare_at("13:0:0", "12:30:0", &c), (true, None));
    assert_eq!(old_time_compare_at("13:x:0", "12:30:0", &c), (false, None));
}

#[test]
fn window_never_open_at_the_run_time_itself() {
    let c = clock(1, 1, 12, 30, 0);
    assert!(local_time_in_at("12:30:0", &c));
    assert!(!old_time_compare_at("13:0:0", "12:30:0", &c).0);
}

#[test]
fn clock_reading_checks_its_ranges() {
    assert!(ClockReading::new(1, 1, 0, 0, 0, 0, 0).is_some());
    assert!(ClockReading::new(13, 1, 0, 0, 0, 0, 0).is_none());
    assert!(ClockReading::new(1, 0, 0, 0, 0, 0, 0).is_none());
    assert!(ClockReading::new(1, 1, 24, 0, 0, 0, 0).is_none());
    assert!(ClockReading::new(1, 1, 0, 60, 0, 0, 0).is_none());
    assert!(ClockReading::new(1, 1, 0, 0, 60, 0, 0).is_none());
    assert!(ClockReading::new(1, 1, 0, 0, 59, 1_999_999_999, 59).is_some());
    assert!(ClockReading::new(1, 1, 0, 0, 59, 1_999_999_999, -1).is_some());
    assert!(ClockReading::new(1, 1, 0, 0, 59, 1_000_000_000, 58).is_none());
    assert!(ClockReading::new(1, 1, 0, 0, 0, 2_000_000_000, 0).is_none());
    assert!(ClockReading::new(1, 1, 0, 0, 0, 0, i64::MAX).is_none());
}
