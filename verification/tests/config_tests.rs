use time_event::config::{parse_config, parse_line, IntervalOrFixedTime, Notice, NoticeKind};

fn interval_of(line: &str) -> i128 {
    match parse_line(line).0.expect("entry").interval_or_fixed {
        IntervalOrFixedTime::Interval(k) => k,
        IntervalOrFixedTime::Fixed(_) => panic!("fixed"),
    }
}

#[test]
fn interval_line_adds_up_its_fields() {
    let (entry, notices) = parse_line("* y 3 * 1 0 2 echo 'hello world'");
    let e = entry.expect("entry");
    assert!(matches!(e.interval_or_fixed, IntervalOrFixedTime::Interval(k) if k == 3 + 3600 + 2 * 2592000));
    assert!(e.start_run);
    assert_eq!(e.run_command, "echo 'hello world'");
    assert_eq!(e.old_time, "not found");
    assert_eq!(notices, vec![NoticeKind::UnreadableIntervalField]);
}

#[test]
fn interval_units() {
    assert_eq!(interval_of("* n 1 1 1 1 1 c"), 1 + 60 + 3600 + 86400 + 2592000);
    assert_eq!(interval_of("* n 0 5 * * * c"), 300);
}

#[test]
fn all_star_interval_is_one_second() {
    let (entry, notices) = parse_line("* n * * * * * true");
    let e = entry.expect("entry");
    assert!(matches!(e.interval_or_fixed, IntervalOrFixedTime::Interval(1)));
    assert!(!e.start_run);
    assert!(notices.is_empty());
}

#[test]
fn zero_interval_becomes_one_with_notice() {
    let (entry, notices) = parse_line("* Y 0 0 0 0 0 true");
    let e = entry.expect("entry");
    assert!(matches!(e.interval_or_fixed, IntervalOrFixedTime::Interval(1)));
    assert!(e.start_run);
    assert_eq!(notices, vec![NoticeKind::ZeroInterval]);
}

#[test]
fn short_interval_line_gets_default_command() {
    let (entry, notices) = parse_line("* y 5");
    let e = entry.expect("entry");
    assert!(matches!(e.interval_or_fixed, IntervalOrFixedTime::Interval(5)));
    assert_eq!(e.run_command, "echo 'config error'");
    assert!(notices.is_empty());
}

#[test]
fn bare_star_line_is_one_second() {
    let (entry, _) = parse_line("*");
    assert!(matches!(entry.expect("entry").interval_or_fixed, IntervalOrFixedTime::Interval(1)));
}

#[test]
fn negative_interval_is_kept() {
    assert_eq!(interval_of("* n -5 * * * * c"), -5);
}

#[test]
fn interval_sum_wraps_on_overflow() {
    let big = "170141183460469231731687303715884105727";
    let line = format!("* n {big} 1 * * * c");
    assert_eq!(interval_of(&line), i128::MAX.wrapping_add(60));
}

#[test]
fn fixed_line_fields() {
    let (entry, notices) = parse_line(": 12:30:0 13:0:0 ~/run me");
    let e = entry.expect("entry");
    assert!(matches!(&e.interval_or_fixed, IntervalOrFixedTime::Fixed(t) if t == "12:30:0"));
    assert!(!e.start_run);
    assert_eq!(e.old_time, "13:0:0");
    assert_eq!(e.run_command, "~/run me");
    assert!(notices.is_empty());
}

#[test]
fn fixed_line_without_start_bound() {
    let (entry, notices) = parse_line(": 30:15 no echo 'Hello rust'");
    let e = entry.expect("entry");
    assert_eq!(e.old_time, "n");
    assert!(notices.is_empty());
    let (entry, notices) = parse_line(": 30:15 N echo hi");
    assert_eq!(entry.expect("entry").old_time, "N");
    assert!(notices.is_empty());
}

#[test]
fn fixed_line_with_three_fields_is_rejected() {
    let (entry, notices) = parse_line(": 30:15 n");
    assert!(entry.is_none());
    assert_eq!(notices, vec![NoticeKind::WrongFieldCount]);
}

#[test]
fn fixed_line_bad_parts_are_reported() {
    let (entry, notices) = parse_line(": 1x:2y 3:z cmd");
    assert!(entry.is_some());
    assert_eq!(
        notices,
        vec![NoticeKind::BadRunTime, NoticeKind::BadRunTime, NoticeKind::BadStartTime]
    );
}

#[test]
fn other_lines_are_ignored() {
    for line in ["", "# * y 3 * 1 0 2 echo hi", "hello rust", " * y 1"] {
        let (entry, notices) = parse_line(line);
        assert!(entry.is_none());
        assert!(notices.is_empty());
    }
}

#[test]
fn config_keeps_line_order_and_numbers_notices() {
    let lines: Vec<String> = ["# c", "* y 1 0 0 0 0 a", ": 5 n", ": 05 n b"]
        .iter()
        .map(|s| s.to_string())
        .collect();
    let (entries, notices) = parse_config(&lines);
    assert_eq!(entries.len(), 2);
    assert_eq!(entries[0].run_command, "a");
    assert_eq!(entries[1].run_command, "b");
    assert_eq!(notices, vec![Notice { line: 2, kind: NoticeKind::WrongFieldCount }]);
}

#[test]
fn star_next_to_a_number_is_an_unreadable_field() {
    let (entry, notices) = parse_line("* n 0 5 * * * c");
    assert!(entry.is_some());
    assert_eq!(notices, vec![NoticeKind::UnreadableIntervalField; 3]);
}
