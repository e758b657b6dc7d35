use time_event::clock::{ClockReading, WindowNote};
use time_event::config::{Notice, NoticeKind};
use time_event::scheduler::Scheduler;

fn lines(v: &[&str]) -> Vec<String> {
    v.iter().map(|s| s.to_string()).collect()
}

fn clock(hour: u32, minute: u32, second: u32) -> ClockReading {
    ClockReading { month: 6, day: 15, hour, minute, second, nanosecond: 0, unix_seconds: 0 }
}

#[test]
fn interval_entries_follow_their_period() {
    let (mut s, notices) = Scheduler::new(lines(&["* y 2 0 0 0 0 every-two", "* n 3 0 0 0 0 every-three"]));
    assert!(notices.is_empty());
    let mut runs = Vec::new();
    for _ in 0..7 {
        runs.push(s.step(None, &clock(1, 1, 1)).commands);
    }
    assert_eq!(runs[0], lines(&["every-two"]));
    assert_eq!(runs[1], Vec::<String>::new());
    assert_eq!(runs[2], lines(&["every-two"]));
    assert_eq!(runs[3], lines(&["every-three"]));
    assert_eq!(runs[4], lines(&["every-two"]));
    assert_eq!(runs[5], Vec::<String>::new());
    assert_eq!(runs[6], lines(&["every-two", "every-three"]));
    assert_eq!(s.time_num, 7);
    assert!(!s.appstart);
}

#[test]
fn negative_period_runs_like_its_magnitude() {
    let (mut s, _) = Scheduler::new(lines(&["* n -2 * * * * x"]));
    let got: Vec<usize> = (0..5).map(|_| s.step(None, &clock(0, 0, 0)).commands.len()).collect();
    assert_eq!(got, vec![0, 0, 1, 0, 1]);
}

#[test]
fn fixed_entry_runs_when_clock_shows_its_time() {
    let (mut s, _) = Scheduler::new(lines(&[": 30:15 n at-half-past"]));
    assert!(s.step(None, &clock(9, 30, 14)).commands.is_empty());
    assert_eq!(s.step(None, &clock(9, 30, 15)).commands, lines(&["at-half-past"]));
}

#[test]
fn start_up_window_runs_once_at_first_tick() {
    let (mut s, _) = Scheduler::new(lines(&[": 12:30:00 13:0:0 catch-up"]));
    assert!(s.appstart);
    assert_eq!(s.step(None, &clock(12, 45, 0)).commands, lines(&["catch-up"]));
    assert!(s.step(None, &clock(12, 45, 1)).commands.is_empty());
}

#[test]
fn start_up_window_ignored_outside_it() {
    let (mut s, _) = Scheduler::new(lines(&[": 12:30:00 13:0:0 catch-up"]));
    assert!(s.step(None, &clock(13, 0, 1)).commands.is_empty());
}

#[test]
fn reload_replaces_entries_and_reports() {
    let (mut s, _) = Scheduler::new(lines(&["* y 1 0 0 0 0 old"]));
    assert_eq!(s.step(None, &clock(0, 0, 0)).commands, lines(&["old"]));
    let out = s.step(Some(lines(&["* n 1 0 0 0 0 new", ": 1"])), &clock(0, 0, 1));
    assert_eq!(out.commands, lines(&["new"]));
    assert_eq!(out.notices, vec![Notice { line: 1, kind: NoticeKind::WrongFieldCount }]);
    assert_eq!(s.config_data, lines(&["* n 1 0 0 0 0 new", ": 1"]));
    assert_eq!(s.configs.len(), 1);
}

#[test]
fn new_reports_notices_of_first_config() {
    let (_, notices) = Scheduler::new(lines(&["* y 0", "x", ": 1 2"]));
    assert_eq!(
        notices,
        vec![
            Notice { line: 0, kind: NoticeKind::ZeroInterval },
            Notice { line: 2, kind: NoticeKind::WrongFieldCount }
        ]
    );
}

#[test]
fn template_interval_example() {
    let (mut s, _) = Scheduler::new(lines(&["* y 3 * 1 0 2 echo 'hello world'"]));
    assert_eq!(s.step(None, &clock(0, 0, 0)).commands, lines(&["echo 'hello world'"]));
    assert!(s.step(None, &clock(0, 0, 1)).commands.is_empty());
}

#[test]
fn template_fixed_example_runs_at_half_past_fifteen() {
    let (mut s, _) = Scheduler::new(lines(&[": 30:15 n echo 'Hello rust'"]));
    assert_eq!(s.step(None, &clock(8, 30, 15)).commands, lines(&["echo 'Hello rust'"]));
    assert!(s.step(None, &clock(8, 30, 16)).commands.is_empty());
    assert_eq!(s.step(None, &clock(9, 30, 15)).commands, lines(&["echo 'Hello rust'"]));
}

#[test]
fn template_start_up_example() {
    let line = ": 12:30:0 13:0:0 ~/'x'";
    let (mut s, _) = Scheduler::new(lines(&[line]));
    assert_eq!(s.step(None, &clock(12, 50, 0)).commands, lines(&["~/'x'"]));
    let (mut late, _) = Scheduler::new(lines(&[line]));
    assert!(late.step(None, &clock(13, 0, 0)).commands.is_empty());
}

#[test]
fn single_digit_fixed_time_matches_the_clock() {
    let (mut s, _) = Scheduler::new(lines(&[": 12:30:0 n x"]));
    s.step(None, &clock(0, 0, 0));
    assert_eq!(s.step(None, &clock(12, 30, 0)).commands, lines(&["x"]));
}

#[test]
fn start_up_window_reports_come_from_the_first_tick() {
    let (mut s, _) = Scheduler::new(lines(&[": 12:30:0 13:0 a", ": 5 6 b", ": 7 n c"]));
    let out = s.step(None, &clock(1, 1, 1));
    assert_eq!(out.window_notices.len(), 1);
    assert_eq!(out.window_notices[0].kind, WindowNote::LengthMismatch);
    assert_eq!(out.window_notices[0].old_time, "13:0");
    assert_eq!(out.window_notices[0].run_time, "12:30:0");
    assert!(s.step(None, &clock(1, 1, 2)).window_notices.is_empty());
}

#[test]
fn no_window_report_when_the_run_time_is_shown() {
    let (mut s, _) = Scheduler::new(lines(&[": 1 2:3 a"]));
    let out = s.step(None, &clock(0, 0, 1));
    assert_eq!(out.commands, lines(&["a"]));
    assert!(out.window_notices.is_empty());
}

#[test]
fn freshly_created_config_schedules_nothing() {
    let (mut s, notices) = Scheduler::new(lines(&["hello rust"]));
    assert!(notices.is_empty());
    assert!(s.configs.is_empty());
    assert!(s.step(None, &clock(0, 0, 0)).commands.is_empty());
}
