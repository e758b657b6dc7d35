use time_event::clock::ClockReading;
use time_event::events::{accept_reload, pause_millis, wants_reload, ChangeKind};

#[test]
fn reload_on_changes_to_the_config_file() {
    assert!(wants_reload(true, true, ChangeKind::Modify));
    assert!(wants_reload(true, true, ChangeKind::Create));
    assert!(wants_reload(true, true, ChangeKind::Remove));
    assert!(!wants_reload(true, true, ChangeKind::Access));
    assert!(!wants_reload(true, true, ChangeKind::Any));
    assert!(!wants_reload(true, false, ChangeKind::Modify));
    assert!(!wants_reload(false, true, ChangeKind::Modify));
}

#[test]
fn empty_or_unread_config_is_not_taken() {
    assert_eq!(accept_reload(None), None);
    assert_eq!(accept_reload(Some(vec![])), None);
    assert_eq!(accept_reload(Some(vec!["a".to_string()])), Some(vec!["a".to_string()]));
}

fn at(unix_seconds: i64, nanosecond: u32) -> ClockReading {
    ClockReading::new(1, 1, 0, 0, 0, nanosecond, unix_seconds).expect("reading")
}

#[test]
fn pause_is_what_is_left_of_the_period() {
    assert_eq!(pause_millis(&at(100, 0), &at(100, 200_500_000), 1), 799);
    assert_eq!(pause_millis(&at(100, 0), &at(100, 999_000_001), 1), 0);
    assert_eq!(pause_millis(&at(100, 0), &at(100, 998_999_999), 1), 1);
    assert_eq!(pause_millis(&at(100, 0), &at(105, 0), 1), 0);
    assert_eq!(pause_millis(&at(100, 500), &at(100, 0), 1), 1000);
}

/// The pause as chrono's own arithmetic gives it.
fn chrono_pause(start: (i64, u32), now: (i64, u32), secs: u64) -> u64 {
    let s = chrono::DateTime::from_timestamp(start.0, start.1).expect("start");
    let n = chrono::DateTime::from_timestamp(now.0, now.1).expect("now");
    let minis = ((s + std::time::Duration::from_secs(secs)) - n).num_milliseconds();
    if minis > 0 { minis as u64 } else { 0 }
}

#[test]
fn pause_inside_a_leap_second() {
    // 2016-12-31 23:59:60.5 UTC
    let start = at(1483228799, 1_500_000_000);
    assert_eq!(pause_millis(&start, &at(1483228801, 0), 1), 0);
    assert_eq!(pause_millis(&start, &at(1483228800, 0), 1), 500);
    assert_eq!(pause_millis(&at(1483228799, 900_000_000), &at(1483228799, 1_000_000_000), 1), 900);
}

#[test]
fn pause_agrees_with_chrono_around_leap_seconds() {
    let base = 1483228799i64;
    let fracs = [0u32, 1, 400_000_000, 999_999_999, 1_000_000_000, 1_500_000_000, 1_999_999_999];
    for ds in [-61i64, -60, -1, 0, 1, 2, 59, 60, 86400] {
        for &fs in &fracs {
            for dn in [-1i64, 0, 1, 2, 60, 86399, 86400] {
                for &fnow in &fracs {
                    let s = (base + ds, fs);
                    let n = (base + dn, fnow);
                    let leap_ok = |(u, f): (i64, u32)| f < 1_000_000_000 || u.rem_euclid(60) == 59;
                    if !leap_ok(s) || !leap_ok(n) {
                        continue;
                    }
                    for secs in [0u64, 1, 2, 61] {
                        assert_eq!(
                            pause_millis(&at(s.0, s.1), &at(n.0, n.1), secs as i32),
                            chrono_pause(s, n, secs),
                            "{s:?} {n:?} {secs}"
                        );
                    }
                }
            }
        }
    }
}
