//! Decisions around the main loop: when a change to the configuration
//! directory means a reload, and how long to pause until the next tick.
use vstd::prelude::*;
use crate::clock::ClockReading;

verus! {

/// The kind of a file-system change, as the directory watcher reports it.
#[derive(Clone, Copy, PartialEq, Eq, Structural, Debug)]
pub enum ChangeKind {
    Any,
    Access,
    Create,
    Modify,
    Remove,
    Other,
}

/// A change calls for a reload when it was received without error, touches
/// the configuration file, and created, modified or removed something.
pub open spec fn reload_wanted(received: bool, touches_config: bool, kind: ChangeKind) -> bool {
    received && touches_config && (kind == ChangeKind::Create || kind == ChangeKind::Modify || kind
        == ChangeKind::Remove)
}

/// Whether a reported change calls for reading the configuration again.
pub fn wants_reload(received: bool, touches_config: bool, kind: ChangeKind) -> (r: bool)
    ensures
        r == reload_wanted(received, touches_config, kind),
{
    received && touches_config && match kind {
        ChangeKind::Create | ChangeKind::Modify | ChangeKind::Remove => true,
        _ => false,
    }
}

/// The configuration read after a change takes effect only when it could be
/// read and is not empty.
pub fn accept_reload(loaded: Option<Vec<String>>) -> (r: Option<Vec<String>>)
    ensures
        r matches Some(v) ==> loaded matches Some(w) && v@ == w@ && v@.len() > 0,
        r is None ==> (loaded matches Some(w) ==> w@.len() == 0),
{
    match loaded {
        Some(lines) => if lines.len() > 0 {
            Some(lines)
        } else {
            None
        },
        None => None,
    }
}

/// The UTC second of the day of a reading.
pub open spec fn second_of_day(unix_seconds: int) -> int {
    unix_seconds % 86400
}

/// The fraction of `start + period_secs` as chrono's `DateTime + Duration`
/// computes it: a whole number of seconds added to a leap-second reading
/// leaves the leap second, so the extra second drops out of the fraction.
pub open spec fn deadline_frac(start: ClockReading, period_secs: int) -> int {
    if start.nanosecond >= 1_000_000_000 && period_secs > 0 {
        start.nanosecond - 1_000_000_000
    } else {
        start.nanosecond as int
    }
}

/// The second chrono's `DateTime - DateTime` adds or takes away when the span
/// between the two times of day covers a leap second that one of them is in.
pub open spec fn leap_adjust(d_secs: int, d_frac: int, now: ClockReading) -> int {
    let dt = second_of_day(d_secs);
    let nt = second_of_day(now.unix_seconds as int);
    if dt > nt && now.nanosecond >= 1_000_000_000 {
        1
    } else if dt < nt && d_frac >= 1_000_000_000 {
        -1
    } else {
        0
    }
}

/// Nanoseconds of `(start + period_secs seconds) - now`, by chrono's rules.
pub open spec fn nanos_left(start: ClockReading, now: ClockReading, period_secs: int) -> int {
    let d_secs = start.unix_seconds + period_secs;
    let d_frac = deadline_frac(start, period_secs);
    (d_secs - now.unix_seconds + leap_adjust(d_secs, d_frac, now)) * 1_000_000_000 + d_frac
        - now.nanosecond
}

/// Whole milliseconds left, or 0 when less than one is left: what
/// `TimeDelta::num_milliseconds` gives when it is positive.
pub open spec fn pause_spec(start: ClockReading, now: ClockReading, period_secs: int) -> int {
    let left = nanos_left(start, now, period_secs);
    if left >= 1_000_000 {
        left / 1_000_000
    } else {
        0
    }
}

/// `x % 86400`, never negative.
fn day_second(x: i128) -> (r: i128)
    ensures
        r as int == second_of_day(x as int),
{
    let r = x % 86400;
    if r < 0 {
        r + 86400
    } else {
        r
    }
}

/// How long to sleep so that the next tick comes `period_secs` seconds after
/// the tick that began at the reading `start`, when the clock reads `now`.
pub fn pause_millis(start: &ClockReading, now: &ClockReading, period_secs: i32) -> (r: u64)
    requires
        start.wf(),
        now.wf(),
        period_secs >= 0,
    ensures
        r as int == pause_spec(*start, *now, period_secs as int),
{
    let d_secs: i128 = start.unix_seconds as i128 + period_secs as i128;
    let d_frac: i128 = if start.nanosecond >= 1_000_000_000 && period_secs > 0 {
        start.nanosecond as i128 - 1_000_000_000
    } else {
        start.nanosecond as i128
    };
    let dt = day_second(d_secs);
    let nt = day_second(now.unix_seconds as i128);
    let adjust: i128 = if dt > nt && now.nanosecond >= 1_000_000_000 {
        1
    } else if dt < nt && d_frac >= 1_000_000_000 {
        -1
    } else {
        0
    };
    let secs: i128 = d_secs - now.unix_seconds as i128 + adjust;
    let left: i128 = secs * 1_000_000_000 + d_frac - now.nanosecond as i128;
    if left >= 1_000_000 {
        assert(left / 1_000_000 <= u64::MAX) by (nonlinear_arith)
            requires
                left <= 0x1_0000_0000_0000 * 1_000_000_000 + 2_000_000_000,
        ;
        (left / 1_000_000) as u64
    } else {
        0
    }
}

/// Once the deadline `start + period_secs` (a period of a second or more)
/// has passed, there is no pause.
pub proof fn law_no_pause_after_deadline(start: ClockReading, now: ClockReading, period_secs: int)
    requires
        start.wf(),
        now.wf(),
        period_secs >= 1,
        now.unix_seconds > start.unix_seconds + period_secs || (now.unix_seconds
            == start.unix_seconds + period_secs && now.nanosecond >= deadline_frac(
            start,
            period_secs,
        )),
    ensures
        pause_spec(start, now, period_secs) == 0,
{
}

/// Counted from a tick that began no later than `now`, with a period of a
/// second or more and `now` outside a leap second (chrono's `Local::now`
/// never reads one), the pause is never longer than the period.
pub proof fn law_pause_within_period(start: ClockReading, now: ClockReading, period_secs: int)
    requires
        start.wf(),
        now.wf(),
        period_secs >= 1,
        now.nanosecond < 1_000_000_000,
        start.unix_seconds < now.unix_seconds || (start.unix_seconds == now.unix_seconds
            && start.nanosecond <= now.nanosecond),
    ensures
        pause_spec(start, now, period_secs) <= period_secs * 1000,
{
    let left = nanos_left(start, now, period_secs);
    assert(left <= period_secs * 1_000_000_000);
    if left >= 1_000_000 {
        assert(left / 1_000_000 <= period_secs * 1000) by (nonlinear_arith)
            requires
                left <= period_secs * 1_000_000_000,
                left >= 0,
                period_secs >= 0,
        ;
    }
}

} // verus!
