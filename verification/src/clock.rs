//! Local wall-clock readings and the two time tests that fixed-time entries use.
use vstd::prelude::*;
use crate::number::{parse_i32, parse_i32_spec};
use crate::text::{split_text, split_pieces, views, Sep};

verus! {

/// The fields of a local date and time that the schedule looks at.
#[derive(Clone, Copy, Debug)]
pub struct ClockReading {
    /// Month of the year, 1 to 12.
    pub month: u32,
    /// Day of the month, 1 to 31.
    pub day: u32,
    /// Hour of the day, 0 to 23.
    pub hour: u32,
    /// Minute of the hour, 0 to 59.
    pub minute: u32,
    /// Second of the minute, 0 to 59.
    pub second: u32,
    /// Nanoseconds since the whole second; 1_000_000_000 and above mark a leap
    /// second, which chrono places only after the last second of a UTC minute.
    pub nanosecond: u32,
    /// Whole seconds since the Unix epoch; during a leap second, those of the
    /// second before it.
    pub unix_seconds: i64,
}

/// A bound on the seconds since the Unix epoch that covers every date a
/// calendar reading can hold (years -262143 to 262142, about 8.3e12 seconds
/// either way).
pub open spec fn epoch_bound() -> int {
    0x2000_0000_0000
}

pub open spec fn reading_ok(
    month: u32,
    day: u32,
    hour: u32,
    minute: u32,
    second: u32,
    nanosecond: u32,
    unix_seconds: i64,
) -> bool {
    &&& 1 <= month <= 12
    &&& 1 <= day <= 31
    &&& hour <= 23
    &&& minute <= 59
    &&& second <= 59
    &&& nanosecond < 2_000_000_000
    &&& -epoch_bound() <= unix_seconds <= epoch_bound()
    &&& nanosecond >= 1_000_000_000 ==> unix_seconds % 60 == 59
}

impl ClockReading {
    pub open spec fn wf(self) -> bool {
        reading_ok(
            self.month,
            self.day,
            self.hour,
            self.minute,
            self.second,
            self.nanosecond,
            self.unix_seconds,
        )
    }

    /// The second as a clock face shows it: 60 during a leap second.
    pub open spec fn shown_second(self) -> int {
        self.second + self.nanosecond / 1_000_000_000
    }

    /// Month, day, hour, minute and second, from the largest unit down.
    pub open spec fn fields(self) -> Seq<int> {
        seq![
            self.month as int,
            self.day as int,
            self.hour as int,
            self.minute as int,
            self.shown_second(),
        ]
    }

    /// A reading of the given fields, when they are in range.
    pub fn new(
        month: u32,
        day: u32,
        hour: u32,
        minute: u32,
        second: u32,
        nanosecond: u32,
        unix_seconds: i64,
    ) -> (r: Option<ClockReading>)
        ensures
            r is Some <==> reading_ok(month, day, hour, minute, second, nanosecond, unix_seconds),
            r matches Some(c) ==> c == (ClockReading {
                month,
                day,
                hour,
                minute,
                second,
                nanosecond,
                unix_seconds,
            }),
    {
        let bound: i64 = 0x2000_0000_0000;
        if 1 <= month && month <= 12 && 1 <= day && day <= 31 && hour <= 23 && minute <= 59
            && second <= 59 && nanosecond < 2_000_000_000 && -bound <= unix_seconds
            && unix_seconds <= bound && (nanosecond < 1_000_000_000 || unix_seconds % 60 == 59
            || unix_seconds % 60 == -1) {
            Some(ClockReading { month, day, hour, minute, second, nanosecond, unix_seconds })
        } else {
            None
        }
    }
}

/// The `n` smallest units of the reading, for `1 <= n <= 5`: `[second]`,
/// `[minute, second]`, up to `[month, day, hour, minute, second]`.
pub open spec fn last_fields(c: ClockReading, n: int) -> Seq<int> {
    c.fields().skip(5 - n)
}

/// Lexicographic order on integer sequences, as `Vec`'s `<` orders them.
pub open spec fn lex_less(a: Seq<int>, b: Seq<int>) -> bool
    decreases a.len(),
{
    if a.len() == 0 {
        b.len() > 0
    } else if b.len() == 0 {
        false
    } else if a[0] < b[0] {
        true
    } else if a[0] > b[0] {
        false
    } else {
        lex_less(a.drop_first(), b.drop_first())
    }
}

pub open spec fn all_i32(p: Seq<Seq<char>>) -> bool {
    forall|i: int| 0 <= i < p.len() ==> (#[trigger] parse_i32_spec(p[i])) is Some
}

pub open spec fn i32_value(s: Seq<char>) -> int {
    match parse_i32_spec(s) {
        Some(v) => v,
        None => 0,
    }
}

pub open spec fn i32_values(p: Seq<Seq<char>>) -> Seq<int> {
    p.map_values(|x: Seq<char>| i32_value(x))
}

/// A fixed time is reached when it has one to five `:`-separated parts, each
/// an `i32`, and their numbers equal the clock's smallest units in order:
/// `S`, `M:S`, `H:M:S`, `d:H:M:S` or `m:d:H:M:S`.  `12:30:0` and `12:30:00`
/// name the same time, and so do `5`, `05` and `+5`.
pub open spec fn time_reached(event_time: Seq<char>, c: ClockReading) -> bool {
    let p = split_pieces(event_time, Sep::Colon, None);
    &&& 1 <= p.len() <= 5
    &&& all_i32(p)
    &&& i32_values(p) == last_fields(c, p.len() as int)
}

/// What the start-up test reports besides its answer.
#[derive(Clone, Copy, PartialEq, Eq, Structural, Debug)]
pub enum WindowNote {
    /// The two times have different numbers of `:`-separated parts.
    LengthMismatch,
    /// The times have more than five parts.
    BadFormat,
}

/// The report of the start-up test on `old` and `at`, if any.
pub open spec fn window_note(old: Seq<char>, at: Seq<char>) -> Option<WindowNote> {
    let o = split_pieces(old, Sep::Colon, None);
    let a = split_pieces(at, Sep::Colon, None);
    if a.len() != o.len() {
        Some(WindowNote::LengthMismatch)
    } else if !(1 <= o.len() <= 5) {
        Some(WindowNote::BadFormat)
    } else {
        None
    }
}

/// The start-up test of a fixed-time entry: `old` and `at` are `:`-separated
/// times with the same number of parts (one to five), every part an `i32`,
/// and the clock, read in the same units, lies strictly after `at` and
/// strictly before `old`.
pub open spec fn strictly_between(old: Seq<char>, at: Seq<char>, c: ClockReading) -> bool {
    let o = split_pieces(old, Sep::Colon, None);
    let a = split_pieces(at, Sep::Colon, None);
    let n = o.len() as int;
    &&& a.len() == o.len()
    &&& 1 <= n <= 5
    &&& all_i32(o)
    &&& all_i32(a)
    &&& lex_less(i32_values(a), last_fields(c, n))
    &&& lex_less(last_fields(c, n), i32_values(o))
}

/// The field values of a reading, from the largest unit down.
pub fn clock_fields(c: &ClockReading) -> (v: Vec<u32>)
    requires
        c.wf(),
    ensures
        v@.len() == 5,
        forall|i: int| 0 <= i < 5 ==> v@[i] as int == #[trigger] c.fields()[i],
{
    let leap: u32 = if c.nanosecond >= 1_000_000_000 {
        1
    } else {
        0
    };
    let mut v: Vec<u32> = Vec::new();
    v.push(c.month);
    v.push(c.day);
    v.push(c.hour);
    v.push(c.minute);
    v.push(c.second + leap);
    v
}

/// The `n` smallest units of a reading, from the largest of them down.
fn recent_values(c: &ClockReading, n: usize) -> (v: Vec<i64>)
    requires
        c.wf(),
        1 <= n <= 5,
    ensures
        v@.map_values(|x: i64| x as int) == last_fields(*c, n as int),
{
    let fields = clock_fields(c);
    let mut now_vals: Vec<i64> = Vec::new();
    let mut j: usize = 5 - n;
    while j < 5
        invariant
            1 <= n <= 5,
            5 - n <= j <= 5,
            fields@.len() == 5,
            forall|i: int| 0 <= i < 5 ==> fields@[i] as int == #[trigger] c.fields()[i],
            now_vals@.len() == j - (5 - n),
            forall|i: int|
                0 <= i < now_vals@.len() ==> now_vals@[i] as int == #[trigger] last_fields(
                    *c,
                    n as int,
                )[i],
        decreases 5 - j,
    {
        now_vals.push(fields[j] as i64);
        j += 1;
    }
    assert(now_vals@.map_values(|x: i64| x as int) =~= last_fields(*c, n as int));
    now_vals
}

/// Whether two integer vectors are equal.
fn same_values(a: &Vec<i64>, b: &Vec<i64>) -> (r: bool)
    ensures
        r == (a@.map_values(|x: i64| x as int) == b@.map_values(|x: i64| x as int)),
{
    let ghost sa = a@.map_values(|x: i64| x as int);
    let ghost sb = b@.map_values(|x: i64| x as int);
    if a.len() != b.len() {
        assert(sa.len() != sb.len());
        return false;
    }
    let mut i: usize = 0;
    while i < a.len()
        invariant
            a@.len() == b@.len(),
            i <= a@.len(),
            sa == a@.map_values(|x: i64| x as int),
            sb == b@.map_values(|x: i64| x as int),
            forall|j: int| 0 <= j < i ==> sa[j] == sb[j],
        decreases a.len() - i,
    {
        if a[i] != b[i] {
            assert(sa[i as int] != sb[i as int]);
            return false;
        }
        i += 1;
    }
    assert(sa =~= sb);
    true
}

/// Whether the clock reading `c` shows the time `event_time`.
pub fn local_time_in_at(event_time: &str, c: &ClockReading) -> (r: bool)
    requires
        c.wf(),
    ensures
        r == time_reached(event_time@, *c),
{
    let parts = split_text(event_time, Sep::Colon, None);
    let n = parts.len();
    if n < 1 || n > 5 {
        return false;
    }
    let vals = match parse_all_i32(&parts) {
        Some(v) => v,
        None => return false,
    };
    let now_vals = recent_values(c, n);
    same_values(&vals, &now_vals)
}

/// `a < b` on integer vectors.
pub fn lex_less_vec(a: &Vec<i64>, b: &Vec<i64>) -> (r: bool)
    ensures
        r == lex_less(a@.map_values(|x: i64| x as int), b@.map_values(|x: i64| x as int)),
{
    let ghost sa = a@.map_values(|x: i64| x as int);
    let ghost sb = b@.map_values(|x: i64| x as int);
    let mut i: usize = 0;
    proof {
        assert(sa.skip(0) =~= sa);
        assert(sb.skip(0) =~= sb);
    }
    while i < a.len() && i < b.len()
        invariant
            i <= a@.len(),
            i <= b@.len(),
            sa == a@.map_values(|x: i64| x as int),
            sb == b@.map_values(|x: i64| x as int),
            lex_less(sa, sb) == lex_less(sa.skip(i as int), sb.skip(i as int)),
        decreases a.len() - i,
    {
        let ghost ta = sa.skip(i as int);
        let ghost tb = sb.skip(i as int);
        assert(ta[0] == a[i as int] as int);
        assert(tb[0] == b[i as int] as int);
        if a[i] < b[i] {
            return true;
        }
        if a[i] > b[i] {
            return false;
        }
        assert(ta.drop_first() =~= sa.skip(i + 1));
        assert(tb.drop_first() =~= sb.skip(i + 1));
        i += 1;
    }
    a.len() < b.len()
}

/// The `i32` values of `pieces`, or `None` when one of them is not an `i32`.
fn parse_all_i32(pieces: &Vec<String>) -> (r: Option<Vec<i64>>)
    ensures
        r is Some <==> all_i32(views(pieces@)),
        r matches Some(v) ==> v@.map_values(|x: i64| x as int) == i32_values(views(pieces@)),
{
    let ghost p = views(pieces@);
    let mut out: Vec<i64> = Vec::new();
    let mut i: usize = 0;
    while i < pieces.len()
        invariant
            i <= pieces@.len(),
            p == views(pieces@),
            out@.len() == i,
            forall|j: int| 0 <= j < i ==> (#[trigger] parse_i32_spec(p[j])) is Some,
            forall|j: int| 0 <= j < i ==> out@[j] as int == #[trigger] i32_value(p[j]),
        decreases pieces.len() - i,
    {
        assert(p[i as int] == pieces@[i as int]@);
        match parse_i32(pieces[i].as_str()) {
            Some(v) => {
                out.push(v as i64);
            },
            None => {
                return None;
            },
        }
        i += 1;
    }
    assert(out@.map_values(|x: i64| x as int) =~= i32_values(p));
    Some(out)
}

/// The start-up test of a fixed-time entry against the reading `c`, with
/// what it reports about the two times.
pub fn old_time_compare_at(old_time_start: &str, at_time_start: &str, c: &ClockReading) -> (r: (
    bool,
    Option<WindowNote>,
))
    requires
        c.wf(),
    ensures
        r.0 == strictly_between(old_time_start@, at_time_start@, *c),
        r.1 == window_note(old_time_start@, at_time_start@),
{
    let old_parts = split_text(old_time_start, Sep::Colon, None);
    let at_parts = split_text(at_time_start, Sep::Colon, None);
    let n = old_parts.len();
    if at_parts.len() != n {
        return (false, Some(WindowNote::LengthMismatch));
    }
    if n < 1 || n > 5 {
        return (false, Some(WindowNote::BadFormat));
    }
    let old_vals = match parse_all_i32(&old_parts) {
        Some(v) => v,
        None => return (false, None),
    };
    let at_vals = match parse_all_i32(&at_parts) {
        Some(v) => v,
        None => return (false, None),
    };
    let now_vals = recent_values(c, n);
    (lex_less_vec(&at_vals, &now_vals) && lex_less_vec(&now_vals, &old_vals), None)
}

/// `lex_less` is irreflexive.
pub proof fn law_lex_irreflexive(a: Seq<int>)
    ensures
        !lex_less(a, a),
    decreases a.len(),
{
    if a.len() > 0 {
        law_lex_irreflexive(a.drop_first());
    }
}

/// `lex_less` is transitive.
pub proof fn law_lex_transitive(a: Seq<int>, b: Seq<int>, c: Seq<int>)
    requires
        lex_less(a, b),
        lex_less(b, c),
    ensures
        lex_less(a, c),
    decreases a.len(),
{
    if a.len() > 0 && b.len() > 0 && c.len() > 0 && a[0] == b[0] && b[0] == c[0] {
        law_lex_transitive(a.drop_first(), b.drop_first(), c.drop_first());
    }
}

/// No clock lies strictly between a time and itself.
pub proof fn law_between_irreflexive(t: Seq<char>, c: ClockReading)
    ensures
        !strictly_between(t, t, c),
{
    let o = split_pieces(t, Sep::Colon, None);
    let n = o.len() as int;
    if lex_less(i32_values(o), last_fields(c, n)) && lex_less(last_fields(c, n), i32_values(o)) {
        law_lex_transitive(i32_values(o), last_fields(c, n), i32_values(o));
        law_lex_irreflexive(i32_values(o));
    }
}

/// The start-up test cannot hold for both orders of its two times.
pub proof fn law_between_asymmetric(x: Seq<char>, y: Seq<char>, c: ClockReading)
    ensures
        !(strictly_between(x, y, c) && strictly_between(y, x, c)),
{
    let px = split_pieces(x, Sep::Colon, None);
    let py = split_pieces(y, Sep::Colon, None);
    let n = px.len() as int;
    if strictly_between(x, y, c) && strictly_between(y, x, c) {
        let now = last_fields(c, n);
        law_lex_transitive(now, i32_values(px), now);
        law_lex_irreflexive(now);
    }
}

/// A fixed time depends only on the numbers it writes: two texts whose parts
/// read as the same numbers are reached at the same readings.
pub proof fn law_time_reached_by_values(t1: Seq<char>, t2: Seq<char>, c: ClockReading)
    requires
        all_i32(split_pieces(t1, Sep::Colon, None)),
        all_i32(split_pieces(t2, Sep::Colon, None)),
        i32_values(split_pieces(t1, Sep::Colon, None)) == i32_values(
            split_pieces(t2, Sep::Colon, None),
        ),
    ensures
        time_reached(t1, c) == time_reached(t2, c),
{
    assert(split_pieces(t1, Sep::Colon, None).len() == i32_values(
        split_pieces(t1, Sep::Colon, None),
    ).len());
}

/// When the clock shows an entry's run time, the start-up test against that
/// run time fails: the window is open only strictly after it.
pub proof fn law_window_excludes_run_time(old: Seq<char>, at: Seq<char>, c: ClockReading)
    requires
        time_reached(at, c),
    ensures
        !strictly_between(old, at, c),
{
    let a = split_pieces(at, Sep::Colon, None);
    law_lex_irreflexive(i32_values(a));
}

/// The clock as a time test reads it: month, day, the hour on the 24-hour
/// clock, minute, and the second (60 during a leap second), taken straight
/// from the reading.
pub open spec fn reading_numbers(c: ClockReading) -> Seq<int> {
    seq![
        c.month as int,
        c.day as int,
        c.hour as int,
        c.minute as int,
        c.second + c.nanosecond / 1_000_000_000,
    ]
}

/// A fixed time of `n` parts (1 to 5), every part an `i32`, is reached
/// exactly when its numbers equal the clock's last `n` numbers in order:
/// `S`, `M:S`, `H:M:S` with the 24-hour hour, `d:H:M:S`, `m:d:H:M:S`.
pub proof fn law_time_reached_numbers(t: Seq<char>, c: ClockReading)
    requires
        c.wf(),
        1 <= split_pieces(t, Sep::Colon, None).len() <= 5,
        all_i32(split_pieces(t, Sep::Colon, None)),
    ensures
        ({
            let p = split_pieces(t, Sep::Colon, None);
            let n = p.len() as int;
            time_reached(t, c) == (i32_values(p) == reading_numbers(c).skip(5 - n))
        }),
{
    assert(c.fields() =~= reading_numbers(c));
}

/// A three-part time `H:M:S` is reached exactly when its numbers are the
/// reading's hour (0 to 23), minute and second.
pub proof fn law_time_reached_hms(t: Seq<char>, c: ClockReading)
    requires
        c.wf(),
        split_pieces(t, Sep::Colon, None).len() == 3,
        all_i32(split_pieces(t, Sep::Colon, None)),
    ensures
        ({
            let v = i32_values(split_pieces(t, Sep::Colon, None));
            time_reached(t, c) == (v[0] == c.hour && v[1] == c.minute && v[2] == c.second
                + c.nanosecond / 1_000_000_000)
        }),
{
    law_time_reached_numbers(t, c);
    let v = i32_values(split_pieces(t, Sep::Colon, None));
    let r = reading_numbers(c).skip(2);
    if v[0] == c.hour && v[1] == c.minute && v[2] == c.second + c.nanosecond / 1_000_000_000 {
        assert(v =~= r);
    }
}

/// For every part count from 1 to 5, the start-up test on two times with
/// that many `i32` parts holds exactly when the clock's last numbers lie
/// strictly after `at` and strictly before `old` in lexicographic order.
pub proof fn law_window_numbers(old: Seq<char>, at: Seq<char>, c: ClockReading)
    requires
        c.wf(),
        split_pieces(old, Sep::Colon, None).len() == split_pieces(at, Sep::Colon, None).len(),
        1 <= split_pieces(old, Sep::Colon, None).len() <= 5,
        all_i32(split_pieces(old, Sep::Colon, None)),
        all_i32(split_pieces(at, Sep::Colon, None)),
    ensures
        ({
            let o = split_pieces(old, Sep::Colon, None);
            let a = split_pieces(at, Sep::Colon, None);
            let now = reading_numbers(c).skip(5 - o.len());
            strictly_between(old, at, c) == (lex_less(i32_values(a), now) && lex_less(
                now,
                i32_values(o),
            ))
        }),
{
    assert(c.fields() =~= reading_numbers(c));
}

/// For sequences of one length, `a` comes before `b` exactly when they agree
/// up to some position where `a` has the smaller number.
pub proof fn law_lex_less_first_difference(a: Seq<int>, b: Seq<int>)
    requires
        a.len() == b.len(),
    ensures
        lex_less(a, b) == exists|i: int|
            0 <= i < a.len() && a.take(i) == b.take(i) && #[trigger] a[i] < b[i],
    decreases a.len(),
{
    if a.len() > 0 {
        let ta = a.drop_first();
        let tb = b.drop_first();
        law_lex_less_first_difference(ta, tb);
        if lex_less(a, b) {
            if a[0] < b[0] {
                assert(a.take(0) =~= b.take(0));
                assert(a[0] < b[0]);
            } else {
                let j = choose|j: int| 0 <= j < ta.len() && ta.take(j) == tb.take(j) && #[trigger] ta[j] < tb[j];
                assert(a.take(j + 1) =~= seq![a[0]] + ta.take(j));
                assert(b.take(j + 1) =~= seq![b[0]] + tb.take(j));
                assert(a[j + 1] == ta[j]);
                assert(b[j + 1] == tb[j]);
            }
        } else {
            assert forall|i: int| 0 <= i < a.len() && a.take(i) == b.take(i) implies !(#[trigger] a[i] < b[i]) by {
                if i > 0 {
                    assert(a.take(i)[0] == a[0]);
                    assert(b.take(i)[0] == b[0]);
                    assert(ta.take(i - 1) =~= a.take(i).drop_first());
                    assert(tb.take(i - 1) =~= b.take(i).drop_first());
                    assert(ta[i - 1] == a[i]);
                    assert(tb[i - 1] == b[i]);
                }
            }
        }
    }
}

} // verus!
