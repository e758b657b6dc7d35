//! The once-a-second decision of which commands to run.
use vstd::prelude::*;
use crate::clock::{
    local_time_in_at, old_time_compare_at, strictly_between, time_reached, window_note, ClockReading,
    WindowNote,
};
use crate::config::{
    config_entries, entries_of, entry_views, is_fixed_line, is_interval_line, is_single, line_entry,
    notices_of, parse_config, IntervalOrFixedTime, Notice, Options, OptionsSpec, TimingSpec,
};
use crate::text::{split_pieces, views, Sep};

verus! {

/// Whether entry `e` runs at tick `t` (seconds since start-up), where
/// `starting` holds at the first tick only and `c` is the clock at the tick.
pub open spec fn is_due(e: OptionsSpec, t: int, starting: bool, c: ClockReading) -> bool {
    match e.timing {
        TimingSpec::Interval(k) => (e.start_run && t == 0) || (t != 0 && t % k == 0),
        TimingSpec::Fixed(rt) => time_reached(rt, c) || (starting && e.old_time != seq!['n']
            && strictly_between(e.old_time, rt, c)),
    }
}

/// The commands of the entries that run at the tick, in entry order.
pub open spec fn due_commands(
    entries: Seq<OptionsSpec>,
    t: int,
    starting: bool,
    c: ClockReading,
) -> Seq<Seq<char>>
    decreases entries.len(),
{
    if entries.len() == 0 {
        seq![]
    } else {
        due_commands(entries.drop_last(), t, starting, c) + if is_due(
            entries.last(),
            t,
            starting,
            c,
        ) {
            seq![entries.last().run_command]
        } else {
            seq![]
        }
    }
}

/// What the start-up test reports for entry `e` at the tick: it is made
/// only for a fixed-time entry at the first tick, when the clock does not
/// show the entry's time and the entry has a start-up bound.
pub open spec fn entry_note(e: OptionsSpec, starting: bool, c: ClockReading) -> Option<WindowNote> {
    match e.timing {
        TimingSpec::Fixed(rt) => if !time_reached(rt, c) && starting && e.old_time != seq!['n'] {
            window_note(e.old_time, rt)
        } else {
            None
        },
        TimingSpec::Interval(_) => None,
    }
}

/// The start-up reports of the tick, in entry order: the report, the
/// entry's start-up bound and its run time.
pub open spec fn tick_notes(entries: Seq<OptionsSpec>, starting: bool, c: ClockReading) -> Seq<
    (WindowNote, Seq<char>, Seq<char>),
>
    decreases entries.len(),
{
    if entries.len() == 0 {
        seq![]
    } else {
        tick_notes(entries.drop_last(), starting, c) + match entry_note(entries.last(), starting, c) {
            Some(n) => match entries.last().timing {
                TimingSpec::Fixed(rt) => seq![(n, entries.last().old_time, rt)],
                TimingSpec::Interval(_) => seq![],
            },
            None => seq![],
        }
    }
}

/// No entry has a period of 0.
pub open spec fn periods_nonzero(entries: Seq<OptionsSpec>) -> bool {
    forall|i: int|
        0 <= i < entries.len() ==> match (#[trigger] entries[i]).timing {
            TimingSpec::Interval(k) => k != 0,
            TimingSpec::Fixed(_) => true,
        }
}

/// The state of the schedule between ticks.
pub struct Scheduler {
    /// The lines of the configuration in force.
    pub config_data: Vec<String>,
    /// The entries of those lines.
    pub configs: Vec<Options>,
    /// Ticks since start-up.
    pub time_num: i128,
    /// Whether the next tick is the first.
    pub appstart: bool,
}

/// A report of the start-up test about one fixed-time entry.
pub struct WindowNotice {
    pub kind: WindowNote,
    /// The entry's start-up bound.
    pub old_time: String,
    /// The entry's run time.
    pub run_time: String,
}

impl View for WindowNotice {
    type V = (WindowNote, Seq<char>, Seq<char>);

    open spec fn view(&self) -> (WindowNote, Seq<char>, Seq<char>) {
        (self.kind, self.old_time@, self.run_time@)
    }
}

pub open spec fn notice_views(v: Seq<WindowNotice>) -> Seq<(WindowNote, Seq<char>, Seq<char>)> {
    v.map_values(|w: WindowNotice| w@)
}

/// What one tick decided.
pub struct TickOutcome {
    /// The commands to run now, in configuration order.
    pub commands: Vec<String>,
    /// What was found wrong in a configuration read at this tick.
    pub notices: Vec<Notice>,
    /// What the start-up test reported, in configuration order.
    pub window_notices: Vec<WindowNotice>,
}

impl Scheduler {
    /// The entries are those of the configuration lines, the tick count is
    /// not negative, and the first tick is the one at count 0.
    pub open spec fn wf(&self) -> bool {
        &&& entry_views(self.configs@) == entries_of(views(self.config_data@))
        &&& self.time_num >= 0
        &&& self.appstart == (self.time_num == 0)
    }

    /// A schedule for the configuration `config_data`, before its first tick,
    /// with the notices about that configuration.
    pub fn new(config_data: Vec<String>) -> (r: (Scheduler, Vec<Notice>))
        ensures
            r.0.wf(),
            r.0.config_data@ == config_data@,
            r.0.time_num == 0,
            r.1@ == notices_of(views(config_data@)),
    {
        let (configs, notices) = parse_config(&config_data);
        (Scheduler { config_data, configs, time_num: 0, appstart: true }, notices)
    }
}

/// Every interval entry of a parsed configuration has a period other than 0.
pub proof fn lemma_periods_nonzero(lines: Seq<Seq<char>>, n: int)
    ensures
        periods_nonzero(config_entries(lines, n)),
    decreases n,
{
    if n > 0 {
        lemma_periods_nonzero(lines, n - 1);
        let prev = config_entries(lines, n - 1);
        let cur = config_entries(lines, n);
        assert forall|i: int| 0 <= i < cur.len() implies match (#[trigger] cur[i]).timing {
            TimingSpec::Interval(k) => k != 0,
            TimingSpec::Fixed(_) => true,
        } by {
            if i < prev.len() {
                assert(cur[i] == prev[i]);
            }
        }
    }
}

/// Whether entry `e` runs at the tick, and what the start-up test reported.
fn entry_due(e: &Options, time_num: i128, appstart: bool, clock: &ClockReading) -> (r: (
    bool,
    Option<WindowNote>,
))
    requires
        time_num >= 0,
        clock.wf(),
        e.interval_or_fixed matches IntervalOrFixedTime::Interval(k) ==> k != 0,
    ensures
        r.0 == is_due(e@, time_num as int, appstart, *clock),
        r.1 == entry_note(e@, appstart, *clock),
{
    match &e.interval_or_fixed {
        IntervalOrFixedTime::Interval(interval) => {
            ((e.start_run && time_num == 0) || (time_num != 0 && time_num % *interval == 0), None)
        },
        IntervalOrFixedTime::Fixed(run_time) => {
            if local_time_in_at(run_time.as_str(), clock) {
                (true, None)
            } else if appstart && !is_single(e.old_time.as_str(), 'n') {
                old_time_compare_at(e.old_time.as_str(), run_time.as_str(), clock)
            } else {
                (false, None)
            }
        },
    }
}

impl Scheduler {
    /// One tick: take the configuration `reload` if one was read since the
    /// last tick, decide which commands run with the clock reading `clock`,
    /// and count the tick.
    pub fn step(&mut self, reload: Option<Vec<String>>, clock: &ClockReading) -> (r: TickOutcome)
        requires
            old(self).wf(),
            clock.wf(),
            old(self).time_num < i128::MAX,
        ensures
            final(self).wf(),
            final(self).config_data@ == match reload {
                Some(v) => v@,
                None => old(self).config_data@,
            },
            final(self).time_num == old(self).time_num + 1,
            !final(self).appstart,
            r.notices@ == match reload {
                Some(v) => notices_of(views(v@)),
                None => seq![],
            },
            views(r.commands@) == due_commands(
                entries_of(views(final(self).config_data@)),
                old(self).time_num as int,
                old(self).appstart,
                *clock,
            ),
            notice_views(r.window_notices@) == tick_notes(
                entries_of(views(final(self).config_data@)),
                old(self).appstart,
                *clock,
            ),
    {
        let mut notices: Vec<Notice> = Vec::new();
        match reload {
            Some(lines) => {
                let (configs, found) = parse_config(&lines);
                self.config_data = lines;
                self.configs = configs;
                notices = found;
            },
            None => {},
        }
        let ghost entries = entry_views(self.configs@);
        proof {
            lemma_periods_nonzero(views(self.config_data@), self.config_data@.len() as int);
        }
        let mut commands: Vec<String> = Vec::new();
        let mut window_notices: Vec<WindowNotice> = Vec::new();
        let mut i: usize = 0;
        while i < self.configs.len()
            invariant
                i <= self.configs@.len(),
                entries == entry_views(self.configs@),
                periods_nonzero(entries),
                self.time_num >= 0,
                clock.wf(),
                views(commands@) == due_commands(
                    entries.take(i as int),
                    self.time_num as int,
                    self.appstart,
                    *clock,
                ),
                notice_views(window_notices@) == tick_notes(
                    entries.take(i as int),
                    self.appstart,
                    *clock,
                ),
            decreases self.configs.len() - i,
        {
            let e = &self.configs[i];
            assert(entries[i as int] == e@);
            assert(entries.take(i + 1).drop_last() =~= entries.take(i as int));
            let ghost before = commands@;
            let ghost notes_before = window_notices@;
            let (due, note) = entry_due(e, self.time_num, self.appstart, clock);
            if due {
                commands.push(e.run_command.clone());
                assert(views(commands@) =~= views(before) + seq![e.run_command@]);
            } else {
                assert(views(commands@) =~= views(before) + seq![]);
            }
            match note {
                Some(kind) => {
                    match &e.interval_or_fixed {
                        IntervalOrFixedTime::Fixed(run_time) => {
                            window_notices.push(
                                WindowNotice {
                                    kind,
                                    old_time: e.old_time.clone(),
                                    run_time: run_time.clone(),
                                },
                            );
                            assert(notice_views(window_notices@) =~= notice_views(notes_before)
                                + seq![(kind, e.old_time@, run_time@)]);
                        },
                        IntervalOrFixedTime::Interval(_) => {},
                    }
                },
                None => {
                    assert(notice_views(window_notices@) =~= notice_views(notes_before) + seq![]);
                },
            }
            i += 1;
        }
        assert(entries.take(self.configs@.len() as int) =~= entries);
        self.time_num = self.time_num + 1;
        self.appstart = false;
        TickOutcome { commands, notices, window_notices }
    }
}


pub open spec fn abs(k: int) -> int {
    if k < 0 {
        -k
    } else {
        k
    }
}

/// An interval entry is periodic after start-up: whether it runs at tick
/// `t > 0` does not change when `t` moves on by its period.
pub proof fn law_interval_periodic(
    e: OptionsSpec,
    t: int,
    s1: bool,
    s2: bool,
    c1: ClockReading,
    c2: ClockReading,
)
    requires
        e.timing matches TimingSpec::Interval(k) && k != 0,
        t > 0,
    ensures
        e.timing matches TimingSpec::Interval(k) ==> is_due(e, t, s1, c1) == is_due(
            e,
            t + abs(k),
            s2,
            c2,
        ),
{
    if let TimingSpec::Interval(k) = e.timing {
        if k > 0 {
            vstd::arithmetic::div_mod::lemma_mod_multiples_vanish(1, t, k);
        } else {
            assert((t - k) % k == t % k) by (nonlinear_arith)
                requires
                    k < 0,
            ;
        }
    }
}

/// At the first tick an interval entry runs exactly when it asks to run at
/// start-up.
pub proof fn law_interval_first_tick(e: OptionsSpec, s: bool, c: ClockReading)
    requires
        e.timing is Interval,
    ensures
        is_due(e, 0, s, c) == e.start_run,
{
}

/// After the first tick a fixed-time entry runs exactly when the clock shows
/// its time.
pub proof fn law_fixed_after_start(e: OptionsSpec, t: int, c: ClockReading)
    requires
        e.timing matches TimingSpec::Fixed(rt),
    ensures
        e.timing matches TimingSpec::Fixed(rt) ==> is_due(e, t, false, c) == time_reached(rt, c),
{
}

/// A fixed-time entry whose start-up bound is `n` runs only when the clock
/// shows its time, at the first tick too.
pub proof fn law_fixed_without_bound(e: OptionsSpec, t: int, s: bool, c: ClockReading)
    requires
        e.timing matches TimingSpec::Fixed(rt),
        e.old_time == seq!['n'],
    ensures
        e.timing matches TimingSpec::Fixed(rt) ==> is_due(e, t, s, c) == time_reached(rt, c),
{
}

/// Lines that are neither interval nor fixed-time lines add no entry.
pub proof fn law_other_lines_ignored(lines: Seq<Seq<char>>, extra: Seq<char>)
    requires
        !is_interval_line(extra),
        !is_fixed_line(extra),
    ensures
        entries_of(lines.push(extra)) == entries_of(lines),
{
    lemma_entries_prefix(lines.push(extra), lines, lines.len() as int);
    assert(line_entry(lines.push(extra)[lines.len() as int]) is None);
}

proof fn lemma_entries_prefix(a: Seq<Seq<char>>, b: Seq<Seq<char>>, n: int)
    requires
        0 <= n <= a.len(),
        n <= b.len(),
        forall|i: int| 0 <= i < n ==> a[i] == b[i],
    ensures
        config_entries(a, n) == config_entries(b, n),
    decreases n,
{
    if n > 0 {
        lemma_entries_prefix(a, b, n - 1);
    }
}

/// After start-up, an interval entry with a period of `k` seconds runs at
/// tick `t` exactly when `t` is a whole multiple of `k` (of either sign).
pub proof fn law_interval_runs_on_multiples(e: OptionsSpec, t: int, s: bool, c: ClockReading)
    requires
        e.timing matches TimingSpec::Interval(k) && k != 0,
        t > 0,
    ensures
        e.timing matches TimingSpec::Interval(k) ==> (is_due(e, t, s, c) == exists|q: int|
            #[trigger] (q * k) == t),
{
    if let TimingSpec::Interval(k) = e.timing {
        if t % k == 0 {
            vstd::arithmetic::div_mod::lemma_fundamental_div_mod(t, k);
            assert(k * (t / k) == (t / k) * k) by (nonlinear_arith);
            assert((t / k) * k == t);
        }
        if exists|q: int| #[trigger] (q * k) == t {
            let q = choose|q: int| #[trigger] (q * k) == t;
            assert((q * k) % k == 0) by (nonlinear_arith)
                requires
                    k != 0,
            ;
        }
    }
}

/// The commands of a tick for a list of entries are those of its first part
/// followed by those of the rest: entries keep their configuration order.
pub proof fn law_due_commands_concat(
    a: Seq<OptionsSpec>,
    b: Seq<OptionsSpec>,
    t: int,
    s: bool,
    c: ClockReading,
)
    ensures
        due_commands(a + b, t, s, c) == due_commands(a, t, s, c) + due_commands(b, t, s, c),
    decreases b.len(),
{
    if b.len() == 0 {
        assert(a + b =~= a);
        assert(due_commands(a, t, s, c) + due_commands(b, t, s, c) =~= due_commands(a, t, s, c));
    } else {
        law_due_commands_concat(a, b.drop_last(), t, s, c);
        assert((a + b).drop_last() =~= a + b.drop_last());
        assert((a + b).last() == b.last());
        assert(due_commands(a + b, t, s, c) =~= due_commands(a, t, s, c) + due_commands(b, t, s, c));
    }
}

/// One entry alone gives its command when it runs and nothing otherwise.
pub proof fn law_due_commands_single(e: OptionsSpec, t: int, s: bool, c: ClockReading)
    ensures
        due_commands(seq![e], t, s, c) == if is_due(e, t, s, c) {
            seq![e.run_command]
        } else {
            seq![]
        },
{
    assert(seq![e].drop_last() =~= Seq::<OptionsSpec>::empty());
    assert(seq![e].last() == e);
    assert(due_commands(Seq::<OptionsSpec>::empty(), t, s, c) == Seq::<Seq<char>>::empty());
    assert(due_commands(seq![e], t, s, c) =~= if is_due(e, t, s, c) {
        seq![e.run_command]
    } else {
        seq![]
    });
}

/// The start-up test reports only at the first tick, only for a fixed-time
/// entry whose time the clock does not show and whose bound is not `n`, and
/// then: a length mismatch when the two times have different numbers of
/// parts, a format error when they have more than five.
pub proof fn law_entry_note(e: OptionsSpec, s: bool, c: ClockReading)
    ensures
        ({
            let note = entry_note(e, s, c);
            match e.timing {
                TimingSpec::Interval(_) => note is None,
                TimingSpec::Fixed(rt) => {
                    let o = split_pieces(e.old_time, Sep::Colon, None).len();
                    let a = split_pieces(rt, Sep::Colon, None).len();
                    &&& (!s || time_reached(rt, c) || e.old_time == seq!['n']) ==> note is None
                    &&& (s && !time_reached(rt, c) && e.old_time != seq!['n']) ==> note == if a
                        != o {
                        Some(WindowNote::LengthMismatch)
                    } else if o > 5 || o < 1 {
                        Some(WindowNote::BadFormat)
                    } else {
                        None
                    }
                },
            }
        }),
{
}

} // verus!
