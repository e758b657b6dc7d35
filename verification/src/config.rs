//! The configuration language: one entry per line.
//!
//! * An interval line: `* <start> <s> <m> <h> <d> <mo> <command>`, where
//!   `<start>` beginning with `y` or `Y` runs the command once at start-up,
//!   and the time fields (seconds, minutes, hours, days, months of 30 days)
//!   add up to the period in seconds.
//! * A fixed-time line: `: <time> <until> <command>`, where `<time>` is
//!   `S`, `M:S`, `H:M:S`, `d:H:M:S` or `m:d:H:M:S`, and `<until>` is a time
//!   in the same units before which a start-up after `<time>` still runs the
//!   command, or `n` for none.
//!
//! Fields are separated by single white-space characters.  Every other
//! line is ignored.
use vstd::prelude::*;
use vstd::wrapping::i128_specs;
use crate::number::{parse_i128, parse_i128_spec, parse_i64, parse_i64_spec};
use crate::text::{
    is_unicode_whitespace, law_split_last_is_suffix, law_split_limit, split_text, split_pieces,
    views, Sep,
};

verus! {

/// When an entry runs.
#[derive(Debug)]
pub enum IntervalOrFixedTime {
    /// At the clock time written in the string.
    Fixed(String),
    /// Every so many seconds since start-up.
    Interval(i128),
}

/// One parsed configuration line.
#[derive(Debug)]
pub struct Options {
    pub interval_or_fixed: IntervalOrFixedTime,
    /// Whether an interval entry also runs at start-up.
    pub start_run: bool,
    /// The shell command to run.
    pub run_command: String,
    /// For a fixed-time entry, the time before which a start-up still runs
    /// the command, or `n`.
    pub old_time: String,
}

pub enum TimingSpec {
    Fixed(Seq<char>),
    Interval(int),
}

pub struct OptionsSpec {
    pub timing: TimingSpec,
    pub start_run: bool,
    pub run_command: Seq<char>,
    pub old_time: Seq<char>,
}

impl View for IntervalOrFixedTime {
    type V = TimingSpec;

    open spec fn view(&self) -> TimingSpec {
        match self {
            IntervalOrFixedTime::Fixed(s) => TimingSpec::Fixed(s@),
            IntervalOrFixedTime::Interval(k) => TimingSpec::Interval(*k as int),
        }
    }
}

impl View for Options {
    type V = OptionsSpec;

    open spec fn view(&self) -> OptionsSpec {
        OptionsSpec {
            timing: self.interval_or_fixed@,
            start_run: self.start_run,
            run_command: self.run_command@,
            old_time: self.old_time@,
        }
    }
}

/// What is wrong with a configuration line.
#[derive(Clone, Copy, PartialEq, Eq, Structural, Debug)]
pub enum NoticeKind {
    /// A time field of an interval line is not an `i128`; it counts as 0.
    UnreadableIntervalField,
    /// The period of an interval line came to 0; it was set to 1 second.
    ZeroInterval,
    /// A fixed-time line does not have four fields.
    WrongFieldCount,
    /// A part of the time of a fixed-time line is not an `i64`.
    BadRunTime,
    /// A part of the start-up bound of a fixed-time line is not an `i64`.
    BadStartTime,
}

/// A remark about line `line` (counted from 0) of the configuration.
#[derive(Clone, Copy, PartialEq, Eq, Structural, Debug)]
pub struct Notice {
    pub line: usize,
    pub kind: NoticeKind,
}

pub open spec fn crop(x: int) -> int {
    i128_specs::signed_crop(x) as int
}

pub open spec fn modulus() -> int {
    0x1_0000_0000_0000_0000_0000_0000_0000_0000int
}

proof fn lemma_crop_mod(x: int)
    ensures
        crop(x) % modulus() == x % modulus(),
        i128::MIN <= crop(x) <= i128::MAX,
{
    let m = modulus();
    let r = x % m;
    assert(0 <= r < m);
    if r > i128::MAX {
        assert(crop(x) == r - m);
        vstd::arithmetic::div_mod::lemma_mod_multiples_vanish(-1, r, m);
        assert(m * -1 + r == r - m);
    } else {
        assert(crop(x) == r);
    }
    vstd::arithmetic::div_mod::lemma_small_mod(r as nat, m as nat);
}

proof fn lemma_crop_add(a: int, b: int)
    ensures
        crop(crop(a) + crop(b)) == crop(a + b),
{
    let m = modulus();
    lemma_crop_mod(a);
    lemma_crop_mod(b);
    vstd::arithmetic::div_mod::lemma_add_mod_noop(crop(a), crop(b), m);
    vstd::arithmetic::div_mod::lemma_add_mod_noop(a, b, m);
    assert((crop(a) + crop(b)) % m == (a + b) % m);
}

proof fn lemma_crop_small(x: int)
    requires
        i128::MIN <= x <= i128::MAX,
    ensures
        crop(x) == x,
{
    let m = modulus();
    if x >= 0 {
        vstd::arithmetic::div_mod::lemma_small_mod(x as nat, m as nat);
    } else {
        vstd::arithmetic::div_mod::lemma_mod_multiples_vanish(1, x, m);
        vstd::arithmetic::div_mod::lemma_small_mod((x + m) as nat, m as nat);
        assert(x % m == x + m);
    }
}

proof fn lemma_wrapping_add(x: i128, y: i128)
    ensures
        i128_specs::wrapping_add(x, y) as int == crop(x + y),
{
    let s = x + y;
    if s > i128::MAX {
        lemma_crop_small(s - modulus());
        vstd::arithmetic::div_mod::lemma_mod_multiples_vanish(-1, s, modulus());
        lemma_crop_mod(s);
        lemma_crop_mod(s - modulus());
        assert(modulus() * -1 + s == s - modulus());
        assert(crop(s) % modulus() == crop(s - modulus()) % modulus());
        assert(crop(s) == crop(s - modulus()));
    } else if s < i128::MIN {
        lemma_crop_small(s + modulus());
        vstd::arithmetic::div_mod::lemma_mod_multiples_vanish(1, s, modulus());
        lemma_crop_mod(s);
        lemma_crop_mod(s + modulus());
        assert(crop(s) == crop(s + modulus()));
    } else {
        lemma_crop_small(s);
    }
}


/// Seconds in one unit of the time field at position `pos` (0 to 4) of an
/// interval line: second, minute, hour, day, month of 30 days.
pub open spec fn interval_factor(pos: int) -> int {
    if pos == 0 {
        1
    } else if pos == 1 {
        60
    } else if pos == 2 {
        3600
    } else if pos == 3 {
        86400
    } else {
        2592000
    }
}

/// What the piece at index `k` of an interval line adds to the period.
pub open spec fn field_seconds(piece: Seq<char>, k: int) -> int {
    match parse_i128_spec(piece) {
        Some(v) => v * interval_factor(k - 2),
        None => 0,
    }
}

/// The sum of the time fields at indices `2..upto`.
pub open spec fn interval_sum(p: Seq<Seq<char>>, upto: int) -> int
    decreases upto,
{
    if upto <= 2 {
        0
    } else {
        interval_sum(p, upto - 1) + field_seconds(p[upto - 1], upto - 1)
    }
}

/// One notice for each time field at indices `2..upto` that is not an `i128`.
pub open spec fn interval_field_notices(p: Seq<Seq<char>>, upto: int) -> Seq<NoticeKind>
    decreases upto,
{
    if upto <= 2 {
        seq![]
    } else {
        interval_field_notices(p, upto - 1) + if parse_i128_spec(p[upto - 1]) is None {
            seq![NoticeKind::UnreadableIntervalField]
        } else {
            seq![]
        }
    }
}

/// The piece at index `k` is missing or is `*`.
pub open spec fn field_is_star(p: Seq<Seq<char>>, k: int) -> bool {
    k >= p.len() || p[k] == seq!['*']
}

pub open spec fn has_time_field(p: Seq<Seq<char>>) -> bool {
    ||| !field_is_star(p, 2)
    ||| !field_is_star(p, 3)
    ||| !field_is_star(p, 4)
    ||| !field_is_star(p, 5)
    ||| !field_is_star(p, 6)
}

pub open spec fn time_field_end(p: Seq<Seq<char>>) -> int {
    if p.len() < 7 {
        p.len() as int
    } else {
        7
    }
}

/// The period before the zero check: the sum of the time fields, wrapped to
/// `i128` as two's-complement arithmetic wraps it, or 1 when every time
/// field is missing or `*`.
pub open spec fn raw_interval(p: Seq<Seq<char>>) -> int {
    if has_time_field(p) {
        crop(interval_sum(p, time_field_end(p)))
    } else {
        1
    }
}

pub open spec fn starts_with_either(s: Seq<char>, a: char, b: char) -> bool {
    s.len() > 0 && (s[0] == a || s[0] == b)
}

pub open spec fn interval_pieces(line: Seq<char>) -> Seq<Seq<char>> {
    split_pieces(line, Sep::Whitespace, Some(8))
}

pub open spec fn fixed_pieces(line: Seq<char>) -> Seq<Seq<char>> {
    split_pieces(line, Sep::Whitespace, Some(4))
}

/// The entry an interval line (one that begins with `*`) stands for.
pub open spec fn interval_entry(line: Seq<char>) -> OptionsSpec {
    let p = interval_pieces(line);
    let raw = raw_interval(p);
    OptionsSpec {
        timing: TimingSpec::Interval(
            if raw == 0 {
                1
            } else {
                raw
            },
        ),
        start_run: p.len() > 1 && starts_with_either(p[1], 'y', 'Y'),
        run_command: if p.len() > 7 {
            p[7]
        } else {
            "echo 'config error'"@
        },
        old_time: "not found"@,
    }
}

/// The notices for an interval line.
pub open spec fn interval_notices(line: Seq<char>) -> Seq<NoticeKind> {
    let p = interval_pieces(line);
    (if has_time_field(p) {
        interval_field_notices(p, time_field_end(p))
    } else {
        seq![]
    }) + if raw_interval(p) == 0 {
        seq![NoticeKind::ZeroInterval]
    } else {
        seq![]
    }
}

/// One `kind` notice for each piece of `pieces` that is not an `i64`.
pub open spec fn non_i64_notices(pieces: Seq<Seq<char>>, kind: NoticeKind) -> Seq<NoticeKind>
    decreases pieces.len(),
{
    if pieces.len() == 0 {
        seq![]
    } else {
        non_i64_notices(pieces.drop_last(), kind) + if parse_i64_spec(pieces.last()) is None {
            seq![kind]
        } else {
            seq![]
        }
    }
}

/// The entry a fixed-time line (one that begins with `:` and has four fields)
/// stands for.
pub open spec fn fixed_entry(line: Seq<char>) -> OptionsSpec {
    let p = fixed_pieces(line);
    OptionsSpec {
        timing: TimingSpec::Fixed(p[1]),
        start_run: false,
        run_command: p[3],
        old_time: if p[2].len() > 0 && p[2][0] == 'n' {
            seq!['n']
        } else {
            p[2]
        },
    }
}

/// The notices for a fixed-time line with four fields.
pub open spec fn fixed_notices(line: Seq<char>) -> Seq<NoticeKind> {
    let p = fixed_pieces(line);
    non_i64_notices(split_pieces(p[1], Sep::Colon, None), NoticeKind::BadRunTime) + if starts_with_either(
        p[2],
        'n',
        'N',
    ) {
        seq![]
    } else {
        non_i64_notices(split_pieces(p[2], Sep::Colon, None), NoticeKind::BadStartTime)
    }
}

pub open spec fn is_interval_line(line: Seq<char>) -> bool {
    line.len() > 0 && line[0] == '*'
}

pub open spec fn is_fixed_line(line: Seq<char>) -> bool {
    line.len() > 0 && line[0] == ':'
}

/// The entry of a configuration line, if it has one.
pub open spec fn line_entry(line: Seq<char>) -> Option<OptionsSpec> {
    if is_interval_line(line) {
        Some(interval_entry(line))
    } else if is_fixed_line(line) && fixed_pieces(line).len() == 4 {
        Some(fixed_entry(line))
    } else {
        None
    }
}

/// The notices for a configuration line, in the order they are found.
pub open spec fn line_notices(line: Seq<char>) -> Seq<NoticeKind> {
    if is_interval_line(line) {
        interval_notices(line)
    } else if is_fixed_line(line) {
        if fixed_pieces(line).len() == 4 {
            fixed_notices(line)
        } else {
            seq![NoticeKind::WrongFieldCount]
        }
    } else {
        seq![]
    }
}

/// Whether `s` is the one-character string `c`.
pub fn is_single(s: &str, c: char) -> (b: bool)
    ensures
        b == (s@ == seq![c]),
{
    let n = s.unicode_len();
    if n != 1 {
        return false;
    }
    let first = s.get_char(0);
    assert(s@ =~= seq![first]);
    first == c
}

/// Whether `s` begins with `a` or with `b`.
pub fn first_char_either(s: &str, a: char, b: char) -> (r: bool)
    ensures
        r == starts_with_either(s@, a, b),
{
    if s.unicode_len() == 0 {
        return false;
    }
    let first = s.get_char(0);
    first == a || first == b
}

fn interval_factor_exec(pos: usize) -> (f: i128)
    requires
        pos <= 4,
    ensures
        f as int == interval_factor(pos as int),
{
    if pos == 0 {
        1
    } else if pos == 1 {
        60
    } else if pos == 2 {
        3600
    } else if pos == 3 {
        86400
    } else {
        2592000
    }
}

fn field_is_star_exec(p: &Vec<String>, k: usize) -> (b: bool)
    ensures
        b == field_is_star(views(p@), k as int),
{
    if k >= p.len() {
        true
    } else {
        assert(views(p@)[k as int] == p@[k as int]@);
        is_single(p[k].as_str(), '*')
    }
}

/// The entry and notices of an interval line.
fn parse_interval_line(line: &str) -> (r: (Options, Vec<NoticeKind>))
    requires
        is_interval_line(line@),
    ensures
        r.0@ == interval_entry(line@),
        r.1@ == interval_notices(line@),
{
    let p = split_text(line, Sep::Whitespace, Some(8));
    let ghost pv = views(p@);
    assert(pv == interval_pieces(line@));
    let any_field = !field_is_star_exec(&p, 2) || !field_is_star_exec(&p, 3) || !field_is_star_exec(
        &p,
        4,
    ) || !field_is_star_exec(&p, 5) || !field_is_star_exec(&p, 6);
    let mut notices: Vec<NoticeKind> = Vec::new();
    let mut tem: i128 = 1;
    if any_field {
        let end: usize = if p.len() < 7 {
            p.len()
        } else {
            7
        };
        tem = 0;
        let mut k: usize = 2;
        proof {
            lemma_crop_small(0);
        }
        while k < end
            invariant
                pv == views(p@),
                end as int == time_field_end(pv),
                2 <= k,
                end >= 2 ==> k <= end,
                tem as int == crop(interval_sum(pv, k as int)),
                notices@ == interval_field_notices(pv, k as int),
            decreases end - k,
        {
            assert(pv[k as int] == p@[k as int]@);
            let ghost before = notices@;
            match parse_i128(p[k].as_str()) {
                Some(v) => {
                    let f = interval_factor_exec(k - 2);
                    let m = v.wrapping_mul(f);
                    let next = tem.wrapping_add(m);
                    proof {
                        lemma_wrapping_add(tem, m);
                        lemma_crop_small(tem as int);
                        lemma_crop_small(m as int);
                        lemma_crop_add(interval_sum(pv, k as int), v * f);
                        assert(m as int == crop(v * f));
                    }
                    tem = next;
                    assert(notices@ =~= before + seq![]);
                },
                None => {
                    notices.push(NoticeKind::UnreadableIntervalField);
                },
            }
            k += 1;
        }
        assert(interval_sum(pv, k as int) == interval_sum(pv, end as int));
        assert(interval_field_notices(pv, k as int) == interval_field_notices(pv, end as int));
    }
    assert(tem as int == raw_interval(pv));
    let ghost field_notices = notices@;
    if tem == 0 {
        tem = 1;
        notices.push(NoticeKind::ZeroInterval);
    }
    assert(notices@ =~= interval_notices(line@));
    let start_run = if p.len() > 1 {
        assert(pv[1] == p@[1]@);
        first_char_either(p[1].as_str(), 'y', 'Y')
    } else {
        false
    };
    let run_command = if p.len() > 7 {
        assert(pv[7] == p@[7]@);
        p[7].clone()
    } else {
        String::from_str("echo 'config error'")
    };
    let entry = Options {
        interval_or_fixed: IntervalOrFixedTime::Interval(tem),
        start_run,
        run_command,
        old_time: String::from_str("not found"),
    };
    (entry, notices)
}


/// One `kind` notice for each of `pieces` that is not an `i64`.
fn non_i64_notices_exec(pieces: &Vec<String>, kind: NoticeKind, notices: &mut Vec<NoticeKind>)
    ensures
        final(notices)@ == old(notices)@ + non_i64_notices(views(pieces@), kind),
{
    let ghost start = notices@;
    let ghost pv = views(pieces@);
    let mut i: usize = 0;
    while i < pieces.len()
        invariant
            i <= pieces@.len(),
            pv == views(pieces@),
            notices@ == start + non_i64_notices(pv.take(i as int), kind),
        decreases pieces.len() - i,
    {
        assert(pv.take(i + 1).drop_last() =~= pv.take(i as int));
        assert(pv.take(i + 1).last() == pieces@[i as int]@);
        let ghost before = notices@;
        if parse_i64(pieces[i].as_str()).is_none() {
            notices.push(kind);
        }
        assert(notices@ =~= start + non_i64_notices(pv.take(i + 1), kind));
        i += 1;
    }
    assert(pv.take(pieces@.len() as int) =~= pv);
}

/// The entry and notices of a fixed-time line.
fn parse_fixed_line(line: &str) -> (r: (Option<Options>, Vec<NoticeKind>))
    requires
        is_fixed_line(line@),
    ensures
        r.0 matches Some(e) ==> fixed_pieces(line@).len() == 4 && e@ == fixed_entry(line@),
        r.0 is None ==> fixed_pieces(line@).len() != 4,
        r.1@ == line_notices(line@),
{
    let p = split_text(line, Sep::Whitespace, Some(4));
    let ghost pv = views(p@);
    let mut notices: Vec<NoticeKind> = Vec::new();
    if p.len() != 4 {
        notices.push(NoticeKind::WrongFieldCount);
        assert(notices@ =~= seq![NoticeKind::WrongFieldCount]);
        return (None, notices);
    }
    assert(pv[1] == p@[1]@);
    assert(pv[2] == p@[2]@);
    assert(pv[3] == p@[3]@);
    let run_parts = split_text(p[1].as_str(), Sep::Colon, None);
    non_i64_notices_exec(&run_parts, NoticeKind::BadRunTime, &mut notices);
    if !first_char_either(p[2].as_str(), 'n', 'N') {
        let start_parts = split_text(p[2].as_str(), Sep::Colon, None);
        non_i64_notices_exec(&start_parts, NoticeKind::BadStartTime, &mut notices);
    }
    assert(notices@ =~= fixed_notices(line@));
    let old_time = if first_char_either(p[2].as_str(), 'n', 'n') {
        let n = String::from_str("n");
        proof {
            reveal_strlit("n");
            assert(n@ =~= seq!['n']);
        }
        n
    } else {
        p[2].clone()
    };
    assert(old_time@ == fixed_entry(line@).old_time);
    let entry = Options {
        interval_or_fixed: IntervalOrFixedTime::Fixed(p[1].clone()),
        start_run: false,
        run_command: p[3].clone(),
        old_time,
    };
    (Some(entry), notices)
}

/// The entry and the notices of one configuration line.
pub fn parse_line(line: &str) -> (r: (Option<Options>, Vec<NoticeKind>))
    ensures
        r.0 matches Some(e) ==> line_entry(line@) == Some(e@),
        r.0 is None ==> line_entry(line@) is None,
        r.1@ == line_notices(line@),
{
    if first_char_either(line, '*', '*') {
        let (e, n) = parse_interval_line(line);
        (Some(e), n)
    } else if first_char_either(line, ':', ':') {
        parse_fixed_line(line)
    } else {
        (None, Vec::new())
    }
}

/// The entries of the first `n` lines.
pub open spec fn config_entries(lines: Seq<Seq<char>>, n: int) -> Seq<OptionsSpec>
    decreases n,
{
    if n <= 0 {
        seq![]
    } else {
        config_entries(lines, n - 1) + match line_entry(lines[n - 1]) {
            Some(e) => seq![e],
            None => seq![],
        }
    }
}

/// The notices for the first `n` lines, each with its line's index.
pub open spec fn config_notices(lines: Seq<Seq<char>>, n: int) -> Seq<Notice>
    decreases n,
{
    if n <= 0 {
        seq![]
    } else {
        config_notices(lines, n - 1) + line_notices(lines[n - 1]).map_values(
            |k: NoticeKind| Notice { line: (n - 1) as usize, kind: k },
        )
    }
}

pub open spec fn entries_of(lines: Seq<Seq<char>>) -> Seq<OptionsSpec> {
    config_entries(lines, lines.len() as int)
}

pub open spec fn notices_of(lines: Seq<Seq<char>>) -> Seq<Notice> {
    config_notices(lines, lines.len() as int)
}

pub open spec fn entry_views(v: Seq<Options>) -> Seq<OptionsSpec> {
    v.map_values(|e: Options| e@)
}

/// The entries of a configuration, in line order, and the notices about it.
pub fn parse_config(lines: &Vec<String>) -> (r: (Vec<Options>, Vec<Notice>))
    ensures
        entry_views(r.0@) == entries_of(views(lines@)),
        r.1@ == notices_of(views(lines@)),
{
    let ghost lv = views(lines@);
    let mut entries: Vec<Options> = Vec::new();
    let mut notices: Vec<Notice> = Vec::new();
    let mut i: usize = 0;
    while i < lines.len()
        invariant
            i <= lines@.len(),
            lv == views(lines@),
            entry_views(entries@) == config_entries(lv, i as int),
            notices@ == config_notices(lv, i as int),
        decreases lines.len() - i,
    {
        assert(lv[i as int] == lines@[i as int]@);
        let (entry, kinds) = parse_line(lines[i].as_str());
        let ghost entries_before = entries@;
        let ghost notices_before = notices@;
        match entry {
            Some(e) => {
                entries.push(e);
                assert(entry_views(entries@) =~= entry_views(entries_before) + seq![e@]);
            },
            None => {
                assert(entry_views(entries@) =~= entry_views(entries_before) + seq![]);
            },
        }
        let mut j: usize = 0;
        while j < kinds.len()
            invariant
                j <= kinds@.len(),
                i < lines@.len(),
                kinds@ == line_notices(lv[i as int]),
                notices@ == notices_before + kinds@.take(j as int).map_values(
                    |k: NoticeKind| Notice { line: i, kind: k },
                ),
            decreases kinds.len() - j,
        {
            notices.push(Notice { line: i, kind: kinds[j] });
            assert(kinds@.take(j + 1).map_values(|k: NoticeKind| Notice { line: i, kind: k })
                =~= kinds@.take(j as int).map_values(|k: NoticeKind| Notice { line: i, kind: k }).push(
                Notice { line: i, kind: kinds@[j as int] },
            ));
            j += 1;
        }
        assert(kinds@.take(kinds@.len() as int) =~= kinds@);
        assert(notices@ =~= config_notices(lv, i + 1));
        i += 1;
    }
    (entries, notices)
}

/// The number a time field of an interval line counts for: its value when
/// it reads as an `i128`, else 0; 0 also when the field is missing.
pub open spec fn field_number(p: Seq<Seq<char>>, k: int) -> int {
    if k < p.len() {
        match parse_i128_spec(p[k]) {
            Some(v) => v,
            None => 0,
        }
    } else {
        0
    }
}

/// The period of an interval line with a time field set: seconds + 60 ×
/// minutes + 3600 × hours + 86400 × days + 2592000 × months, wrapped to
/// `i128`, with 0 read as 1.  Every field counts with its own weight, days
/// and months included, and every value counts in full (90 minutes are
/// 5400 seconds).
pub proof fn law_interval_period(line: Seq<char>)
    requires
        is_interval_line(line),
        ({
            let p = interval_pieces(line);
            ||| (2 < p.len() && p[2] != seq!['*'])
            ||| (3 < p.len() && p[3] != seq!['*'])
            ||| (4 < p.len() && p[4] != seq!['*'])
            ||| (5 < p.len() && p[5] != seq!['*'])
            ||| (6 < p.len() && p[6] != seq!['*'])
        }),
    ensures
        ({
            let p = interval_pieces(line);
            let total = field_number(p, 2) + field_number(p, 3) * 60 + field_number(p, 4) * 3600
                + field_number(p, 5) * 86400 + field_number(p, 6) * 2592000;
            let wrapped = i128_specs::signed_crop(total) as int;
            line_entry(line) == Some(interval_entry(line)) && interval_entry(line).timing
                == TimingSpec::Interval(
                if wrapped == 0 {
                    1
                } else {
                    wrapped
                },
            )
        }),
{
    let p = interval_pieces(line);
    let end = time_field_end(p);
    reveal_with_fuel(interval_sum, 7);
    let total = field_number(p, 2) + field_number(p, 3) * 60 + field_number(p, 4) * 3600
        + field_number(p, 5) * 86400 + field_number(p, 6) * 2592000;
    assert(interval_sum(p, end) == total);
}

/// An interval line with a time field of `*` everywhere (or no time fields)
/// runs every second.
pub proof fn law_interval_all_star(line: Seq<char>)
    requires
        is_interval_line(line),
        ({
            let p = interval_pieces(line);
            forall|k: int| 2 <= k <= 6 && k < p.len() ==> p[k] == seq!['*']
        }),
    ensures
        interval_entry(line).timing == TimingSpec::Interval(1),
{
    let p = interval_pieces(line);
    assert(!has_time_field(p)) by {
        if 2 < p.len() { assert(p[2] == seq!['*']); }
        if 3 < p.len() { assert(p[3] == seq!['*']); }
        if 4 < p.len() { assert(p[4] == seq!['*']); }
        if 5 < p.len() { assert(p[5] == seq!['*']); }
        if 6 < p.len() { assert(p[6] == seq!['*']); }
    }
}

/// An interval line runs at start-up exactly when its second field begins
/// with `y` or `Y` (`y`, `yes`, `Yes`, ...), which is what lower-casing the
/// field and testing for a leading `y` gives.
pub proof fn law_interval_start_run(line: Seq<char>)
    requires
        is_interval_line(line),
    ensures
        ({
            let p = interval_pieces(line);
            interval_entry(line).start_run == (p.len() > 1 && p[1].len() > 0 && (p[1][0] == 'y'
                || p[1][0] == 'Y'))
        }),
{
}

/// The command of an interval line is the rest of the line after its seventh
/// separator, up to the end of the line, white space included; a line with
/// fewer fields runs `echo 'config error'`.
pub proof fn law_interval_command(line: Seq<char>)
    requires
        is_interval_line(line),
    ensures
        ({
            let p = interval_pieces(line);
            let cmd = interval_entry(line).run_command;
            &&& p.len() > 7 ==> cmd == p.last() && line.skip(line.len() - cmd.len()) == cmd
                && is_unicode_whitespace(line[line.len() - cmd.len() - 1])
            &&& p.len() <= 7 ==> cmd == "echo 'config error'"@
            &&& interval_entry(line).old_time == "not found"@
        }),
{
    law_split_limit(line, Sep::Whitespace, 8);
    law_split_last_is_suffix(line, Sep::Whitespace, Some(8));
}

/// A fixed-time line of four fields runs its command, the rest of the line
/// after the third separator, at the time in its second field; its start-up
/// bound is its third field, or `n` when that field begins with `n`; it never
/// runs just for starting up.
pub proof fn law_fixed_entry(line: Seq<char>)
    requires
        is_fixed_line(line),
        fixed_pieces(line).len() == 4,
    ensures
        ({
            let p = fixed_pieces(line);
            let e = fixed_entry(line);
            &&& line_entry(line) == Some(e)
            &&& e.timing == TimingSpec::Fixed(p[1])
            &&& e.run_command == p[3]
            &&& line.skip(line.len() - p[3].len()) == p[3]
            &&& is_unicode_whitespace(line[line.len() - p[3].len() - 1])
            &&& e.old_time == if p[2].len() > 0 && p[2][0] == 'n' {
                seq!['n']
            } else {
                p[2]
            }
            &&& !e.start_run
        }),
{
    law_split_last_is_suffix(line, Sep::Whitespace, Some(4));
}

/// A fixed-time line without exactly four fields gives no entry and one
/// notice that says so.
pub proof fn law_fixed_wrong_count(line: Seq<char>)
    requires
        is_fixed_line(line),
        fixed_pieces(line).len() != 4,
    ensures
        line_entry(line) is None,
        line_notices(line) == seq![NoticeKind::WrongFieldCount],
{
}

} // verus!
