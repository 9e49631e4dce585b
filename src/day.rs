//! Reconciling one day's lines into time entries, flags and a total.

use crate::clock::{elapsed_minutes, minutes_between, Date, TimeOfDay};
use crate::parser::TimesheetParser;
use crate::pattern::{LineKind, HOLIDAY_MINUTES};
use vstd::prelude::*;

verus! {

/// Minutes after which an open entry of the current day is capped.
pub const TENTATIVE_CAP_MINUTES: u64 = 480;

/// A work interval of one day, possibly still open.
#[derive(Clone, Copy, Debug)]
pub struct TimeEntry {
    pub start_time: Option<TimeOfDay>,
    pub end_time: Option<TimeOfDay>,
    /// The end was inferred rather than declared.
    pub tentative: bool,
}

impl TimeEntry {
    /// Both times, where present, are real clock readings.
    pub open spec fn wf(&self) -> bool {
        &&& (self.start_time matches Some(t) ==> t.wf())
        &&& (self.end_time matches Some(t) ==> t.wf())
    }

    /// The length of the interval in minutes, once it has both ends.
    pub open spec fn minutes(&self) -> Option<int> {
        match (self.start_time, self.end_time) {
            (Some(start), Some(end)) => Some(minutes_between(start, end)),
            _ => None,
        }
    }

    /// Whether the entry has a start and no end.
    pub open spec fn is_open(&self) -> bool {
        self.start_time is Some && self.end_time is None
    }

    /// An entry with neither end.
    pub fn new() -> (r: TimeEntry)
        ensures
            r.start_time is None,
            r.end_time is None,
            !r.tentative,
    {
        TimeEntry { start_time: None, end_time: None, tentative: false }
    }

    /// The length of the interval in minutes, or `None` while an end is missing.
    pub fn duration(&self) -> (r: Option<u64>)
        requires
            self.wf(),
        ensures
            match r {
                Some(m) => self.minutes() == Some(m as int),
                None => self.minutes() is None,
            },
    {
        match (self.start_time, self.end_time) {
            (Some(start), Some(end)) => Some(elapsed_minutes(start, end)),
            _ => None,
        }
    }
}

/// Every time that a list of line kinds holds is a real clock reading.
pub open spec fn kinds_wf(kinds: Seq<LineKind>) -> bool {
    forall|i: int|
        0 <= i < kinds.len() ==> match #[trigger] kinds[i] {
            LineKind::Start(t) => t.wf(),
            LineKind::Stop(t) => t.wf(),
            _ => true,
        }
}

pub open spec fn entries_wf(entries: Seq<TimeEntry>) -> bool {
    forall|i: int| 0 <= i < entries.len() ==> (#[trigger] entries[i]).wf()
}

/// The state of the start/stop machine: the entries closed so far, the start
/// of the open entry if any, and whether a stop came with nothing open.
pub struct Scan {
    pub entries: Seq<TimeEntry>,
    pub open: Option<TimeOfDay>,
    pub orphaned_stop: bool,
}

pub open spec fn closed_entry(start: TimeOfDay, end: TimeOfDay) -> TimeEntry {
    TimeEntry { start_time: Some(start), end_time: Some(end), tentative: false }
}

pub open spec fn open_entry(start: TimeOfDay) -> TimeEntry {
    TimeEntry { start_time: Some(start), end_time: None, tentative: false }
}

/// One line's effect on the machine. A start replaces whatever entry is open,
/// which is dropped; a stop closes the open entry, or marks an orphaned stop.
pub open spec fn step(s: Scan, kind: LineKind) -> Scan {
    match kind {
        LineKind::Start(t) => Scan { open: Some(t), ..s },
        LineKind::Stop(t) => match s.open {
            Some(start) => Scan { entries: s.entries.push(closed_entry(start, t)), open: None, ..s },
            None => Scan { orphaned_stop: true, ..s },
        },
        _ => s,
    }
}

/// The machine after the given lines, starting idle.
pub open spec fn scan(kinds: Seq<LineKind>) -> Scan
    decreases kinds.len(),
{
    if kinds.len() == 0 {
        Scan { entries: seq![], open: None, orphaned_stop: false }
    } else {
        step(scan(kinds.drop_last()), kinds.last())
    }
}

/// The entries at the end of input: an entry still open is kept without an end.
pub open spec fn finished_entries(s: Scan) -> Seq<TimeEntry> {
    match s.open {
        Some(start) => s.entries.push(open_entry(start)),
        None => s.entries,
    }
}

/// The end inferred for work started at `start` and still going at `now`:
/// `now`, but no more than eight hours after the start.
pub open spec fn inferred_end(start: TimeOfDay, now: TimeOfDay) -> TimeOfDay {
    if minutes_between(start, now) > 480 {
        TimeOfDay::at_minute((start.minute_of_day() + 480) % 1440)
    } else {
        now
    }
}

/// On the current day, the last entry, if it is open, gets an inferred end
/// and is marked tentative; nothing else changes.
pub open spec fn with_tentative(entries: Seq<TimeEntry>, is_today: bool, now: TimeOfDay) -> Seq<
    TimeEntry,
> {
    if is_today && entries.len() > 0 && entries.last().is_open() {
        let last = entries.last();
        entries.update(
            entries.len() - 1,
            TimeEntry {
                end_time: Some(inferred_end(last.start_time->0, now)),
                tentative: true,
                ..last
            },
        )
    } else {
        entries
    }
}

/// The entries of a day whose lines are `kinds`.
pub open spec fn day_entries(kinds: Seq<LineKind>, is_today: bool, now: TimeOfDay) -> Seq<
    TimeEntry,
> {
    with_tentative(finished_entries(scan(kinds)), is_today, now)
}

pub open spec fn has_tentative(entries: Seq<TimeEntry>) -> bool {
    exists|i: int| 0 <= i < entries.len() && (#[trigger] entries[i]).tentative
}

/// An entry left without an end (on the current day, one that inference did
/// not complete), or an orphaned stop.
pub open spec fn has_incomplete(entries: Seq<TimeEntry>, orphaned_stop: bool, is_today: bool) -> bool {
    ||| orphaned_stop
    ||| exists|i: int|
        0 <= i < entries.len() && (#[trigger] entries[i]).is_open() && (!is_today
            || !entries[i].tentative)
}

/// The minutes of the entries that have both ends.
pub open spec fn entries_minutes(entries: Seq<TimeEntry>) -> int
    decreases entries.len(),
{
    if entries.len() == 0 {
        0
    } else {
        entries_minutes(entries.drop_last()) + match entries.last().minutes() {
            Some(m) => m,
            None => 0,
        }
    }
}

/// The minutes one line credits directly.
pub open spec fn line_credit(kind: LineKind) -> int {
    match kind {
        LineKind::WorkTime(m) => m as int,
        LineKind::Holiday => 480,
        _ => 0,
    }
}

/// The minutes credited by explicit durations and holidays.
pub open spec fn credited_minutes(kinds: Seq<LineKind>) -> int
    decreases kinds.len(),
{
    if kinds.len() == 0 {
        0
    } else {
        credited_minutes(kinds.drop_last()) + line_credit(kinds.last())
    }
}

/// The total minutes of a day.
pub open spec fn day_total(kinds: Seq<LineKind>, is_today: bool, now: TimeOfDay) -> int {
    entries_minutes(day_entries(kinds, is_today, now)) + credited_minutes(kinds)
}

/// The result for one date.
#[derive(Clone, Copy, Debug)]
pub struct DaySummary {
    pub date: Date,
    /// Minutes of work.
    pub total_duration: u64,
    pub has_tentative: bool,
    pub has_incomplete: bool,
}

/// Why a day could not be summarised.
#[derive(Clone, Copy, Debug, PartialEq, Eq, Structural)]
pub enum ParseError {
    /// The day's total does not fit in a `u64` count of minutes.
    TotalOverflow,
}

/// The summary of a date whose lines are `kinds`, read when the local date is
/// `today` and the wall clock shows `now`.
pub open spec fn day_summary(kinds: Seq<LineKind>, date: Date, today: Date, now: TimeOfDay) -> DaySummary {
    let is_today = date == today;
    let entries = day_entries(kinds, is_today, now);
    DaySummary {
        date,
        total_duration: day_total(kinds, is_today, now) as u64,
        has_tentative: has_tentative(entries),
        has_incomplete: has_incomplete(entries, scan(kinds).orphaned_stop, is_today),
    }
}

/// The outcome for a date whose lines are `kinds`: its summary, unless the
/// total does not fit in a `u64` count of minutes.
pub open spec fn day_result(kinds: Seq<LineKind>, date: Date, today: Date, now: TimeOfDay) -> Result<
    DaySummary,
    ParseError,
> {
    if day_total(kinds, date == today, now) <= u64::MAX {
        Ok(day_summary(kinds, date, today, now))
    } else {
        Err(ParseError::TotalOverflow)
    }
}

proof fn lemma_scan_entries_wf(kinds: Seq<LineKind>)
    requires
        kinds_wf(kinds),
    ensures
        entries_wf(scan(kinds).entries),
        scan(kinds).open matches Some(t) ==> t.wf(),
    decreases kinds.len(),
{
    if kinds.len() > 0 {
        assert(kinds_wf(kinds.drop_last()));
        lemma_scan_entries_wf(kinds.drop_last());
        assert(kinds[kinds.len() - 1] == kinds.last());
    }
}

/// Runs the start/stop machine over a day's lines; returns the finished
/// entries and whether an orphaned stop was seen.
pub fn collect_entries(kinds: &Vec<LineKind>) -> (r: (Vec<TimeEntry>, bool))
    ensures
        r.0@ == finished_entries(scan(kinds@)),
        r.1 == scan(kinds@).orphaned_stop,
{
    let mut entries: Vec<TimeEntry> = Vec::new();
    let mut open: Option<TimeOfDay> = None;
    let mut orphaned_stop = false;
    let mut i: usize = 0;
    while i < kinds.len()
        invariant
            0 <= i <= kinds.len(),
            (Scan { entries: entries@, open, orphaned_stop }) == scan(kinds@.take(i as int)),
        decreases kinds.len() - i,
    {
        assert(kinds@.take(i + 1).drop_last() =~= kinds@.take(i as int));
        match kinds[i] {
            LineKind::Start(t) => {
                open = Some(t);
            },
            LineKind::Stop(t) => match open {
                Some(start) => {
                    entries.push(TimeEntry { start_time: Some(start), end_time: Some(t), tentative: false });
                    open = None;
                },
                None => {
                    orphaned_stop = true;
                },
            },
            _ => {},
        }
        i += 1;
    }
    assert(kinds@.take(i as int) =~= kinds@);
    if let Some(start) = open {
        entries.push(TimeEntry { start_time: Some(start), end_time: None, tentative: false });
    }
    (entries, orphaned_stop)
}

/// The end inferred for work started at `start` and still going at `now`.
pub fn tentative_end(start: TimeOfDay, now: TimeOfDay) -> (r: TimeOfDay)
    requires
        start.wf(),
        now.wf(),
    ensures
        r == inferred_end(start, now),
        r.wf(),
{
    if elapsed_minutes(start, now) > TENTATIVE_CAP_MINUTES {
        TimeOfDay::from_minute_of_day(start.minutes_since_midnight() + TENTATIVE_CAP_MINUTES)
    } else {
        now
    }
}

impl TimesheetParser {
    /// On the current day, completes the last entry, if it is open, with an
    /// inferred end and marks it tentative.
    pub fn apply_tentative_time(
        entries: &mut Vec<TimeEntry>,
        date: &Date,
        today: &Date,
        now: TimeOfDay,
    )
        requires
            entries_wf(old(entries)@),
            now.wf(),
        ensures
            final(entries)@ == with_tentative(old(entries)@, *date == *today, now),
            entries_wf(final(entries)@),
    {
        let n = entries.len();
        if *date == *today && n > 0 {
            let last = entries[n - 1];
            if let (Some(start), None) = (last.start_time, last.end_time) {
                assert(last.wf());
                let end = tentative_end(start, now);
                entries.set(
                    n - 1,
                    TimeEntry { start_time: last.start_time, end_time: Some(end), tentative: true },
                );
                assert(entries@ =~= with_tentative(old(entries)@, *date == *today, now));
            }
        }
    }

    /// The day's flags: whether an entry is tentative, and whether the day is
    /// incomplete.
    pub fn calculate_flags(
        entries: &Vec<TimeEntry>,
        has_orphaned_stop: bool,
        date: &Date,
        today: &Date,
    ) -> (r: (bool, bool))
        ensures
            r.0 == has_tentative(entries@),
            r.1 == has_incomplete(entries@, has_orphaned_stop, *date == *today),
    {
        let is_today = *date == *today;
        let mut tentative = false;
        let mut open = false;
        let mut i: usize = 0;
        while i < entries.len()
            invariant
                0 <= i <= entries.len(),
                tentative == exists|j: int| 0 <= j < i && (#[trigger] entries@[j]).tentative,
                open == exists|j: int|
                    0 <= j < i && (#[trigger] entries@[j]).is_open() && (!is_today
                        || !entries@[j].tentative),
            decreases entries.len() - i,
        {
            let e = entries[i];
            if e.tentative {
                tentative = true;
            }
            if e.start_time.is_some() && e.end_time.is_none() && (!is_today || !e.tentative) {
                open = true;
            }
            i += 1;
        }
        (tentative, open || has_orphaned_stop)
    }
}

proof fn lemma_entries_minutes_prefix(entries: Seq<TimeEntry>, k: int)
    requires
        entries_wf(entries),
        0 <= k <= entries.len(),
    ensures
        0 <= entries_minutes(entries.take(k)) <= entries_minutes(entries),
    decreases entries.len(),
{
    if entries.len() == 0 {
        assert(entries.take(k) =~= entries);
    } else {
        let init = entries.drop_last();
        assert(entries_wf(init));
        assert(entries[entries.len() - 1].wf());
        lemma_entries_minutes_prefix(init, init.len() as int);
        assert(init.take(init.len() as int) =~= init);
        if k < entries.len() {
            assert(init.take(k) =~= entries.take(k));
            lemma_entries_minutes_prefix(init, k);
        } else {
            assert(entries.take(k) =~= entries);
        }
    }
}

/// The minutes of the entries that have both ends, or `None` when they do not
/// fit in a `u64`.
pub fn sum_entry_minutes(entries: &Vec<TimeEntry>) -> (r: Option<u64>)
    requires
        entries_wf(entries@),
    ensures
        match r {
            Some(m) => m == entries_minutes(entries@),
            None => entries_minutes(entries@) > u64::MAX,
        },
{
    let mut total: u64 = 0;
    let mut i: usize = 0;
    while i < entries.len()
        invariant
            0 <= i <= entries.len(),
            entries_wf(entries@),
            total == entries_minutes(entries@.take(i as int)),
        decreases entries.len() - i,
    {
        assert(entries@.take(i + 1).drop_last() =~= entries@.take(i as int));
        assert(entries@[i as int].wf());
        let m: u64 = match entries[i].duration() {
            Some(m) => m,
            None => 0,
        };
        if total > u64::MAX - m {
            proof {
                lemma_entries_minutes_prefix(entries@, i + 1);
            }
            return None;
        }
        total = total + m;
        i += 1;
    }
    assert(entries@.take(i as int) =~= entries@);
    Some(total)
}

proof fn lemma_credited_prefix(kinds: Seq<LineKind>, k: int)
    requires
        0 <= k <= kinds.len(),
    ensures
        0 <= credited_minutes(kinds.take(k)) <= credited_minutes(kinds),
    decreases kinds.len(),
{
    if kinds.len() == 0 {
        assert(kinds.take(k) =~= kinds);
    } else {
        let init = kinds.drop_last();
        lemma_credited_prefix(init, init.len() as int);
        assert(init.take(init.len() as int) =~= init);
        if k < kinds.len() {
            assert(init.take(k) =~= kinds.take(k));
            lemma_credited_prefix(init, k);
        } else {
            assert(kinds.take(k) =~= kinds);
        }
    }
}

/// The minutes credited by explicit durations and holidays, or `None` when
/// they do not fit in a `u64`.
pub fn sum_credited_minutes(kinds: &Vec<LineKind>) -> (r: Option<u64>)
    ensures
        match r {
            Some(m) => m == credited_minutes(kinds@),
            None => credited_minutes(kinds@) > u64::MAX,
        },
{
    let mut total: u64 = 0;
    let mut i: usize = 0;
    while i < kinds.len()
        invariant
            0 <= i <= kinds.len(),
            total == credited_minutes(kinds@.take(i as int)),
        decreases kinds.len() - i,
    {
        assert(kinds@.take(i + 1).drop_last() =~= kinds@.take(i as int));
        let m: u64 = match kinds[i] {
            LineKind::WorkTime(m) => m,
            LineKind::Holiday => HOLIDAY_MINUTES,
            _ => 0,
        };
        if total > u64::MAX - m {
            proof {
                lemma_credited_prefix(kinds@, i + 1);
            }
            return None;
        }
        total = total + m;
        i += 1;
    }
    assert(kinds@.take(i as int) =~= kinds@);
    Some(total)
}

/// Summarises a date whose lines are `kinds`, when the local date is `today`
/// and the wall clock shows `now`. Fails only when the total does not fit in
/// a `u64` count of minutes.
pub fn summarize_day(kinds: &Vec<LineKind>, date: &Date, today: &Date, now: TimeOfDay) -> (r: Result<
    DaySummary,
    ParseError,
>)
    requires
        kinds_wf(kinds@),
        now.wf(),
    ensures
        r == day_result(kinds@, *date, *today, now),
{
    let (mut entries, orphaned_stop) = collect_entries(kinds);
    proof {
        lemma_scan_entries_wf(kinds@);
    }
    assert(entries_wf(entries@));
    TimesheetParser::apply_tentative_time(&mut entries, date, today, now);
    let (has_tentative, has_incomplete) = TimesheetParser::calculate_flags(
        &entries,
        orphaned_stop,
        date,
        today,
    );
    let credited = sum_credited_minutes(kinds);
    let worked = sum_entry_minutes(&entries);
    proof {
        lemma_entries_minutes_prefix(entries@, 0);
        lemma_credited_prefix(kinds@, 0);
        assert(entries@.take(0) =~= Seq::<TimeEntry>::empty());
        assert(kinds@.take(0) =~= Seq::<LineKind>::empty());
    }
    match (worked, credited) {
        (Some(w), Some(c)) => {
            if w > u64::MAX - c {
                Err(ParseError::TotalOverflow)
            } else {
                Ok(DaySummary { date: *date, total_duration: w + c, has_tentative, has_incomplete })
            }
        },
        _ => Err(ParseError::TotalOverflow),
    }
}

/// An entry whose end is earlier than its start crosses midnight: it lasts
/// a day less the time from its end back to its start.
pub proof fn lemma_overnight_wraparound(entry: TimeEntry)
    requires
        entry.wf(),
        entry.start_time is Some,
        entry.end_time is Some,
        entry.start_time->0.minute_of_day() > entry.end_time->0.minute_of_day(),
    ensures
        entry.minutes() == Some(
            1440 - (entry.start_time->0.minute_of_day() - entry.end_time->0.minute_of_day()),
        ),
        0 < entry.minutes()->0 < 1440,
{
}

/// A day whose lines are all unrecognised is summarised with a total of zero
/// and no flags, whatever the date and the clock.
pub proof fn lemma_unrecognised_day_is_empty(
    kinds: Seq<LineKind>,
    date: Date,
    today: Date,
    now: TimeOfDay,
)
    requires
        forall|i: int| 0 <= i < kinds.len() ==> #[trigger] kinds[i] == LineKind::Ignored,
    ensures
        day_entries(kinds, date == today, now) == Seq::<TimeEntry>::empty(),
        day_result(kinds, date, today, now) == Ok::<DaySummary, ParseError>(
            DaySummary { date, total_duration: 0, has_tentative: false, has_incomplete: false },
        ),
{
    lemma_ignored_scan(kinds);
    lemma_ignored_credit(kinds);
    let entries = day_entries(kinds, date == today, now);
    assert(entries =~= Seq::<TimeEntry>::empty());
    assert(entries_minutes(entries) == 0);
    assert(!has_tentative(entries));
    assert(!has_incomplete(entries, scan(kinds).orphaned_stop, date == today));
}

proof fn lemma_ignored_scan(kinds: Seq<LineKind>)
    requires
        forall|i: int| 0 <= i < kinds.len() ==> #[trigger] kinds[i] == LineKind::Ignored,
    ensures
        scan(kinds) == (Scan { entries: seq![], open: None, orphaned_stop: false }),
    decreases kinds.len(),
{
    if kinds.len() > 0 {
        let init = kinds.drop_last();
        assert forall|i: int| 0 <= i < init.len() implies #[trigger] init[i] == LineKind::Ignored by {
            assert(init[i] == kinds[i]);
        }
        lemma_ignored_scan(init);
        assert(kinds.last() == kinds[kinds.len() - 1]);
    }
}

proof fn lemma_ignored_credit(kinds: Seq<LineKind>)
    requires
        forall|i: int| 0 <= i < kinds.len() ==> #[trigger] kinds[i] == LineKind::Ignored,
    ensures
        credited_minutes(kinds) == 0,
    decreases kinds.len(),
{
    if kinds.len() > 0 {
        let init = kinds.drop_last();
        assert forall|i: int| 0 <= i < init.len() implies #[trigger] init[i] == LineKind::Ignored by {
            assert(init[i] == kinds[i]);
        }
        lemma_ignored_credit(init);
        assert(kinds.last() == kinds[kinds.len() - 1]);
    }
}

/// A start while an entry is open drops that entry: the earlier start
/// contributes nothing, whatever came before it.
pub proof fn lemma_restart_discards_open_entry(
    before: Seq<LineKind>,
    first: TimeOfDay,
    second: TimeOfDay,
)
    ensures
        scan(before.push(LineKind::Start(first)).push(LineKind::Start(second))) == scan(
            before.push(LineKind::Start(second)),
        ),
{
    let once = before.push(LineKind::Start(first));
    let twice = once.push(LineKind::Start(second));
    let direct = before.push(LineKind::Start(second));
    assert(once.drop_last() =~= before);
    assert(twice.drop_last() =~= once);
    assert(direct.drop_last() =~= before);
    assert(scan(once) == step(scan(before), LineKind::Start(first)));
    assert(scan(twice) == step(scan(once), LineKind::Start(second)));
    assert(scan(direct) == step(scan(before), LineKind::Start(second)));
}

/// Every holiday line credits eight hours of its own, however many there
/// are and whatever else the day holds.
pub proof fn lemma_holiday_adds_a_workday(kinds: Seq<LineKind>, is_today: bool, now: TimeOfDay)
    ensures
        day_entries(kinds.push(LineKind::Holiday), is_today, now) == day_entries(kinds, is_today, now),
        day_total(kinds.push(LineKind::Holiday), is_today, now) == day_total(kinds, is_today, now)
            + 480,
{
    assert(kinds.push(LineKind::Holiday).drop_last() =~= kinds);
}

proof fn lemma_at_minute(m: int)
    requires
        0 <= m < 1440,
    ensures
        TimeOfDay::at_minute(m).wf(),
        TimeOfDay::at_minute(m).minute_of_day() == m,
{
    assert(0 <= m / 60 < 24 && 0 <= m % 60 < 60 && (m / 60) * 60 + m % 60 == m) by (nonlinear_arith)
        requires
            0 <= m < 1440,
    ;
}

/// On the current day, a lone start with no stop, when the clock is more than
/// eight hours past it, ends exactly eight hours after the start: the day
/// counts eight hours, is tentative and is not incomplete.
pub proof fn lemma_tentative_capped_at_a_workday(start: TimeOfDay, now: TimeOfDay)
    requires
        start.wf(),
        now.wf(),
        minutes_between(start, now) > 480,
    ensures
        ({
            let kinds = seq![LineKind::Start(start)];
            let entries = day_entries(kinds, true, now);
            &&& entries == seq![
                TimeEntry {
                    start_time: Some(start),
                    end_time: Some(TimeOfDay::at_minute((start.minute_of_day() + 480) % 1440)),
                    tentative: true,
                },
            ]
            &&& entries[0].minutes() == Some(480int)
            &&& day_total(kinds, true, now) == 480
            &&& has_tentative(entries)
            &&& !has_incomplete(entries, scan(kinds).orphaned_stop, true)
        }),
{
    let kinds = seq![LineKind::Start(start)];
    assert(kinds.drop_last() =~= Seq::<LineKind>::empty());
    assert(kinds.last() == LineKind::Start(start));
    assert(credited_minutes(kinds.drop_last()) == 0);
    let end_minute = (start.minute_of_day() + 480) % 1440;
    lemma_at_minute(end_minute);
    assert(scan(kinds.drop_last()) == Scan { entries: seq![], open: None, orphaned_stop: false });
    assert(scan(kinds) == Scan { entries: seq![], open: Some(start), orphaned_stop: false });
    let finished = finished_entries(scan(kinds));
    assert(finished =~= seq![open_entry(start)]);
    assert(finished.last().is_open());
    assert(inferred_end(start, now) == TimeOfDay::at_minute(end_minute));
    let entries = day_entries(kinds, true, now);
    assert(entries =~= seq![
        TimeEntry {
            start_time: Some(start),
            end_time: Some(TimeOfDay::at_minute(end_minute)),
            tentative: true,
        },
    ]);
    assert(minutes_between(start, TimeOfDay::at_minute(end_minute)) == 480);
    assert(entries.drop_last() =~= Seq::<TimeEntry>::empty());
    assert(entries[0].minutes() == Some(480int));
    assert(entries_minutes(entries.drop_last()) == 0);
    assert(entries.last() == entries[0]);
    assert(entries_minutes(entries) == 480);
    assert(credited_minutes(kinds) == 0);
    assert(day_total(kinds, true, now) == 480);
    assert(entries[0].tentative);
    assert(has_tentative(entries));
    assert(!entries[0].is_open());
    assert(!has_incomplete(entries, scan(kinds).orphaned_stop, true));
}

} // verus!
