//! Recognising start, stop, explicit-duration and holiday lines.

use crate::clock::TimeOfDay;
use crate::text::{char_rows, numeral_u32, parse_u32};
use vstd::prelude::*;

verus! {

/// "start work 9:00", "Started working at 09:00", in any letter case.
pub const START_PATTERN: &'static str = "(?i)start(?:ed)?\\s+work(?:ing)?(?:\\s+at)?\\s+(\\d{1,2}):(\\d{2})";

/// "stop work 17:30", "Stopped working at 17:30", in any letter case.
pub const STOP_PATTERN: &'static str = "(?i)stop(?:ped)?\\s+work(?:ing)?(?:\\s+at)?\\s+(\\d{1,2}):(\\d{2})";

/// "work time 90 minutes", "Work time 1 hour", in any letter case.
pub const WORK_TIME_PATTERN: &'static str = "(?i)work\\s+time\\s+(\\d+)\\s+(minutes?|hours?)";

/// A holiday phrase anywhere in the line.
pub const HOLIDAY_PATTERN: &'static str = "(?i)(stat(?:utory)?\\s+holiday|pto|holiday\\s+day)";

/// Minutes credited for one holiday line.
pub const HOLIDAY_MINUTES: u64 = 480;

#[verifier::external_type_specification]
#[verifier::external_body]
pub struct ExRegexError(regex::Error);

/// Whether regex's `Regex::new` accepts a pattern.
pub uninterp spec fn pattern_compiles(pattern: Seq<char>) -> bool;

/// The groups of the leftmost-first match of `pattern` in `text`, as regex's
/// `Regex::captures` reports them: group 0 is the whole match, and a group
/// that took no part in it is `None`.
pub uninterp spec fn captures_in(pattern: Seq<char>, text: Seq<char>) -> Option<
    Seq<Option<Seq<char>>>,
>;

/// The groups of a match, or no match.
pub type Groups = Option<Vec<Option<Vec<char>>>>;

pub open spec fn groups_view(g: Groups) -> Option<Seq<Option<Seq<char>>>> {
    match g {
        Some(groups) => Some(
            groups@.map_values(
                |group: Option<Vec<char>>|
                    match group {
                        Some(text) => Some(text@),
                        None => None,
                    },
            ),
        ),
        None => None,
    }
}

/// Relies on regex's `Regex::new`: it returns `Ok` exactly when the pattern
/// compiles.
#[verifier::external_body]
pub(crate) fn check_pattern(pattern: &str) -> (r: Result<(), regex::Error>)
    ensures
        r is Ok <==> pattern_compiles(pattern@),
{
    regex::Regex::new(pattern).map(|_| ())
}

/// Relies on regex's `Regex::new` (which succeeds, by `requires`) and on
/// `Regex::captures` with `Captures::iter`: for each line, the groups of the
/// leftmost-first match in it.
#[verifier::external_body]
pub(crate) fn captures_per_line(pattern: &str, lines: &Vec<Vec<char>>) -> (r: Vec<Groups>)
    requires
        pattern_compiles(pattern@),
    ensures
        r.len() == lines.len(),
        forall|i: int|
            0 <= i < lines.len() ==> groups_view(#[trigger] r[i]) == captures_in(
                pattern@,
                lines[i]@,
            ),
{
    let re = regex::Regex::new(pattern).unwrap();
    lines.iter().map(|line| {
        let text: String = line.iter().collect();
        re.captures(&text).map(
            |caps| caps.iter().map(|g| g.map(|g| g.as_str().chars().collect())).collect(),
        )
    }).collect()
}

/// What one line of a log declares.
#[derive(Clone, Copy, Debug, PartialEq, Eq, Structural)]
pub enum LineKind {
    /// Work began at this time.
    Start(TimeOfDay),
    /// Work stopped at this time.
    Stop(TimeOfDay),
    /// This many minutes of work, stated outright.
    WorkTime(u64),
    /// A holiday, credited as a standard workday.
    Holiday,
    /// Nothing that counts.
    Ignored,
}

pub open spec fn group(m: Seq<Option<Seq<char>>>, i: int) -> Option<Seq<char>> {
    if 0 <= i < m.len() {
        m[i]
    } else {
        None
    }
}

/// The clock reading in groups 1 (hour) and 2 (minute) of a match, if they
/// form a real time of day.
pub open spec fn clock_reading(m: Seq<Option<Seq<char>>>) -> Option<TimeOfDay> {
    match (group(m, 1), group(m, 2)) {
        (Some(h), Some(mi)) => match (numeral_u32(h), numeral_u32(mi)) {
            (Some(hour), Some(minute)) => if hour < 24 && minute < 60 {
                Some(TimeOfDay { hour, minute })
            } else {
                None
            },
            _ => None,
        },
        _ => None,
    }
}

/// Whether `s` begins with the lower-case ASCII word `lower`, whose upper-case
/// form is `upper`, in any mix of cases.
pub open spec fn starts_with_word(s: Seq<char>, lower: Seq<char>, upper: Seq<char>) -> bool {
    &&& s.len() >= lower.len()
    &&& forall|i: int| 0 <= i < lower.len() ==> s[i] == lower[i] || s[i] == upper[i]
}

/// Minutes per unit of an explicit duration: 60 for an hour, 1 for a minute,
/// and nothing for any other word.
pub open spec fn unit_minutes(unit: Seq<char>) -> int {
    if starts_with_word(unit, seq!['h', 'o', 'u', 'r'], seq!['H', 'O', 'U', 'R']) {
        60
    } else if starts_with_word(
        unit,
        seq!['m', 'i', 'n', 'u', 't', 'e'],
        seq!['M', 'I', 'N', 'U', 'T', 'E'],
    ) {
        1
    } else {
        0
    }
}

/// The minutes stated by groups 1 (amount) and 2 (unit) of a match.
pub open spec fn stated_minutes(m: Seq<Option<Seq<char>>>) -> Option<u64> {
    match (group(m, 1), group(m, 2)) {
        (Some(amount), Some(unit)) => match numeral_u32(amount) {
            Some(n) => Some((n * unit_minutes(unit)) as u64),
            None => None,
        },
        _ => None,
    }
}

/// What a line declares, given the matches of the four patterns in it: the
/// first pattern that matches decides, and a match whose numbers do not read
/// as a time or an amount makes the line count for nothing.
pub open spec fn kind_from(
    start: Option<Seq<Option<Seq<char>>>>,
    stop: Option<Seq<Option<Seq<char>>>>,
    work: Option<Seq<Option<Seq<char>>>>,
    holiday: Option<Seq<Option<Seq<char>>>>,
) -> LineKind {
    match start {
        Some(m) => match clock_reading(m) {
            Some(t) => LineKind::Start(t),
            None => LineKind::Ignored,
        },
        None => match stop {
            Some(m) => match clock_reading(m) {
                Some(t) => LineKind::Stop(t),
                None => LineKind::Ignored,
            },
            None => match work {
                Some(m) => match stated_minutes(m) {
                    Some(minutes) => LineKind::WorkTime(minutes),
                    None => LineKind::Ignored,
                },
                None => if holiday is Some {
                    LineKind::Holiday
                } else {
                    LineKind::Ignored
                },
            },
        },
    }
}

/// What one line of a log declares.
pub open spec fn kind_of_line(line: Seq<char>) -> LineKind {
    kind_from(
        captures_in(START_PATTERN@, line),
        captures_in(STOP_PATTERN@, line),
        captures_in(WORK_TIME_PATTERN@, line),
        captures_in(HOLIDAY_PATTERN@, line),
    )
}

pub open spec fn kinds_of_lines(lines: Seq<Seq<char>>) -> Seq<LineKind> {
    lines.map_values(|line: Seq<char>| kind_of_line(line))
}

/// Whether all four patterns compile.
pub open spec fn patterns_compile() -> bool {
    &&& pattern_compiles(START_PATTERN@)
    &&& pattern_compiles(STOP_PATTERN@)
    &&& pattern_compiles(WORK_TIME_PATTERN@)
    &&& pattern_compiles(HOLIDAY_PATTERN@)
}

fn group_at(groups: &Vec<Option<Vec<char>>>, i: usize) -> (r: Option<&Vec<char>>)
    ensures
        match r {
            Some(text) => group(groups_view(Some(*groups))->0, i as int) == Some(text@),
            None => group(groups_view(Some(*groups))->0, i as int) is None,
        },
{
    if i < groups.len() {
        match &groups[i] {
            Some(text) => Some(text),
            None => None,
        }
    } else {
        None
    }
}

/// Reads the clock time in groups 1 and 2 of a match.
pub fn clock_from_groups(groups: &Vec<Option<Vec<char>>>) -> (r: Option<TimeOfDay>)
    ensures
        r == clock_reading(groups_view(Some(*groups))->0),
{
    let h = group_at(groups, 1);
    let m = group_at(groups, 2);
    match (h, m) {
        (Some(h), Some(m)) => match (parse_u32(h), parse_u32(m)) {
            (Some(hour), Some(minute)) => TimeOfDay::from_hm(hour, minute),
            _ => None,
        },
        _ => None,
    }
}

fn starts_with_ci(s: &Vec<char>, lower: &[char], upper: &[char]) -> (r: bool)
    requires
        lower@.len() == upper@.len(),
    ensures
        r == starts_with_word(s@, lower@, upper@),
{
    if s.len() < lower.len() {
        return false;
    }
    let mut i: usize = 0;
    while i < lower.len()
        invariant
            s@.len() >= lower@.len() == upper@.len(),
            0 <= i <= lower@.len(),
            forall|j: int| 0 <= j < i ==> s@[j] == lower@[j] || s@[j] == upper@[j],
        decreases lower@.len() - i,
    {
        if s[i] != lower[i] && s[i] != upper[i] {
            return false;
        }
        i += 1;
    }
    true
}

/// Reads the explicit duration in groups 1 (amount) and 2 (unit) of a match.
pub fn minutes_from_groups(groups: &Vec<Option<Vec<char>>>) -> (r: Option<u64>)
    ensures
        r == stated_minutes(groups_view(Some(*groups))->0),
{
    let amount = group_at(groups, 1);
    let unit = group_at(groups, 2);
    match (amount, unit) {
        (Some(amount), Some(unit)) => match parse_u32(amount) {
            Some(n) => {
                let hour_lower = ['h', 'o', 'u', 'r'];
                let hour_upper = ['H', 'O', 'U', 'R'];
                let minute_lower = ['m', 'i', 'n', 'u', 't', 'e'];
                let minute_upper = ['M', 'I', 'N', 'U', 'T', 'E'];
                assert(hour_lower@ =~= seq!['h', 'o', 'u', 'r']);
                assert(hour_upper@ =~= seq!['H', 'O', 'U', 'R']);
                assert(minute_lower@ =~= seq!['m', 'i', 'n', 'u', 't', 'e']);
                assert(minute_upper@ =~= seq!['M', 'I', 'N', 'U', 'T', 'E']);
                if starts_with_ci(unit, &hour_lower, &hour_upper) {
                    Some(n as u64 * 60)
                } else if starts_with_ci(unit, &minute_lower, &minute_upper) {
                    Some(n as u64)
                } else {
                    Some(0)
                }
            },
            None => None,
        },
        _ => None,
    }
}

/// What a line declares, given the matches of the start, stop, work-time and
/// holiday patterns in it.
pub fn kind_from_groups(start: &Groups, stop: &Groups, work: &Groups, holiday: &Groups) -> (r:
    LineKind)
    ensures
        r == kind_from(
            groups_view(*start),
            groups_view(*stop),
            groups_view(*work),
            groups_view(*holiday),
        ),
{
    match start {
        Some(m) => match clock_from_groups(m) {
            Some(t) => LineKind::Start(t),
            None => LineKind::Ignored,
        },
        None => match stop {
            Some(m) => match clock_from_groups(m) {
                Some(t) => LineKind::Stop(t),
                None => LineKind::Ignored,
            },
            None => match work {
                Some(m) => match minutes_from_groups(m) {
                    Some(minutes) => LineKind::WorkTime(minutes),
                    None => LineKind::Ignored,
                },
                None => if holiday.is_some() {
                    LineKind::Holiday
                } else {
                    LineKind::Ignored
                },
            },
        },
    }
}

/// Classifies each line.
pub(crate) fn classify_lines(lines: &Vec<Vec<char>>) -> (r: Vec<LineKind>)
    requires
        patterns_compile(),
    ensures
        r@ == kinds_of_lines(char_rows(lines@)),
{
    let starts = captures_per_line(START_PATTERN, lines);
    let stops = captures_per_line(STOP_PATTERN, lines);
    let works = captures_per_line(WORK_TIME_PATTERN, lines);
    let holidays = captures_per_line(HOLIDAY_PATTERN, lines);
    let mut r: Vec<LineKind> = Vec::new();
    let mut i: usize = 0;
    while i < lines.len()
        invariant
            0 <= i <= lines.len(),
            starts.len() == lines.len(),
            stops.len() == lines.len(),
            works.len() == lines.len(),
            holidays.len() == lines.len(),
            forall|j: int|
                0 <= j < lines.len() ==> groups_view(#[trigger] starts[j]) == captures_in(
                    START_PATTERN@,
                    lines[j]@,
                ),
            forall|j: int|
                0 <= j < lines.len() ==> groups_view(#[trigger] stops[j]) == captures_in(
                    STOP_PATTERN@,
                    lines[j]@,
                ),
            forall|j: int|
                0 <= j < lines.len() ==> groups_view(#[trigger] works[j]) == captures_in(
                    WORK_TIME_PATTERN@,
                    lines[j]@,
                ),
            forall|j: int|
                0 <= j < lines.len() ==> groups_view(#[trigger] holidays[j]) == captures_in(
                    HOLIDAY_PATTERN@,
                    lines[j]@,
                ),
            r@ =~= kinds_of_lines(char_rows(lines@)).take(i as int),
        decreases lines.len() - i,
    {
        let kind = kind_from_groups(&starts[i], &stops[i], &works[i], &holidays[i]);
        r.push(kind);
        i += 1;
    }
    r
}

} // verus!
