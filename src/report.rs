//! Text renderings of durations and the selections the reports print.

use crate::clock::{monday_of_week, week_monday, Date};
use crate::day::DaySummary;
use crate::summary::WeekSummary;
use vstd::prelude::*;

verus! {

pub open spec fn digit_char(d: int) -> char {
    seq!['0', '1', '2', '3', '4', '5', '6', '7', '8', '9'][d]
}

/// The decimal numeral of `n`, without leading zeros.
pub open spec fn decimal(n: nat) -> Seq<char>
    decreases n,
{
    if n < 10 {
        seq![digit_char(n as int)]
    } else {
        decimal(n / 10).push(digit_char((n % 10) as int))
    }
}

/// `minutes` as hours and two-digit minutes: `8h 05m`.
pub open spec fn duration_text(minutes: nat) -> Seq<char> {
    decimal(minutes / 60) + seq!['h', ' '] + seq![
        digit_char(((minutes % 60) / 10) as int),
        digit_char((minutes % 10) as int),
    ] + seq!['m']
}

/// The markers for a day: `*` when tentative, `E!` when incomplete.
pub open spec fn flags_text(has_tentative: bool, has_incomplete: bool) -> Seq<char> {
    if has_tentative && has_incomplete {
        seq!['*', ' ', 'E', '!']
    } else if has_tentative {
        seq!['*']
    } else if has_incomplete {
        seq!['E', '!']
    } else {
        seq![]
    }
}

/// A duration followed, after a space, by the day's markers if it has any.
pub open spec fn duration_with_flags_text(
    minutes: nat,
    has_tentative: bool,
    has_incomplete: bool,
) -> Seq<char> {
    if has_tentative || has_incomplete {
        duration_text(minutes) + seq![' '] + flags_text(has_tentative, has_incomplete)
    } else {
        duration_text(minutes)
    }
}

/// Relies on std's `FromIterator<char> for String`: the string of exactly
/// these characters, in order.
#[verifier::external_body]
fn string_from_chars(chars: &Vec<char>) -> (r: String)
    ensures
        r@ == chars@,
{
    chars.iter().collect()
}

fn digit(d: u64) -> (c: char)
    requires
        d < 10,
    ensures
        c == digit_char(d as int),
{
    let digits = ['0', '1', '2', '3', '4', '5', '6', '7', '8', '9'];
    assert(digits@ =~= seq!['0', '1', '2', '3', '4', '5', '6', '7', '8', '9']);
    digits[d as usize]
}

fn push_decimal(out: &mut Vec<char>, n: u64)
    ensures
        final(out)@ == old(out)@ + decimal(n as nat),
    decreases n,
{
    if n >= 10 {
        push_decimal(out, n / 10);
    }
    out.push(digit(n % 10));
    proof {
        if n >= 10 {
            assert(decimal(n as nat) == decimal((n / 10) as nat).push(digit_char((n % 10) as int)));
        }
    }
    assert(out@ =~= old(out)@ + decimal(n as nat));
}

fn push_duration(out: &mut Vec<char>, minutes: u64)
    ensures
        final(out)@ == old(out)@ + duration_text(minutes as nat),
{
    push_decimal(out, minutes / 60);
    out.push('h');
    out.push(' ');
    out.push(digit((minutes % 60) / 10));
    out.push(digit(minutes % 10));
    out.push('m');
    assert(((minutes % 60) % 10) == minutes % 10) by (nonlinear_arith);
    assert(out@ =~= old(out)@ + duration_text(minutes as nat));
}

/// Renders minutes as hours and two-digit minutes: `8h 30m`.
pub fn format_duration(minutes: u64) -> (r: String)
    ensures
        r@ == duration_text(minutes as nat),
{
    let mut out: Vec<char> = Vec::new();
    push_duration(&mut out, minutes);
    assert(out@ =~= duration_text(minutes as nat));
    string_from_chars(&out)
}

/// Renders minutes with the day's markers: `5h 30m * E!`.
pub fn format_duration_with_flags(minutes: u64, has_tentative: bool, has_incomplete: bool) -> (r:
    String)
    ensures
        r@ == duration_with_flags_text(minutes as nat, has_tentative, has_incomplete),
{
    let mut out: Vec<char> = Vec::new();
    push_duration(&mut out, minutes);
    let ghost base = out@;
    if has_tentative || has_incomplete {
        out.push(' ');
        if has_tentative {
            out.push('*');
        }
        if has_incomplete {
            if has_tentative {
                out.push(' ');
            }
            out.push('E');
            out.push('!');
        }
    }
    assert(out@ =~= duration_with_flags_text(minutes as nat, has_tentative, has_incomplete));
    string_from_chars(&out)
}

/// The English name of a month numbered from 1; 0 counts as January, and any
/// number past 12 is unknown.
pub open spec fn month_name(month: u32) -> Seq<char> {
    if month <= 1 {
        "January"@
    } else if month == 2 {
        "February"@
    } else if month == 3 {
        "March"@
    } else if month == 4 {
        "April"@
    } else if month == 5 {
        "May"@
    } else if month == 6 {
        "June"@
    } else if month == 7 {
        "July"@
    } else if month == 8 {
        "August"@
    } else if month == 9 {
        "September"@
    } else if month == 10 {
        "October"@
    } else if month == 11 {
        "November"@
    } else if month == 12 {
        "December"@
    } else {
        "Unknown"@
    }
}

/// The English name of a month numbered from 1.
pub fn get_month_name(month: u32) -> (r: &'static str)
    ensures
        r@ == month_name(month),
{
    if month <= 1 {
        "January"
    } else if month == 2 {
        "February"
    } else if month == 3 {
        "March"
    } else if month == 4 {
        "April"
    } else if month == 5 {
        "May"
    } else if month == 6 {
        "June"
    } else if month == 7 {
        "July"
    } else if month == 8 {
        "August"
    } else if month == 9 {
        "September"
    } else if month == 10 {
        "October"
    } else if month == 11 {
        "November"
    } else if month == 12 {
        "December"
    } else {
        "Unknown"
    }
}

/// The position of the first summary of `date`, if there is one.
pub fn day_for_date(summaries: &Vec<DaySummary>, date: &Date) -> (r: Option<usize>)
    ensures
        match r {
            Some(i) => i < summaries.len() && summaries@[i as int].date == *date && forall|j: int|
                0 <= j < i ==> (#[trigger] summaries@[j]).date != *date,
            None => forall|j: int| 0 <= j < summaries.len() ==> (#[trigger] summaries@[j]).date != *date,
        },
{
    let mut i: usize = 0;
    while i < summaries.len()
        invariant
            0 <= i <= summaries.len(),
            forall|j: int| 0 <= j < i ==> (#[trigger] summaries@[j]).date != *date,
        decreases summaries.len() - i,
    {
        if summaries[i].date == *date {
            return Some(i);
        }
        i += 1;
    }
    None
}

/// The position of the first week that starts on the Monday of `date`'s
/// week, if there is one.
pub fn week_for_date(weeks: &Vec<WeekSummary>, date: &Date) -> (r: Option<usize>)
    requires
        date.has_week_start(),
    ensures
        match r {
            Some(i) => i < weeks.len() && weeks@[i as int].week_start == week_monday(*date)
                && forall|j: int|
                0 <= j < i ==> (#[trigger] weeks@[j]).week_start != week_monday(*date),
            None => forall|j: int|
                0 <= j < weeks.len() ==> (#[trigger] weeks@[j]).week_start != week_monday(*date),
        },
{
    let monday = monday_of_week(*date);
    let mut i: usize = 0;
    while i < weeks.len()
        invariant
            0 <= i <= weeks.len(),
            monday == week_monday(*date),
            forall|j: int| 0 <= j < i ==> (#[trigger] weeks@[j]).week_start != monday,
        decreases weeks.len() - i,
    {
        if weeks[i].week_start == monday {
            return Some(i);
        }
        i += 1;
    }
    None
}

/// Whether a day belongs in the daily report: it has work or a problem, and
/// it is not before `since`.
pub open spec fn reportable(day: DaySummary, since: Date) -> bool {
    (day.total_duration > 0 || day.has_incomplete) && !day.date.precedes(since)
}

pub open spec fn reportable_days(days: Seq<DaySummary>, since: Date) -> Seq<DaySummary>
    decreases days.len(),
{
    if days.len() == 0 {
        seq![]
    } else if reportable(days.last(), since) {
        reportable_days(days.drop_last(), since).push(days.last())
    } else {
        reportable_days(days.drop_last(), since)
    }
}

/// The reportable days of the weeks, week by week.
pub open spec fn reportable_in_weeks(weeks: Seq<WeekSummary>, since: Date) -> Seq<DaySummary>
    decreases weeks.len(),
{
    if weeks.len() == 0 {
        seq![]
    } else {
        reportable_in_weeks(weeks.drop_last(), since) + reportable_days(weeks.last().days@, since)
    }
}

/// The days the daily report lists: those with work or a problem, from
/// `since` on, in the weeks' order.
pub fn days_to_report(weeks: &Vec<WeekSummary>, since: &Date) -> (r: Vec<DaySummary>)
    ensures
        r@ == reportable_in_weeks(weeks@, *since),
{
    let mut r: Vec<DaySummary> = Vec::new();
    let mut w: usize = 0;
    while w < weeks.len()
        invariant
            0 <= w <= weeks.len(),
            r@ == reportable_in_weeks(weeks@.take(w as int), *since),
        decreases weeks.len() - w,
    {
        assert(weeks@.take(w + 1).drop_last() =~= weeks@.take(w as int));
        let days = &weeks[w].days;
        let ghost before = r@;
        let mut d: usize = 0;
        assert(r@ =~= before + reportable_days(days@.take(0), *since));
        while d < days.len()
            invariant
                0 <= d <= days.len(),
                r@ == before + reportable_days(days@.take(d as int), *since),
            decreases days.len() - d,
        {
            assert(days@.take(d + 1).drop_last() =~= days@.take(d as int));
            let day = days[d];
            if (day.total_duration > 0 || day.has_incomplete) && !day.date.is_before(since) {
                r.push(day);
            }
            assert(r@ =~= before + reportable_days(days@.take(d + 1), *since));
            d += 1;
        }
        assert(days@.take(d as int) =~= days@);
        w += 1;
    }
    assert(weeks@.take(w as int) =~= weeks@);
    r
}

} // verus!
