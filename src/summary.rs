//! Rolling day summaries up into weeks and months.

use crate::clock::{monday_of_week, week_monday, Date};
use crate::day::DaySummary;
use crate::parser::TimesheetParser;
use vstd::prelude::*;
use vstd::seq_lib::{to_multiset_build, to_multiset_insert};

verus! {

/// A Monday-starting week and the days of it that have data.
#[derive(Debug)]
pub struct WeekSummary {
    pub week_start: Date,
    /// Minutes of work in the week.
    pub total_duration: u64,
    /// The week's days, in date order.
    pub days: Vec<DaySummary>,
}

/// The minutes of one calendar month.
#[derive(Clone, Copy, Debug)]
pub struct MonthlySummary {
    pub year: i32,
    pub month: u32,
    /// Minutes of work in the month.
    pub total_duration: u64,
}

/// Days in date order; days of equal date may come in any order.
pub open spec fn sorted_by_date(s: Seq<DaySummary>) -> bool {
    forall|i: int, j: int| 0 <= i < j < s.len() ==> !s[j].date.precedes(s[i].date)
}

/// The minutes of all the given days.
pub open spec fn total_minutes(s: Seq<DaySummary>) -> int
    decreases s.len(),
{
    if s.len() == 0 {
        0
    } else {
        total_minutes(s.drop_last()) + s.last().total_duration
    }
}

/// The days whose week starts on `monday`, in their given order.
pub open spec fn week_days(s: Seq<DaySummary>, monday: Date) -> Seq<DaySummary>
    decreases s.len(),
{
    if s.len() == 0 {
        seq![]
    } else if week_monday(s.last().date) == monday {
        week_days(s.drop_last(), monday).push(s.last())
    } else {
        week_days(s.drop_last(), monday)
    }
}

/// The minutes of the days that fall in `month` of `year`.
pub open spec fn month_minutes(s: Seq<DaySummary>, year: int, month: int) -> int
    decreases s.len(),
{
    if s.len() == 0 {
        0
    } else if s.last().date.year == year && s.last().date.month == month {
        month_minutes(s.drop_last(), year, month) + s.last().total_duration
    } else {
        month_minutes(s.drop_last(), year, month)
    }
}

/// Strict order of (year, month) keys.
pub open spec fn month_before(y1: int, m1: int, y2: int, m2: int) -> bool {
    y1 < y2 || (y1 == y2 && m1 < m2)
}

proof fn lemma_total_prefix(s: Seq<DaySummary>, k: int)
    requires
        0 <= k <= s.len(),
    ensures
        0 <= total_minutes(s.take(k)) <= total_minutes(s),
    decreases s.len(),
{
    if s.len() == 0 {
        assert(s.take(k) =~= s);
    } else {
        let init = s.drop_last();
        lemma_total_prefix(init, init.len() as int);
        assert(init.take(init.len() as int) =~= init);
        if k < s.len() {
            assert(init.take(k) =~= s.take(k));
            lemma_total_prefix(init, k);
        } else {
            assert(s.take(k) =~= s);
        }
    }
}

proof fn lemma_week_days_bounded(s: Seq<DaySummary>, monday: Date)
    ensures
        0 <= total_minutes(week_days(s, monday)) <= total_minutes(s),
    decreases s.len(),
{
    if s.len() > 0 {
        lemma_week_days_bounded(s.drop_last(), monday);
        lemma_total_prefix(s.drop_last(), 0);
        assert(s.drop_last().take(0) =~= Seq::<DaySummary>::empty());
        let w = week_days(s.drop_last(), monday);
        assert(w.push(s.last()).drop_last() =~= w);
    }
}

proof fn lemma_month_bounded(s: Seq<DaySummary>, year: int, month: int)
    ensures
        0 <= month_minutes(s, year, month) <= total_minutes(s),
    decreases s.len(),
{
    if s.len() > 0 {
        lemma_month_bounded(s.drop_last(), year, month);
    }
}

/// Inserts a day after every day that does not come later, keeping the order.
pub fn insert_by_date(days: &mut Vec<DaySummary>, day: DaySummary)
    requires
        sorted_by_date(old(days)@),
    ensures
        sorted_by_date(final(days)@),
        final(days)@.to_multiset() == old(days)@.to_multiset().insert(day),
{
    let mut p: usize = 0;
    while p < days.len() && !day.date.is_before(&days[p].date)
        invariant
            0 <= p <= days.len(),
            days@ == old(days)@,
            forall|i: int| 0 <= i < p ==> !day.date.precedes(#[trigger] days@[i].date),
        decreases days.len() - p,
    {
        p += 1;
    }
    let ghost before = days@;
    days.insert(p, day);
    proof {
        to_multiset_insert(before, p as int, day);
        assert forall|i: int, j: int| 0 <= i < j < days@.len() implies !days@[j].date.precedes(
            days@[i].date,
        ) by {
            if j < p {
                assert(days@[i] == before[i] && days@[j] == before[j]);
            } else if j == p {
                assert(days@[i] == before[i]);
            } else if i < p {
                assert(days@[i] == before[i] && days@[j] == before[j - 1]);
            } else if i == p {
                assert(days@[j] == before[j - 1]);
                assert(!before[j - 1].date.precedes(before[p as int].date));
            } else {
                assert(days@[i] == before[i - 1] && days@[j] == before[j - 1]);
            }
        }
    }
}

/// The days in date order.
pub fn sort_by_date(summaries: &Vec<DaySummary>) -> (r: Vec<DaySummary>)
    ensures
        sorted_by_date(r@),
        r@.to_multiset() == summaries@.to_multiset(),
{
    let mut r: Vec<DaySummary> = Vec::new();
    let mut i: usize = 0;
    assert(r@ =~= summaries@.take(0));
    while i < summaries.len()
        invariant
            0 <= i <= summaries.len(),
            sorted_by_date(r@),
            r@.to_multiset() == summaries@.take(i as int).to_multiset(),
        decreases summaries.len() - i,
    {
        proof {
            assert(summaries@.take(i + 1) =~= summaries@.take(i as int).push(summaries@[i as int]));
            to_multiset_build(summaries@.take(i as int), summaries@[i as int]);
        }
        insert_by_date(&mut r, summaries[i]);
        i += 1;
    }
    assert(summaries@.take(i as int) =~= summaries@);
    r
}

/// Dates in strictly increasing order.
pub open spec fn strictly_increasing(s: Seq<Date>) -> bool {
    forall|i: int, j: int| 0 <= i < j < s.len() ==> s[i].precedes(s[j])
}

/// Adds a date to a strictly increasing list unless it is already there.
fn insert_distinct(dates: &mut Vec<Date>, date: Date)
    requires
        strictly_increasing(old(dates)@),
    ensures
        strictly_increasing(final(dates)@),
        forall|d: Date| final(dates)@.contains(d) <==> (old(dates)@.contains(d) || d == date),
{
    let mut p: usize = 0;
    while p < dates.len() && dates[p].is_before(&date)
        invariant
            0 <= p <= dates.len(),
            dates@ == old(dates)@,
            forall|i: int| 0 <= i < p ==> (#[trigger] dates@[i]).precedes(date),
        decreases dates.len() - p,
    {
        p += 1;
    }
    if p < dates.len() && dates[p] == date {
        assert(dates@[p as int] == date);
        assert(dates@.contains(date));
        assert(forall|d: Date| dates@.contains(d) <==> (old(dates)@.contains(d) || d == date));
        return;
    }
    let ghost before = dates@;
    dates.insert(p, date);
    proof {
        assert forall|i: int, j: int| 0 <= i < j < dates@.len() implies dates@[i].precedes(
            dates@[j],
        ) by {
            if j < p {
                assert(dates@[i] == before[i] && dates@[j] == before[j]);
            } else if j == p {
                assert(dates@[i] == before[i]);
                assert(dates@[j] == date);
            } else if i < p {
                assert(dates@[i] == before[i] && dates@[j] == before[j - 1]);
            } else if i == p {
                assert(dates@[i] == date);
                assert(dates@[j] == before[j - 1]);
                assert(!before[p as int].precedes(date));
                assert(before[p as int] != date);
                assert(date.precedes(before[p as int]));
                if j - 1 > p {
                    assert(before[p as int].precedes(before[j - 1]));
                }
            } else {
                assert(dates@[i] == before[i - 1] && dates@[j] == before[j - 1]);
            }
        }
        assert forall|d: Date| dates@.contains(d) <==> (before.contains(d) || d == date) by {
            if before.contains(d) {
                let i = choose|i: int| 0 <= i < before.len() && before[i] == d;
                if i < p {
                    assert(dates@[i] == d);
                } else {
                    assert(dates@[i + 1] == d);
                }
            }
            if d == date {
                assert(dates@[p as int] == d);
            }
            if dates@.contains(d) {
                let i = choose|i: int| 0 <= i < dates@.len() && dates@[i] == d;
                if i < p {
                    assert(before[i] == d);
                } else if i > p {
                    assert(before[i - 1] == d);
                }
            }
        }
        assert(before == old(dates)@);
        assert(forall|d: Date| dates@.contains(d) <==> (old(dates)@.contains(d) || d == date));
    }
}

pub open spec fn day_month(d: DaySummary) -> (int, int) {
    (d.date.year as int, d.date.month as int)
}

pub open spec fn summary_month(m: MonthlySummary) -> (int, int) {
    (m.year as int, m.month as int)
}

pub open spec fn month_keys(months: Seq<MonthlySummary>) -> Seq<(int, int)> {
    months.map_values(|m: MonthlySummary| summary_month(m))
}

proof fn lemma_insert_contains<A>(s: Seq<A>, p: int, x: A)
    requires
        0 <= p <= s.len(),
    ensures
        forall|d: A| #[trigger] s.insert(p, x).contains(d) <==> (s.contains(d) || d == x),
{
    let t = s.insert(p, x);
    assert forall|d: A| #[trigger] t.contains(d) <==> (s.contains(d) || d == x) by {
        if s.contains(d) {
            let i = choose|i: int| 0 <= i < s.len() && s[i] == d;
            if i < p {
                assert(t[i] == d);
            } else {
                assert(t[i + 1] == d);
            }
        }
        if d == x {
            assert(t[p] == d);
        }
        if t.contains(d) {
            let i = choose|i: int| 0 <= i < t.len() && t[i] == d;
            if i < p {
                assert(s[i] == d);
            } else if i > p {
                assert(s[i - 1] == d);
            }
        }
    }
}

proof fn lemma_month_absent(s: Seq<DaySummary>, year: int, month: int)
    requires
        forall|j: int| 0 <= j < s.len() ==> day_month(#[trigger] s[j]) != (year, month),
    ensures
        month_minutes(s, year, month) == 0,
    decreases s.len(),
{
    if s.len() > 0 {
        assert(day_month(s[s.len() - 1]) != (year, month));
        lemma_month_absent(s.drop_last(), year, month);
    }
}

impl TimesheetParser {
    /// Groups days into Monday-starting weeks, in week order. Each week holds its
    /// days in date order, and its total is the sum of theirs.
    pub fn group_by_week(summaries: &Vec<DaySummary>) -> (r: Vec<WeekSummary>)
        requires
            forall|i: int| 0 <= i < summaries.len() ==> (#[trigger] summaries@[i]).date.has_week_start(),
            total_minutes(summaries@) <= u64::MAX,
        ensures
            forall|i: int, j: int|
                0 <= i < j < r.len() ==> r@[i].week_start.precedes(r@[j].week_start),
            forall|i: int|
                0 <= i < r.len() ==> exists|k: int|
                    0 <= k < summaries.len() && (#[trigger] r@[i]).week_start == week_monday(
                        #[trigger] summaries@[k].date,
                    ),
            forall|k: int|
                0 <= k < summaries.len() ==> exists|i: int|
                    0 <= i < r.len() && (#[trigger] r@[i]).week_start == week_monday(
                        #[trigger] summaries@[k].date,
                    ),
            forall|i: int|
                0 <= i < r.len() ==> {
                    let week = #[trigger] r@[i];
                    &&& sorted_by_date(week.days@)
                    &&& week.days@.to_multiset() == week_days(summaries@, week.week_start).to_multiset()
                    &&& week.total_duration == total_minutes(week_days(summaries@, week.week_start))
                },
    {
        let n = summaries.len();
        let mut mondays: Vec<Date> = Vec::new();
        let mut starts: Vec<Date> = Vec::new();
        let mut k: usize = 0;
        while k < n
            invariant
                0 <= k <= n == summaries.len(),
                forall|i: int| 0 <= i < n ==> (#[trigger] summaries@[i]).date.has_week_start(),
                mondays@.len() == k,
                forall|j: int| 0 <= j < k ==> #[trigger] mondays@[j] == week_monday(summaries@[j].date),
                strictly_increasing(starts@),
                forall|j: int| 0 <= j < k ==> starts@.contains(#[trigger] mondays@[j]),
                forall|d: Date| #[trigger]
                    starts@.contains(d) ==> exists|j: int| 0 <= j < k && mondays@[j] == d,
            decreases n - k,
        {
            let monday = monday_of_week(summaries[k].date);
            let ghost old_mondays = mondays@;
            mondays.push(monday);
            let ghost old_starts = starts@;
            insert_distinct(&mut starts, monday);
            proof {
                assert forall|j: int| 0 <= j < k + 1 implies starts@.contains(#[trigger] mondays@[j]) by {
                    if j < k {
                        assert(old_starts.contains(mondays@[j]));
                    }
                }
                assert forall|d: Date| #[trigger] starts@.contains(d) implies exists|j: int|
                    0 <= j < k + 1 && mondays@[j] == d by {
                    if old_starts.contains(d) {
                        let j = choose|j: int| 0 <= j < k && old_mondays[j] == d;
                        assert(mondays@[j] == old_mondays[j]);
                    } else {
                        assert(mondays@[k as int] == d);
                    }
                }
            }
            k += 1;
        }
        let mut weeks: Vec<WeekSummary> = Vec::new();
        let mut t: usize = 0;
        while t < starts.len()
            invariant
                0 <= t <= starts.len(),
                n == summaries.len(),
                mondays@.len() == n,
                forall|j: int| 0 <= j < n ==> #[trigger] mondays@[j] == week_monday(summaries@[j].date),
                total_minutes(summaries@) <= u64::MAX,
                weeks@.len() == t,
                forall|i: int| 0 <= i < t ==> (#[trigger] weeks@[i]).week_start == starts@[i],
                forall|i: int|
                    0 <= i < t ==> {
                        let week = #[trigger] weeks@[i];
                        &&& sorted_by_date(week.days@)
                        &&& week.days@.to_multiset() == week_days(
                            summaries@,
                            week.week_start,
                        ).to_multiset()
                        &&& week.total_duration == total_minutes(
                            week_days(summaries@, week.week_start),
                        )
                    },
            decreases starts.len() - t,
        {
            let monday = starts[t];
            let mut days: Vec<DaySummary> = Vec::new();
            let mut total: u64 = 0;
            let mut k: usize = 0;
            assert(days@ =~= week_days(summaries@.take(0), monday));
            while k < n
                invariant
                    0 <= k <= n == summaries.len(),
                    mondays@.len() == n,
                    forall|j: int| 0 <= j < n ==> #[trigger] mondays@[j] == week_monday(summaries@[j].date),
                    total_minutes(summaries@) <= u64::MAX,
                    sorted_by_date(days@),
                    days@.to_multiset() == week_days(summaries@.take(k as int), monday).to_multiset(),
                    total == total_minutes(week_days(summaries@.take(k as int), monday)),
                decreases n - k,
            {
                let ghost prefix = summaries@.take(k as int);
                let ghost next = summaries@.take(k + 1);
                assert(next.drop_last() =~= prefix);
                assert(next.last() == summaries@[k as int]);
                if mondays[k] == monday {
                    let day = summaries[k];
                    proof {
                        let w = week_days(prefix, monday);
                        to_multiset_build(w, day);
                        assert(w.push(day).drop_last() =~= w);
                        lemma_week_days_bounded(next, monday);
                        lemma_total_prefix(summaries@, k + 1);
                    }
                    insert_by_date(&mut days, day);
                    total = total + day.total_duration;
                }
                k += 1;
            }
            assert(summaries@.take(n as int) =~= summaries@);
            weeks.push(WeekSummary { week_start: monday, total_duration: total, days });
            t += 1;
        }
        proof {
            assert forall|i: int| 0 <= i < weeks.len() implies exists|k: int|
                0 <= k < summaries.len() && (#[trigger] weeks@[i]).week_start == week_monday(
                    #[trigger] summaries@[k].date,
                ) by {
                assert(starts@.contains(starts@[i]));
                let j = choose|j: int| 0 <= j < n && mondays@[j] == starts@[i];
                assert(mondays@[j] == week_monday(summaries@[j].date));
            }
            assert forall|k: int| 0 <= k < summaries.len() implies exists|i: int|
                0 <= i < weeks.len() && (#[trigger] weeks@[i]).week_start == week_monday(
                    #[trigger] summaries@[k].date,
                ) by {
                assert(mondays@[k] == week_monday(summaries@[k].date));
                assert(starts@.contains(mondays@[k]));
                let i = choose|i: int| 0 <= i < starts.len() && starts@[i] == mondays@[k];
                assert(weeks@[i].week_start == starts@[i]);
            }
        }
        weeks
    }

    /// Sums days by calendar month, in month order.
    pub fn group_by_month(summaries: &Vec<DaySummary>) -> (r: Vec<MonthlySummary>)
        requires
            total_minutes(summaries@) <= u64::MAX,
        ensures
            forall|i: int, j: int|
                0 <= i < j < r.len() ==> month_before(
                    r@[i].year as int,
                    r@[i].month as int,
                    r@[j].year as int,
                    r@[j].month as int,
                ),
            forall|i: int|
                0 <= i < r.len() ==> exists|k: int|
                    0 <= k < summaries.len() && summary_month(#[trigger] r@[i]) == day_month(
                        #[trigger] summaries@[k],
                    ),
            forall|k: int|
                0 <= k < summaries.len() ==> exists|i: int|
                    0 <= i < r.len() && summary_month(#[trigger] r@[i]) == day_month(
                        #[trigger] summaries@[k],
                    ),
            forall|i: int|
                0 <= i < r.len() ==> (#[trigger] r@[i]).total_duration == month_minutes(
                    summaries@,
                    r@[i].year as int,
                    r@[i].month as int,
                ),
    {
        let n = summaries.len();
        let mut months: Vec<MonthlySummary> = Vec::new();
        let mut k: usize = 0;
        while k < n
            invariant
                0 <= k <= n == summaries.len(),
                total_minutes(summaries@) <= u64::MAX,
                forall|i: int, j: int|
                    0 <= i < j < months.len() ==> month_before(
                        months@[i].year as int,
                        months@[i].month as int,
                        months@[j].year as int,
                        months@[j].month as int,
                    ),
                forall|j: int|
                    0 <= j < k ==> month_keys(months@).contains(day_month(#[trigger] summaries@[j])),
                forall|key: (int, int)| #[trigger]
                    month_keys(months@).contains(key) ==> exists|j: int|
                        0 <= j < k && day_month(summaries@[j]) == key,
                forall|i: int|
                    0 <= i < months.len() ==> (#[trigger] months@[i]).total_duration == month_minutes(
                        summaries@.take(k as int),
                        months@[i].year as int,
                        months@[i].month as int,
                    ),
            decreases n - k,
        {
            let day = summaries[k];
            let year = day.date.year;
            let month = day.date.month;
            let ghost prefix = summaries@.take(k as int);
            let ghost next = summaries@.take(k + 1);
            let ghost before = months@;
            proof {
                assert(next.drop_last() =~= prefix);
                assert(next.last() == day);
                lemma_month_bounded(next, year as int, month as int);
                lemma_total_prefix(summaries@, k + 1);
            }
            let mut p: usize = 0;
            while p < months.len() && (months[p].year < year || (months[p].year == year
                && months[p].month < month))
                invariant
                    0 <= p <= months.len(),
                    months@ == before,
                    forall|i: int|
                        0 <= i < p ==> month_before(
                            (#[trigger] months@[i]).year as int,
                            months@[i].month as int,
                            year as int,
                            month as int,
                        ),
                decreases months.len() - p,
            {
                p += 1;
            }
            if p < months.len() && months[p].year == year && months[p].month == month {
                let old_total = months[p].total_duration;
                months.set(
                    p,
                    MonthlySummary { year, month, total_duration: old_total + day.total_duration },
                );
                proof {
                    assert(month_keys(months@) =~= month_keys(before));
                    assert(month_keys(before)[p as int] == day_month(day));
                    assert forall|i: int| 0 <= i < months.len() implies (#[trigger] months@[i]).total_duration
                        == month_minutes(next, months@[i].year as int, months@[i].month as int) by {
                        if i != p {
                            assert(months@[i] == before[i]);
                            assert(month_before(before[i].year as int, before[i].month as int, year as int, month as int)
                                || month_before(year as int, month as int, before[i].year as int, before[i].month as int)) by {
                                if i < p {
                                } else {
                                }
                            }
                        }
                    }
                }
            } else {
                let ghost key = (year as int, month as int);
                proof {
                    assert forall|j: int| 0 <= j < k implies day_month(#[trigger] summaries@[j]) != key by {
                        assert(month_keys(before).contains(day_month(summaries@[j])));
                        let i = choose|i: int| 0 <= i < before.len() && month_keys(before)[i] == day_month(summaries@[j]);
                        if i < p {
                            assert(month_before(before[i].year as int, before[i].month as int, year as int, month as int));
                        } else if i > p {
                            assert(month_before(before[p as int].year as int, before[p as int].month as int, before[i].year as int, before[i].month as int));
                        }
                    }
                    assert forall|j: int| 0 <= j < prefix.len() implies day_month(#[trigger] prefix[j]) != key by {
                        assert(prefix[j] == summaries@[j]);
                    }
                    lemma_month_absent(prefix, year as int, month as int);
                }
                months.insert(p, MonthlySummary { year, month, total_duration: day.total_duration });
                proof {
                    assert(month_keys(months@) =~= month_keys(before).insert(p as int, key));
                    lemma_insert_contains(month_keys(before), p as int, key);
                    assert forall|i: int| 0 <= i < months.len() implies (#[trigger] months@[i]).total_duration
                        == month_minutes(next, months@[i].year as int, months@[i].month as int) by {
                        if i < p {
                            assert(months@[i] == before[i]);
                        } else if i > p {
                            assert(months@[i] == before[i - 1]);
                            assert(month_before(year as int, month as int, before[p as int].year as int, before[p as int].month as int));
                            if i - 1 > p {
                                assert(month_before(before[p as int].year as int, before[p as int].month as int, before[i - 1].year as int, before[i - 1].month as int));
                            }
                        }
                    }
                    assert forall|a: int, b: int| 0 <= a < b < months.len() implies month_before(
                        months@[a].year as int,
                        months@[a].month as int,
                        months@[b].year as int,
                        months@[b].month as int,
                    ) by {
                        if b < p {
                            assert(months@[a] == before[a] && months@[b] == before[b]);
                        } else if b == p {
                            assert(months@[a] == before[a]);
                        } else if a < p {
                            assert(months@[a] == before[a] && months@[b] == before[b - 1]);
                        } else if a == p {
                            assert(months@[b] == before[b - 1]);
                            assert(month_before(year as int, month as int, before[p as int].year as int, before[p as int].month as int));
                            if b - 1 > p {
                                assert(month_before(before[p as int].year as int, before[p as int].month as int, before[b - 1].year as int, before[b - 1].month as int));
                            }
                        } else {
                            assert(months@[a] == before[a - 1] && months@[b] == before[b - 1]);
                        }
                    }
                }
            }
            proof {
                assert forall|j: int| 0 <= j < k + 1 implies month_keys(months@).contains(
                    day_month(#[trigger] summaries@[j]),
                ) by {
                    if j < k {
                        assert(month_keys(before).contains(day_month(summaries@[j])));
                        let i = choose|i: int| 0 <= i < before.len() && month_keys(before)[i] == day_month(summaries@[j]);
                        if months@.len() == before.len() {
                            assert(month_keys(months@)[i] == day_month(summaries@[j]));
                        }
                    } else {
                        assert(summaries@[j] == day);
                        if months@.len() == before.len() {
                            assert(month_keys(months@)[p as int] == day_month(day));
                        }
                    }
                }
                assert forall|key: (int, int)| #[trigger] month_keys(months@).contains(key) implies exists|j: int|
                    0 <= j < k + 1 && day_month(summaries@[j]) == key by {
                    if month_keys(before).contains(key) {
                        let j = choose|j: int| 0 <= j < k && day_month(summaries@[j]) == key;
                        assert(day_month(summaries@[j]) == key);
                    } else {
                        assert(day_month(summaries@[k as int]) == key);
                    }
                }
            }
            k += 1;
        }
        proof {
            assert(summaries@.take(n as int) =~= summaries@);
            assert forall|i: int| 0 <= i < months.len() implies exists|k: int|
                0 <= k < summaries.len() && summary_month(#[trigger] months@[i]) == day_month(
                    #[trigger] summaries@[k],
                ) by {
                assert(month_keys(months@)[i] == summary_month(months@[i]));
                assert(month_keys(months@).contains(summary_month(months@[i])));
            }
            assert forall|k: int| 0 <= k < summaries.len() implies exists|i: int|
                0 <= i < months.len() && summary_month(#[trigger] months@[i]) == day_month(
                    #[trigger] summaries@[k],
                ) by {
                assert(month_keys(months@).contains(day_month(summaries@[k])));
                let i = choose|i: int| 0 <= i < months.len() && month_keys(months@)[i] == day_month(summaries@[k]);
                assert(month_keys(months@)[i] == summary_month(months@[i]));
            }
        }
        months
    }
}

} // verus!
