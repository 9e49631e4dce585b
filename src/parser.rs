//! Reading one day's log text into its summary.

use crate::clock::{local_now, parse_stem_date, stem_date, Date, TimeOfDay};
use crate::day::{day_result, kinds_wf, summarize_day, DaySummary, ParseError};
use crate::pattern::{
    check_pattern, classify_lines, kind_of_line, kinds_of_lines, patterns_compile, LineKind,
    HOLIDAY_PATTERN, START_PATTERN, STOP_PATTERN, WORK_TIME_PATTERN,
};
use crate::text::{chars_of, lines_of, split_lines};
use vstd::prelude::*;

verus! {

/// What each line of a log text declares.
pub open spec fn content_kinds(content: Seq<char>) -> Seq<LineKind> {
    kinds_of_lines(lines_of(content))
}

/// Every clock time a classified line holds is a real one.
pub proof fn lemma_content_kinds_wf(content: Seq<char>)
    ensures
        kinds_wf(content_kinds(content)),
{
    let kinds = content_kinds(content);
    assert forall|i: int| 0 <= i < kinds.len() implies match #[trigger] kinds[i] {
        LineKind::Start(t) => t.wf(),
        LineKind::Stop(t) => t.wf(),
        _ => true,
    } by {
        assert(kinds[i] == kind_of_line(lines_of(content)[i]));
    }
}

/// Reads daily logs. Holding one means the line patterns compile.
pub struct TimesheetParser {
    debug_mode: bool,
}

impl TimesheetParser {
    #[verifier::type_invariant]
    spec fn inv(&self) -> bool {
        patterns_compile()
    }

    pub closed spec fn is_debug(&self) -> bool {
        self.debug_mode
    }

    /// A parser; fails with the pattern compiler's error if a line pattern
    /// does not compile.
    pub fn new(debug_mode: bool) -> (r: Result<TimesheetParser, regex::Error>)
        ensures
            r is Ok <==> patterns_compile(),
            r matches Ok(p) ==> p.is_debug() == debug_mode,
    {
        if let Err(e) = check_pattern(START_PATTERN) {
            return Err(e);
        }
        if let Err(e) = check_pattern(STOP_PATTERN) {
            return Err(e);
        }
        if let Err(e) = check_pattern(WORK_TIME_PATTERN) {
            return Err(e);
        }
        if let Err(e) = check_pattern(HOLIDAY_PATTERN) {
            return Err(e);
        }
        Ok(TimesheetParser { debug_mode })
    }

    /// Whether diagnostics were asked for.
    pub fn debug_mode(&self) -> (r: bool)
        ensures
            r == self.is_debug(),
    {
        self.debug_mode
    }

    /// Summarises the log `content` of `date`, when the local date is `today`
    /// and the wall clock shows `now`.
    pub fn parse_file_at(&self, content: &str, date: Date, today: Date, now: TimeOfDay) -> (r:
        Result<DaySummary, ParseError>)
        requires
            now.wf(),
        ensures
            r == day_result(content_kinds(content@), date, today, now),
    {
        proof {
            use_type_invariant(self);
            lemma_content_kinds_wf(content@);
        }
        let chars = chars_of(content);
        let lines = split_lines(&chars);
        let kinds = classify_lines(&lines);
        summarize_day(&kinds, &date, &today, now)
    }

    /// Summarises the log `content` of `date`, reading the local date and
    /// time once.
    pub fn parse_file(&self, content: &str, date: Date) -> (r: Result<DaySummary, ParseError>)
        ensures
            exists|today: Date, now: TimeOfDay|
                today.wf() && now.wf() && r == day_result(content_kinds(content@), date, today, now),
    {
        let (today, now) = local_now();
        let r = self.parse_file_at(content, date, today, now);
        assert(today.wf() && now.wf() && r == day_result(content_kinds(content@), date, today, now));
        r
    }

    /// The date a log file's stem names in the form `YYYY-MM-DD`, if it
    /// names one.
    pub fn file_date(stem: &str) -> (r: Option<Date>)
        ensures
            r == stem_date(stem@),
            r matches Some(d) ==> d.wf(),
    {
        parse_stem_date(stem)
    }
}

} // verus!
