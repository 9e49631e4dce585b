use timesheet::day::{collect_entries, summarize_day};
use timesheet::pattern::{clock_from_groups, kind_from_groups, minutes_from_groups};
use timesheet::report::{day_for_date, days_to_report, week_for_date};
use timesheet::summary::sort_by_date;
use timesheet::text::{chars_of, parse_u32, split_lines};
use timesheet::{
    format_duration, get_month_name, Date, DaySummary, LineKind, ParseError, TimeEntry, TimeOfDay,
    TimesheetParser,
};

fn date(y: i32, m: u32, d: u32) -> Date {
    Date::from_ymd_opt(y, m, d).unwrap()
}

fn hm(h: u32, m: u32) -> TimeOfDay {
    TimeOfDay::from_hm(h, m).unwrap()
}

fn day(d: Date, minutes: u64) -> DaySummary {
    DaySummary { date: d, total_duration: minutes, has_tentative: false, has_incomplete: false }
}

fn groups(parts: &[Option<&str>]) -> Vec<Option<Vec<char>>> {
    parts.iter().map(|p| p.map(|s| s.chars().collect())).collect()
}

#[test]
fn overnight_interval_wraps_midnight() {
    let entry = TimeEntry { start_time: Some(hm(23, 0)), end_time: Some(hm(1, 0)), tentative: false };
    assert_eq!(entry.duration(), Some(120));
    let entry = TimeEntry { start_time: Some(hm(22, 15)), end_time: Some(hm(6, 45)), tentative: false };
    assert_eq!(entry.duration(), Some(24 * 60 - (22 * 60 + 15 - (6 * 60 + 45))));
}

#[test]
fn equal_start_and_end_is_zero() {
    let entry = TimeEntry { start_time: Some(hm(9, 0)), end_time: Some(hm(9, 0)), tentative: false };
    assert_eq!(entry.duration(), Some(0));
}

#[test]
fn unrecognised_day_totals_zero() {
    let parser = TimesheetParser::new(false).unwrap();
    let d = date(2025, 8, 25);
    let s = parser.parse_file_at("just notes\nmore notes", d, d, hm(12, 0)).unwrap();
    assert_eq!(s.total_duration, 0);
    assert!(!s.has_tentative);
    assert!(!s.has_incomplete);
}

#[test]
fn overlapping_start_collapses_to_latest() {
    let kinds = vec![LineKind::Start(hm(9, 0)), LineKind::Start(hm(10, 0)), LineKind::Stop(hm(17, 0))];
    let (entries, orphaned) = collect_entries(&kinds);
    assert_eq!(entries.len(), 1);
    assert_eq!(entries[0].start_time, Some(hm(10, 0)));
    assert_eq!(entries[0].end_time, Some(hm(17, 0)));
    assert!(!orphaned);
    let parser = TimesheetParser::new(false).unwrap();
    let s = parser
        .parse_file_at("start work 9:00\nstart work 10:00\nstop work 17:00", date(2025, 8, 25), date(2026, 1, 5), hm(8, 0))
        .unwrap();
    assert_eq!(s.total_duration, 7 * 60);
    assert!(!s.has_incomplete);
}

#[test]
fn orphaned_stop_flags_incomplete() {
    let parser = TimesheetParser::new(false).unwrap();
    let s = parser.parse_file_at("stop work 17:00", date(2025, 8, 25), date(2026, 1, 5), hm(8, 0)).unwrap();
    assert_eq!(s.total_duration, 0);
    assert!(s.has_incomplete);
    assert!(!s.has_tentative);
}

#[test]
fn tentative_entry_is_capped_at_eight_hours() {
    let parser = TimesheetParser::new(false).unwrap();
    let today = date(2025, 8, 25);
    let s = parser.parse_file_at("start work 08:00", today, today, hm(18, 30)).unwrap();
    assert_eq!(s.total_duration, 8 * 60);
    assert!(s.has_tentative);
    assert!(!s.has_incomplete);
    let mut entries = vec![TimeEntry { start_time: Some(hm(8, 0)), end_time: None, tentative: false }];
    TimesheetParser::apply_tentative_time(&mut entries, &today, &today, hm(18, 30));
    assert_eq!(entries[0].end_time, Some(hm(16, 0)));
    assert!(entries[0].tentative);
}

#[test]
fn tentative_entry_ends_now_within_eight_hours() {
    let parser = TimesheetParser::new(false).unwrap();
    let today = date(2025, 8, 25);
    let s = parser.parse_file_at("start work 08:00", today, today, hm(10, 15)).unwrap();
    assert_eq!(s.total_duration, 2 * 60 + 15);
    assert!(s.has_tentative);
}

#[test]
fn tentative_cap_wraps_past_midnight() {
    let parser = TimesheetParser::new(false).unwrap();
    let today = date(2025, 8, 25);
    let s = parser.parse_file_at("start work 22:00", today, today, hm(12, 0)).unwrap();
    assert_eq!(s.total_duration, 8 * 60);
}

#[test]
fn open_entry_on_other_day_is_incomplete_not_tentative() {
    let parser = TimesheetParser::new(false).unwrap();
    let s = parser.parse_file_at("start work 08:00", date(2025, 8, 24), date(2025, 8, 25), hm(18, 30)).unwrap();
    assert_eq!(s.total_duration, 0);
    assert!(!s.has_tentative);
    assert!(s.has_incomplete);
}

#[test]
fn two_holiday_lines_credit_sixteen_hours() {
    let parser = TimesheetParser::new(false).unwrap();
    let s = parser
        .parse_file_at("Stat holiday\nPTO again", date(2025, 8, 25), date(2026, 1, 5), hm(8, 0))
        .unwrap();
    assert_eq!(s.total_duration, 16 * 60);
}

#[test]
fn week_grouping_splits_at_monday() {
    let summaries = vec![day(date(2025, 9, 1), 6 * 60), day(date(2025, 8, 26), 7 * 60), day(date(2025, 8, 25), 8 * 60)];
    let weeks = TimesheetParser::group_by_week(&summaries);
    assert_eq!(weeks.len(), 2);
    assert_eq!(weeks[0].week_start, date(2025, 8, 25));
    assert_eq!(weeks[0].total_duration, 15 * 60);
    assert_eq!(weeks[0].days.len(), 2);
    assert_eq!(weeks[0].days[0].date, date(2025, 8, 25));
    assert_eq!(weeks[0].days[1].date, date(2025, 8, 26));
    assert_eq!(weeks[1].week_start, date(2025, 9, 1));
    assert_eq!(weeks[1].total_duration, 6 * 60);
    assert_eq!(weeks[1].days.len(), 1);
}

#[test]
fn week_start_of_a_sunday_is_the_monday_before() {
    let weeks = TimesheetParser::group_by_week(&vec![day(date(2025, 8, 31), 60)]);
    assert_eq!(weeks[0].week_start, date(2025, 8, 25));
    let weeks = TimesheetParser::group_by_week(&vec![day(date(2025, 1, 1), 60)]);
    assert_eq!(weeks[0].week_start, date(2024, 12, 30));
}

#[test]
fn grouping_empty_input_is_empty() {
    assert!(TimesheetParser::group_by_week(&vec![]).is_empty());
    assert!(TimesheetParser::group_by_month(&vec![]).is_empty());
}

#[test]
fn month_grouping_sums_by_calendar_month() {
    let summaries = vec![
        day(date(2025, 9, 1), 6 * 60),
        day(date(2025, 8, 26), 7 * 60),
        day(date(2024, 12, 31), 60),
        day(date(2025, 8, 25), 8 * 60),
    ];
    let months = TimesheetParser::group_by_month(&summaries);
    assert_eq!(months.len(), 3);
    assert_eq!((months[0].year, months[0].month, months[0].total_duration), (2024, 12, 60));
    assert_eq!((months[1].year, months[1].month, months[1].total_duration), (2025, 8, 15 * 60));
    assert_eq!((months[2].year, months[2].month, months[2].total_duration), (2025, 9, 6 * 60));
}

#[test]
fn explicit_durations_mix_with_intervals() {
    let parser = TimesheetParser::new(false).unwrap();
    let content = "start 9:00 is not a marker\nStart work 9:00\nStop work 12:00\nwork time 90 minutes\nwork time 1 hour";
    let s = parser.parse_file_at(content, date(2025, 8, 25), date(2026, 1, 5), hm(8, 0)).unwrap();
    assert_eq!(s.total_duration, 5 * 60 + 30);
}

#[test]
fn total_that_overflows_is_an_error() {
    let d = date(2025, 8, 25);
    let kinds = vec![LineKind::WorkTime(u64::MAX), LineKind::Holiday];
    assert_eq!(summarize_day(&kinds, &d, &d, hm(8, 0)).unwrap_err(), ParseError::TotalOverflow);
    let kinds = vec![LineKind::WorkTime(u64::MAX - 480), LineKind::Holiday];
    assert_eq!(summarize_day(&kinds, &d, &d, hm(8, 0)).unwrap().total_duration, u64::MAX);
}

#[test]
fn huge_work_time_amount_is_ignored() {
    let parser = TimesheetParser::new(false).unwrap();
    let s = parser
        .parse_file_at("work time 99999999999 minutes", date(2025, 8, 25), date(2026, 1, 5), hm(8, 0))
        .unwrap();
    assert_eq!(s.total_duration, 0);
    let s = parser
        .parse_file_at("work time 4294967295 hours", date(2025, 8, 25), date(2026, 1, 5), hm(8, 0))
        .unwrap();
    assert_eq!(s.total_duration, 4294967295u64 * 60);
}

#[test]
fn classification_follows_pattern_priority() {
    let start = Some(groups(&[Some("start work 9:30"), Some("9"), Some("30")]));
    let stop = Some(groups(&[Some("stop work 17:00"), Some("17"), Some("00")]));
    let work = Some(groups(&[Some("work time 2 hours"), Some("2"), Some("hours")]));
    let holiday = Some(groups(&[Some("pto"), Some("pto")]));
    assert_eq!(kind_from_groups(&start, &stop, &work, &holiday), LineKind::Start(hm(9, 30)));
    assert_eq!(kind_from_groups(&None, &stop, &work, &holiday), LineKind::Stop(hm(17, 0)));
    assert_eq!(kind_from_groups(&None, &None, &work, &holiday), LineKind::WorkTime(120));
    assert_eq!(kind_from_groups(&None, &None, &None, &holiday), LineKind::Holiday);
    assert_eq!(kind_from_groups(&None, &None, &None, &None), LineKind::Ignored);
    let bad = Some(groups(&[Some("start work 25:00"), Some("25"), Some("00")]));
    assert_eq!(kind_from_groups(&bad, &stop, &work, &holiday), LineKind::Ignored);
}

#[test]
fn clock_and_amount_readings() {
    assert_eq!(clock_from_groups(&groups(&[None, Some("07"), Some("05")])), Some(hm(7, 5)));
    assert_eq!(clock_from_groups(&groups(&[None, Some("12"), Some("60")])), None);
    assert_eq!(clock_from_groups(&groups(&[None, Some("12")])), None);
    assert_eq!(minutes_from_groups(&groups(&[None, Some("45"), Some("MINUTES")])), Some(45));
    assert_eq!(minutes_from_groups(&groups(&[None, Some("3"), Some("Hour")])), Some(180));
    assert_eq!(minutes_from_groups(&groups(&[None, Some("3"), Some("days")])), Some(0));
}

#[test]
fn numerals_and_lines() {
    assert_eq!(parse_u32(&"4294967295".chars().collect()), Some(u32::MAX));
    assert_eq!(parse_u32(&"4294967296".chars().collect()), None);
    assert_eq!(parse_u32(&"".chars().collect()), None);
    assert_eq!(parse_u32(&"1a".chars().collect()), None);
    let lines = split_lines(&chars_of("a\r\nb\n\nc\r"));
    let lines: Vec<String> = lines.iter().map(|l| l.iter().collect()).collect();
    assert_eq!(lines, vec!["a", "b", "", "c\r"]);
    assert!(split_lines(&chars_of("")).is_empty());
    assert_eq!(split_lines(&chars_of("x\n")).len(), 1);
}

#[test]
fn calendar_dates() {
    assert!(Date::from_ymd_opt(2024, 2, 29).is_some());
    assert!(Date::from_ymd_opt(2025, 2, 29).is_none());
    assert!(Date::from_ymd_opt(1900, 2, 29).is_none());
    assert!(Date::from_ymd_opt(2000, 2, 29).is_some());
    assert!(Date::from_ymd_opt(2025, 4, 31).is_none());
    assert!(Date::from_ymd_opt(2025, 13, 1).is_none());
    assert!(Date::from_ymd_opt(2025, 1, 0).is_none());
    assert!(date(2025, 8, 25).is_before(&date(2025, 9, 1)));
    assert!(!date(2025, 9, 1).is_before(&date(2025, 9, 1)));
}

#[test]
fn file_stems_name_dates() {
    assert_eq!(TimesheetParser::file_date("2025-08-25"), Some(date(2025, 8, 25)));
    assert_eq!(TimesheetParser::file_date("1999-12-31"), Some(date(1999, 12, 31)));
    assert_eq!(TimesheetParser::file_date("notes"), None);
    assert_eq!(TimesheetParser::file_date("2025-02-30"), None);
}

#[test]
fn sorting_and_lookups() {
    let summaries = vec![day(date(2025, 9, 1), 1), day(date(2025, 8, 25), 2), day(date(2025, 8, 26), 3)];
    let sorted = sort_by_date(&summaries);
    let dates: Vec<Date> = sorted.iter().map(|s| s.date).collect();
    assert_eq!(dates, vec![date(2025, 8, 25), date(2025, 8, 26), date(2025, 9, 1)]);
    assert_eq!(day_for_date(&summaries, &date(2025, 8, 26)), Some(2));
    assert_eq!(day_for_date(&summaries, &date(2025, 8, 27)), None);
    let weeks = TimesheetParser::group_by_week(&summaries);
    assert_eq!(week_for_date(&weeks, &date(2025, 8, 31)), Some(0));
    assert_eq!(week_for_date(&weeks, &date(2025, 9, 3)), Some(1));
    assert_eq!(week_for_date(&weeks, &date(2025, 9, 8)), None);
}

#[test]
fn daily_report_keeps_recent_active_days() {
    let mut idle = day(date(2025, 8, 27), 0);
    let flagged = DaySummary { has_incomplete: true, ..day(date(2025, 8, 28), 0) };
    idle.has_tentative = true;
    let summaries = vec![day(date(2025, 8, 18), 60), day(date(2025, 8, 25), 60), idle, flagged];
    let weeks = TimesheetParser::group_by_week(&summaries);
    let days = days_to_report(&weeks, &date(2025, 8, 20));
    let dates: Vec<Date> = days.iter().map(|s| s.date).collect();
    assert_eq!(dates, vec![date(2025, 8, 25), date(2025, 8, 28)]);
}

#[test]
fn durations_and_month_names_render() {
    assert_eq!(format_duration(0), "0h 00m");
    assert_eq!(format_duration(125 * 60 + 9), "125h 09m");
    assert_eq!(get_month_name(1), "January");
    assert_eq!(get_month_name(0), "January");
    assert_eq!(get_month_name(12), "December");
    assert_eq!(get_month_name(13), "Unknown");
}

#[test]
fn parser_keeps_debug_mode() {
    assert!(TimesheetParser::new(true).unwrap().debug_mode());
    assert!(!TimesheetParser::new(false).unwrap().debug_mode());
}
