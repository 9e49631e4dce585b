//! Work-time extraction from free-form daily logs, with daily, weekly and
//! monthly roll-ups.

pub mod clock;
pub mod text;
pub mod pattern;
pub mod day;
pub mod parser;
pub mod summary;
pub mod report;

pub use clock::{Date, TimeOfDay};
pub use day::{DaySummary, ParseError, TimeEntry};
pub use parser::TimesheetParser;
pub use pattern::LineKind;
pub use report::{format_duration, format_duration_with_flags, get_month_name};
pub use summary::{MonthlySummary, WeekSummary};
