//! Calendar date-times of minute precision, read from and shown as text by
//! chrono.

use vstd::prelude::*;
use chrono::{Datelike, Timelike};

verus! {

/// A date-time in the model: year, month, day, hour and minute.
pub type DateView = (int, int, int, int, int);

pub open spec fn is_leap_year(y: int) -> bool {
    y % 4 == 0 && (y % 100 != 0 || y % 400 == 0)
}

pub open spec fn days_in_month(y: int, m: int) -> int {
    if m == 2 {
        if is_leap_year(y) {
            29
        } else {
            28
        }
    } else if m == 4 || m == 6 || m == 9 || m == 11 {
        30
    } else {
        31
    }
}

/// A date and a time of day that chrono can represent (its years run from
/// -262143 to 262142).
pub open spec fn valid_date_time(d: DateView) -> bool {
    &&& -262143 <= d.0 <= 262142
    &&& 1 <= d.1 <= 12
    &&& 1 <= d.2 <= days_in_month(d.0, d.1)
    &&& 0 <= d.3 < 24
    &&& 0 <= d.4 < 60
}

/// Chronological order: by year, then month, day, hour and minute.
pub open spec fn date_less(a: DateView, b: DateView) -> bool {
    a.0 < b.0 || (a.0 == b.0 && (a.1 < b.1 || (a.1 == b.1 && (a.2 < b.2 || (a.2 == b.2 && (a.3
        < b.3 || (a.3 == b.3 && a.4 < b.4)))))))
}

/// What chrono reads from a text in the format `YYYY-MM-DD HH:MM`.
pub uninterp spec fn parsed_date_of(s: Seq<char>) -> Option<DateView>;

/// How chrono shows a date-time as text.
pub uninterp spec fn date_text_of(d: DateView) -> Seq<char>;

/// A calendar date with a time of day to the minute.
#[derive(Debug, Clone, Copy)]
pub struct TaskDate {
    year: i32,
    month: u32,
    day: u32,
    hour: u32,
    minute: u32,
}

impl View for TaskDate {
    type V = DateView;

    closed spec fn view(&self) -> DateView {
        (self.year as int, self.month as int, self.day as int, self.hour as int, self.minute as int)
    }
}

/// Relies on chrono's `NaiveDateTime::parse_from_str` with the format
/// `%Y-%m-%d %H:%M`: its outcome depends on the text alone, and what it
/// gives is a valid date and time (seconds are zero and are left out).
#[verifier::external_body]
fn parse_naive(s: &str) -> (r: Option<(i32, u32, u32, u32, u32)>)
    ensures
        match r {
            Some(d) => parsed_date_of(s@) == Some(
                (d.0 as int, d.1 as int, d.2 as int, d.3 as int, d.4 as int),
            ) && valid_date_time((d.0 as int, d.1 as int, d.2 as int, d.3 as int, d.4 as int)),
            None => parsed_date_of(s@) is None,
        },
{
    chrono::NaiveDateTime::parse_from_str(s, "%Y-%m-%d %H:%M").ok().map(
        |d| (d.year(), d.month(), d.day(), d.hour(), d.minute()),
    )
}

/// Relies on chrono's `Display` for `NaiveDateTime` (zero seconds), which
/// depends on the date-time alone.
#[verifier::external_body]
fn naive_text(year: i32, month: u32, day: u32, hour: u32, minute: u32) -> (r: String)
    requires
        valid_date_time((year as int, month as int, day as int, hour as int, minute as int)),
    ensures
        r@ == date_text_of((year as int, month as int, day as int, hour as int, minute as int)),
{
    chrono::NaiveDate::from_ymd_opt(year, month, day).unwrap().and_hms_opt(hour, minute, 0).unwrap().to_string()
}

impl TaskDate {
    #[verifier::type_invariant]
    spec fn valid(self) -> bool {
        valid_date_time(self@)
    }

    /// Reads a date-time written `YYYY-MM-DD HH:MM`.
    pub fn parse(s: &str) -> (r: Option<TaskDate>)
        ensures
            match r {
                Some(d) => parsed_date_of(s@) == Some(d@),
                None => parsed_date_of(s@) is None,
            },
            r is Some ==> valid_date_time(r->0@),
    {
        match parse_naive(s) {
            Some(d) => Some(TaskDate { year: d.0, month: d.1, day: d.2, hour: d.3, minute: d.4 }),
            None => None,
        }
    }

    /// The date-time as chrono shows it.
    pub fn to_text(&self) -> (r: String)
        ensures
            r@ == date_text_of(self@),
            valid_date_time(self@),
    {
        proof {
            use_type_invariant(self);
        }
        naive_text(self.year, self.month, self.day, self.hour, self.minute)
    }

    pub fn eq(&self, other: &TaskDate) -> (r: bool)
        ensures
            r == (self@ == other@),
    {
        self.year == other.year && self.month == other.month && self.day == other.day && self.hour
            == other.hour && self.minute == other.minute
    }

    /// Whether `self` comes strictly before `other`.
    pub fn less(&self, other: &TaskDate) -> (r: bool)
        ensures
            r == date_less(self@, other@),
    {
        if self.year != other.year {
            self.year < other.year
        } else if self.month != other.month {
            self.month < other.month
        } else if self.day != other.day {
            self.day < other.day
        } else if self.hour != other.hour {
            self.hour < other.hour
        } else {
            self.minute < other.minute
        }
    }

    pub fn year(&self) -> (r: i32)
        ensures
            r as int == self@.0,
    {
        self.year
    }

    pub fn month(&self) -> (r: u32)
        ensures
            r as int == self@.1,
    {
        self.month
    }

    pub fn day(&self) -> (r: u32)
        ensures
            r as int == self@.2,
    {
        self.day
    }

    pub fn hour(&self) -> (r: u32)
        ensures
            r as int == self@.3,
    {
        self.hour
    }

    pub fn minute(&self) -> (r: u32)
        ensures
            r as int == self@.4,
    {
        self.minute
    }
}

} // verus!
