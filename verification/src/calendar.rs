use chrono::Datelike;

use vstd::prelude::*;

use crate::display::Weekday;
use crate::time::Date;

verus! {

/// The first day that `chrono::NaiveDate` holds, January 1 of 262144 BCE, counted from January 1
/// of year 1 as day 1.
pub open spec fn first_chrono_day() -> int {
    -95746129
}

/// The last day that `chrono::NaiveDate` holds, December 31 of 262142.
pub open spec fn last_chrono_day() -> int {
    95745399
}

/// Whether chrono holds the day with this number.
pub open spec fn chrono_day(d: int) -> bool {
    first_chrono_day() <= d <= last_chrono_day()
}

/// The weekday of a day, counted from Monday as 0: day 1, January 1 of year 1, was a Monday.
pub open spec fn weekday_of(d: int) -> int {
    (d - 1) % 7
}

/// A weekday, counted from Monday as 0.
pub open spec fn weekday_index(w: Weekday) -> int {
    match w {
        Weekday::Mon => 0,
        Weekday::Tue => 1,
        Weekday::Wed => 2,
        Weekday::Thu => 3,
        Weekday::Fri => 4,
        Weekday::Sat => 5,
        Weekday::Sun => 6,
    }
}

/// The day number of a date of the proleptic Gregorian calendar: the days are counted in cycles of
/// 400 years, 146097 days each, over years that start on March 1.
pub open spec fn day_number(year: int, month: int, day: int) -> int {
    let y = if month <= 2 {
        year - 1
    } else {
        year
    };
    let era = y / 400;
    let yoe = y - era * 400;
    let mp = if month > 2 {
        month - 3
    } else {
        month + 9
    };
    let doy = (153 * mp + 2) / 5 + day - 1;
    let doe = yoe * 365 + yoe / 4 - yoe / 100 + doy;
    era * 146097 + doe - 305
}

/// The year, month and day of a day number: the inverse of `day_number`.
pub open spec fn civil_date(d: int) -> (int, int, int) {
    let z = d + 305;
    let era = z / 146097;
    let doe = z - era * 146097;
    let yoe = (doe - doe / 1460 + doe / 36524 - doe / 146096) / 365;
    let doy = doe - (365 * yoe + yoe / 4 - yoe / 100);
    let mp = (5 * doy + 2) / 153;
    let day = doy - (153 * mp + 2) / 5 + 1;
    let month = if mp < 10 {
        mp + 3
    } else {
        mp - 9
    };
    let year = yoe + era * 400 + if month <= 2 {
        1int
    } else {
        0int
    };
    (year, month, day)
}

/// Whether a year of the proleptic Gregorian calendar is a leap year.
pub open spec fn leap_year(y: int) -> bool {
    y % 4 == 0 && (y % 100 != 0 || y % 400 == 0)
}

/// The number of days of a month.
pub open spec fn month_length(y: int, m: int) -> int {
    if m == 2 {
        if leap_year(y) {
            29
        } else {
            28
        }
    } else if m == 4 || m == 6 || m == 9 || m == 11 {
        30
    } else {
        31
    }
}

/// The first day of the month of a day, where chrono holds the day.
pub open spec fn first_of_month(days: i32) -> Option<i32> {
    if chrono_day(days as int) {
        Some((days - (civil_date(days as int).2 - 1)) as i32)
    } else {
        None
    }
}

/// The day `k` months from a day: the same day of the month, or the last day of a shorter month,
/// where chrono holds both days.
pub open spec fn months_from(days: i32, k: int) -> Option<i32> {
    let (y, m, d) = civil_date(days as int);
    let total = y * 12 + m - 1 + k;
    let year = total / 12;
    let month = total % 12 + 1;
    let day = if d > month_length(year, month) {
        month_length(year, month)
    } else {
        d
    };
    if chrono_day(days as int) && -262143 <= year <= 262142 {
        Some(day_number(year, month, day) as i32)
    } else {
        None
    }
}

/// The day `n` months after a day.
pub open spec fn months_after(days: i32, n: u32) -> Option<i32> {
    months_from(days, n as int)
}

/// The day `n` months before a day.
pub open spec fn months_before(days: i32, n: u32) -> Option<i32> {
    months_from(days, -(n as int))
}

/// The day `n` days before a day, where chrono holds both.
pub open spec fn days_before(days: i32, n: u64) -> Option<i32> {
    if chrono_day(days as int) && chrono_day(days - n) {
        Some((days - n) as i32)
    } else {
        None
    }
}

/// The first day of the week of a day, for weeks starting on `start`: the latest day on or before
/// it that falls on `start`, where chrono holds both.
pub open spec fn week_first_day(days: i32, start: Weekday) -> Option<i32> {
    let first = days - (weekday_of(days as int) - weekday_index(start)) % 7;
    if chrono_day(days as int) && chrono_day(first) {
        Some(first as i32)
    } else {
        None
    }
}

/// The last day of the week of a day, for weeks starting on `start`: the earliest day on or after
/// it that falls on the weekday before `start`, where chrono holds both.
pub open spec fn week_last_day(days: i32, start: Weekday) -> Option<i32> {
    let end = (weekday_index(start) + 6) % 7;
    let last = days + (end - weekday_of(days as int)) % 7;
    if chrono_day(days as int) && chrono_day(last) {
        Some(last as i32)
    } else {
        None
    }
}

/// The first day of the month of a day: `chrono::NaiveDate::with_day(1)`, counted from
/// January 1 of year 1 as day 1; `None` where chrono does not hold the day.
#[verifier::external_body]
fn month_start(days: i32) -> (r: Option<i32>)
    ensures
        r == first_of_month(days),
{
    chrono::NaiveDate::from_num_days_from_ce_opt(days)?.with_day(1).map(|d| d.num_days_from_ce())
}

/// `chrono::NaiveDate::checked_add_months` with `Months::new(n)`, counted in days: the same day
/// `n` months later, clamped to the end of a shorter month; `None` where chrono does not hold a
/// day.
#[verifier::external_body]
fn add_months(days: i32, n: u32) -> (r: Option<i32>)
    ensures
        r == months_after(days, n),
{
    chrono::NaiveDate::from_num_days_from_ce_opt(days)?.checked_add_months(chrono::Months::new(n)).map(|d| d.num_days_from_ce())
}

/// `chrono::NaiveDate::checked_sub_months` with `Months::new(n)`, counted in days: the same day
/// `n` months earlier, clamped to the end of a shorter month; `None` where chrono does not hold a
/// day.
#[verifier::external_body]
fn sub_months(days: i32, n: u32) -> (r: Option<i32>)
    ensures
        r == months_before(days, n),
{
    chrono::NaiveDate::from_num_days_from_ce_opt(days)?.checked_sub_months(chrono::Months::new(n)).map(|d| d.num_days_from_ce())
}

/// `chrono::NaiveDate::checked_sub_days` with `Days::new(n)`, counted in days: the day `n`
/// days earlier, where chrono holds both days.
#[verifier::external_body]
fn sub_days(days: i32, n: u64) -> (r: Option<i32>)
    ensures
        r == days_before(days, n),
{
    chrono::NaiveDate::from_num_days_from_ce_opt(days)?.checked_sub_days(chrono::Days::new(n)).map(|d| d.num_days_from_ce())
}

/// `chrono::NaiveDate::week(start).checked_first_day()`, counted in days: the source steps back
/// from the day by its weekday's distance from `start`, modulo 7, and gives `None` where chrono does
/// not hold the result.
#[verifier::external_body]
fn first_day_of_week(days: i32, start: Weekday) -> (r: Option<i32>)
    ensures
        r == week_first_day(days, start),
{
    let start = match start {
        Weekday::Mon => chrono::Weekday::Mon,
        Weekday::Tue => chrono::Weekday::Tue,
        Weekday::Wed => chrono::Weekday::Wed,
        Weekday::Thu => chrono::Weekday::Thu,
        Weekday::Fri => chrono::Weekday::Fri,
        Weekday::Sat => chrono::Weekday::Sat,
        Weekday::Sun => chrono::Weekday::Sun,
    };
    let date = chrono::NaiveDate::from_num_days_from_ce_opt(days)?;
    date.week(start).checked_first_day().map(|d| d.num_days_from_ce())
}

/// `chrono::NaiveDate::week(start).checked_last_day()`, counted in days: the source steps on from
/// the day to the weekday before `start`, modulo 7, and gives `None` where chrono does not hold the
/// result.
#[verifier::external_body]
fn last_day_of_week(days: i32, start: Weekday) -> (r: Option<i32>)
    ensures
        r == week_last_day(days, start),
{
    let start = match start {
        Weekday::Mon => chrono::Weekday::Mon,
        Weekday::Tue => chrono::Weekday::Tue,
        Weekday::Wed => chrono::Weekday::Wed,
        Weekday::Thu => chrono::Weekday::Thu,
        Weekday::Fri => chrono::Weekday::Fri,
        Weekday::Sat => chrono::Weekday::Sat,
        Weekday::Sun => chrono::Weekday::Sun,
    };
    let date = chrono::NaiveDate::from_num_days_from_ce_opt(days)?;
    date.week(start).checked_last_day().map(|d| d.num_days_from_ce())
}

/// The span a calendar shows for a day: the first of its month, and the first and last day of
/// the weeks that hold that month. Where a day is out of range, the day itself for all three.
pub open spec fn span_of(date: Date, start: Weekday) -> (Date, Date, Date) {
    let month = first_of_month(date.days);
    let end = match month {
        Some(m) => match months_after(m, 1) {
            Some(n) => days_before(n, 1),
            None => None,
        },
        None => None,
    };
    let first = match month {
        Some(m) => week_first_day(m, start),
        None => None,
    };
    let last = match end {
        Some(e) => week_last_day(e, start),
        None => None,
    };
    match (month, first, last) {
        (Some(m), Some(f), Some(l)) => (Date { days: m }, Date { days: f }, Date { days: l }),
        _ => (date, date, date),
    }
}

/// The span for a day, computed.
fn build_span(date: Date, start: Weekday) -> (r: (Date, Date, Date))
    ensures
        r == span_of(date, start),
{
    let month = month_start(date.days);
    let end = match month {
        Some(m) => match add_months(m, 1) {
            Some(n) => sub_days(n, 1),
            None => None,
        },
        None => None,
    };
    let first = match month {
        Some(m) => first_day_of_week(m, start),
        None => None,
    };
    let last = match end {
        Some(e) => last_day_of_week(e, start),
        None => None,
    };
    match (month, first, last) {
        (Some(m), Some(f), Some(l)) => (Date { days: m }, Date { days: f }, Date { days: l }),
        _ => (date, date, date),
    }
}

/// What the user does with a calendar.
#[derive(Clone, Copy, Debug, PartialEq, Eq, Structural)]
pub enum CalendarMessage {
    /// Pick a day.
    PickDay(Date),
    /// Show the month before.
    PrevMonth,
    /// Show the month after.
    NextMonth,
}

/// A month calendar with a picked day.
#[derive(Clone, Copy, Debug, PartialEq, Eq, Structural)]
pub struct Calendar {
    /// The day weeks start on.
    pub start_of_week: Weekday,
    /// The picked day.
    pub date: Date,
    /// The first day of the month shown.
    pub month: Date,
    /// The first day shown.
    pub first: Date,
    /// The last day shown.
    pub last: Date,
}

/// A calendar showing the span of a day.
pub open spec fn showing(c: Calendar, day: Date) -> Calendar {
    Calendar {
        month: span_of(day, c.start_of_week).0,
        first: span_of(day, c.start_of_week).1,
        last: span_of(day, c.start_of_week).2,
        ..c
    }
}

/// The calendar after a message.
pub open spec fn calendar_step(c: Calendar, m: CalendarMessage) -> Calendar {
    match m {
        CalendarMessage::PickDay(d) => showing(Calendar { date: d, ..c }, d),
        CalendarMessage::PrevMonth => match months_before(c.month.days, 1) {
            Some(p) => showing(c, Date { days: p }),
            None => c,
        },
        CalendarMessage::NextMonth => match months_after(c.month.days, 1) {
            Some(n) => showing(c, Date { days: n }),
            None => c,
        },
    }
}

impl Calendar {
    /// A calendar with the given day picked, showing its month.
    pub fn new(date: Date, start_of_week: Weekday) -> (c: Calendar)
        ensures
            c == showing(
                Calendar { start_of_week, date, month: date, first: date, last: date },
                date,
            ),
    {
        let (month, first, last) = build_span(date, start_of_week);
        Calendar { start_of_week, date, month, first, last }
    }

    /// Handles a message: a picked day is shown with its month; the months before and after
    /// are shown where chrono has them.
    pub fn update(&mut self, message: CalendarMessage)
        ensures
            *final(self) == calendar_step(*old(self), message),
    {
        match message {
            CalendarMessage::PickDay(date) => {
                self.date = date;
                self.show(date);
            },
            CalendarMessage::PrevMonth => {
                if let Some(p) = sub_months(self.month.days, 1) {
                    self.show(Date { days: p });
                }
            },
            CalendarMessage::NextMonth => {
                if let Some(n) = add_months(self.month.days, 1) {
                    self.show(Date { days: n });
                }
            },
        }
    }

    fn show(&mut self, day: Date)
        ensures
            *final(self) == showing(*old(self), day),
    {
        let (month, first, last) = build_span(day, self.start_of_week);
        self.month = month;
        self.first = first;
        self.last = last;
    }

    /// The days shown, from the first to the last, one by one.
    pub fn days(&self) -> (r: Vec<Date>)
        ensures
            r@.len() == (if self.first.days <= self.last.days {
                self.last.days - self.first.days + 1
            } else {
                0
            }),
            forall|i: int| 0 <= i < r@.len() ==> #[trigger] r@[i] == (Date { days: (self.first.days + i) as i32 }),
    {
        let mut r: Vec<Date> = Vec::new();
        if self.first.days > self.last.days {
            return r;
        }
        let mut d: i32 = self.first.days;
        loop
            invariant
                self.first.days <= d <= self.last.days,
                r@.len() == d - self.first.days,
                forall|i: int| 0 <= i < r@.len() ==> #[trigger] r@[i] == (Date { days: (self.first.days + i) as i32 }),
            decreases self.last.days - d,
        {
            r.push(Date { days: d });
            if d == self.last.days {
                return r;
            }
            d = d + 1;
        }
    }
}

/// Picking a day shows it: the picked day is the one given, and the month shown is that of the
/// day wherever chrono has its span.
pub proof fn lemma_pick_shows_day(c: Calendar, d: Date)
    ensures
        calendar_step(c, CalendarMessage::PickDay(d)).date == d,
        calendar_step(c, CalendarMessage::PickDay(d)).start_of_week == c.start_of_week,
        calendar_step(c, CalendarMessage::PickDay(d)).month == span_of(d, c.start_of_week).0,
{
}

/// Turning the month keeps the picked day and the start of the week.
pub proof fn lemma_turning_keeps_pick(c: Calendar)
    ensures
        calendar_step(c, CalendarMessage::PrevMonth).date == c.date,
        calendar_step(c, CalendarMessage::NextMonth).date == c.date,
        calendar_step(c, CalendarMessage::PrevMonth).start_of_week == c.start_of_week,
        calendar_step(c, CalendarMessage::NextMonth).start_of_week == c.start_of_week,
{
}

} // verus!
