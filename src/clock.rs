//! Times of day and calendar dates, as plain numbers, and what the calendar
//! library computes on them.

use chrono::Datelike;
use chrono::NaiveDate;
use chrono::NaiveTime;
use chrono::Timelike;
use vstd::prelude::*;

use crate::text::decimal;
use crate::text::push_decimal;
use crate::text::push_two_digits;
use crate::text::two_digits;

verus! {

/// The first year that a calendar date can have.
pub const MIN_YEAR: i32 = -262143;

/// The last year that a calendar date can have.
pub const MAX_YEAR: i32 = 262142;

/// A time of day, to the minute.
#[derive(Clone, Copy, Debug, PartialEq, Eq, Structural)]
pub struct Time {
    pub hour: u32,
    pub minute: u32,
}

impl Time {
    /// An hour of the day and a minute of the hour.
    pub open spec fn wf(self) -> bool {
        self.hour < 24 && self.minute < 60
    }

    /// Minutes since midnight.
    pub open spec fn minutes(self) -> int {
        self.hour * 60 + self.minute
    }

    /// The time with the given hour and minute, if there is one.
    pub fn from_hm(hour: u32, minute: u32) -> (r: Option<Time>)
        ensures
            r == (if hour < 24 && minute < 60 {
                Some(Time { hour, minute })
            } else {
                None::<Time>
            }),
    {
        if hour < 24 && minute < 60 {
            Some(Time { hour, minute })
        } else {
            None
        }
    }

    /// Minutes since midnight.
    pub fn minutes_since_midnight(&self) -> (r: u32)
        requires
            self.wf(),
        ensures
            r == self.minutes(),
            r < 1440,
    {
        self.hour * 60 + self.minute
    }

    /// Whether `self` lies strictly before `other`.
    pub fn is_before(&self, other: &Time) -> (r: bool)
        requires
            self.wf(),
            other.wf(),
        ensures
            r == (self.minutes() < other.minutes()),
    {
        self.minutes_since_midnight() < other.minutes_since_midnight()
    }
}

/// A time of day as `HH:MM`.
pub open spec fn time_text(t: Time) -> Seq<char> {
    two_digits(t.hour as nat) + seq![':'] + two_digits(t.minute as nat)
}

/// Appends a time of day as `HH:MM`.
pub fn push_time(s: &mut String, t: &Time)
    requires
        t.wf(),
    ensures
        final(s)@ == old(s)@ + time_text(*t),
{
    push_two_digits(s, t.hour as u64);
    proof {
        reveal_strlit(":");
    }
    s.append(":");
    push_two_digits(s, t.minute as u64);
    assert(final(s)@ =~= old(s)@ + time_text(*t));
}

/// A time of day as `HH:MM`.
pub fn format_time(t: &Time) -> (r: String)
    requires
        t.wf(),
    ensures
        r@ == time_text(*t),
{
    let mut s = String::new();
    push_time(&mut s, t);
    assert(s@ =~= time_text(*t));
    s
}

/// A calendar date of the proleptic Gregorian calendar.
#[derive(Clone, Copy, Debug, PartialEq, Eq, Structural)]
pub struct Date {
    pub year: i32,
    pub month: u32,
    pub day: u32,
}

/// Whether `y` is a leap year.
pub open spec fn is_leap_year(y: int) -> bool {
    y % 4 == 0 && (y % 100 != 0 || y % 400 == 0)
}

/// The number of days of a month.
pub open spec fn days_in_month(y: int, m: int) -> int {
    if m == 2 {
        if is_leap_year(y) {
            29
        } else {
            28
        }
    } else if m == 4 || m == 6 || m == 9 || m == 11 {
        30
    } else {
        31
    }
}

/// Whether year, month and day name a date that the calendar can hold.
pub open spec fn valid_ymd(y: int, m: int, d: int) -> bool {
    MIN_YEAR <= y <= MAX_YEAR && 1 <= m <= 12 && 1 <= d <= days_in_month(y, m)
}

/// A date as a triple of year, month and day.
pub open spec fn ymd(d: Date) -> (int, int, int) {
    (d.year as int, d.month as int, d.day as int)
}

impl Date {
    pub open spec fn wf(self) -> bool {
        valid_ymd(self.year as int, self.month as int, self.day as int)
    }
}

/// A number below ten thousand as exactly four digits.
pub open spec fn four_digits(n: nat) -> Seq<char> {
    two_digits(n / 100) + two_digits(n % 100)
}

/// A year as `%Y` writes it: four digits from 0 to 9999; else a sign and at least four
/// digits.
pub open spec fn year_text(y: int) -> Seq<char> {
    if 0 <= y <= 9999 {
        four_digits(y as nat)
    } else if y > 9999 {
        seq!['+'] + decimal(y as nat)
    } else if -y <= 9999 {
        seq!['-'] + four_digits((-y) as nat)
    } else {
        seq!['-'] + decimal((-y) as nat)
    }
}

/// A year and month as `YYYY-MM`.
pub open spec fn month_text(d: Date) -> Seq<char> {
    year_text(d.year as int) + seq!['-'] + two_digits(d.month as nat)
}

/// A date as `YYYY-MM-DD`.
pub open spec fn date_text(d: Date) -> Seq<char> {
    month_text(d) + seq!['-'] + two_digits(d.day as nat)
}

fn push_four_digits(s: &mut String, n: u64)
    requires
        n < 10000,
    ensures
        final(s)@ == old(s)@ + four_digits(n as nat),
{
    push_two_digits(s, n / 100);
    push_two_digits(s, n % 100);
    assert(final(s)@ =~= old(s)@ + four_digits(n as nat));
}

/// Appends a year as `year_text` says.
pub fn push_year(s: &mut String, y: i32)
    requires
        -100_000_000 <= y <= 100_000_000,
    ensures
        final(s)@ == old(s)@ + year_text(y as int),
{
    proof {
        reveal_strlit("-");
        reveal_strlit("+");
    }
    if 0 <= y && y <= 9999 {
        push_four_digits(s, y as u64);
    } else if y > 9999 {
        s.append("+");
        push_decimal(s, y as u64);
    } else if -y <= 9999 {
        s.append("-");
        push_four_digits(s, (-y) as u64);
    } else {
        s.append("-");
        push_decimal(s, (-y) as u64);
    }
    assert(final(s)@ =~= old(s)@ + year_text(y as int));
}

/// Appends a year and month as `YYYY-MM`.
pub fn push_month(s: &mut String, d: &Date)
    requires
        d.wf(),
    ensures
        final(s)@ == old(s)@ + month_text(*d),
{
    push_year(s, d.year);
    proof {
        reveal_strlit("-");
    }
    s.append("-");
    push_two_digits(s, d.month as u64);
    assert(final(s)@ =~= old(s)@ + month_text(*d));
}

/// Appends a date as `YYYY-MM-DD`.
pub fn push_date(s: &mut String, d: &Date)
    requires
        d.wf(),
    ensures
        final(s)@ == old(s)@ + date_text(*d),
{
    push_month(s, d);
    proof {
        reveal_strlit("-");
    }
    s.append("-");
    push_two_digits(s, d.day as u64);
    assert(final(s)@ =~= old(s)@ + date_text(*d));
}

/// A date as `YYYY-MM-DD`.
pub fn format_date(d: &Date) -> (r: String)
    requires
        d.wf(),
    ensures
        r@ == date_text(*d),
{
    let mut s = String::new();
    push_date(&mut s, d);
    assert(s@ =~= date_text(*d));
    s
}

/// The day after a date, where the calendar holds one.
pub open spec fn day_after(d: Date) -> Option<Date> {
    if valid_ymd(d.year as int, d.month as int, d.day + 1) {
        Some(Date { year: d.year, month: d.month, day: (d.day + 1) as u32 })
    } else if d.month < 12 {
        Some(Date { year: d.year, month: (d.month + 1) as u32, day: 1 })
    } else if d.year < MAX_YEAR {
        Some(Date { year: (d.year + 1) as i32, month: 1, day: 1 })
    } else {
        None
    }
}

/// The date `k` days after `d`, where the calendar holds it.
pub open spec fn days_later(d: Date, k: nat) -> Option<Date>
    decreases k,
{
    if k == 0 {
        Some(d)
    } else {
        match days_later(d, (k - 1) as nat) {
            Some(x) => day_after(x),
            None => None,
        }
    }
}

/// The Monday that starts the week of a date, as the calendar library finds it.
pub uninterp spec fn week_start_of(date: (int, int, int)) -> Option<(int, int, int)>;

/// The number of the ISO week of a date, as the calendar library finds it.
pub uninterp spec fn iso_week_of(date: (int, int, int)) -> int;

/// What the calendar library reads from a text under the pattern `%H:%M`.
pub uninterp spec fn parsed_clock_time(s: Seq<char>) -> Option<(int, int)>;

/// Relies on `chrono::NaiveDate::from_ymd_opt`: it gives a date exactly when the year
/// lies in the calendar's range and the month and day exist.
#[verifier::external_body]
pub(crate) fn ymd_exists(year: i32, month: u32, day: u32) -> (r: bool)
    ensures
        r == valid_ymd(year as int, month as int, day as int),
{
    NaiveDate::from_ymd_opt(year, month, day).is_some()
}

/// Relies on `chrono::NaiveDate::succ_opt`: the next calendar date, none after the
/// last date that the calendar holds.
#[verifier::external_body]
pub(crate) fn next_day(d: &Date) -> (r: Option<Date>)
    requires
        d.wf(),
    ensures
        r == day_after(*d),
{
    let next = NaiveDate::from_ymd_opt(d.year, d.month, d.day)?.succ_opt()?;
    Some(Date { year: next.year(), month: next.month(), day: next.day() })
}

/// Relies on `chrono::NaiveWeek::checked_first_day`, for a week that starts on Monday:
/// the Monday on or before the date, so from 0 to 6 days before it; none where the
/// calendar does not hold it.
#[verifier::external_body]
pub(crate) fn week_start(d: &Date) -> (r: Option<Date>)
    requires
        d.wf(),
    ensures
        r is Some ==> r->0.wf(),
        r matches Some(m) ==> exists|k: nat| k < 7 && #[trigger] days_later(m, k) == Some(*d),
        r matches Some(m) ==> week_start_of(ymd(*d)) == Some(ymd(m)),
        r is None ==> week_start_of(ymd(*d)) is None,
{
    let date = NaiveDate::from_ymd_opt(d.year, d.month, d.day)?;
    let first = date.week(chrono::Weekday::Mon).checked_first_day()?;
    Some(Date { year: first.year(), month: first.month(), day: first.day() })
}

/// Relies on `chrono::IsoWeek::week` of `Datelike::iso_week`: the number of the ISO week
/// that holds the date, from 1 to 53.
#[verifier::external_body]
pub(crate) fn iso_week_number(d: &Date) -> (r: Option<u32>)
    ensures
        d.wf() ==> r is Some,
        r matches Some(w) ==> w as int == iso_week_of(ymd(*d)),
        !d.wf() ==> r is None,
        r matches Some(w) ==> 1 <= w <= 53,
{
    Some(NaiveDate::from_ymd_opt(d.year, d.month, d.day)?.iso_week().week())
}

/// Relies on `chrono::NaiveTime::parse_from_str` with the pattern `%H:%M`: what it reads
/// is a time of day.
#[verifier::external_body]
pub(crate) fn parse_clock_time(s: &str) -> (r: Option<Time>)
    ensures
        r matches Some(t) ==> t.wf(),
        r matches Some(t) ==> parsed_clock_time(s@) == Some((t.hour as int, t.minute as int)),
        r is None ==> parsed_clock_time(s@) is None,
{
    let t = NaiveTime::parse_from_str(s, "%H:%M").ok()?;
    Some(Time { hour: t.hour(), minute: t.minute() })
}

} // verus!
