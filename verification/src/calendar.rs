//! Calendar values and primitives: dates of the proleptic Gregorian calendar,
//! times of day in whole seconds, and the arithmetic the engine needs on them.

use crate::interval::{DateInterval, Interval};
use crate::calendar_proofs::{
    lemma_day_count_injective, lemma_month_table, lemma_order_is_day_order, lemma_shifted_leaps,
};
use chrono::Datelike;
use nonempty::NonEmpty;
use vstd::prelude::*;

verus! {

/// The earliest year a [`Date`] can carry.
pub const MIN_YEAR: i32 = -262143;

/// The latest year a [`Date`] can carry.
pub const MAX_YEAR: i32 = 262142;

/// Whether `year` is a leap year: divisible by 4, and not by 100 unless by 400.
pub open spec fn is_leap(year: int) -> bool {
    year % 4 == 0 && (year % 100 != 0 || year % 400 == 0)
}

/// The number of days of `month` (1 to 12) in `year`.
pub open spec fn month_len(month: int, year: int) -> int {
    if month == 2 {
        if is_leap(year) {
            29
        } else {
            28
        }
    } else if month == 4 || month == 6 || month == 9 || month == 11 {
        30
    } else {
        31
    }
}

/// The number of days of `year`.
pub open spec fn year_len(year: int) -> int {
    if is_leap(year) {
        366
    } else {
        365
    }
}

/// The number of days from January 1 of year 1 up to, and without, January 1 of `year`.
pub open spec fn days_before_year(year: int) -> int {
    365 * (year - 1) + (year - 1) / 4 - (year - 1) / 100 + (year - 1) / 400
}

/// The number of days of `year` that lie before the first day of `month`.
pub open spec fn days_before_month(month: int, year: int) -> int
    decreases month,
{
    if month <= 1 {
        0
    } else {
        days_before_month(month - 1, year) + month_len(month - 1, year)
    }
}

/// A calendar date.
#[derive(Clone, Copy, Debug, PartialEq, Eq, Structural)]
pub struct Date {
    pub year: i32,
    pub month: u32,
    pub day: u32,
}

/// A time of day, in whole seconds.
#[derive(Clone, Copy, Debug, PartialEq, Eq, Structural)]
pub struct Time {
    pub hour: u32,
    pub minute: u32,
    pub second: u32,
}

/// A date together with a time of day. Whether it is read as UTC or as the
/// wall clock of some zone is up to the place that uses it.
#[derive(Clone, Copy, Debug, PartialEq, Eq, Structural)]
pub struct DateTime {
    pub date: Date,
    pub time: Time,
}

impl Date {
    /// The date exists in the calendar and its year is in range.
    pub open spec fn wf(self) -> bool {
        &&& MIN_YEAR <= self.year <= MAX_YEAR
        &&& 1 <= self.month <= 12
        &&& 1 <= self.day <= month_len(self.month as int, self.year as int)
    }

    /// A number that orders dates as the calendar does: year first, then
    /// month, then day.
    pub open spec fn key(self) -> int {
        (self.year * 12 + self.month) * 32 + self.day
    }

    /// The day's number, counting January 1 of year 1 as day 1.
    pub open spec fn days_from_ce(self) -> int {
        days_before_year(self.year as int) + days_before_month(self.month as int, self.year as int)
            + self.day
    }

    /// The day of the week, counted from Monday as 0 to Sunday as 6.
    pub open spec fn weekday(self) -> int {
        (self.days_from_ce() - 1) % 7
    }

    /// The last date that can be represented.
    pub open spec fn latest() -> Date {
        Date { year: MAX_YEAR, month: 12, day: 31 }
    }

    /// The well-formed date whose day count is `n`.
    pub open spec fn of_day_count(n: int) -> Date {
        choose|d: Date| d.wf() && d.days_from_ce() == n
    }

    /// The date `days` days after `self`; none where that lies beyond the
    /// last date that can be represented.
    pub open spec fn plus_days(self, days: int) -> Option<Date> {
        if self.days_from_ce() + days <= Date::latest().days_from_ce() {
            Some(Date::of_day_count(self.days_from_ce() + days))
        } else {
            None
        }
    }
}

impl Time {
    /// Hour, minute and second are in range.
    pub open spec fn wf(self) -> bool {
        self.hour < 24 && self.minute < 60 && self.second < 60
    }

    /// Seconds since midnight.
    pub open spec fn secs(self) -> int {
        self.hour * 3600 + self.minute * 60 + self.second
    }

    /// The time that lies `secs` seconds after midnight.
    pub open spec fn of_secs(secs: int) -> Time {
        Time {
            hour: (secs / 3600) as u32,
            minute: ((secs % 3600) / 60) as u32,
            second: (secs % 60) as u32,
        }
    }
}

impl DateTime {
    /// Both parts are well formed.
    pub open spec fn wf(self) -> bool {
        self.date.wf() && self.time.wf()
    }

    /// A number that orders date-times: by date, then by time of day.
    pub open spec fn key(self) -> int {
        self.date.key() * 86400 + self.time.secs()
    }
}

/// Whether `year` is a leap year.
pub fn is_leap_year(year: i32) -> (r: bool)
    ensures
        r == is_leap(year as int),
{
    year % 4 == 0 && (year % 100 != 0 || year % 400 == 0)
}

/// The number of days of `month` in `year`.
pub fn days_in_month(month: u32, year: i32) -> (r: u32)
    requires
        1 <= month <= 12,
    ensures
        r == month_len(month as int, year as int),
        28 <= r <= 31,
{
    if month == 2 {
        if is_leap_year(year) {
            29
        } else {
            28
        }
    } else if month == 4 || month == 6 || month == 9 || month == 11 {
        30
    } else {
        31
    }
}

/// The number of days of `year`.
pub fn days_in_year(year: i32) -> (r: u32)
    ensures
        r == year_len(year as int),
{
    if is_leap_year(year) {
        366
    } else {
        365
    }
}

impl Date {
    /// The date with these fields, if there is one.
    pub fn from_ymd_opt(year: i32, month: u32, day: u32) -> (r: Option<Date>)
        ensures
            r == (if (Date { year, month, day }).wf() {
                Some(Date { year, month, day })
            } else {
                None
            }),
    {
        if year < MIN_YEAR || year > MAX_YEAR || month < 1 || month > 12 || day < 1 {
            return None;
        }
        if day > days_in_month(month, year) {
            return None;
        }
        Some(Date { year, month, day })
    }

    /// Whether `self` is an earlier date than `other`.
    pub fn lt(&self, other: &Date) -> (r: bool)
        requires
            self.wf(),
            other.wf(),
        ensures
            r == (self.key() < other.key()),
    {
        self.year < other.year || (self.year == other.year && (self.month < other.month || (
        self.month == other.month && self.day < other.day)))
    }

    /// Whether `self` is `other` or an earlier date.
    pub fn le(&self, other: &Date) -> (r: bool)
        requires
            self.wf(),
            other.wf(),
        ensures
            r == (self.key() <= other.key()),
    {
        !other.lt(self)
    }
}

impl Time {
    /// The time with these fields, if there is one.
    pub fn from_hms_opt(hour: u32, minute: u32, second: u32) -> (r: Option<Time>)
        ensures
            r == (if (Time { hour, minute, second }).wf() {
                Some(Time { hour, minute, second })
            } else {
                None
            }),
    {
        if hour < 24 && minute < 60 && second < 60 {
            Some(Time { hour, minute, second })
        } else {
            None
        }
    }

    /// Midnight.
    pub fn midnight() -> (r: Time)
        ensures
            r == (Time { hour: 0, minute: 0, second: 0 }),
    {
        Time { hour: 0, minute: 0, second: 0 }
    }

    /// Seconds since midnight.
    pub fn seconds_from_midnight(&self) -> (r: u32)
        requires
            self.wf(),
        ensures
            r == self.secs(),
            r < 86400,
    {
        self.hour * 3600 + self.minute * 60 + self.second
    }

    /// The time that lies `secs` seconds after midnight.
    pub fn from_seconds(secs: u32) -> (r: Time)
        requires
            secs < 86400,
        ensures
            r == Time::of_secs(secs as int),
            r.wf(),
            r.secs() == secs,
    {
        Time { hour: secs / 3600, minute: (secs % 3600) / 60, second: secs % 60 }
    }

    /// Whether `self` is earlier in the day than `other`.
    pub fn lt(&self, other: &Time) -> (r: bool)
        requires
            self.wf(),
            other.wf(),
        ensures
            r == (self.secs() < other.secs()),
    {
        self.seconds_from_midnight() < other.seconds_from_midnight()
    }

    /// Whether `self` is `other` or earlier in the day.
    pub fn le(&self, other: &Time) -> (r: bool)
        requires
            self.wf(),
            other.wf(),
        ensures
            r == (self.secs() <= other.secs()),
    {
        self.seconds_from_midnight() <= other.seconds_from_midnight()
    }
}

impl DateTime {
    /// Whether `self` is an earlier moment than `other`.
    pub fn lt(&self, other: &DateTime) -> (r: bool)
        requires
            self.wf(),
            other.wf(),
        ensures
            r == (self.key() < other.key()),
    {
        self.date.lt(&other.date) || (self.date == other.date && self.time.lt(&other.time))
    }
}

/// Calls chrono's `NaiveDate::checked_add_days`. Trusted: the call succeeds
/// exactly when the day `days` days after `date` is no later than the last
/// date chrono represents, December 31 of [`MAX_YEAR`], and then returns that
/// day, a date of the calendar whose day count is that of `date` plus `days`.
#[verifier::external_body]
fn chrono_add_days(date: Date, days: u64) -> (r: Option<Date>)
    requires
        date.wf(),
    ensures
        r is Some <==> date.days_from_ce() + days <= Date::latest().days_from_ce(),
        r matches Some(d) ==> d.wf() && d.days_from_ce() == date.days_from_ce() + days,
{
    let naive = chrono::NaiveDate::from_ymd_opt(date.year, date.month, date.day)?;
    let moved = naive.checked_add_days(chrono::Days::new(days))?;
    Some(Date { year: moved.year(), month: moved.month(), day: moved.day() })
}

/// Calls chrono's `NaiveDate::weekday` and `Weekday::num_days_from_monday`.
/// Trusted: the result is the day of the week of `date`, Monday being 0, which
/// is the day count less one, modulo 7 (January 1 of year 1 is a Monday).
#[verifier::external_body]
fn chrono_weekday(date: Date) -> (r: Option<u32>)
    requires
        date.wf(),
    ensures
        r == Some(date.weekday() as u32),
{
    let naive = chrono::NaiveDate::from_ymd_opt(date.year, date.month, date.day)?;
    Some(naive.weekday().num_days_from_monday())
}

impl Date {
    /// The date `days` days after `self`, if it can be represented.
    pub fn add_days(&self, days: u64) -> (r: Option<Date>)
        requires
            self.wf(),
        ensures
            r == self.plus_days(days as int),
            r matches Some(d) ==> d.wf() && d.days_from_ce() == self.days_from_ce() + days
                && d.key() >= self.key() && (days > 0 ==> d.key() > self.key()),
    {
        let r = chrono_add_days(*self, days);
        proof {
            if let Some(d) = r {
                let e = Date::of_day_count(self.days_from_ce() + days);
                lemma_day_count_injective(d, e);
                lemma_order_is_day_order(*self, d);
            }
        }
        r
    }

    /// The day's number, counting January 1 of year 1 as day 1.
    pub fn day_count(&self) -> (r: i64)
        requires
            self.wf(),
        ensures
            r == self.days_from_ce(),
    {
        let year: i64 = self.year as i64;
        let shifted: i64 = year - 1 + 262400;
        let leaps: i64 = shifted / 4 - shifted / 100 + shifted / 400;
        let before_year: i64 = 365 * (year - 1) + leaps - 63632;
        let leap: i64 = if is_leap_year(self.year) {
            1
        } else {
            0
        };
        let before_month: i64 = if self.month == 1 {
            0
        } else if self.month == 2 {
            31
        } else if self.month == 3 {
            59 + leap
        } else if self.month == 4 {
            90 + leap
        } else if self.month == 5 {
            120 + leap
        } else if self.month == 6 {
            151 + leap
        } else if self.month == 7 {
            181 + leap
        } else if self.month == 8 {
            212 + leap
        } else if self.month == 9 {
            243 + leap
        } else if self.month == 10 {
            273 + leap
        } else if self.month == 11 {
            304 + leap
        } else {
            334 + leap
        };
        proof {
            lemma_month_table(self.year as int);
            lemma_shifted_leaps(self.year - 1);
        }
        before_year + before_month + self.day as i64
    }

    /// The day of the week, counted from Monday as 0 to Sunday as 6.
    pub fn weekday_from_monday(&self) -> (r: u32)
        requires
            self.wf(),
        ensures
            r == self.weekday(),
            r < 7,
    {
        match chrono_weekday(*self) {
            Some(w) => w,
            None => 0,
        }
    }
}

/// The non-empty list of the `nonempty` crate, carried as it is.
#[verifier::external_type_specification]
#[verifier::external_body]
#[verifier::reject_recursive_types(T)]
pub struct ExNonEmpty<T>(NonEmpty<T>);

/// The items of a non-empty list of weekday numbers, in their order.
pub uninterp spec fn weekday_list(list: NonEmpty<u32>) -> Seq<u32>;

/// Calls `NonEmpty::from_vec`. Trusted: it returns no list exactly for an
/// empty vector, and otherwise the list of the vector's items in their order.
#[verifier::external_body]
pub(crate) fn nonempty_from_vec(items: Vec<u32>) -> (r: Option<NonEmpty<u32>>)
    ensures
        r is Some <==> items@.len() > 0,
        r matches Some(list) ==> weekday_list(list) == items@,
{
    NonEmpty::from_vec(items)
}

/// Calls `NonEmpty::contains`. Trusted: it says whether `x` is one of the
/// list's items.
#[verifier::external_body]
fn nonempty_contains(list: &NonEmpty<u32>, x: u32) -> (r: bool)
    ensures
        r == weekday_list(*list).contains(x),
{
    list.contains(&x)
}

/// Whether the day that lies `k` days after the day of count `day_count`
/// falls on a weekday listed in `days`.
pub open spec fn weekday_listed(day_count: int, days: Seq<u32>, k: int) -> bool {
    days.contains(((day_count - 1 + k) % 7) as u32)
}

/// The least `k`, from `from` up to 6, for which the day that lies `k` days
/// after the day of count `day_count` falls on a weekday listed in `days`.
pub open spec fn weekday_offset(day_count: int, days: Seq<u32>, from: int) -> Option<int>
    decreases 7 - from,
{
    if from >= 7 {
        None
    } else if weekday_listed(day_count, days, from) {
        Some(from)
    } else {
        weekday_offset(day_count, days, from + 1)
    }
}

/// The first date from `date` on that falls on a weekday listed in `days`
/// (Monday is 0); none where no listed number is a weekday or the date
/// cannot be represented.
pub open spec fn nearest_weekday(date: Date, days: Seq<u32>) -> Option<Date> {
    match weekday_offset(date.days_from_ce(), days, 0) {
        Some(k) => date.plus_days(k),
        None => None,
    }
}

/// What [`weekday_offset`] finds is the first hit: it is listed, and nothing
/// from `from` up to it is.
pub proof fn lemma_weekday_offset(day_count: int, days: Seq<u32>, from: int)
    requires
        0 <= from,
    ensures
        match weekday_offset(day_count, days, from) {
            Some(k) => from <= k < 7 && weekday_listed(day_count, days, k) && forall|j: int|
                from <= j < k ==> !#[trigger] weekday_listed(day_count, days, j),
            None => forall|j: int|
                from <= j < 7 ==> !#[trigger] weekday_listed(day_count, days, j),
        },
    decreases 7 - from,
{
    if from < 7 && !weekday_listed(day_count, days, from) {
        lemma_weekday_offset(day_count, days, from + 1);
    }
}

/// The first date from `date` on whose weekday, counted from Monday as 0, is
/// in `weekdays`.
pub fn find_nearest_weekday(date: Date, weekdays: &NonEmpty<u32>) -> (r: Option<Date>)
    requires
        date.wf(),
    ensures
        r == nearest_weekday(date, weekday_list(*weekdays)),
        r matches Some(d) ==> d.wf() && d.key() >= date.key() && weekday_list(*weekdays).contains(
            d.weekday() as u32,
        ),
{
    let mut k: u64 = 0;
    while k < 7
        invariant
            k <= 7,
            date.wf(),
            weekday_offset(date.days_from_ce(), weekday_list(*weekdays), 0) == weekday_offset(
                date.days_from_ce(),
                weekday_list(*weekdays),
                k as int,
            ),
        decreases 7 - k,
    {
        proof {
            lemma_weekday_offset(date.days_from_ce(), weekday_list(*weekdays), k as int);
        }
        match date.add_days(k) {
            None => {
                return None;
            },
            Some(d) => {
                let w = d.weekday_from_monday();
                if nonempty_contains(weekdays, w) {
                    return Some(d);
                }
            },
        }
        k += 1;
    }
    None
}

/// `date` moved by `months` whole months, the day clamped to the length of
/// the month reached; none where the year reached is out of range.
pub open spec fn plus_months(date: Date, months: int) -> Option<Date> {
    let total = date.year * 12 + (date.month - 1) + months;
    let year = total / 12;
    let month = total % 12 + 1;
    if MIN_YEAR <= year <= MAX_YEAR {
        Some(
            Date {
                year: year as i32,
                month: month as u32,
                day: if date.day <= month_len(month, year) {
                    date.day
                } else {
                    month_len(month, year) as u32
                },
            },
        )
    } else {
        None
    }
}

/// `date` moved by `step`: first by its years and months, the day clamped to
/// the end of the month reached, then by its weeks and days counted in days.
pub open spec fn plus_date_interval(date: Date, step: DateInterval) -> Option<Date> {
    match plus_months(date, step.month_count()) {
        Some(d) => d.plus_days(step.day_count()),
        None => None,
    }
}

/// `moment` moved by `step`: the date by the calendar part, then the whole
/// by the clock part, counted in seconds.
pub open spec fn plus_interval(moment: DateTime, step: Interval) -> Option<DateTime> {
    match plus_date_interval(moment.date, step.date_part()) {
        Some(d) => {
            let total = moment.time.secs() + step.time_part().secs();
            match d.plus_days(total / 86400) {
                Some(e) => Some(DateTime { date: e, time: Time::of_secs(total % 86400) }),
                None => None,
            }
        },
        None => None,
    }
}

/// Moves `date` by whole months, clamping the day to the end of the month
/// reached.
pub fn add_months(date: Date, months: i64) -> (r: Option<Date>)
    requires
        date.wf(),
    ensures
        r == plus_months(date, months as int),
        r matches Some(d) ==> d.wf() && (months >= 0 ==> d.key() >= date.key()) && (months > 0
            ==> d.key() > date.key()),
{
    let year: i64 = date.year as i64;
    let month: i64 = date.month as i64;
    let total: i64 = match (year * 12 + (month - 1)).checked_add(months) {
        Some(t) => t,
        None => {
            return None;
        },
    };
    let low: i64 = (MIN_YEAR as i64) * 12;
    let high: i64 = (MAX_YEAR as i64) * 12 + 11;
    if total < low || total > high {
        return None;
    }
    let shifted: i64 = total - low;
    let new_year: i32 = (shifted / 12 + (MIN_YEAR as i64)) as i32;
    let new_month: u32 = (shifted % 12 + 1) as u32;
    assert(new_year == total / 12 && new_month == total % 12 + 1);
    let last: u32 = days_in_month(new_month, new_year);
    let new_day: u32 = if date.day <= last {
        date.day
    } else {
        last
    };
    Some(Date { year: new_year, month: new_month, day: new_day })
}

/// Moves `date` by `step`: first by its years and months, with the day
/// clamped to the end of the month reached and never rolling over into the
/// next, then by its weeks and days.
pub fn add_date_interval(date: Date, step: &DateInterval) -> (r: Option<Date>)
    requires
        date.wf(),
    ensures
        r == plus_date_interval(date, *step),
        r matches Some(d) ==> d.wf() && 1 <= d.day <= month_len(d.month as int, d.year as int),
        r matches Some(d) ==> (step.years >= 0 ==> d.key() >= date.key()) && (step.positive()
            ==> d.key() > date.key()),
{
    let years: i64 = step.years as i64;
    let months: i64 = step.months as i64;
    let weeks: u64 = step.weeks as u64;
    let days: u64 = step.days as u64;
    match add_months(date, years * 12 + months) {
        Some(d) => d.add_days(weeks * 7 + days),
        None => None,
    }
}

/// Moves `moment` by `step`: the date as [`add_date_interval`] does, then the
/// whole by the hours, minutes and seconds.
pub fn add_interval(moment: DateTime, step: &Interval) -> (r: Option<DateTime>)
    requires
        moment.wf(),
    ensures
        r == plus_interval(moment, *step),
        r matches Some(m) ==> m.wf(),
{
    match add_date_interval(moment.date, &step.date_interval()) {
        Some(d) => {
            let base: u64 = moment.time.seconds_from_midnight() as u64;
            let total: u64 = base + step.time_interval().total_seconds();
            match d.add_days(total / 86400) {
                Some(e) => {
                    let time = Time::from_seconds((total % 86400) as u32);
                    Some(DateTime { date: e, time })
                },
                None => None,
            }
        },
        None => None,
    }
}

} // verus!
