//! The parsed form of a reminder pattern, before it is bound to a time zone:
//! dates may leave year, month or day open, and nothing has been checked yet.

use vstd::prelude::*;

verus! {

/// A date of which any of year, month and day may be left open.
#[derive(Clone, Copy, Debug, PartialEq, Eq, Structural)]
pub struct HoleyDate {
    pub year: Option<i32>,
    pub month: Option<u32>,
    pub day: Option<u32>,
}

/// A time of day as written, not yet checked.
#[derive(Clone, Copy, Debug, PartialEq, Eq, Structural)]
pub struct Time {
    pub hour: u32,
    pub minute: u32,
    pub second: u32,
}

/// A span of years, months, weeks, days, hours, minutes and seconds.
#[derive(Clone, Copy, Debug, PartialEq, Eq, Structural)]
pub struct Interval {
    pub years: i32,
    pub months: u32,
    pub weeks: u32,
    pub days: u32,
    pub hours: u32,
    pub minutes: u32,
    pub seconds: u32,
}

/// A span of hours, minutes and seconds.
#[derive(Clone, Copy, Debug, PartialEq, Eq, Structural)]
pub struct TimeInterval {
    pub hours: u32,
    pub minutes: u32,
    pub seconds: u32,
}

/// A span of years, months, weeks and days.
#[derive(Clone, Copy, Debug, PartialEq, Eq, Structural)]
pub struct DateInterval {
    pub years: i32,
    pub months: u32,
    pub weeks: u32,
    pub days: u32,
}

/// A set of weekdays as written: bit 0 is Monday, bit 6 is Sunday.
#[derive(Clone, Copy, Debug, PartialEq, Eq, Structural)]
pub struct Weekdays {
    pub bits: u8,
}

/// What divides a range of dates into the dates that fire.
#[derive(Clone, Copy, Debug)]
pub enum DateDivisor {
    Weekdays(Weekdays),
    Interval(DateInterval),
}

/// A range of dates with its divisor.
#[derive(Clone, Copy, Debug)]
pub struct DateRange {
    pub from: HoleyDate,
    pub until: Option<HoleyDate>,
    pub date_divisor: DateDivisor,
}

/// A single date or a range of dates.
#[derive(Clone, Copy, Debug)]
pub enum DatePattern {
    Point(HoleyDate),
    Range(DateRange),
}

/// A range of times of day with its step.
#[derive(Clone, Copy, Debug)]
pub struct TimeRange {
    pub from: Option<Time>,
    pub until: Option<Time>,
    pub interval: TimeInterval,
}

/// A single time of day or a range of times.
#[derive(Clone, Copy, Debug)]
pub enum TimePattern {
    Point(Time),
    Range(TimeRange),
}

/// A reminder that fires on each combination of its dates and times.
#[derive(Debug)]
pub struct Recurrence {
    pub dates_patterns: Vec<DatePattern>,
    pub time_patterns: Vec<TimePattern>,
}

/// A reminder that fires once, a given span from now.
#[derive(Clone, Copy, Debug)]
pub struct Countdown {
    pub duration: Interval,
}

/// A parsed reminder pattern.
#[derive(Debug)]
pub enum ReminderPattern {
    Recurrence(Recurrence),
    Countdown(Countdown),
}

/// The bit that stands for weekday `day`, Monday being 0; no bit for a
/// number that is no weekday.
pub open spec fn day_bit(day: int) -> u8 {
    if day == 0 {
        1
    } else if day == 1 {
        2
    } else if day == 2 {
        4
    } else if day == 3 {
        8
    } else if day == 4 {
        16
    } else if day == 5 {
        32
    } else if day == 6 {
        64
    } else {
        0
    }
}

impl Weekdays {
    /// Whether weekday `day` (Monday is 0) is in the set.
    pub open spec fn has(self, day: int) -> bool {
        self.bits & day_bit(day) != 0
    }

    /// The empty set.
    pub fn none() -> (r: Weekdays)
        ensures
            r.bits == 0,
    {
        Weekdays { bits: 0 }
    }

    /// The set of weekday `day` alone, Monday being 0.
    pub fn single(day: u32) -> (r: Weekdays)
        requires
            day < 7,
        ensures
            r.bits == day_bit(day as int),
    {
        let bits: u8 = 1u8 << day;
        assert(bits == day_bit(day as int)) by (bit_vector)
            requires
                day < 7,
                bits == 1u8 << day,
        ;
        Weekdays { bits }
    }

    /// The set that holds the days of both sets.
    pub fn union(self, other: Weekdays) -> (r: Weekdays)
        ensures
            r.bits == self.bits | other.bits,
    {
        Weekdays { bits: self.bits | other.bits }
    }

    /// Whether every day of `other` is in the set.
    pub fn contains(&self, other: Weekdays) -> (r: bool)
        ensures
            r == (self.bits & other.bits == other.bits),
    {
        self.bits & other.bits == other.bits
    }
}

} // verus!
