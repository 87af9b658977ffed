//! Step sizes: spans of calendar units and of clock units.

use crate::grammar;
use vstd::prelude::*;
use vstd::std_specs::convert::FromSpecImpl;

verus! {

/// A span of years, months, weeks, days, hours, minutes and seconds.
#[derive(Clone, Copy, Debug, PartialEq, Eq, Structural)]
pub struct Interval {
    pub years: i32,
    pub months: u32,
    pub weeks: u32,
    pub days: u32,
    pub hours: u32,
    pub minutes: u32,
    pub seconds: u32,
}

/// A span of hours, minutes and seconds.
#[derive(Clone, Copy, Debug, PartialEq, Eq, Structural)]
pub struct TimeInterval {
    pub hours: u32,
    pub minutes: u32,
    pub seconds: u32,
}

/// A span of years, months, weeks and days.
#[derive(Clone, Copy, Debug, PartialEq, Eq, Structural)]
pub struct DateInterval {
    pub years: i32,
    pub months: u32,
    pub weeks: u32,
    pub days: u32,
}

impl TimeInterval {
    /// The span in seconds.
    pub open spec fn secs(self) -> int {
        self.hours * 3600 + self.minutes * 60 + self.seconds
    }

    /// The span in seconds.
    pub fn total_seconds(&self) -> (r: u64)
        ensures
            r == self.secs(),
    {
        let h: u64 = self.hours as u64;
        let m: u64 = self.minutes as u64;
        let s: u64 = self.seconds as u64;
        h * 3600 + m * 60 + s
    }
}

impl DateInterval {
    /// The whole months of the span: its years and months together.
    pub open spec fn month_count(self) -> int {
        self.years * 12 + self.months
    }

    /// The days of the span beyond its whole months: its weeks and days together.
    pub open spec fn day_count(self) -> int {
        self.weeks * 7 + self.days
    }

    /// The span moves a date forward: no negative years, and not all parts zero.
    pub open spec fn positive(self) -> bool {
        self.years >= 0 && (self.years > 0 || self.months > 0 || self.weeks > 0 || self.days > 0)
    }

    /// Whether the span moves a date forward.
    pub fn is_positive(&self) -> (r: bool)
        ensures
            r == self.positive(),
    {
        self.years >= 0 && (self.years > 0 || self.months > 0 || self.weeks > 0 || self.days > 0)
    }
}

impl Interval {
    /// The calendar part of the span.
    pub open spec fn date_part(self) -> DateInterval {
        DateInterval { years: self.years, months: self.months, weeks: self.weeks, days: self.days }
    }

    /// The clock part of the span.
    pub open spec fn time_part(self) -> TimeInterval {
        TimeInterval { hours: self.hours, minutes: self.minutes, seconds: self.seconds }
    }

    /// The calendar part of the span.
    pub fn date_interval(&self) -> (r: DateInterval)
        ensures
            r == self.date_part(),
    {
        DateInterval { years: self.years, months: self.months, weeks: self.weeks, days: self.days }
    }

    /// The clock part of the span.
    pub fn time_interval(&self) -> (r: TimeInterval)
        ensures
            r == self.time_part(),
    {
        TimeInterval { hours: self.hours, minutes: self.minutes, seconds: self.seconds }
    }
}

/// The span that was written, part for part.
pub open spec fn lowered_interval(interval: grammar::Interval) -> Interval {
    Interval {
        years: interval.years,
        months: interval.months,
        weeks: interval.weeks,
        days: interval.days,
        hours: interval.hours,
        minutes: interval.minutes,
        seconds: interval.seconds,
    }
}

/// The span of clock units that was written, part for part.
pub open spec fn lowered_time_interval(time_interval: grammar::TimeInterval) -> TimeInterval {
    TimeInterval {
        hours: time_interval.hours,
        minutes: time_interval.minutes,
        seconds: time_interval.seconds,
    }
}

/// The span of calendar units that was written, part for part.
pub open spec fn lowered_date_interval(date_interval: grammar::DateInterval) -> DateInterval {
    DateInterval {
        years: date_interval.years,
        months: date_interval.months,
        weeks: date_interval.weeks,
        days: date_interval.days,
    }
}

impl From<grammar::Interval> for Interval {
    fn from(interval: grammar::Interval) -> (r: Interval) {
        Interval {
            years: interval.years,
            months: interval.months,
            weeks: interval.weeks,
            days: interval.days,
            hours: interval.hours,
            minutes: interval.minutes,
            seconds: interval.seconds,
        }
    }
}

impl FromSpecImpl<grammar::Interval> for Interval {
    open spec fn obeys_from_spec() -> bool {
        true
    }

    open spec fn from_spec(interval: grammar::Interval) -> Interval {
        lowered_interval(interval)
    }
}

impl From<grammar::TimeInterval> for TimeInterval {
    fn from(time_interval: grammar::TimeInterval) -> (r: TimeInterval) {
        TimeInterval {
            hours: time_interval.hours,
            minutes: time_interval.minutes,
            seconds: time_interval.seconds,
        }
    }
}

impl FromSpecImpl<grammar::TimeInterval> for TimeInterval {
    open spec fn obeys_from_spec() -> bool {
        true
    }

    open spec fn from_spec(time_interval: grammar::TimeInterval) -> TimeInterval {
        lowered_time_interval(time_interval)
    }
}

impl From<grammar::DateInterval> for DateInterval {
    fn from(date_interval: grammar::DateInterval) -> (r: DateInterval) {
        DateInterval {
            years: date_interval.years,
            months: date_interval.months,
            weeks: date_interval.weeks,
            days: date_interval.days,
        }
    }
}

impl FromSpecImpl<grammar::DateInterval> for DateInterval {
    open spec fn obeys_from_spec() -> bool {
        true
    }

    open spec fn from_spec(date_interval: grammar::DateInterval) -> DateInterval {
        lowered_date_interval(date_interval)
    }
}

} // verus!
