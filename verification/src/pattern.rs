//! Reminder patterns bound to a time zone: every date is concrete, and the
//! next firing moment can be computed from them.

use crate::calendar::{
    add_date_interval, find_nearest_weekday, nearest_weekday, nonempty_from_vec,
    plus_date_interval, Date, Time,
};
use crate::calendar_proofs::{lemma_order_is_day_order, lemma_plus_date_interval};
use crate::countdown::Countdown;
use crate::interval::{DateInterval, TimeInterval};
use crate::weekdays::{lemma_empty_list, Weekdays};
use crate::zone::Tz;
use vstd::prelude::*;

verus! {

/// What divides a range of dates into the dates that fire: a set of
/// weekdays, or a step.
#[derive(Clone, Copy, Debug)]
pub enum DateDivisor {
    Weekdays(Weekdays),
    Interval(DateInterval),
}

/// A range of dates with its divisor; open at the end where `until` is none.
#[derive(Clone, Copy, Debug)]
pub struct DateRange {
    pub from: Date,
    pub until: Option<Date>,
    pub date_divisor: DateDivisor,
}

/// A single date or a range of dates.
#[derive(Clone, Copy, Debug)]
pub enum DatePattern {
    Point(Date),
    Range(DateRange),
}

/// A range of times of day with its step; it starts at midnight where `from`
/// is none and is open at the end where `until` is none.
#[derive(Clone, Copy, Debug)]
pub struct TimeRange {
    pub from: Option<Time>,
    pub until: Option<Time>,
    pub interval: TimeInterval,
}

/// A single time of day or a range of times.
#[derive(Clone, Copy, Debug)]
pub enum TimePattern {
    Point(Time),
    Range(TimeRange),
}

/// A reminder that fires on the dates of its date patterns at the times of
/// its time patterns, read on the wall clock of its zone.
#[derive(Debug)]
pub struct Recurrence {
    pub dates_patterns: Vec<DatePattern>,
    pub time_patterns: Vec<TimePattern>,
    pub timezone: Tz,
}

/// A reminder pattern bound to a time zone.
#[derive(Debug)]
pub enum Pattern {
    Recurrence(Recurrence),
    Countdown(Countdown),
}

/// Whether `date` is no later than the end `until`, if there is one.
pub open spec fn date_within(until: Option<Date>, date: Date) -> bool {
    match until {
        Some(u) => date.key() <= u.key(),
        None => true,
    }
}

/// Whether `time` is no later than the end `until`, if there is one.
pub open spec fn time_within(until: Option<Time>, time: Time) -> bool {
    match until {
        Some(u) => time.secs() <= u.secs(),
        None => true,
    }
}

/// How far `from` lies before `target`, in days; 0 where it does not.
pub open spec fn days_short(from: Date, target: Date) -> int {
    if from.key() >= target.key() {
        0
    } else {
        target.days_from_ce() - from.days_from_ce()
    }
}

/// The first of `from`, `from` moved by `step`, that moved by `step` again,
/// and so on, that is not before `target`; none where the calendar ends
/// before.
pub open spec fn stepped_date(from: Date, step: DateInterval, target: Date) -> Option<Date>
    decreases days_short(from, target),
    when from.wf() && target.wf() && step.positive()
{
    if from.key() >= target.key() {
        Some(from)
    } else {
        match plus_date_interval(from, step) {
            Some(next) => {
                proof {
                    lemma_plus_date_interval(from, step);
                    lemma_order_is_day_order(from, target);
                    lemma_order_is_day_order(from, next);
                    lemma_order_is_day_order(next, target);
                }
                stepped_date(next, step, target)
            },
            None => None,
        }
    }
}

impl DateDivisor {
    /// A set of weekdays is not empty; a step moves a date forward.
    pub open spec fn wf(self) -> bool {
        match self {
            DateDivisor::Weekdays(days) => !days.empty(),
            DateDivisor::Interval(step) => step.positive(),
        }
    }
}

impl DateRange {
    /// The dates exist, the range does not end before it starts, and the
    /// divisor is well formed.
    pub open spec fn wf(self) -> bool {
        &&& self.from.wf()
        &&& self.until matches Some(u) ==> u.wf() && self.from.key() <= u.key()
        &&& self.date_divisor.wf()
    }

    /// The first date of the range's raster that is not before `date`,
    /// whatever the range's end: for weekdays, the first date from `date` on
    /// that falls on one of them; for a step, the first of the dates reached
    /// from the range's start by repeated steps.
    pub open spec fn raster_date(self, date: Date) -> Option<Date> {
        match self.date_divisor {
            DateDivisor::Weekdays(days) => nearest_weekday(date, days.day_list()),
            DateDivisor::Interval(step) => stepped_date(self.from, step, date),
        }
    }

    /// The first date of the range's raster that is not before `date`; none
    /// where that date lies after the range's end.
    pub open spec fn nearest_date(self, date: Date) -> Option<Date> {
        match self.raster_date(date) {
            Some(d) => if date_within(self.until, d) {
                Some(d)
            } else {
                None
            },
            None => None,
        }
    }

    /// The first date of the range's raster that is not before `date`; none
    /// where that date lies after the range's end, or beyond the calendar.
    pub fn get_nearest_date(&self, date: Date) -> (r: Option<Date>)
        requires
            self.wf(),
            date.wf(),
        ensures
            r == self.nearest_date(date),
            r matches Some(d) ==> d.wf() && d.key() >= date.key() && date_within(self.until, d),
    {
        let found = match self.date_divisor {
            DateDivisor::Weekdays(weekdays) => {
                proof {
                    lemma_empty_list(weekdays);
                }
                match nonempty_from_vec(weekdays.to_list()) {
                    Some(list) => find_nearest_weekday(date, &list),
                    None => None,
                }
            },
            DateDivisor::Interval(step) => {
                let mut nearest_date = self.from;
                while nearest_date.lt(&date)
                    invariant
                        self.wf(),
                        nearest_date.wf(),
                        date.wf(),
                        step.positive(),
                        self.date_divisor == DateDivisor::Interval(step),
                        stepped_date(self.from, step, date) == stepped_date(
                            nearest_date,
                            step,
                            date,
                        ),
                    decreases days_short(nearest_date, date),
                {
                    proof {
                        lemma_plus_date_interval(nearest_date, step);
                        lemma_order_is_day_order(nearest_date, date);
                    }
                    match add_date_interval(nearest_date, &step) {
                        Some(next) => {
                            proof {
                                lemma_order_is_day_order(nearest_date, next);
                                lemma_order_is_day_order(next, date);
                            }
                            nearest_date = next;
                        },
                        None => {
                            return None;
                        },
                    }
                }
                Some(nearest_date)
            },
        };
        match found {
            Some(d) => {
                let inside = match self.until {
                    Some(until) => d.le(&until),
                    None => true,
                };
                if inside {
                    Some(d)
                } else {
                    None
                }
            },
            None => None,
        }
    }
}

impl TimeRange {
    /// The bounds are times of day, the range does not end before it
    /// starts, and the step is more than nothing.
    pub open spec fn wf(self) -> bool {
        &&& self.from matches Some(f) ==> f.wf()
        &&& self.until matches Some(u) ==> u.wf() && self.start().secs() <= u.secs()
        &&& self.interval.secs() > 0
    }

    /// Where the range starts: at `from`, or at midnight.
    pub open spec fn start(self) -> Time {
        match self.from {
            Some(f) => f,
            None => Time { hour: 0, minute: 0, second: 0 },
        }
    }

    /// Where the range starts: at `from`, or at midnight.
    pub fn start_time(&self) -> (r: Time)
        ensures
            r == self.start(),
    {
        match self.from {
            Some(f) => f,
            None => Time::midnight(),
        }
    }
}

impl DatePattern {
    /// The dates of the pattern are well formed.
    pub open spec fn wf(self) -> bool {
        match self {
            DatePattern::Point(d) => d.wf(),
            DatePattern::Range(r) => r.wf(),
        }
    }

    /// The first date of the pattern.
    pub open spec fn first(self) -> Date {
        match self {
            DatePattern::Point(d) => d,
            DatePattern::Range(r) => r.from,
        }
    }
}

impl TimePattern {
    /// The times of the pattern are well formed.
    pub open spec fn wf(self) -> bool {
        match self {
            TimePattern::Point(t) => t.wf(),
            TimePattern::Range(r) => r.wf(),
        }
    }

    /// The first time of the pattern.
    pub open spec fn first(self) -> Time {
        match self {
            TimePattern::Point(t) => t,
            TimePattern::Range(r) => r.start(),
        }
    }
}

impl Recurrence {
    /// There is a date pattern, every pattern is well formed, and the date
    /// patterns come in the order of their first dates.
    pub open spec fn wf(self) -> bool {
        &&& self.dates_patterns@.len() > 0
        &&& forall|i: int|
            0 <= i < self.time_patterns@.len() ==> (#[trigger] self.time_patterns@[i]).wf()
        &&& dates_in_order(self.dates_patterns@)
    }
}

/// Every date pattern is well formed, and the patterns come in the order
/// of their first dates.
pub open spec fn dates_in_order(patterns: Seq<DatePattern>) -> bool {
    &&& forall|i: int| 0 <= i < patterns.len() ==> (#[trigger] patterns[i]).wf()
    &&& forall|i: int, j: int|
        0 <= i <= j < patterns.len() ==> (#[trigger] patterns[i]).first().key() <= (
        #[trigger] patterns[j]).first().key()
}

} // verus!
