//! Checks of well-formedness at run time, for values that come from
//! outside and were not built by lowering.

use crate::calendar::{Date, DateTime, Time};
use crate::pattern::{DatePattern, DateRange, Pattern, Recurrence, TimePattern};
use vstd::prelude::*;

verus! {

impl Date {
    /// Whether the date exists in the calendar and its year is in range.
    pub fn is_well_formed(&self) -> (r: bool)
        ensures
            r == self.wf(),
    {
        Date::from_ymd_opt(self.year, self.month, self.day).is_some()
    }
}

impl Time {
    /// Whether hour, minute and second are in range.
    pub fn is_well_formed(&self) -> (r: bool)
        ensures
            r == self.wf(),
    {
        self.hour < 24 && self.minute < 60 && self.second < 60
    }
}

impl DateTime {
    /// Whether the date and the time are well formed.
    pub fn is_well_formed(&self) -> (r: bool)
        ensures
            r == self.wf(),
    {
        self.date.is_well_formed() && self.time.is_well_formed()
    }
}

impl DateRange {
    /// Whether the dates exist, the range does not end before it starts, and
    /// the divisor is well formed.
    pub fn is_well_formed(&self) -> (r: bool)
        ensures
            r == self.wf(),
    {
        if !self.from.is_well_formed() {
            return false;
        }
        let ends_well = match self.until {
            Some(until) => until.is_well_formed() && self.from.le(&until),
            None => true,
        };
        ends_well && self.date_divisor.is_well_formed()
    }
}

impl DatePattern {
    /// Whether the dates of the pattern are well formed.
    pub fn is_well_formed(&self) -> (r: bool)
        ensures
            r == self.wf(),
    {
        match self {
            DatePattern::Point(date) => date.is_well_formed(),
            DatePattern::Range(range) => range.is_well_formed(),
        }
    }

    /// The first date of the pattern.
    pub fn first_date(&self) -> (r: Date)
        ensures
            r == self.first(),
    {
        match self {
            DatePattern::Point(date) => *date,
            DatePattern::Range(range) => range.from,
        }
    }
}

impl TimePattern {
    /// Whether the times of the pattern are well formed.
    pub fn is_well_formed(&self) -> (r: bool)
        ensures
            r == self.wf(),
    {
        match self {
            TimePattern::Point(time) => time.is_well_formed(),
            TimePattern::Range(range) => {
                let from_ok = match range.from {
                    Some(from) => from.is_well_formed(),
                    None => true,
                };
                let until_ok = match range.until {
                    Some(until) => until.is_well_formed(),
                    None => true,
                };
                from_ok && until_ok && range.is_well_formed()
            },
        }
    }
}

impl Recurrence {
    /// Whether there is a date pattern, every pattern is well formed, and
    /// the date patterns come in the order of their first dates.
    pub fn is_well_formed(&self) -> (r: bool)
        ensures
            r == self.wf(),
    {
        if self.dates_patterns.len() == 0 {
            return false;
        }
        let mut i: usize = 0;
        while i < self.dates_patterns.len()
            invariant
                i <= self.dates_patterns@.len(),
                forall|k: int| 0 <= k < i ==> (#[trigger] self.dates_patterns@[k]).wf(),
                forall|a: int, b: int|
                    0 <= a <= b < i ==> (#[trigger] self.dates_patterns@[a]).first().key() <= (
                    #[trigger] self.dates_patterns@[b]).first().key(),
            decreases self.dates_patterns@.len() - i,
        {
            if !self.dates_patterns[i].is_well_formed() {
                return false;
            }
            if i > 0 {
                assert(self.dates_patterns@[i - 1].wf());
                let before = self.dates_patterns[i - 1].first_date();
                let this = self.dates_patterns[i].first_date();
                if this.lt(&before) {
                    assert(self.dates_patterns@[i - 1].first().key()
                        > self.dates_patterns@[i as int].first().key());
                    return false;
                }
            }
            i += 1;
        }
        let mut j: usize = 0;
        while j < self.time_patterns.len()
            invariant
                j <= self.time_patterns@.len(),
                forall|k: int| 0 <= k < j ==> (#[trigger] self.time_patterns@[k]).wf(),
            decreases self.time_patterns@.len() - j,
        {
            if !self.time_patterns[j].is_well_formed() {
                return false;
            }
            j += 1;
        }
        true
    }
}

impl Pattern {
    /// Whether the pattern is well formed.
    pub fn is_well_formed(&self) -> (r: bool)
        ensures
            r == self.wf(),
    {
        match self {
            Pattern::Recurrence(recurrence) => recurrence.is_well_formed(),
            Pattern::Countdown(_) => true,
        }
    }
}

} // verus!
