//! The next firing moment of a pattern after a given moment.

use crate::calendar::{Date, DateTime, Time};
use crate::pattern::{time_within, DatePattern, Pattern, Recurrence, TimePattern, TimeRange};
use crate::zone::{chrono_local_to_utc, chrono_utc_to_local, zone_local_time, zone_utc_time};
use vstd::prelude::*;

verus! {

/// The earlier of two dates that may be missing.
pub open spec fn earlier_date(a: Option<Date>, b: Option<Date>) -> Option<Date> {
    match (a, b) {
        (Some(x), Some(y)) => if y.key() < x.key() {
            b
        } else {
            a
        },
        (Some(_), None) => a,
        (None, _) => b,
    }
}

/// The earlier of two times of day that may be missing.
pub open spec fn earlier_time(a: Option<Time>, b: Option<Time>) -> Option<Time> {
    match (a, b) {
        (Some(x), Some(y)) => if y.secs() < x.secs() {
            b
        } else {
            a
        },
        (Some(_), None) => a,
        (None, _) => b,
    }
}

/// The earliest date among the first `n` candidates; none where all of them
/// are missing.
pub open spec fn earliest_date(candidates: Seq<Option<Date>>, n: int) -> Option<Date>
    decreases n,
{
    if n <= 0 {
        None
    } else {
        earlier_date(earliest_date(candidates, n - 1), candidates[n - 1])
    }
}

/// The earliest time among the first `n` candidates; none where all of them
/// are missing.
pub open spec fn earliest_time(candidates: Seq<Option<Time>>, n: int) -> Option<Time>
    decreases n,
{
    if n <= 0 {
        None
    } else {
        earlier_time(earliest_time(candidates, n - 1), candidates[n - 1])
    }
}

/// The date a pattern offers when today is `today`: a single date itself,
/// past or not; of a range, the first date of its raster from today on.
pub open spec fn date_candidate(pattern: DatePattern, today: Date) -> Option<Date> {
    match pattern {
        DatePattern::Point(d) => Some(d),
        DatePattern::Range(r) => r.nearest_date(today),
    }
}

/// The date a pattern offers after `today`: a single date where it is later;
/// of a range that ends after today or never, its start where that is
/// later, else the first date of its raster from tomorrow on.
pub open spec fn date_candidate_after(pattern: DatePattern, today: Date) -> Option<Date> {
    match pattern {
        DatePattern::Point(d) => if d.key() > today.key() {
            Some(d)
        } else {
            None
        },
        DatePattern::Range(r) => if r.until matches Some(u) && u.key() <= today.key() {
            None
        } else if r.from.key() > today.key() {
            Some(r.from)
        } else {
            match today.plus_days(1) {
                Some(tomorrow) => r.nearest_date(tomorrow),
                None => None,
            }
        },
    }
}

/// The first time of a range's raster after `now`, as seconds since
/// midnight: the range's start and whole steps, taken modulo one day.
pub open spec fn raster_secs_after(range: TimeRange, now: Time) -> int {
    let start = range.start().secs();
    let step = range.interval.secs();
    (start + ((now.secs() - start) / step + 1) * step) % 86400
}

/// The time a pattern offers later on the day than `now`: a single time
/// where it is later; of a range that ends after `now` or never, its start
/// where that is later, else the first time of its raster after `now`,
/// where that is still on the day and within the range.
pub open spec fn time_candidate_after(pattern: TimePattern, now: Time) -> Option<Time> {
    match pattern {
        TimePattern::Point(t) => if t.secs() > now.secs() {
            Some(t)
        } else {
            None
        },
        TimePattern::Range(r) => if r.until matches Some(u) && u.secs() <= now.secs() {
            None
        } else if r.start().secs() > now.secs() {
            Some(r.start())
        } else {
            let next = raster_secs_after(r, now);
            if next > now.secs() && time_within(r.until, Time::of_secs(next)) {
                Some(Time::of_secs(next))
            } else {
                None
            }
        },
    }
}

impl DatePattern {
    /// The date the pattern offers when today is `today`.
    pub fn candidate(&self, today: Date) -> (r: Option<Date>)
        requires
            self.wf(),
            today.wf(),
        ensures
            r == date_candidate(*self, today),
            r matches Some(d) ==> d.wf(),
    {
        match self {
            DatePattern::Point(date) => Some(*date),
            DatePattern::Range(range) => range.get_nearest_date(today),
        }
    }

    /// The date the pattern offers after `today`.
    pub fn candidate_after(&self, today: Date) -> (r: Option<Date>)
        requires
            self.wf(),
            today.wf(),
        ensures
            r == date_candidate_after(*self, today),
            r matches Some(d) ==> d.wf() && d.key() > today.key(),
    {
        match self {
            DatePattern::Point(date) => {
                if today.lt(date) {
                    Some(*date)
                } else {
                    None
                }
            },
            DatePattern::Range(range) => {
                let open = match range.until {
                    Some(until) => today.lt(&until),
                    None => true,
                };
                if !open {
                    None
                } else if today.lt(&range.from) {
                    Some(range.from)
                } else {
                    match today.add_days(1) {
                        Some(tomorrow) => range.get_nearest_date(tomorrow),
                        None => None,
                    }
                }
            },
        }
    }
}

impl TimePattern {
    /// The first time of the pattern.
    pub fn first_time(&self) -> (r: Time)
        ensures
            r == self.first(),
    {
        match self {
            TimePattern::Point(time) => *time,
            TimePattern::Range(range) => range.start_time(),
        }
    }

    /// The time the pattern offers later on the day than `now`.
    pub fn candidate_after(&self, now: Time) -> (r: Option<Time>)
        requires
            self.wf(),
            now.wf(),
        ensures
            r == time_candidate_after(*self, now),
            r matches Some(t) ==> t.wf() && t.secs() > now.secs(),
    {
        match self {
            TimePattern::Point(time) => {
                if now.lt(time) {
                    Some(*time)
                } else {
                    None
                }
            },
            TimePattern::Range(range) => {
                let open = match range.until {
                    Some(until) => now.lt(&until),
                    None => true,
                };
                let from = range.start_time();
                if !open {
                    None
                } else if now.lt(&from) {
                    Some(from)
                } else {
                    let start: u64 = from.seconds_from_midnight() as u64;
                    let passed: u64 = now.seconds_from_midnight() as u64 - start;
                    let step: u64 = range.interval.total_seconds();
                    let steps: u64 = passed / step;
                    assert(steps * step <= passed && (steps + 1) * step == steps * step + step)
                        by (nonlinear_arith)
                        requires
                            steps == passed / step,
                            step > 0,
                    ;
                    let next: u32 = ((start + (steps + 1) * step) % 86400) as u32;
                    assert(next == raster_secs_after(*range, now));
                    let next_time = Time::from_seconds(next);
                    let inside = match range.until {
                        Some(until) => next_time.le(&until),
                        None => true,
                    };
                    if now.lt(&next_time) && inside {
                        Some(next_time)
                    } else {
                        None
                    }
                }
            },
        }
    }
}

impl Recurrence {
    /// What each date pattern offers when today is `today`.
    pub open spec fn date_candidates(self, today: Date) -> Seq<Option<Date>> {
        self.dates_patterns@.map_values(|p: DatePattern| date_candidate(p, today))
    }

    /// What each date pattern offers after `today`.
    pub open spec fn date_candidates_after(self, today: Date) -> Seq<Option<Date>> {
        self.dates_patterns@.map_values(|p: DatePattern| date_candidate_after(p, today))
    }

    /// The first time of each time pattern.
    pub open spec fn first_times(self) -> Seq<Option<Time>> {
        self.time_patterns@.map_values(|p: TimePattern| Some(p.first()))
    }

    /// What each time pattern offers later on the day than `now`.
    pub open spec fn time_candidates_after(self, now: Time) -> Seq<Option<Time>> {
        self.time_patterns@.map_values(|p: TimePattern| time_candidate_after(p, now))
    }

    /// The next firing moment on the zone's wall clock, when that clock
    /// shows `now`. With `d` the earliest date the date patterns offer today
    /// and `t` the earliest first time of the time patterns: where `d` is
    /// after today, it is `d` at `t`; else it is today at the earliest time
    /// the time patterns offer later on the day; where there is none, it is
    /// the earliest date the date patterns offer after today, at `t`. None
    /// where no date pattern offers a date, there is no time pattern, or
    /// nothing is offered after today.
    pub open spec fn next_after(self, now: DateTime) -> Option<DateTime> {
        let dates = self.dates_patterns@.len() as int;
        let times = self.time_patterns@.len() as int;
        match (
            earliest_date(self.date_candidates(now.date), dates),
            earliest_time(self.first_times(), times),
        ) {
            (Some(d), Some(t)) => if d.key() > now.date.key() {
                Some(DateTime { date: d, time: t })
            } else {
                match earliest_time(self.time_candidates_after(now.time), times) {
                    Some(later) => Some(DateTime { date: now.date, time: later }),
                    None => match earliest_date(self.date_candidates_after(now.date), dates) {
                        Some(next) => Some(DateTime { date: next, time: t }),
                        None => None,
                    },
                }
            },
            _ => None,
        }
    }

    /// The next firing moment after the UTC moment `cur`, in UTC: `cur` is
    /// read on the zone's wall clock, the next moment is found there, and
    /// the earliest UTC moment that shows it is taken.
    pub open spec fn next_at(self, cur: DateTime) -> Option<DateTime> {
        match zone_local_time(self.timezone.name@, cur) {
            Some(now) => match self.next_after(now) {
                Some(m) => zone_utc_time(self.timezone.name@, m),
                None => None,
            },
            None => None,
        }
    }

    /// The earliest date the date patterns offer when today is `today`.
    pub fn first_date(&self, today: Date) -> (r: Option<Date>)
        requires
            self.wf(),
            today.wf(),
        ensures
            r == earliest_date(self.date_candidates(today), self.dates_patterns@.len() as int),
            r matches Some(d) ==> d.wf(),
    {
        let mut best: Option<Date> = None;
        let mut i: usize = 0;
        while i < self.dates_patterns.len()
            invariant
                self.wf(),
                today.wf(),
                i <= self.dates_patterns@.len(),
                best == earliest_date(self.date_candidates(today), i as int),
                best matches Some(d) ==> d.wf(),
            decreases self.dates_patterns@.len() - i,
        {
            let candidate = self.dates_patterns[i].candidate(today);
            best = pick_date(best, candidate);
            i += 1;
        }
        best
    }

    /// The earliest date the date patterns offer after `today`.
    pub fn next_date(&self, today: Date) -> (r: Option<Date>)
        requires
            self.wf(),
            today.wf(),
        ensures
            r == earliest_date(
                self.date_candidates_after(today),
                self.dates_patterns@.len() as int,
            ),
            r matches Some(d) ==> d.wf() && d.key() > today.key(),
    {
        let mut best: Option<Date> = None;
        let mut i: usize = 0;
        while i < self.dates_patterns.len()
            invariant
                self.wf(),
                today.wf(),
                i <= self.dates_patterns@.len(),
                best == earliest_date(self.date_candidates_after(today), i as int),
                best matches Some(d) ==> d.wf() && d.key() > today.key(),
            decreases self.dates_patterns@.len() - i,
        {
            let candidate = self.dates_patterns[i].candidate_after(today);
            best = pick_date(best, candidate);
            i += 1;
        }
        best
    }

    /// The earliest first time of the time patterns.
    pub fn first_time(&self) -> (r: Option<Time>)
        requires
            self.wf(),
        ensures
            r == earliest_time(self.first_times(), self.time_patterns@.len() as int),
            r matches Some(t) ==> t.wf(),
    {
        let mut best: Option<Time> = None;
        let mut i: usize = 0;
        while i < self.time_patterns.len()
            invariant
                self.wf(),
                i <= self.time_patterns@.len(),
                best == earliest_time(self.first_times(), i as int),
                best matches Some(t) ==> t.wf(),
            decreases self.time_patterns@.len() - i,
        {
            let candidate = Some(self.time_patterns[i].first_time());
            best = pick_time(best, candidate);
            i += 1;
        }
        best
    }

    /// The earliest time the time patterns offer later on the day than `now`.
    pub fn next_time(&self, now: Time) -> (r: Option<Time>)
        requires
            self.wf(),
            now.wf(),
        ensures
            r == earliest_time(self.time_candidates_after(now), self.time_patterns@.len() as int),
            r matches Some(t) ==> t.wf() && t.secs() > now.secs(),
    {
        let mut best: Option<Time> = None;
        let mut i: usize = 0;
        while i < self.time_patterns.len()
            invariant
                self.wf(),
                now.wf(),
                i <= self.time_patterns@.len(),
                best == earliest_time(self.time_candidates_after(now), i as int),
                best matches Some(t) ==> t.wf() && t.secs() > now.secs(),
            decreases self.time_patterns@.len() - i,
        {
            let candidate = self.time_patterns[i].candidate_after(now);
            best = pick_time(best, candidate);
            i += 1;
        }
        best
    }

    /// The next firing moment on the zone's wall clock, when that clock
    /// shows `now`.
    pub fn next_local(&self, now: DateTime) -> (r: Option<DateTime>)
        requires
            self.wf(),
            now.wf(),
        ensures
            r == self.next_after(now),
            r matches Some(m) ==> m.wf() && m.key() > now.key(),
    {
        let first_date = match self.first_date(now.date) {
            Some(d) => d,
            None => {
                return None;
            },
        };
        let first_time = match self.first_time() {
            Some(t) => t,
            None => {
                return None;
            },
        };
        if now.date.lt(&first_date) {
            return Some(DateTime { date: first_date, time: first_time });
        }
        if let Some(next_time) = self.next_time(now.time) {
            return Some(DateTime { date: now.date, time: next_time });
        }
        match self.next_date(now.date) {
            Some(next_date) => Some(DateTime { date: next_date, time: first_time }),
            None => None,
        }
    }

    /// The next firing moment after the UTC moment `cur`, in UTC: `cur` is
    /// read on the zone's wall clock, the next moment is found there, and
    /// the earliest UTC moment that shows it is returned. None where the
    /// pattern offers nothing more, or the zone has no such moment.
    pub fn next(&self, cur: DateTime) -> (r: Option<DateTime>)
        requires
            self.wf(),
            cur.wf(),
        ensures
            r == self.next_at(cur),
            r matches Some(m) ==> m.wf(),
    {
        match chrono_utc_to_local(&self.timezone, cur) {
            Some(now) => match self.next_local(now) {
                Some(m) => chrono_local_to_utc(&self.timezone, m),
                None => None,
            },
            None => None,
        }
    }
}

/// The earlier of two dates that may be missing.
pub fn pick_date(a: Option<Date>, b: Option<Date>) -> (r: Option<Date>)
    requires
        a matches Some(x) ==> x.wf(),
        b matches Some(y) ==> y.wf(),
    ensures
        r == earlier_date(a, b),
{
    match (a, b) {
        (Some(x), Some(y)) => if y.lt(&x) {
            b
        } else {
            a
        },
        (Some(_), None) => a,
        (None, _) => b,
    }
}

/// The earlier of two times of day that may be missing.
pub fn pick_time(a: Option<Time>, b: Option<Time>) -> (r: Option<Time>)
    requires
        a matches Some(x) ==> x.wf(),
        b matches Some(y) ==> y.wf(),
    ensures
        r == earlier_time(a, b),
{
    match (a, b) {
        (Some(x), Some(y)) => if y.lt(&x) {
            b
        } else {
            a
        },
        (Some(_), None) => a,
        (None, _) => b,
    }
}

impl Pattern {
    /// The pattern is well formed.
    pub open spec fn wf(self) -> bool {
        match self {
            Pattern::Recurrence(recurrence) => recurrence.wf(),
            Pattern::Countdown(_) => true,
        }
    }

    /// The moment the pattern fires next when asked at the UTC moment
    /// `cur`, in UTC.
    pub open spec fn firing(self, cur: DateTime) -> Option<DateTime> {
        match self {
            Pattern::Recurrence(recurrence) => recurrence.next_at(cur),
            Pattern::Countdown(countdown) => countdown.firing(cur),
        }
    }

    /// The pattern is known never to fire again, whatever the moment: a
    /// countdown that is used up, or a recurrence that names no time.
    pub open spec fn done(self) -> bool {
        match self {
            Pattern::Recurrence(recurrence) => recurrence.time_patterns@.len() == 0,
            Pattern::Countdown(countdown) => countdown.spent(),
        }
    }

    /// Whether the pattern is known never to fire again, whatever the
    /// moment. A recurrence whose dates have all passed is not known to be
    /// done here: that depends on the moment, and [`Pattern::is_done_at`]
    /// tells it.
    pub fn is_done(&self) -> (r: bool)
        ensures
            r == self.done(),
    {
        match self {
            Pattern::Recurrence(recurrence) => recurrence.time_patterns.len() == 0,
            Pattern::Countdown(countdown) => countdown.is_used(),
        }
    }

    /// The pattern gives no further firing moment when asked at the UTC
    /// moment `cur`: a countdown that is used up, or a recurrence that has
    /// nothing after that moment, as one whose ranges have all ended.
    pub open spec fn done_at(self, cur: DateTime) -> bool {
        match self {
            Pattern::Recurrence(recurrence) => recurrence.next_at(cur) is None,
            Pattern::Countdown(countdown) => countdown.spent(),
        }
    }

    /// Whether the pattern gives no further firing moment when asked at the
    /// UTC moment `cur`. The pattern stays as it is.
    pub fn is_done_at(&self, cur: DateTime) -> (r: bool)
        requires
            self.wf(),
            cur.wf(),
        ensures
            r == self.done_at(cur),
            r ==> self.firing(cur) is None,
    {
        match self {
            Pattern::Recurrence(recurrence) => recurrence.next(cur).is_none(),
            Pattern::Countdown(countdown) => countdown.is_used(),
        }
    }

    /// The next firing moment after the UTC moment `cur`, in UTC: that of
    /// the recurrence, which stays as it is, or that of the countdown, which
    /// is used up by the call.
    pub fn next(&mut self, cur: DateTime) -> (r: Option<DateTime>)
        requires
            old(self).wf(),
            cur.wf(),
        ensures
            r == old(self).firing(cur),
            r matches Some(m) ==> m.wf(),
            match *old(self) {
                Pattern::Recurrence(_) => *final(self) == *old(self),
                Pattern::Countdown(countdown) => *final(self) matches Pattern::Countdown(after)
                    && after.spent() && after.span() == countdown.span() && after.zone()
                    == countdown.zone(),
            },
            final(self).wf(),
    {
        match self {
            Pattern::Recurrence(recurrence) => recurrence.next(cur),
            Pattern::Countdown(countdown) => countdown.next(cur),
        }
    }
}

} // verus!
