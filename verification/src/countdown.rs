//! A reminder that fires once.

use crate::calendar::{add_interval, plus_interval, DateTime};
use crate::grammar;
use crate::interval::{lowered_interval, Interval};
use crate::zone::{chrono_local_to_utc, chrono_utc_to_local, zone_local_time, zone_utc_time, Tz};
use vstd::prelude::*;

verus! {

/// A reminder that fires once, a given span after the moment it is first
/// asked for. Once asked it is used up, and stays so.
#[derive(Debug)]
pub struct Countdown {
    pub duration: Interval,
    pub timezone: Tz,
    used: bool,
}

impl Countdown {
    /// Whether the countdown has been used up.
    pub closed spec fn spent(self) -> bool {
        self.used
    }

    /// The span after which the countdown fires.
    pub closed spec fn span(self) -> Interval {
        self.duration
    }

    /// The zone on whose wall clock the span is added.
    pub closed spec fn zone(self) -> Tz {
        self.timezone
    }

    /// The moment a countdown that is not used up fires when asked at the
    /// UTC moment `cur`: the span is added on the zone's wall clock, and the
    /// earliest UTC moment that shows the result is taken.
    pub open spec fn fresh_firing(self, cur: DateTime) -> Option<DateTime> {
        match zone_local_time(self.zone().name@, cur) {
            Some(now) => match plus_interval(now, self.span()) {
                Some(m) => zone_utc_time(self.zone().name@, m),
                None => None,
            },
            None => None,
        }
    }

    /// The moment the countdown fires when asked at the UTC moment `cur`:
    /// none once it is used up.
    pub open spec fn firing(self, cur: DateTime) -> Option<DateTime> {
        if self.spent() {
            None
        } else {
            self.fresh_firing(cur)
        }
    }

    /// A countdown of the parsed span in the zone `tz`, not used up.
    pub fn from_with_tz(countdown: grammar::Countdown, tz: Tz) -> (r: Countdown)
        ensures
            !r.spent(),
            r.span() == lowered_interval(countdown.duration),
            r.zone() == tz,
    {
        Countdown { duration: Interval::from(countdown.duration), timezone: tz, used: false }
    }

    /// A countdown as it was stored: with its span, its zone, and whether it
    /// is used up.
    pub fn restore(duration: Interval, timezone: Tz, used: bool) -> (r: Countdown)
        ensures
            r.spent() == used,
            r.span() == duration,
            r.zone() == timezone,
    {
        Countdown { duration, timezone, used }
    }

    /// The span after which the countdown fires.
    pub fn duration(&self) -> (r: Interval)
        ensures
            r == self.span(),
    {
        self.duration
    }

    /// The name of the zone on whose wall clock the span is added.
    pub fn zone_name(&self) -> (r: &str)
        ensures
            r@ == self.zone().name@,
    {
        self.timezone.name.as_str()
    }

    /// Whether the countdown has been used up.
    pub fn is_used(&self) -> (r: bool)
        ensures
            r == self.spent(),
    {
        self.used
    }

    /// The moment the countdown fires, in UTC, when asked at the UTC moment
    /// `cur`; the countdown is used up by the call. None where it was used
    /// up before, or the moment cannot be represented or does not exist in
    /// the zone.
    pub fn next(&mut self, cur: DateTime) -> (r: Option<DateTime>)
        requires
            cur.wf(),
        ensures
            final(self).spent(),
            final(self).span() == old(self).span(),
            final(self).zone() == old(self).zone(),
            r == old(self).firing(cur),
            r matches Some(m) ==> m.wf(),
    {
        if self.used {
            None
        } else {
            self.used = true;
            match chrono_utc_to_local(&self.timezone, cur) {
                Some(now) => match add_interval(now, &self.duration) {
                    Some(m) => chrono_local_to_utc(&self.timezone, m),
                    None => None,
                },
                None => None,
            }
        }
    }
}

} // verus!
