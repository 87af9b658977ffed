//! Lowering: from a parsed pattern to a pattern bound to a time zone, with
//! every open date filled against the current moment.

use crate::calendar::{add_date_interval, plus_date_interval, Date, DateTime, Time};
use crate::countdown::Countdown;
use crate::grammar;
use crate::holes::{fill_date_holes, filled_date};
use crate::interval::{
    lowered_date_interval, lowered_interval, lowered_time_interval, DateInterval, TimeInterval,
};
use crate::pattern::{
    dates_in_order, DateDivisor, DatePattern, DateRange, Pattern, Recurrence, TimePattern,
    TimeRange,
};
use crate::weekdays::{lowered_weekdays, Weekdays};
use crate::zone::{chrono_utc_to_local, zone_local_time, Tz};
use vstd::prelude::*;
use vstd::std_specs::convert::FromSpecImpl;

verus! {

/// Why a parsed pattern could not be lowered.
#[derive(Clone, Copy, Debug, PartialEq, Eq, Structural)]
pub enum LowerError {
    /// A single time of day has an hour, minute or second out of range.
    InvalidTime,
    /// No date of the calendar, from the date it must not precede on, has
    /// the fields that were written; or a date that is written in full is
    /// today and its time has passed.
    UnfillableDate,
    /// The recurrence has no date pattern.
    EmptyRecurrence,
    /// A range of times has no step or ends before it starts, a range of
    /// dates is divided by an empty set of weekdays or by a step that does
    /// not move forward.
    IllFormedRange,
    /// The zone's wall clock shows nothing at the current moment: the zone's
    /// name is unknown, or the moment lies beyond the calendar there.
    UnresolvableLocalTime,
}

/// The time of day that was written, if it is one.
pub open spec fn lowered_time(time: grammar::Time) -> Option<Time> {
    if time.hour < 24 && time.minute < 60 && time.second < 60 {
        Some(Time { hour: time.hour, minute: time.minute, second: time.second })
    } else {
        None
    }
}

/// A bound of a range that was written, if there is one and it is a time of
/// day.
pub open spec fn lowered_bound(bound: Option<grammar::Time>) -> Option<Time> {
    match bound {
        Some(time) => lowered_time(time),
        None => None,
    }
}

/// The divisor that was written, with its weekdays or its step taken over.
pub open spec fn lowered_divisor(date_divisor: grammar::DateDivisor) -> DateDivisor {
    match date_divisor {
        grammar::DateDivisor::Weekdays(weekdays) => DateDivisor::Weekdays(
            lowered_weekdays(weekdays),
        ),
        grammar::DateDivisor::Interval(interval) => DateDivisor::Interval(
            lowered_date_interval(interval),
        ),
    }
}

/// The range of times that was written; a bound that is no time of day
/// counts as not given.
pub open spec fn lowered_time_range(time_range: grammar::TimeRange) -> TimeRange {
    TimeRange {
        from: lowered_bound(time_range.from),
        until: lowered_bound(time_range.until),
        interval: lowered_time_interval(time_range.interval),
    }
}

impl Time {
    /// The time of day that was written, if it is one.
    pub fn from_grammar(time: &grammar::Time) -> (r: Option<Time>)
        ensures
            r == lowered_time(*time),
            r matches Some(t) ==> t.wf(),
    {
        Time::from_hms_opt(time.hour, time.minute, time.second)
    }
}

impl From<grammar::DateDivisor> for DateDivisor {
    fn from(date_divisor: grammar::DateDivisor) -> (r: DateDivisor) {
        match date_divisor {
            grammar::DateDivisor::Weekdays(weekdays) => DateDivisor::Weekdays(
                Weekdays::from(weekdays),
            ),
            grammar::DateDivisor::Interval(interval) => DateDivisor::Interval(
                DateInterval::from(interval),
            ),
        }
    }
}

impl FromSpecImpl<grammar::DateDivisor> for DateDivisor {
    open spec fn obeys_from_spec() -> bool {
        true
    }

    open spec fn from_spec(date_divisor: grammar::DateDivisor) -> DateDivisor {
        lowered_divisor(date_divisor)
    }
}

impl From<grammar::TimeRange> for TimeRange {
    /// A bound that is no time of day is taken as not given.
    fn from(time_range: grammar::TimeRange) -> (r: TimeRange) {
        let from = match time_range.from {
            Some(time) => Time::from_grammar(&time),
            None => None,
        };
        let until = match time_range.until {
            Some(time) => Time::from_grammar(&time),
            None => None,
        };
        let interval = TimeInterval::from(time_range.interval);
        TimeRange { from, until, interval }
    }
}

impl FromSpecImpl<grammar::TimeRange> for TimeRange {
    open spec fn obeys_from_spec() -> bool {
        true
    }

    open spec fn from_spec(time_range: grammar::TimeRange) -> TimeRange {
        lowered_time_range(time_range)
    }
}

/// The time pattern that was written, taken over as it is; none where a
/// single time is no time of day.
pub open spec fn converted_time_pattern(pattern: grammar::TimePattern) -> Option<TimePattern> {
    match pattern {
        grammar::TimePattern::Point(time) => match lowered_time(time) {
            Some(t) => Some(TimePattern::Point(t)),
            None => None,
        },
        grammar::TimePattern::Range(range) => Some(TimePattern::Range(lowered_time_range(range))),
    }
}

impl TimePattern {
    /// The time pattern that was written, taken over as it is; none where a
    /// single time is no time of day.
    pub fn from(time_pattern: grammar::TimePattern) -> (r: Option<TimePattern>)
        ensures
            r == converted_time_pattern(time_pattern),
    {
        match time_pattern {
            grammar::TimePattern::Point(time) => match Time::from_grammar(&time) {
                Some(t) => Some(TimePattern::Point(t)),
                None => None,
            },
            grammar::TimePattern::Range(time_range) => Some(
                TimePattern::Range(TimeRange::from(time_range)),
            ),
        }
    }
}

impl DateDivisor {
    /// Whether a set of weekdays is not empty, or a step moves forward.
    pub fn is_well_formed(&self) -> (r: bool)
        ensures
            r == self.wf(),
    {
        match self {
            DateDivisor::Weekdays(days) => !days.is_none(),
            DateDivisor::Interval(step) => step.is_positive(),
        }
    }
}

impl TimeRange {
    /// Whether the range has a step and does not end before it starts.
    pub fn is_well_formed(&self) -> (r: bool)
        requires
            self.from matches Some(f) ==> f.wf(),
            self.until matches Some(u) ==> u.wf(),
        ensures
            r == self.wf(),
    {
        if self.interval.total_seconds() == 0 {
            return false;
        }
        match self.until {
            Some(until) => self.start_time().le(&until),
            None => true,
        }
    }
}

/// The time of day of the first firing: the first time pattern's single
/// time, or the start of its range, or the time of `now` where there is no
/// time pattern.
pub open spec fn first_written_time(times: Seq<grammar::TimePattern>, now: Time) -> Result<
    Time,
    LowerError,
> {
    if times.len() == 0 {
        Ok(now)
    } else {
        match times[0] {
            grammar::TimePattern::Point(time) => match lowered_time(time) {
                Some(t) => Ok(t),
                None => Err(LowerError::InvalidTime),
            },
            grammar::TimePattern::Range(range) => Ok(lowered_time_range(range).start()),
        }
    }
}

/// The date a date pattern starts with, as written.
pub open spec fn first_written_date(pattern: grammar::DatePattern) -> grammar::HoleyDate {
    match pattern {
        grammar::DatePattern::Point(date) => date,
        grammar::DatePattern::Range(range) => range.from,
    }
}

/// Whether one of the first `n` time patterns is a range.
pub open spec fn has_time_range(times: Seq<grammar::TimePattern>, n: int) -> bool {
    exists|i: int| 0 <= i < n && i < times.len() && (#[trigger] times[i]) is Range
}

/// The step of one of the smallest unit that `written` leaves open: a day,
/// a month or a year; none where nothing is open.
pub open spec fn open_unit(written: grammar::HoleyDate) -> Option<DateInterval> {
    if written.day is None {
        Some(DateInterval { years: 0, months: 0, weeks: 0, days: 1 })
    } else if written.month is None {
        Some(DateInterval { years: 0, months: 1, weeks: 0, days: 0 })
    } else if written.year is None {
        Some(DateInterval { years: 1, months: 0, weeks: 0, days: 0 })
    } else {
        None
    }
}

/// `date` moved on by one of the smallest unit that `written` leaves open,
/// as a step of the calendar: the next day, the same day of the next month
/// or of the next year, clamped to the end of the month. None where nothing
/// is open or the calendar ends before.
pub open spec fn bumped_date(written: grammar::HoleyDate, date: Date) -> Option<Date> {
    match open_unit(written) {
        Some(step) => plus_date_interval(date, step),
        None => None,
    }
}

/// The date from which the date patterns are filled: the first date as
/// written, filled against the date of `now`. Where that date at the first
/// time of day lies before `now`, and neither the first date pattern nor any
/// time pattern is a range, it is moved on by the smallest unit left open.
pub open spec fn initial_date(recurrence: grammar::Recurrence, now: DateTime) -> Result<
    Date,
    LowerError,
> {
    let dates = recurrence.dates_patterns@;
    let times = recurrence.time_patterns@;
    match first_written_time(times, now.time) {
        Err(e) => Err(e),
        Ok(time) => match filled_date(first_written_date(dates[0]), now.date) {
            None => Err(LowerError::UnfillableDate),
            Some(date) => if (DateTime { date, time }).key() < now.key() && !(dates[0] is Range)
                && !has_time_range(times, times.len() as int) {
                match bumped_date(first_written_date(dates[0]), date) {
                    Some(d) => Ok(d),
                    None => Err(LowerError::UnfillableDate),
                }
            } else {
                Ok(date)
            },
        },
    }
}

/// The end of a range as written, filled against the range's start.
pub open spec fn lowered_until(until: Option<grammar::HoleyDate>, from: Date) -> Result<
    Option<Date>,
    LowerError,
> {
    match until {
        None => Ok(None),
        Some(written) => match filled_date(written, from) {
            Some(d) => Ok(Some(d)),
            None => Err(LowerError::UnfillableDate),
        },
    }
}

/// A date pattern with its dates filled against `bound`, and the bound for
/// the pattern after it: the last date that was filled.
pub open spec fn lowered_date_pattern(pattern: grammar::DatePattern, bound: Date) -> Result<
    (DatePattern, Date),
    LowerError,
> {
    match pattern {
        grammar::DatePattern::Point(written) => match filled_date(written, bound) {
            Some(d) => Ok((DatePattern::Point(d), d)),
            None => Err(LowerError::UnfillableDate),
        },
        grammar::DatePattern::Range(range) => match filled_date(range.from, bound) {
            None => Err(LowerError::UnfillableDate),
            Some(from) => match lowered_until(range.until, from) {
                Err(e) => Err(e),
                Ok(until) => if lowered_divisor(range.date_divisor).wf() {
                    Ok(
                        (
                            DatePattern::Range(
                                DateRange {
                                    from,
                                    until,
                                    date_divisor: lowered_divisor(range.date_divisor),
                                },
                            ),
                            match until {
                                Some(u) => u,
                                None => from,
                            },
                        ),
                    )
                } else {
                    Err(LowerError::IllFormedRange)
                },
            },
        },
    }
}

/// The first `n` date patterns, each filled against the bound that the one
/// before it left, starting with `bound`; the first failure ends it.
pub open spec fn lowered_dates(patterns: Seq<grammar::DatePattern>, bound: Date, n: int) -> Result<
    (Seq<DatePattern>, Date),
    LowerError,
>
    decreases n,
{
    if n <= 0 {
        Ok((Seq::empty(), bound))
    } else {
        match lowered_dates(patterns, bound, n - 1) {
            Err(e) => Err(e),
            Ok((done, reached)) => match lowered_date_pattern(patterns[n - 1], reached) {
                Err(e) => Err(e),
                Ok((pattern, next)) => Ok((done.push(pattern), next)),
            },
        }
    }
}

/// A time pattern taken over and checked: a single time must be a time of
/// day, a range must have a step and not end before it starts.
pub open spec fn lowered_time_pattern(pattern: grammar::TimePattern) -> Result<
    TimePattern,
    LowerError,
> {
    match converted_time_pattern(pattern) {
        None => Err(LowerError::InvalidTime),
        Some(p) => if p.wf() {
            Ok(p)
        } else {
            Err(LowerError::IllFormedRange)
        },
    }
}

/// The first `n` time patterns, taken over and checked; the first failure
/// ends it.
pub open spec fn lowered_times(patterns: Seq<grammar::TimePattern>, n: int) -> Result<
    Seq<TimePattern>,
    LowerError,
>
    decreases n,
{
    if n <= 0 {
        Ok(Seq::empty())
    } else {
        match lowered_times(patterns, n - 1) {
            Err(e) => Err(e),
            Ok(done) => match lowered_time_pattern(patterns[n - 1]) {
                Err(e) => Err(e),
                Ok(pattern) => Ok(done.push(pattern)),
            },
        }
    }
}

/// The date patterns and time patterns of a recurrence lowered while the
/// zone's wall clock shows `now`, or why it cannot be lowered.
pub open spec fn lowered(recurrence: grammar::Recurrence, now: DateTime) -> Result<
    (Seq<DatePattern>, Seq<TimePattern>),
    LowerError,
> {
    let dates = recurrence.dates_patterns@;
    let times = recurrence.time_patterns@;
    if dates.len() == 0 {
        Err(LowerError::EmptyRecurrence)
    } else {
        match initial_date(recurrence, now) {
            Err(e) => Err(e),
            Ok(bound) => match lowered_dates(dates, bound, dates.len() as int) {
                Err(e) => Err(e),
                Ok((lowered_dates, _)) => match lowered_times(times, times.len() as int) {
                    Err(e) => Err(e),
                    Ok(lowered_times) => Ok((lowered_dates, lowered_times)),
                },
            },
        }
    }
}

/// The time of day of the first firing.
fn first_time_of(times: &Vec<grammar::TimePattern>, now: Time) -> (r: Result<Time, LowerError>)
    requires
        now.wf(),
    ensures
        r == first_written_time(times@, now),
        r matches Ok(t) ==> t.wf(),
{
    if times.len() == 0 {
        return Ok(now);
    }
    match times[0] {
        grammar::TimePattern::Point(time) => match Time::from_grammar(&time) {
            Some(t) => Ok(t),
            None => Err(LowerError::InvalidTime),
        },
        grammar::TimePattern::Range(range) => Ok(TimeRange::from(range).start_time()),
    }
}

/// Whether one of the time patterns is a range.
fn any_time_range(times: &Vec<grammar::TimePattern>) -> (r: bool)
    ensures
        r == has_time_range(times@, times@.len() as int),
{
    let mut i: usize = 0;
    while i < times.len()
        invariant
            i <= times@.len(),
            !has_time_range(times@, i as int),
        decreases times@.len() - i,
    {
        match times[i] {
            grammar::TimePattern::Range(_) => {
                return true;
            },
            grammar::TimePattern::Point(_) => {},
        }
        i += 1;
    }
    false
}

/// `date` moved on by the smallest unit that `written` leaves open.
fn bump_date(written: &grammar::HoleyDate, date: Date) -> (r: Option<Date>)
    requires
        date.wf(),
    ensures
        r == bumped_date(*written, date),
        r matches Some(d) ==> d.wf() && d.key() > date.key(),
{
    if written.day.is_none() {
        add_date_interval(date, &DateInterval { years: 0, months: 0, weeks: 0, days: 1 })
    } else if written.month.is_none() {
        add_date_interval(date, &DateInterval { years: 0, months: 1, weeks: 0, days: 0 })
    } else if written.year.is_none() {
        add_date_interval(date, &DateInterval { years: 1, months: 0, weeks: 0, days: 0 })
    } else {
        None
    }
}

/// The date from which the date patterns are filled.
fn initial_date_at(recurrence: &grammar::Recurrence, now: DateTime) -> (r: Result<Date, LowerError>)
    requires
        now.wf(),
        recurrence.dates_patterns@.len() > 0,
    ensures
        r == initial_date(*recurrence, now),
        r matches Ok(d) ==> d.wf(),
{
    let first_time = match first_time_of(&recurrence.time_patterns, now.time) {
        Ok(t) => t,
        Err(e) => {
            return Err(e);
        },
    };
    let (first_date, has_divisor) = match recurrence.dates_patterns[0] {
        grammar::DatePattern::Point(date) => (date, false),
        grammar::DatePattern::Range(range) => (range.from, true),
    };
    let has_time_divisor = any_time_range(&recurrence.time_patterns);
    let date = match fill_date_holes(&first_date, now.date) {
        Some(d) => d,
        None => {
            return Err(LowerError::UnfillableDate);
        },
    };
    let init_time = DateTime { date, time: first_time };
    if init_time.lt(&now) && !has_divisor && !has_time_divisor {
        match bump_date(&first_date, date) {
            Some(d) => Ok(d),
            None => Err(LowerError::UnfillableDate),
        }
    } else {
        Ok(date)
    }
}

/// A date pattern with its dates filled against `bound`, and the bound for
/// the pattern after it.
fn lower_date_pattern(pattern: &grammar::DatePattern, bound: Date) -> (r: Result<
    (DatePattern, Date),
    LowerError,
>)
    requires
        bound.wf(),
    ensures
        r == lowered_date_pattern(*pattern, bound),
        r matches Ok((p, next)) ==> p.wf() && next.wf() && bound.key() <= p.first().key()
            <= next.key(),
{
    match pattern {
        grammar::DatePattern::Point(holey_date) => {
            match fill_date_holes(holey_date, bound) {
                Some(date) => Ok((DatePattern::Point(date), date)),
                None => Err(LowerError::UnfillableDate),
            }
        },
        grammar::DatePattern::Range(range) => {
            let date_from = match fill_date_holes(&range.from, bound) {
                Some(date) => date,
                None => {
                    return Err(LowerError::UnfillableDate);
                },
            };
            let date_until = match range.until {
                Some(until) => match fill_date_holes(&until, date_from) {
                    Some(date) => Some(date),
                    None => {
                        return Err(LowerError::UnfillableDate);
                    },
                },
                None => None,
            };
            let date_divisor = DateDivisor::from(range.date_divisor);
            if !date_divisor.is_well_formed() {
                return Err(LowerError::IllFormedRange);
            }
            let next = match date_until {
                Some(date) => date,
                None => date_from,
            };
            let range = DateRange { from: date_from, until: date_until, date_divisor };
            Ok((DatePattern::Range(range), next))
        },
    }
}

/// A time pattern taken over and checked.
fn lower_time_pattern(pattern: grammar::TimePattern) -> (r: Result<TimePattern, LowerError>)
    ensures
        r == lowered_time_pattern(pattern),
        r matches Ok(p) ==> p.wf(),
{
    match TimePattern::from(pattern) {
        None => Err(LowerError::InvalidTime),
        Some(TimePattern::Point(time)) => Ok(TimePattern::Point(time)),
        Some(TimePattern::Range(range)) => {
            if range.is_well_formed() {
                Ok(TimePattern::Range(range))
            } else {
                Err(LowerError::IllFormedRange)
            }
        },
    }
}

/// Whether `result` is what lowering `recurrence` gives while the wall clock
/// of the zone `tz` shows `now`: the lowered patterns in that zone, well
/// formed, or the reason why there are none.
pub open spec fn lowering_result(
    result: Result<Recurrence, LowerError>,
    recurrence: grammar::Recurrence,
    tz: Tz,
    now: DateTime,
) -> bool {
    match result {
        Ok(done) => lowered(recurrence, now) matches Ok(l) && l.0 == done.dates_patterns@ && l.1
            == done.time_patterns@ && done.timezone == tz && done.wf(),
        Err(e) => lowered(recurrence, now) matches Err(f) && e == f,
    }
}

/// The date patterns, each filled against the bound that the one before it
/// left, starting with `bound`.
fn lower_dates(patterns: &Vec<grammar::DatePattern>, bound: Date) -> (r: Result<
    Vec<DatePattern>,
    LowerError,
>)
    requires
        bound.wf(),
    ensures
        match r {
            Ok(done) => lowered_dates(patterns@, bound, patterns@.len() as int) matches Ok(l)
                && l.0 == done@ && dates_in_order(done@),
            Err(e) => lowered_dates(patterns@, bound, patterns@.len() as int) matches Err(f) && e
                == f,
        },
{
    let mut cur_lower_bound = bound;
    let mut dates_patterns: Vec<DatePattern> = Vec::new();
    let mut i: usize = 0;
    while i < patterns.len()
        invariant
            i <= patterns@.len(),
            cur_lower_bound.wf(),
            lowered_dates(patterns@, bound, i as int) matches Ok(l) && l.0 == dates_patterns@
                && l.1 == cur_lower_bound,
            dates_in_order(dates_patterns@),
            forall|j: int|
                0 <= j < dates_patterns@.len() ==> (#[trigger] dates_patterns@[j]).first().key()
                    <= cur_lower_bound.key(),
        decreases patterns@.len() - i,
    {
        let ghost before = dates_patterns@;
        match lower_date_pattern(&patterns[i], cur_lower_bound) {
            Ok((pattern, next)) => {
                dates_patterns.push(pattern);
                cur_lower_bound = next;
                assert(dates_patterns@ == before.push(pattern));
            },
            Err(e) => {
                proof {
                    lemma_dates_failure(patterns@, bound, i + 1, patterns@.len() as int);
                }
                return Err(e);
            },
        }
        i += 1;
    }
    Ok(dates_patterns)
}

/// The time patterns, taken over and checked.
fn lower_times(patterns: &Vec<grammar::TimePattern>) -> (r: Result<Vec<TimePattern>, LowerError>)
    ensures
        match r {
            Ok(done) => lowered_times(patterns@, patterns@.len() as int) matches Ok(l) && l
                == done@ && forall|j: int| 0 <= j < done@.len() ==> (#[trigger] done@[j]).wf(),
            Err(e) => lowered_times(patterns@, patterns@.len() as int) matches Err(f) && e == f,
        },
{
    let mut time_patterns: Vec<TimePattern> = Vec::new();
    let mut i: usize = 0;
    while i < patterns.len()
        invariant
            i <= patterns@.len(),
            lowered_times(patterns@, i as int) matches Ok(l) && l == time_patterns@,
            forall|j: int| 0 <= j < time_patterns@.len() ==> (#[trigger] time_patterns@[j]).wf(),
        decreases patterns@.len() - i,
    {
        let ghost before = time_patterns@;
        match lower_time_pattern(patterns[i]) {
            Ok(pattern) => {
                time_patterns.push(pattern);
                assert(time_patterns@ == before.push(pattern));
            },
            Err(e) => {
                proof {
                    lemma_times_failure(patterns@, i + 1, patterns@.len() as int);
                }
                return Err(e);
            },
        }
        i += 1;
    }
    Ok(time_patterns)
}

impl Recurrence {
    /// Lowers a parsed recurrence while the wall clock of the zone `tz`
    /// shows `now`: every open date is filled, the first against `now` and
    /// each later one against the date before it, and every time and range
    /// is checked.
    pub fn lower_at(recurrence: grammar::Recurrence, tz: Tz, now: DateTime) -> (r: Result<
        Recurrence,
        LowerError,
    >)
        requires
            now.wf(),
        ensures
            lowering_result(r, recurrence, tz, now),
    {
        if recurrence.dates_patterns.len() == 0 {
            return Err(LowerError::EmptyRecurrence);
        }
        let first_bound = match initial_date_at(&recurrence, now) {
            Ok(d) => d,
            Err(e) => {
                return Err(e);
            },
        };
        let dates_patterns = match lower_dates(&recurrence.dates_patterns, first_bound) {
            Ok(patterns) => patterns,
            Err(e) => {
                return Err(e);
            },
        };
        let time_patterns = match lower_times(&recurrence.time_patterns) {
            Ok(patterns) => patterns,
            Err(e) => {
                return Err(e);
            },
        };
        Ok(Recurrence { dates_patterns, time_patterns, timezone: tz })
    }

    /// Lowers a parsed recurrence for the zone `tz` at the UTC moment `now`:
    /// the moment is read on the zone's wall clock, and the recurrence is
    /// lowered there as [`Recurrence::lower_at`] does.
    pub fn from_with_tz(recurrence: grammar::Recurrence, tz: Tz, now: DateTime) -> (r: Result<
        Recurrence,
        LowerError,
    >)
        requires
            now.wf(),
        ensures
            match zone_local_time(tz.name@, now) {
                Some(local) => lowering_result(r, recurrence, tz, local),
                None => r matches Err(e) && e == LowerError::UnresolvableLocalTime,
            },
            r matches Ok(done) ==> done.wf(),
    {
        match chrono_utc_to_local(&tz, now) {
            Some(lower_bound) => Recurrence::lower_at(recurrence, tz, lower_bound),
            None => Err(LowerError::UnresolvableLocalTime),
        }
    }
}

impl Pattern {
    /// Lowers a parsed pattern for the zone `tz` at the UTC moment `now`: a
    /// recurrence as [`Recurrence::from_with_tz`] does, a countdown as it
    /// is, not used up.
    pub fn from_with_tz(reminder_pattern: grammar::ReminderPattern, tz: Tz, now: DateTime) -> (r:
        Result<Pattern, LowerError>)
        requires
            now.wf(),
        ensures
            match reminder_pattern {
                grammar::ReminderPattern::Recurrence(recurrence) => match r {
                    Ok(Pattern::Recurrence(done)) => zone_local_time(tz.name@, now) matches Some(
                        local,
                    ) && lowering_result(Ok(done), recurrence, tz, local),
                    Ok(Pattern::Countdown(_)) => false,
                    Err(e) => match zone_local_time(tz.name@, now) {
                        Some(local) => lowering_result(Err(e), recurrence, tz, local),
                        None => e == LowerError::UnresolvableLocalTime,
                    },
                },
                grammar::ReminderPattern::Countdown(countdown) => r matches Ok(
                    Pattern::Countdown(done),
                ) && !done.spent() && done.span() == lowered_interval(countdown.duration)
                    && done.zone() == tz,
            },
            r matches Ok(done) ==> done.wf(),
    {
        match reminder_pattern {
            grammar::ReminderPattern::Recurrence(recurrence) => {
                match Recurrence::from_with_tz(recurrence, tz, now) {
                    Ok(done) => Ok(Pattern::Recurrence(done)),
                    Err(e) => Err(e),
                }
            },
            grammar::ReminderPattern::Countdown(countdown) => Ok(
                Pattern::Countdown(Countdown::from_with_tz(countdown, tz)),
            ),
        }
    }
}

/// Once the date patterns have failed, they fail in the same way however
/// many more are taken.
proof fn lemma_dates_failure(patterns: Seq<grammar::DatePattern>, bound: Date, n: int, m: int)
    requires
        n <= m,
        lowered_dates(patterns, bound, n) is Err,
    ensures
        lowered_dates(patterns, bound, m) == lowered_dates(patterns, bound, n),
    decreases m - n,
{
    if n < m {
        lemma_dates_failure(patterns, bound, n, m - 1);
    }
}

/// Once the time patterns have failed, they fail in the same way however
/// many more are taken.
proof fn lemma_times_failure(patterns: Seq<grammar::TimePattern>, n: int, m: int)
    requires
        n <= m,
        lowered_times(patterns, n) is Err,
    ensures
        lowered_times(patterns, m) == lowered_times(patterns, n),
    decreases m - n,
{
    if n < m {
        lemma_times_failure(patterns, n, m - 1);
    }
}

} // verus!
