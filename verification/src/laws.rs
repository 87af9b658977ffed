//! What holds of the engine as a whole, proved over the functions that
//! state what it computes.

use crate::calendar::{
    lemma_weekday_offset, month_len, nearest_weekday, plus_date_interval, plus_interval,
    weekday_listed, weekday_offset, Date, DateTime, Time,
};
use crate::calendar_proofs::{
    lemma_day_count_injective, lemma_order_is_day_order, lemma_plus_date_interval,
    lemma_plus_days,
};
use crate::countdown::Countdown;
use crate::grammar::HoleyDate;
use crate::holes::{filled_date, fits, is_filled_date};
use crate::interval::{DateInterval, Interval};
use crate::next::{
    date_candidate, date_candidate_after, earlier_date, earlier_time, earliest_date,
    earliest_time, raster_secs_after, time_candidate_after,
};
use crate::pattern::{
    date_within, days_short, stepped_date, time_within, DateDivisor, DatePattern, DateRange,
    Pattern, Recurrence, TimePattern,
};
use crate::zone::{zone_local_time, zone_utc_time};
use vstd::prelude::*;

verus! {

/// The earliest of some dates is one of them, and none of them is earlier.
pub proof fn lemma_earliest_date(candidates: Seq<Option<Date>>, n: int)
    requires
        0 <= n <= candidates.len(),
    ensures
        match earliest_date(candidates, n) {
            Some(d) => (exists|j: int| 0 <= j < n && candidates[j] == Some(d)) && forall|k: int|
                0 <= k < n && (#[trigger] candidates[k]) is Some ==> d.key()
                    <= candidates[k]->0.key(),
            None => forall|k: int| 0 <= k < n ==> (#[trigger] candidates[k]) is None,
        },
    decreases n,
{
    if n > 0 {
        lemma_earliest_date(candidates, n - 1);
        let before = earliest_date(candidates, n - 1);
        let now = earliest_date(candidates, n);
        assert(now == earlier_date(before, candidates[n - 1]));
        if let Some(d) = now {
            if now == candidates[n - 1] {
                assert(candidates[n - 1] == Some(d));
            } else {
                let j = choose|j: int| 0 <= j < n - 1 && candidates[j] == Some(d);
                assert(candidates[j] == Some(d));
            }
        }
    }
}

/// The earliest of some times is one of them, and none of them is earlier.
pub proof fn lemma_earliest_time(candidates: Seq<Option<Time>>, n: int)
    requires
        0 <= n <= candidates.len(),
    ensures
        match earliest_time(candidates, n) {
            Some(t) => (exists|j: int| 0 <= j < n && candidates[j] == Some(t)) && forall|k: int|
                0 <= k < n && (#[trigger] candidates[k]) is Some ==> t.secs()
                    <= candidates[k]->0.secs(),
            None => forall|k: int| 0 <= k < n ==> (#[trigger] candidates[k]) is None,
        },
    decreases n,
{
    if n > 0 {
        lemma_earliest_time(candidates, n - 1);
        let before = earliest_time(candidates, n - 1);
        let now = earliest_time(candidates, n);
        assert(now == earlier_time(before, candidates[n - 1]));
        if let Some(t) = now {
            if now == candidates[n - 1] {
                assert(candidates[n - 1] == Some(t));
            } else {
                let j = choose|j: int| 0 <= j < n - 1 && candidates[j] == Some(t);
                assert(candidates[j] == Some(t));
            }
        }
    }
}

/// Stepping from a date until a target is reached ends on a date of the
/// calendar that is not before the target, nor before the start.
pub proof fn lemma_stepped_date(from: Date, step: DateInterval, target: Date)
    requires
        from.wf(),
        target.wf(),
        step.positive(),
    ensures
        stepped_date(from, step, target) matches Some(d) ==> d.wf() && d.key() >= target.key()
            && d.key() >= from.key(),
    decreases days_short(from, target),
{
    if from.key() < target.key() {
        lemma_plus_date_interval(from, step);
        if let Some(next) = plus_date_interval(from, step) {
            lemma_order_is_day_order(from, target);
            lemma_order_is_day_order(from, next);
            lemma_order_is_day_order(next, target);
            lemma_stepped_date(next, step, target);
        }
    }
}

/// The nearest listed weekday from a date on is a date of the calendar, not
/// before that date and less than a week after it, and falls on a listed
/// weekday; no date between the two does.
pub proof fn lemma_nearest_weekday(date: Date, days: Seq<u32>)
    requires
        date.wf(),
    ensures
        nearest_weekday(date, days) matches Some(d) ==> d.wf() && d.key() >= date.key()
            && days.contains(d.weekday() as u32) && d.days_from_ce() < date.days_from_ce() + 7
            && forall|e: Date|
            e.wf() && date.days_from_ce() <= #[trigger] e.days_from_ce() < d.days_from_ce()
                ==> !days.contains(e.weekday() as u32),
{
    lemma_weekday_offset(date.days_from_ce(), days, 0);
    if let Some(k) = weekday_offset(date.days_from_ce(), days, 0) {
        lemma_plus_days(date, k);
        if let Some(d) = nearest_weekday(date, days) {
            assert forall|e: Date|
                e.wf() && date.days_from_ce() <= #[trigger] e.days_from_ce()
                    < d.days_from_ce() implies !days.contains(e.weekday() as u32) by {
                let j = e.days_from_ce() - date.days_from_ce();
                assert(!weekday_listed(date.days_from_ce(), days, j));
            }
        }
    }
}

/// The first date of a range's raster from a date on is a date of the
/// calendar, not before that date and within the range.
pub proof fn lemma_nearest_date(range: DateRange, date: Date)
    requires
        range.wf(),
        date.wf(),
    ensures
        range.nearest_date(date) matches Some(d) ==> d.wf() && d.key() >= date.key()
            && date_within(range.until, d),
{
    match range.date_divisor {
        DateDivisor::Weekdays(days) => {
            lemma_nearest_weekday(date, days.day_list());
        },
        DateDivisor::Interval(step) => {
            lemma_stepped_date(range.from, step, date);
        },
    }
}

/// Whether `date` suits the pattern: it is the pattern's single date, or
/// does not lie after the end of its range.
pub open spec fn date_fits(pattern: DatePattern, date: Date) -> bool {
    match pattern {
        DatePattern::Point(d) => date == d,
        DatePattern::Range(r) => date_within(r.until, date),
    }
}

/// Whether `time` suits the pattern: it is the pattern's single time, or
/// does not lie after the end of its range.
pub open spec fn time_fits(pattern: TimePattern, time: Time) -> bool {
    match pattern {
        TimePattern::Point(t) => time == t,
        TimePattern::Range(r) => time_within(r.until, time),
    }
}

/// What a date pattern offers for today is a date of the calendar that
/// suits it.
pub proof fn lemma_date_candidate(pattern: DatePattern, today: Date)
    requires
        pattern.wf(),
        today.wf(),
    ensures
        date_candidate(pattern, today) matches Some(d) ==> d.wf() && date_fits(pattern, d),
{
    if let DatePattern::Range(r) = pattern {
        lemma_nearest_date(r, today);
    }
}

/// What a date pattern offers after today is a date of the calendar that
/// suits it and lies after today.
pub proof fn lemma_date_candidate_after(pattern: DatePattern, today: Date)
    requires
        pattern.wf(),
        today.wf(),
    ensures
        date_candidate_after(pattern, today) matches Some(d) ==> d.wf() && d.key() > today.key()
            && date_fits(pattern, d),
{
    if let DatePattern::Range(r) = pattern {
        lemma_plus_days(today, 1);
        if let Some(tomorrow) = today.plus_days(1) {
            lemma_nearest_date(r, tomorrow);
        }
    }
}

/// What a time pattern offers later on the day is a time of day that suits
/// it and lies after the given time.
pub proof fn lemma_time_candidate_after(pattern: TimePattern, now: Time)
    requires
        pattern.wf(),
        now.wf(),
    ensures
        time_candidate_after(pattern, now) matches Some(t) ==> t.wf() && t.secs() > now.secs()
            && time_fits(pattern, t),
{
    if let TimePattern::Range(r) = pattern {
        let next = raster_secs_after(r, now);
        assert(0 <= next < 86400);
        assert(Time::of_secs(next).secs() == next);
    }
}

/// The next firing moment on the wall clock is a moment of the calendar
/// that lies after the current one. Its time of day suits one of the time
/// patterns. Its date is today, or suits one of the date patterns.
pub proof fn lemma_next_after(recurrence: Recurrence, now: DateTime)
    requires
        recurrence.wf(),
        now.wf(),
    ensures
        recurrence.next_after(now) matches Some(m) ==> {
            &&& m.wf()
            &&& m.key() > now.key()
            &&& exists|j: int|
                0 <= j < recurrence.time_patterns@.len() && time_fits(
                    #[trigger] recurrence.time_patterns@[j],
                    m.time,
                )
            &&& m.date == now.date || exists|i: int|
                0 <= i < recurrence.dates_patterns@.len() && date_fits(
                    #[trigger] recurrence.dates_patterns@[i],
                    m.date,
                )
        },
{
    let dates = recurrence.dates_patterns@;
    let times = recurrence.time_patterns@;
    let today = recurrence.date_candidates(now.date);
    let firsts = recurrence.first_times();
    let later = recurrence.time_candidates_after(now.time);
    let after = recurrence.date_candidates_after(now.date);
    lemma_earliest_date(today, dates.len() as int);
    lemma_earliest_time(firsts, times.len() as int);
    lemma_earliest_time(later, times.len() as int);
    lemma_earliest_date(after, dates.len() as int);
    if let Some(m) = recurrence.next_after(now) {
        let d = earliest_date(today, dates.len() as int)->0;
        let t = earliest_time(firsts, times.len() as int)->0;
        let jt = choose|j: int| 0 <= j < times.len() && firsts[j] == Some(t);
        assert(times[jt].wf());
        assert(time_fits(times[jt], t));
        let jd = choose|j: int| 0 <= j < dates.len() && today[j] == Some(d);
        lemma_date_candidate(dates[jd], now.date);
        if d.key() > now.date.key() {
            assert(date_fits(dates[jd], m.date));
        } else if let Some(l) = earliest_time(later, times.len() as int) {
            let jl = choose|j: int| 0 <= j < times.len() && later[j] == Some(l);
            lemma_time_candidate_after(times[jl], now.time);
            assert(time_fits(times[jl], m.time));
        } else {
            let n = earliest_date(after, dates.len() as int)->0;
            let ja = choose|j: int| 0 <= j < dates.len() && after[j] == Some(n);
            lemma_date_candidate_after(dates[ja], now.date);
            assert(date_fits(dates[ja], m.date));
        }
    }
}

/// After the UTC moment `cur`, the zone named `zone` keeps the order of
/// moments: every moment that its wall clock shows later than it shows
/// `cur` is, where it exists in UTC, later than `cur`. A zone that never
/// sets its clock back does so at every moment.
pub open spec fn zone_keeps_order_after(zone: Seq<char>, cur: DateTime) -> bool {
    zone_local_time(zone, cur) matches Some(now) ==> now.wf() && forall|local: DateTime|
        local.key() > now.key() && (#[trigger] zone_utc_time(zone, local)) is Some
            ==> zone_utc_time(zone, local)->0.key() > cur.key()
}

/// On the wall clock of its zone, the next firing moment of a recurrence
/// lies after the current moment.
pub proof fn law_next_local_is_later(recurrence: Recurrence, now: DateTime)
    requires
        recurrence.wf(),
        now.wf(),
    ensures
        recurrence.next_after(now) matches Some(m) ==> m.key() > now.key(),
{
    lemma_next_after(recurrence, now);
}

/// The next firing moment of a recurrence lies after the current moment,
/// in UTC, wherever the zone keeps the order of moments after it.
pub proof fn law_next_is_later(recurrence: Recurrence, cur: DateTime)
    requires
        recurrence.wf(),
        cur.wf(),
        zone_keeps_order_after(recurrence.timezone.name@, cur),
    ensures
        recurrence.next_at(cur) matches Some(c) ==> c.key() > cur.key(),
{
    if let Some(now) = zone_local_time(recurrence.timezone.name@, cur) {
        lemma_next_after(recurrence, now);
    }
}

/// The next firing moment of a recurrence suits the patterns: its time of
/// day is the single time of a time pattern or not after the end of a range
/// of times, and its date is today, the single date of a date pattern, or
/// not after the end of a range of dates.
pub proof fn law_next_fits_patterns(recurrence: Recurrence, now: DateTime)
    requires
        recurrence.wf(),
        now.wf(),
    ensures
        recurrence.next_after(now) matches Some(m) ==> {
            &&& exists|j: int|
                0 <= j < recurrence.time_patterns@.len() && time_fits(
                    #[trigger] recurrence.time_patterns@[j],
                    m.time,
                )
            &&& m.date == now.date || exists|i: int|
                0 <= i < recurrence.dates_patterns@.len() && date_fits(
                    #[trigger] recurrence.dates_patterns@[i],
                    m.date,
                )
        },
{
    lemma_next_after(recurrence, now);
}

/// A moment moved by a span with no negative years and some part that is
/// not zero is a later moment.
pub proof fn lemma_plus_interval_later(moment: DateTime, step: Interval)
    requires
        moment.wf(),
        step.years >= 0,
        step.date_part().positive() || step.time_part().secs() > 0,
    ensures
        plus_interval(moment, step) matches Some(m) ==> m.wf() && m.key() > moment.key(),
{
    lemma_plus_date_interval(moment.date, step.date_part());
    if let Some(d) = plus_date_interval(moment.date, step.date_part()) {
        let total = moment.time.secs() + step.time_part().secs();
        lemma_plus_days(d, total / 86400);
        if let Some(e) = d.plus_days(total / 86400) {
            let time = Time::of_secs(total % 86400);
            assert(time.wf() && time.secs() == total % 86400);
            if total / 86400 == 0 {
                lemma_day_count_injective(d, e);
            }
        }
    }
}

/// A countdown that is not used up fires after the current moment, in UTC,
/// where its span has no negative years and is not zero, and the zone keeps
/// the order of moments after the current one.
pub proof fn law_countdown_is_later(countdown: Countdown, cur: DateTime)
    requires
        cur.wf(),
        countdown.span().years >= 0,
        countdown.span().date_part().positive() || countdown.span().time_part().secs() > 0,
        zone_keeps_order_after(countdown.zone().name@, cur),
    ensures
        countdown.firing(cur) matches Some(c) ==> c.key() > cur.key(),
{
    if let Some(now) = zone_local_time(countdown.zone().name@, cur) {
        lemma_plus_interval_later(now, countdown.span());
    }
}

/// A countdown that is used up never fires again, whenever it is asked.
pub proof fn law_countdown_fires_once(countdown: Countdown, cur: DateTime)
    requires
        countdown.spent(),
    ensures
        countdown.firing(cur) is None,
{
}

/// Where some date from the bound on has the written fields, there is an
/// earliest such date.
pub proof fn lemma_earliest_fit_exists(holey_date: HoleyDate, lower_bound: Date, date: Date)
    requires
        fits(holey_date, date),
        date.key() >= lower_bound.key(),
    ensures
        exists|d: Date| is_filled_date(holey_date, lower_bound, d),
    decreases date.key() - lower_bound.key(),
{
    if forall|e: Date|
        #[trigger] fits(holey_date, e) && e.key() >= lower_bound.key() ==> date.key() <= e.key() {
        assert(is_filled_date(holey_date, lower_bound, date));
    } else {
        let earlier = choose|e: Date|
            #[trigger] fits(holey_date, e) && e.key() >= lower_bound.key() && date.key() > e.key();
        lemma_earliest_fit_exists(holey_date, lower_bound, earlier);
    }
}

/// A date that was filled is the earliest date from the lower bound on
/// that has the written fields; and none is filled only where no date from
/// the bound on has them.
pub proof fn law_filled_date_is_earliest_fit(holey_date: HoleyDate, lower_bound: Date)
    ensures
        match filled_date(holey_date, lower_bound) {
            Some(d) => is_filled_date(holey_date, lower_bound, d),
            None => forall|e: Date| #[trigger] fits(holey_date, e) ==> e.key() < lower_bound.key(),
        },
{
    if filled_date(holey_date, lower_bound) is None {
        assert forall|e: Date| #[trigger] fits(holey_date, e) implies e.key()
            < lower_bound.key() by {
            if e.key() >= lower_bound.key() {
                lemma_earliest_fit_exists(holey_date, lower_bound, e);
            }
        }
    }
}

/// A date that was filled is a date of the calendar, is not before the
/// lower bound, and has every field that was written: the written year,
/// the written month, and the written day, or the last day of its month
/// where the written day lies beyond it.
pub proof fn law_filled_date_keeps_fields(holey_date: HoleyDate, lower_bound: Date)
    ensures
        filled_date(holey_date, lower_bound) matches Some(d) ==> {
            &&& d.wf()
            &&& d.key() >= lower_bound.key()
            &&& holey_date.year matches Some(year) ==> d.year == year
            &&& holey_date.month matches Some(month) ==> d.month == month
            &&& holey_date.day matches Some(day) ==> (if day <= month_len(
                d.month as int,
                d.year as int,
            ) {
                d.day == day
            } else {
                d.day == month_len(d.month as int, d.year as int)
            })
        },
{
    law_filled_date_is_earliest_fit(holey_date, lower_bound);
}

/// A date moved by a span is a date of the calendar: its day is no more
/// than the length of its month.
pub proof fn law_date_interval_clamps(date: Date, step: DateInterval)
    requires
        date.wf(),
    ensures
        plus_date_interval(date, step) matches Some(d) ==> 1 <= d.day <= month_len(
            d.month as int,
            d.year as int,
        ),
{
    lemma_plus_date_interval(date, step);
}

/// Whether the pattern is a range of dates whose end lies before `today`.
pub open spec fn ended_before(pattern: DatePattern, today: Date) -> bool {
    pattern matches DatePattern::Range(r) && r.until matches Some(u) && u.key() < today.key()
}

/// A recurrence all of whose date patterns are ranges that ended before
/// today has no further firing moment, today and on every later day.
pub proof fn law_ended_ranges_never_fire(recurrence: Recurrence, now: DateTime, later: DateTime)
    requires
        recurrence.wf(),
        now.wf(),
        later.wf(),
        now.date.key() <= later.date.key(),
        forall|i: int|
            0 <= i < recurrence.dates_patterns@.len() ==> ended_before(
                #[trigger] recurrence.dates_patterns@[i],
                now.date,
            ),
    ensures
        recurrence.next_after(later) is None,
{
    let dates = recurrence.dates_patterns@;
    let offered = recurrence.date_candidates(later.date);
    lemma_earliest_date(offered, dates.len() as int);
    assert forall|j: int| 0 <= j < dates.len() implies (#[trigger] offered[j]) is None by {
        assert(offered[j] == date_candidate(dates[j], later.date));
        assert(dates[j].wf());
        assert(ended_before(dates[j], now.date));
        if let DatePattern::Range(range) = dates[j] {
            lemma_nearest_date(range, later.date);
        }
    }
}

/// A pattern that gives nothing at a moment has no firing moment there;
/// and a recurrence gives nothing at a moment exactly where it has no
/// firing moment there.
pub proof fn law_done_at_is_no_firing(pattern: Pattern, cur: DateTime)
    ensures
        pattern.done_at(cur) ==> pattern.firing(cur) is None,
        pattern is Recurrence ==> (pattern.done_at(cur) <==> pattern.firing(cur) is None),
{
}

/// A pattern that is done never fires, whenever it is asked.
pub proof fn law_done_never_fires(pattern: Pattern, cur: DateTime)
    requires
        pattern.done(),
    ensures
        pattern.firing(cur) is None,
{
}

} // verus!
