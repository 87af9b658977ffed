//! The next firing moment does not change while the clock runs towards it.

use crate::calendar::{
    lemma_weekday_offset, nearest_weekday, plus_date_interval, weekday_listed, weekday_offset, Date,
    DateTime, Time,
};
use crate::calendar_proofs::{
    lemma_key_is_date, lemma_order_is_day_order, lemma_plus_date_interval, lemma_plus_days,
};
use crate::interval::DateInterval;
use crate::laws::{
    lemma_earliest_date, lemma_earliest_time, lemma_nearest_date, lemma_nearest_weekday,
    lemma_next_after, lemma_stepped_date,
};
use crate::next::{
    date_candidate, date_candidate_after, earliest_date, earliest_time, raster_secs_after,
    time_candidate_after,
};
use crate::pattern::{
    days_short, stepped_date, DateDivisor, DatePattern, DateRange, Recurrence, TimePattern,
    TimeRange,
};
use crate::zone::zone_local_time;
use vstd::arithmetic::div_mod::{
    lemma_basic_div, lemma_div_is_ordered, lemma_fundamental_div_mod,
    lemma_fundamental_div_mod_converse, lemma_mod_bound,
};
use vstd::prelude::*;

verus! {

/// The first point after `now` of the raster that starts at `start` and
/// has a point every `step` seconds, not yet taken modulo one day.
pub open spec fn raster_point_after(start: int, step: int, now: int) -> int {
    start + ((now - start) / step + 1) * step
}

/// The raster point after `now` lies after `now`, and no more than one
/// step after it.
proof fn lemma_raster_point(start: int, step: int, now: int)
    requires
        step > 0,
        start <= now,
    ensures
        now < raster_point_after(start, step, now) <= now + step,
        raster_point_after(start, step, now) == start + ((now - start) / step) * step + step,
{
    let a = now - start;
    let q = a / step;
    lemma_fundamental_div_mod(a, step);
    lemma_mod_bound(a, step);
    assert((q + 1) * step == q * step + step && step * q == q * step) by (nonlinear_arith);
}

/// Between a moment and the raster point after it, the raster point stays
/// the same.
proof fn lemma_raster_point_stable(start: int, step: int, now: int, later: int)
    requires
        step > 0,
        start <= now <= later < raster_point_after(start, step, now),
    ensures
        raster_point_after(start, step, later) == raster_point_after(start, step, now),
{
    let q = (now - start) / step;
    lemma_raster_point(start, step, now);
    lemma_fundamental_div_mod(now - start, step);
    lemma_mod_bound(now - start, step);
    let r = later - start - q * step;
    assert(step * q == q * step) by (nonlinear_arith);
    lemma_fundamental_div_mod_converse(later - start, step, q, r);
}

/// A later moment has no earlier raster point after it.
proof fn lemma_raster_point_order(start: int, step: int, now: int, later: int)
    requires
        step > 0,
        start <= now <= later,
    ensures
        raster_point_after(start, step, now) <= raster_point_after(start, step, later),
{
    lemma_div_is_ordered(now - start, later - start, step);
    let q_now = (now - start) / step;
    let q_later = (later - start) / step;
    assert((q_now + 1) * step <= (q_later + 1) * step) by (nonlinear_arith)
        requires
            q_now <= q_later,
            step > 0,
    ;
}

/// With a step longer than the time since the start, the raster point
/// after a moment is the first one after the start.
proof fn lemma_raster_point_wide(start: int, step: int, now: int)
    requires
        0 <= now - start < step,
    ensures
        raster_point_after(start, step, now) == start + step,
{
    lemma_basic_div(now - start, step);
    assert((0 + 1) * step == step) by (nonlinear_arith);
}

/// What a range of times offers after `now`, in seconds since midnight,
/// for a range from `start` with a point every `step` seconds, up to
/// `until` where there is one.
pub open spec fn range_offer(start: int, step: int, until: Option<int>, now: int) -> Option<int> {
    if until matches Some(u) && u <= now {
        None
    } else if start > now {
        Some(start)
    } else {
        let next = raster_point_after(start, step, now) % 86400;
        if next > now && (until matches Some(u) ==> next <= u) {
            Some(next)
        } else {
            None
        }
    }
}

/// What a range of times offers after a time of day, it offers after every
/// later time of day up to what it offers; and once it offers nothing, it
/// offers nothing for the rest of the day.
proof fn lemma_range_offer_stable(start: int, step: int, until: Option<int>, now: int, later: int)
    requires
        step > 0,
        0 <= start < 86400,
        0 <= now <= later < 86400,
        until matches Some(u) ==> start <= u < 86400,
        range_offer(start, step, until, now) matches Some(c) ==> later < c,
    ensures
        range_offer(start, step, until, later) == range_offer(start, step, until, now),
{
    let open_now = !(until matches Some(u) && u <= now);
    let open_later = !(until matches Some(u) && u <= later);
    if open_now && start <= now {
        let raw = raster_point_after(start, step, now);
        lemma_raster_point(start, step, now);
        if range_offer(start, step, until, now) is Some {
            assert(later < raw % 86400 <= raw);
            lemma_raster_point_stable(start, step, now, later);
        } else if open_later {
            let raw_later = raster_point_after(start, step, later);
            lemma_raster_point(start, step, later);
            lemma_raster_point_order(start, step, now, later);
            if step > 86400 {
                lemma_raster_point_wide(start, step, now);
                lemma_raster_point_wide(start, step, later);
            }
        }
    }
}

/// What a time pattern offers after a time of day, it offers after every
/// later time of day up to what it offers; and once it offers nothing, it
/// offers nothing for the rest of the day.
pub proof fn lemma_time_candidate_stable(pattern: TimePattern, now: Time, later: Time)
    requires
        pattern.wf(),
        now.wf(),
        later.wf(),
        now.secs() <= later.secs(),
        time_candidate_after(pattern, now) matches Some(t) ==> later.secs() < t.secs(),
    ensures
        time_candidate_after(pattern, later) == time_candidate_after(pattern, now),
{
    if let TimePattern::Range(range) = pattern {
        let start = range.start().secs();
        let step = range.interval.secs();
        let until = match range.until {
            Some(u) => Some(u.secs()),
            None => None,
        };
        lemma_range_offer_matches(range, now);
        lemma_range_offer_matches(range, later);
        lemma_range_offer_stable(start, step, until, now.secs(), later.secs());
    }
}

/// What a range offers as a time of day is what it offers in seconds since
/// midnight.
proof fn lemma_range_offer_matches(range: TimeRange, now: Time)
    requires
        range.wf(),
        now.wf(),
    ensures
        time_candidate_after(TimePattern::Range(range), now) == (match range_offer(
            range.start().secs(),
            range.interval.secs(),
            match range.until {
                Some(u) => Some(u.secs()),
                None => None,
            },
            now.secs(),
        ) {
            Some(c) => Some(
                if c == range.start().secs() && c > now.secs() {
                    range.start()
                } else {
                    Time::of_secs(c)
                },
            ),
            None => None,
        }),
        time_candidate_after(TimePattern::Range(range), now) matches Some(t) ==> range_offer(
            range.start().secs(),
            range.interval.secs(),
            match range.until {
                Some(u) => Some(u.secs()),
                None => None,
            },
            now.secs(),
        ) == Some(t.secs()),
{
    let next = raster_secs_after(range, now);
    assert(0 <= next < 86400);
    assert(Time::of_secs(next).secs() == next);
}

/// While the clock runs on within the day and has not reached the next
/// firing moment, the next firing moment stays what it is: for two moments
/// of one day on the wall clock, the second not before the first and before
/// the firing moment that follows the first, the same firing moment
/// follows both. Where none follows the first, none follows the second.
pub proof fn law_next_is_stable_within_the_day(
    recurrence: Recurrence,
    now: DateTime,
    later: DateTime,
)
    requires
        recurrence.wf(),
        now.wf(),
        later.wf(),
        now.date == later.date,
        now.time.secs() <= later.time.secs(),
        recurrence.next_after(now) matches Some(m) ==> later.key() < m.key(),
    ensures
        recurrence.next_after(later) == recurrence.next_after(now),
{
    let dates = recurrence.dates_patterns@;
    let times = recurrence.time_patterns@;
    let first_date = earliest_date(recurrence.date_candidates(now.date), dates.len() as int);
    let first_time = earliest_time(recurrence.first_times(), times.len() as int);
    if let (Some(d), Some(t)) = (first_date, first_time) {
        if d.key() <= now.date.key() {
            let offered_now = recurrence.time_candidates_after(now.time);
            let offered_later = recurrence.time_candidates_after(later.time);
            lemma_earliest_time(offered_now, times.len() as int);
            assert forall|j: int| 0 <= j < times.len() implies offered_later[j]
                == offered_now[j] by {
                assert(offered_now[j] == time_candidate_after(times[j], now.time));
                assert(offered_later[j] == time_candidate_after(times[j], later.time));
                assert(times[j].wf());
                lemma_time_candidate_stable(times[j], now.time, later.time);
            }
            assert(offered_later =~= offered_now);
        }
    }
}

/// Stepping towards a later target ends where stepping towards the earlier
/// one ends, as long as the later target is not beyond that end; and where
/// the calendar ends before the earlier target is reached, it ends before
/// the later one is.
pub proof fn lemma_stepped_date_stable(from: Date, step: DateInterval, target: Date, later: Date)
    requires
        from.wf(),
        target.wf(),
        later.wf(),
        step.positive(),
        target.key() <= later.key(),
        stepped_date(from, step, target) matches Some(d) ==> later.key() <= d.key(),
    ensures
        stepped_date(from, step, later) == stepped_date(from, step, target),
    decreases days_short(from, target),
{
    if from.key() < target.key() {
        lemma_plus_date_interval(from, step);
        if let Some(next) = plus_date_interval(from, step) {
            lemma_order_is_day_order(from, target);
            lemma_order_is_day_order(from, next);
            lemma_order_is_day_order(next, target);
            lemma_stepped_date_stable(next, step, target, later);
        }
    }
}

/// The first hit from an offset on is the only offset that is listed with
/// nothing listed before it.
proof fn lemma_weekday_offset_is(day_count: int, days: Seq<u32>, k: int)
    requires
        0 <= k < 7,
        weekday_listed(day_count, days, k),
        forall|j: int| 0 <= j < k ==> !#[trigger] weekday_listed(day_count, days, j),
    ensures
        weekday_offset(day_count, days, 0) == Some(k),
{
    lemma_weekday_offset(day_count, days, 0);
}

/// Seen from `gap` days later, the first listed weekday is `gap` days
/// nearer, as long as the gap does not reach beyond it; and where no
/// weekday is listed, none is from there either.
proof fn lemma_weekday_offset_stable(day_count: int, gap: int, days: Seq<u32>)
    requires
        0 <= gap,
        weekday_offset(day_count, days, 0) matches Some(k) ==> gap <= k,
    ensures
        weekday_offset(day_count + gap, days, 0) == (match weekday_offset(day_count, days, 0) {
            Some(k) => Some(k - gap),
            None => None,
        }),
{
    lemma_weekday_offset(day_count, days, 0);
    lemma_weekday_offset(day_count + gap, days, 0);
    match weekday_offset(day_count, days, 0) {
        Some(k) => {
            assert(weekday_listed(day_count + gap, days, k - gap) == weekday_listed(
                day_count,
                days,
                k,
            ));
            assert forall|j: int| 0 <= j < k - gap implies !#[trigger] weekday_listed(
                day_count + gap,
                days,
                j,
            ) by {
                assert(weekday_listed(day_count + gap, days, j) == weekday_listed(
                    day_count,
                    days,
                    j + gap,
                ));
            }
            lemma_weekday_offset_is(day_count + gap, days, k - gap);
        },
        None => {
            if let Some(k_later) = weekday_offset(day_count + gap, days, 0) {
                let j = (k_later + gap) % 7;
                assert((day_count - 1 + j) % 7 == (day_count + gap - 1 + k_later) % 7);
                assert(weekday_listed(day_count, days, j));
            }
        },
    }
}

/// Seen from later, the first listed weekday is no earlier a day.
proof fn lemma_weekday_offset_order(day_count: int, gap: int, days: Seq<u32>)
    requires
        0 <= gap,
    ensures
        weekday_offset(day_count, days, 0) matches Some(k) ==> (weekday_offset(
            day_count + gap,
            days,
            0,
        ) matches Some(k_later) ==> k <= k_later + gap),
{
    lemma_weekday_offset(day_count, days, 0);
    lemma_weekday_offset(day_count + gap, days, 0);
    if let Some(k) = weekday_offset(day_count, days, 0) {
        if let Some(k_later) = weekday_offset(day_count + gap, days, 0) {
            if k_later + gap < k {
                assert(weekday_listed(day_count, days, k_later + gap) == weekday_listed(
                    day_count + gap,
                    days,
                    k_later,
                ));
            }
        }
    }
}

/// The nearest listed weekday from a later date on is the one from the
/// earlier date on, as long as the later date is not beyond it; and where
/// there is none from the earlier date on, there is none from the later.
pub proof fn lemma_nearest_weekday_stable(date: Date, later: Date, days: Seq<u32>)
    requires
        date.wf(),
        later.wf(),
        date.key() <= later.key(),
        nearest_weekday(date, days) matches Some(d) ==> later.key() <= d.key(),
    ensures
        nearest_weekday(later, days) == nearest_weekday(date, days),
{
    let count = date.days_from_ce();
    let gap = later.days_from_ce() - count;
    lemma_order_is_day_order(date, later);
    lemma_weekday_offset(count, days, 0);
    lemma_weekday_offset_order(count, gap, days);
    match weekday_offset(count, days, 0) {
        Some(k) => {
            lemma_plus_days(date, k);
            match date.plus_days(k) {
                Some(d) => {
                    lemma_order_is_day_order(later, d);
                    lemma_weekday_offset_stable(count, gap, days);
                },
                None => {
                    if let Some(k_later) = weekday_offset(count + gap, days, 0) {
                        lemma_weekday_offset(count + gap, days, 0);
                        lemma_plus_days(later, k_later);
                    }
                },
            }
        },
        None => {
            lemma_weekday_offset_stable(count, gap, days);
        },
    }
}

/// The first date of a range's raster from a later date on is the one from
/// the earlier date on, as long as the later date is not beyond it; and
/// where the range offers none from the earlier date on, it offers none
/// from the later.
pub proof fn lemma_nearest_date_stable(range: DateRange, date: Date, later: Date)
    requires
        range.wf(),
        date.wf(),
        later.wf(),
        date.key() <= later.key(),
        range.nearest_date(date) matches Some(d) ==> later.key() <= d.key(),
    ensures
        range.nearest_date(later) == range.nearest_date(date),
{
    lemma_nearest_date(range, later);
    match range.date_divisor {
        DateDivisor::Weekdays(days) => {
            lemma_nearest_weekday(date, days.day_list());
            lemma_nearest_weekday(later, days.day_list());
            if let Some(d) = nearest_weekday(date, days.day_list()) {
                if later.key() <= d.key() {
                    lemma_nearest_weekday_stable(date, later, days.day_list());
                }
            } else {
                lemma_nearest_weekday_stable(date, later, days.day_list());
            }
        },
        DateDivisor::Interval(step) => {
            lemma_stepped_date(range.from, step, date);
            lemma_stepped_date(range.from, step, later);
            if let Some(d) = stepped_date(range.from, step, date) {
                if later.key() <= d.key() {
                    lemma_stepped_date_stable(range.from, step, date, later);
                }
            } else {
                lemma_stepped_date_stable(range.from, step, date, later);
            }
        },
    }
}

/// Before its first time of day, a time pattern offers its first time.
proof fn lemma_first_time_offered(pattern: TimePattern, now: Time)
    requires
        pattern.wf(),
        now.wf(),
        now.secs() < pattern.first().secs(),
    ensures
        time_candidate_after(pattern, now) == Some(pattern.first()),
{
}

/// Up to the earliest date that the date patterns offer today, they offer
/// on every day what they offer today.
proof fn lemma_date_candidates_stable(recurrence: Recurrence, today: Date, later: Date)
    requires
        recurrence.wf(),
        today.wf(),
        later.wf(),
        today.key() <= later.key(),
        earliest_date(
            recurrence.date_candidates(today),
            recurrence.dates_patterns@.len() as int,
        ) matches Some(d) && later.key() <= d.key(),
    ensures
        recurrence.date_candidates(later) == recurrence.date_candidates(today),
{
    let dates = recurrence.dates_patterns@;
    let offered_now = recurrence.date_candidates(today);
    let offered_later = recurrence.date_candidates(later);
    lemma_earliest_date(offered_now, dates.len() as int);
    assert forall|j: int| 0 <= j < dates.len() implies offered_later[j] == offered_now[j] by {
        assert(offered_now[j] == date_candidate(dates[j], today));
        assert(offered_later[j] == date_candidate(dates[j], later));
        assert(dates[j].wf());
        if let DatePattern::Range(range) = dates[j] {
            lemma_nearest_date_stable(range, today, later);
        }
    }
    assert(offered_later =~= offered_now);
}

/// Before the earliest first time of the time patterns, what they offer
/// later on the day is their first times.
proof fn lemma_first_times_offered(recurrence: Recurrence, now: Time)
    requires
        recurrence.wf(),
        now.wf(),
        earliest_time(recurrence.first_times(), recurrence.time_patterns@.len() as int) matches Some(
            t,
        ) && now.secs() < t.secs(),
    ensures
        recurrence.time_candidates_after(now) == recurrence.first_times(),
{
    let times = recurrence.time_patterns@;
    let firsts = recurrence.first_times();
    let offered = recurrence.time_candidates_after(now);
    lemma_earliest_time(firsts, times.len() as int);
    assert forall|j: int| 0 <= j < times.len() implies offered[j] == firsts[j] by {
        assert(firsts[j] == Some(times[j].first()));
        assert(offered[j] == time_candidate_after(times[j], now));
        assert(times[j].wf());
        lemma_first_time_offered(times[j], now);
    }
    assert(offered =~= firsts);
}

/// Where the next firing moment lies on a date after today that the date
/// patterns offer today, it stays what it is while the clock runs towards
/// it, over the days between as well: for two moments on the wall clock,
/// the second not before the first and before the firing moment that
/// follows the first, the same firing moment follows both.
pub proof fn law_next_is_stable_before_a_later_date(
    recurrence: Recurrence,
    now: DateTime,
    later: DateTime,
)
    requires
        recurrence.wf(),
        now.wf(),
        later.wf(),
        now.key() <= later.key(),
        recurrence.next_after(now) matches Some(m) && later.key() < m.key(),
        earliest_date(
            recurrence.date_candidates(now.date),
            recurrence.dates_patterns@.len() as int,
        ) matches Some(d) && d.key() > now.date.key(),
    ensures
        recurrence.next_after(later) == recurrence.next_after(now),
{
    let dates = recurrence.dates_patterns@.len() as int;
    let times = recurrence.time_patterns@.len() as int;
    let d = earliest_date(recurrence.date_candidates(now.date), dates)->0;
    let t = earliest_time(recurrence.first_times(), times)->0;
    lemma_next_after(recurrence, now);
    assert(recurrence.next_after(now) == Some(DateTime { date: d, time: t }));
    assert(now.date.key() <= later.date.key() <= d.key());
    lemma_date_candidates_stable(recurrence, now.date, later.date);
    if later.date.key() == d.key() {
        lemma_key_is_date(later.date, d);
        assert(later.time.secs() < t.secs());
        lemma_first_times_offered(recurrence, later.time);
    }
}

/// Whether the date patterns are settled between `today` and the later day
/// `later`: no single date lies before the later day, and every range of
/// weekdays has begun by today.
pub open spec fn settled_between(recurrence: Recurrence, today: Date, later: Date) -> bool {
    forall|i: int|
        0 <= i < recurrence.dates_patterns@.len() ==> pattern_settled(
            #[trigger] recurrence.dates_patterns@[i],
            today,
            later,
        )
}

/// Whether a date pattern is settled between `today` and the later day
/// `later`: a single date does not lie before the later day, and a range of
/// weekdays has begun by today.
pub open spec fn pattern_settled(pattern: DatePattern, today: Date, later: Date) -> bool {
    match pattern {
        DatePattern::Point(d) => d.key() >= later.key(),
        DatePattern::Range(r) => r.date_divisor is Weekdays ==> r.from.key() <= today.key(),
    }
}

/// What a settled date pattern offers after today, it offers on every
/// later day up to what it offers; and where it offers nothing after today,
/// it offers nothing on any later day.
pub proof fn lemma_date_candidate_follows(pattern: DatePattern, today: Date, later: Date)
    requires
        pattern.wf(),
        today.wf(),
        later.wf(),
        today.key() < later.key(),
        pattern_settled(pattern, today, later),
        date_candidate_after(pattern, today) matches Some(x) ==> later.key() <= x.key(),
    ensures
        date_candidate(pattern, later) == date_candidate_after(pattern, today),
{
    if let DatePattern::Range(range) = pattern {
        lemma_nearest_date(range, later);
        if range.until matches Some(u) && u.key() <= today.key() {
        } else if range.from.key() > today.key() {
            if let DateDivisor::Interval(step) = range.date_divisor {
                assert(stepped_date(range.from, step, later) == Some(range.from));
            }
        } else {
            lemma_plus_days(today, 1);
            lemma_order_is_day_order(today, later);
            lemma_order_is_day_order(later, Date::latest());
            let tomorrow = today.plus_days(1)->0;
            lemma_order_is_day_order(tomorrow, later);
            lemma_nearest_date_stable(range, tomorrow, later);
        }
    }
}

/// Where nothing is left today and the date patterns are settled up to a
/// later day, they offer on that day what they offer after today.
proof fn lemma_date_candidates_follow(recurrence: Recurrence, today: Date, later: Date)
    requires
        recurrence.wf(),
        today.wf(),
        later.wf(),
        today.key() < later.key(),
        settled_between(recurrence, today, later),
        earliest_date(
            recurrence.date_candidates_after(today),
            recurrence.dates_patterns@.len() as int,
        ) matches Some(d) ==> later.key() <= d.key(),
    ensures
        recurrence.date_candidates(later) == recurrence.date_candidates_after(today),
{
    let dates = recurrence.dates_patterns@;
    let after = recurrence.date_candidates_after(today);
    let offered = recurrence.date_candidates(later);
    lemma_earliest_date(after, dates.len() as int);
    assert forall|j: int| 0 <= j < dates.len() implies offered[j] == after[j] by {
        assert(after[j] == date_candidate_after(dates[j], today));
        assert(offered[j] == date_candidate(dates[j], later));
        assert(dates[j].wf());
        assert(pattern_settled(dates[j], today, later));
        lemma_date_candidate_follows(dates[j], today, later);
    }
    assert(offered =~= after);
}

/// Where the date patterns offer nothing today, they offer nothing on any
/// later day.
proof fn lemma_nothing_offered_stays(recurrence: Recurrence, today: Date, later: Date)
    requires
        recurrence.wf(),
        today.wf(),
        later.wf(),
        today.key() <= later.key(),
        earliest_date(
            recurrence.date_candidates(today),
            recurrence.dates_patterns@.len() as int,
        ) is None,
    ensures
        recurrence.date_candidates(later) == recurrence.date_candidates(today),
{
    let dates = recurrence.dates_patterns@;
    let offered_now = recurrence.date_candidates(today);
    let offered_later = recurrence.date_candidates(later);
    lemma_earliest_date(offered_now, dates.len() as int);
    assert forall|j: int| 0 <= j < dates.len() implies offered_later[j] == offered_now[j] by {
        assert(offered_now[j] == date_candidate(dates[j], today));
        assert(offered_later[j] == date_candidate(dates[j], later));
        assert(dates[j].wf());
        assert(offered_now[j] is None);
        if let DatePattern::Range(range) = dates[j] {
            lemma_nearest_date_stable(range, today, later);
        }
    }
    assert(offered_later =~= offered_now);
}

/// Over the days after the current one, the next firing moment stays what
/// it is while the clock runs towards it, where no single date lies before
/// the later day and every range of weekdays has begun: for a moment on the
/// wall clock and a second one on a later day, before the firing moment
/// that follows the first, the same firing moment follows both. Where
/// none follows the first, none follows the second.
pub proof fn law_next_is_stable_after_the_day(
    recurrence: Recurrence,
    now: DateTime,
    later: DateTime,
)
    requires
        recurrence.wf(),
        now.wf(),
        later.wf(),
        now.date.key() < later.date.key(),
        recurrence.next_after(now) matches Some(m) ==> later.key() < m.key(),
        settled_between(recurrence, now.date, later.date),
    ensures
        recurrence.next_after(later) == recurrence.next_after(now),
{
    let dates = recurrence.dates_patterns@.len() as int;
    let times = recurrence.time_patterns@.len() as int;
    let first_date = earliest_date(recurrence.date_candidates(now.date), dates);
    let first_time = earliest_time(recurrence.first_times(), times);
    lemma_next_after(recurrence, now);
    if first_time is None {
    } else if first_date is None {
        lemma_nothing_offered_stays(recurrence, now.date, later.date);
    } else if first_date->0.key() > now.date.key() {
        law_next_is_stable_before_a_later_date(recurrence, now, later);
    } else {
        let t = first_time->0;
        let after = earliest_date(recurrence.date_candidates_after(now.date), dates);
        assert(earliest_time(recurrence.time_candidates_after(now.time), times) is None);
        lemma_date_candidates_follow(recurrence, now.date, later.date);
        if let Some(d) = after {
            assert(recurrence.next_after(now) == Some(DateTime { date: d, time: t }));
            if later.date.key() == d.key() {
                lemma_key_is_date(later.date, d);
                lemma_first_times_offered(recurrence, later.time);
            }
        }
    }
}

/// Whether the next firing moment after `now` can be relied on at the
/// later moment `later`: the two lie on one day of the wall clock; or the
/// earliest date that the date patterns offer on the day of `now` lies
/// after that day; or the date patterns are settled between the two days.
pub open spec fn stable_between(recurrence: Recurrence, now: DateTime, later: DateTime) -> bool {
    ||| now.date == later.date
    ||| (earliest_date(
        recurrence.date_candidates(now.date),
        recurrence.dates_patterns@.len() as int,
    ) matches Some(d) && d.key() > now.date.key())
    ||| settled_between(recurrence, now.date, later.date)
}

/// Asked at a later UTC moment that the zone's wall clock shows before the
/// next firing moment, a recurrence gives the firing moment it gave at the
/// earlier one, where the two moments lie on one day of the wall clock, or
/// the firing moment lies on a later date that the date patterns offered
/// at the earlier moment, or the date patterns are settled between the two
/// days.
pub proof fn law_next_at_is_stable(recurrence: Recurrence, cur: DateTime, later_cur: DateTime)
    requires
        recurrence.wf(),
        zone_local_time(recurrence.timezone.name@, cur) matches Some(now) && zone_local_time(
            recurrence.timezone.name@,
            later_cur,
        ) matches Some(later) && {
            &&& now.wf()
            &&& later.wf()
            &&& now.key() <= later.key()
            &&& recurrence.next_after(now) matches Some(m) ==> later.key() < m.key()
            &&& stable_between(recurrence, now, later)
        },
    ensures
        recurrence.next_at(later_cur) == recurrence.next_at(cur),
{
    let now = zone_local_time(recurrence.timezone.name@, cur)->0;
    let later = zone_local_time(recurrence.timezone.name@, later_cur)->0;
    law_next_is_stable(recurrence, now, later);
}

/// On the wall clock, a recurrence asked at a later moment, before the
/// next firing moment, gives the firing moment it gave at the earlier one,
/// where the two moments lie on one day, or the firing moment lies on a
/// later date that the date patterns offered at the earlier moment, or the
/// date patterns are settled between the two days. Where no firing moment
/// follows the earlier moment, none follows the later.
pub proof fn law_next_is_stable(recurrence: Recurrence, now: DateTime, later: DateTime)
    requires
        recurrence.wf(),
        now.wf(),
        later.wf(),
        now.key() <= later.key(),
        recurrence.next_after(now) matches Some(m) ==> later.key() < m.key(),
        stable_between(recurrence, now, later),
    ensures
        recurrence.next_after(later) == recurrence.next_after(now),
{
    if now.date.key() == later.date.key() {
        lemma_key_is_date(now.date, later.date);
        law_next_is_stable_within_the_day(recurrence, now, later);
    } else if settled_between(recurrence, now.date, later.date) {
        law_next_is_stable_after_the_day(recurrence, now, later);
    } else if recurrence.next_after(now) is Some {
        law_next_is_stable_before_a_later_date(recurrence, now, later);
    } else {
        assert(earliest_time(recurrence.first_times(), recurrence.time_patterns@.len() as int)
            is None);
    }
}

} // verus!
