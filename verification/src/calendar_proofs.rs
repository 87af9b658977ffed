//! Facts about the day count: it grows with the calendar's order of dates.

use crate::calendar::{
    days_before_month, days_before_year, is_leap, month_len, plus_date_interval, plus_months,
    year_len, Date, MAX_YEAR,
};
use crate::interval::DateInterval;
use vstd::prelude::*;

verus! {

/// Stepping a number by one moves its quotient by `k` exactly at the multiples of `k`.
proof fn lemma_div_step(y: int, k: int)
    requires
        k > 1,
    ensures
        y / k - (y - 1) / k == (if y % k == 0 { 1int } else { 0 }),
{
    let q = y / k;
    let r = y % k;
    vstd::arithmetic::div_mod::lemma_fundamental_div_mod(y, k);
    vstd::arithmetic::div_mod::lemma_mod_bound(y, k);
    if r == 0 {
        assert(y - 1 == (q - 1) * k + (k - 1)) by (nonlinear_arith)
            requires
                y == k * q + r,
                r == 0,
        ;
        vstd::arithmetic::div_mod::lemma_fundamental_div_mod_converse(y - 1, k, q - 1, k - 1);
    } else {
        assert(y - 1 == q * k + (r - 1)) by (nonlinear_arith)
            requires
                y == k * q + r,
        ;
        vstd::arithmetic::div_mod::lemma_fundamental_div_mod_converse(y - 1, k, q, r - 1);
    }
}

/// A multiple of `k * m` is a multiple of `k`.
proof fn lemma_multiple(y: int, k: int, m: int)
    requires
        k > 0,
        m > 0,
        y % (k * m) == 0,
    ensures
        y % k == 0,
{
    assert(k * m > 0) by (nonlinear_arith)
        requires
            k > 0,
            m > 0,
    ;
    let q = y / (k * m);
    vstd::arithmetic::div_mod::lemma_fundamental_div_mod(y, k * m);
    assert(y == (q * m) * k + 0) by (nonlinear_arith)
        requires
            y == (k * m) * q + 0,
    ;
    vstd::arithmetic::div_mod::lemma_fundamental_div_mod_converse(y, k, q * m, 0);
}

/// Each year adds its own length to the day count.
pub proof fn lemma_year_step(year: int)
    ensures
        days_before_year(year + 1) == days_before_year(year) + year_len(year),
{
    lemma_div_step(year, 4);
    lemma_div_step(year, 100);
    lemma_div_step(year, 400);
    if year % 400 == 0 {
        lemma_multiple(year, 100, 4);
    }
    if year % 100 == 0 {
        lemma_multiple(year, 4, 25);
    }
}

/// The day count before a year grows by at least 365 with every year.
pub proof fn lemma_years_grow(a: int, b: int)
    requires
        a <= b,
    ensures
        days_before_year(b) - days_before_year(a) >= 365 * (b - a),
    decreases b - a,
{
    if a < b {
        lemma_years_grow(a, b - 1);
        lemma_year_step(b - 1);
    }
}

/// The leap days up to a year, counted from a year that lies 262400 years
/// earlier, a multiple of 400: there are 63632 more of them.
pub proof fn lemma_shifted_leaps(year: int)
    ensures
        (year + 262400) / 4 - (year + 262400) / 100 + (year + 262400) / 400 == year / 4 - year
            / 100 + year / 400 + 63632,
{
    assert((year + 262400) / 4 == year / 4 + 65600);
    assert((year + 262400) / 100 == year / 100 + 2624);
    assert((year + 262400) / 400 == year / 400 + 656);
}

/// The days before each month, written out.
pub proof fn lemma_month_table(year: int)
    ensures
        days_before_month(1, year) == 0,
        days_before_month(2, year) == 31,
        days_before_month(3, year) == 59 + (if is_leap(year) { 1int } else { 0 }),
        days_before_month(4, year) == 90 + (if is_leap(year) { 1int } else { 0 }),
        days_before_month(5, year) == 120 + (if is_leap(year) { 1int } else { 0 }),
        days_before_month(6, year) == 151 + (if is_leap(year) { 1int } else { 0 }),
        days_before_month(7, year) == 181 + (if is_leap(year) { 1int } else { 0 }),
        days_before_month(8, year) == 212 + (if is_leap(year) { 1int } else { 0 }),
        days_before_month(9, year) == 243 + (if is_leap(year) { 1int } else { 0 }),
        days_before_month(10, year) == 273 + (if is_leap(year) { 1int } else { 0 }),
        days_before_month(11, year) == 304 + (if is_leap(year) { 1int } else { 0 }),
        days_before_month(12, year) == 334 + (if is_leap(year) { 1int } else { 0 }),
        days_before_month(13, year) == year_len(year),
{
    reveal_with_fuel(days_before_month, 14);
}

/// An earlier date, by year, month and day, has a smaller day count, and the
/// other way round.
pub proof fn lemma_order_is_day_order(a: Date, b: Date)
    requires
        a.wf(),
        b.wf(),
    ensures
        a.key() < b.key() <==> a.days_from_ce() < b.days_from_ce(),
        a.key() == b.key() <==> a.days_from_ce() == b.days_from_ce(),
{
    lemma_month_table(a.year as int);
    lemma_month_table(b.year as int);
    if a.year < b.year {
        lemma_year_step(a.year as int);
        lemma_years_grow(a.year + 1, b.year as int);
    } else if b.year < a.year {
        lemma_year_step(b.year as int);
        lemma_years_grow(b.year + 1, a.year as int);
    }
}

/// Well-formed dates with the same key are the same date.
pub proof fn lemma_key_is_date(a: Date, b: Date)
    requires
        a.wf(),
        b.wf(),
        a.key() == b.key(),
    ensures
        a == b,
{
}

/// Well-formed dates with the same day count are the same date.
pub proof fn lemma_day_count_injective(a: Date, b: Date)
    requires
        a.wf(),
        b.wf(),
        a.days_from_ce() == b.days_from_ce(),
    ensures
        a == b,
{
    lemma_order_is_day_order(a, b);
}

/// The day after `date`.
pub open spec fn next_day(date: Date) -> Date {
    if date.day < month_len(date.month as int, date.year as int) {
        Date { year: date.year, month: date.month, day: (date.day + 1) as u32 }
    } else if date.month < 12 {
        Date { year: date.year, month: (date.month + 1) as u32, day: 1 }
    } else {
        Date { year: (date.year + 1) as i32, month: 1, day: 1 }
    }
}

/// Every date but the last has a next day, whose day count is one more.
pub proof fn lemma_next_day(date: Date)
    requires
        date.wf(),
        date != Date::latest(),
    ensures
        next_day(date).wf(),
        next_day(date).days_from_ce() == date.days_from_ce() + 1,
{
    lemma_month_table(date.year as int);
    lemma_year_step(date.year as int);
    if date.year == MAX_YEAR && date.month == 12 {
        assert(date.day < 31);
    }
    lemma_month_table(date.year + 1);
}

/// Every day count from that of a date up to that of the last date belongs
/// to a date.
pub proof fn lemma_day_count_reached(date: Date, days: nat)
    requires
        date.wf(),
        date.days_from_ce() + days <= Date::latest().days_from_ce(),
    ensures
        Date::of_day_count(date.days_from_ce() + days).wf(),
        Date::of_day_count(date.days_from_ce() + days).days_from_ce() == date.days_from_ce() + days,
    decreases days,
{
    if days == 0 {
        assert(date.wf() && date.days_from_ce() == date.days_from_ce() + days);
    } else {
        lemma_day_count_reached(date, (days - 1) as nat);
        let e = Date::of_day_count(date.days_from_ce() + days - 1);
        lemma_next_day(e);
        let s = next_day(e);
        assert(s.wf() && s.days_from_ce() == date.days_from_ce() + days);
    }
}

/// What moving a date by a number of days gives: a later date with that
/// many days between, or nothing where the calendar ends before.
pub proof fn lemma_plus_days(date: Date, days: int)
    requires
        date.wf(),
        days >= 0,
    ensures
        match date.plus_days(days) {
            Some(d) => d.wf() && d.days_from_ce() == date.days_from_ce() + days && d.key()
                >= date.key() && (days > 0 ==> d.key() > date.key()),
            None => date.days_from_ce() + days > Date::latest().days_from_ce(),
        },
{
    if let Some(d) = date.plus_days(days) {
        lemma_day_count_reached(date, days as nat);
        lemma_order_is_day_order(date, d);
    }
}

/// What moving a date by whole months gives: a date of the calendar, later
/// where the months are more than none.
pub proof fn lemma_plus_months(date: Date, months: int)
    requires
        date.wf(),
    ensures
        plus_months(date, months) matches Some(d) ==> d.wf() && (months >= 0 ==> d.key()
            >= date.key()) && (months > 0 ==> d.key() > date.key()),
{
}

/// What moving a date by a span gives: a date of the calendar, later where
/// the span is positive.
pub proof fn lemma_plus_date_interval(date: Date, step: DateInterval)
    requires
        date.wf(),
    ensures
        plus_date_interval(date, step) matches Some(d) ==> d.wf() && (step.years >= 0 ==> d.key()
            >= date.key()) && (step.positive() ==> d.key() > date.key()),
{
    lemma_plus_months(date, step.month_count());
    if let Some(m) = plus_months(date, step.month_count()) {
        lemma_plus_days(m, step.day_count());
    }
}

} // verus!
