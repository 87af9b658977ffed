//! Filling the open fields of a date against a lower bound.

use crate::calendar::{days_in_month, month_len, Date, MAX_YEAR, MIN_YEAR};
use crate::calendar_proofs::lemma_key_is_date;
use crate::grammar::HoleyDate;
use vstd::prelude::*;

verus! {

/// The day of the month that a written day stands for in a month: the
/// written day, or the month's last day where the written day lies beyond
/// it.
pub open spec fn fit_day(written: int, month: int, year: int) -> int {
    if written <= month_len(month, year) {
        written
    } else {
        month_len(month, year)
    }
}

/// Whether `date` is a date of the calendar that has every field written
/// in `holey_date`: the written year, the written month, and the day that
/// the written day stands for in the date's month.
pub open spec fn fits(holey_date: HoleyDate, date: Date) -> bool {
    &&& date.wf()
    &&& holey_date.year matches Some(y) ==> date.year == y
    &&& holey_date.month matches Some(m) ==> date.month == m
    &&& holey_date.day matches Some(n) ==> n >= 1 && date.day == fit_day(
        n as int,
        date.month as int,
        date.year as int,
    )
}

/// Whether `date` is the earliest date from `lower_bound` on that has every
/// field written in `holey_date`.
pub open spec fn is_filled_date(holey_date: HoleyDate, lower_bound: Date, date: Date) -> bool {
    &&& fits(holey_date, date)
    &&& date.key() >= lower_bound.key()
    &&& forall|other: Date|
        #[trigger] fits(holey_date, other) && other.key() >= lower_bound.key() ==> date.key()
            <= other.key()
}

/// The earliest date from `lower_bound` on that has every field written in
/// `holey_date`; none where there is no such date.
pub open spec fn filled_date(holey_date: HoleyDate, lower_bound: Date) -> Option<Date> {
    if exists|date: Date| is_filled_date(holey_date, lower_bound, date) {
        Some(choose|date: Date| is_filled_date(holey_date, lower_bound, date))
    } else {
        None
    }
}

/// The written month and day can be had: the month is one of the twelve,
/// and the day is not zero.
pub open spec fn writable(holey_date: HoleyDate) -> bool {
    &&& holey_date.month matches Some(m) ==> 1 <= m <= 12
    &&& holey_date.day matches Some(n) ==> n >= 1
}

/// The earliest day from `min_day` on, in the given month, that suits the
/// written day.
fn first_in_month(holey_date: &HoleyDate, year: i32, month: u32, min_day: u32) -> (r: Option<
    Date,
>)
    requires
        writable(*holey_date),
        MIN_YEAR <= year <= MAX_YEAR,
        1 <= month <= 12,
        1 <= min_day <= month_len(month as int, year as int),
        holey_date.year matches Some(y) ==> y == year,
        holey_date.month matches Some(m) ==> m == month,
    ensures
        match r {
            Some(d) => fits(*holey_date, d) && d.year == year && d.month == month && d.day
                >= min_day && forall|e: Date|
                #[trigger] fits(*holey_date, e) && e.year == year && e.month == month && e.day
                    >= min_day ==> d.day <= e.day,
            None => forall|e: Date|
                #[trigger] fits(*holey_date, e) && e.year == year && e.month == month ==> e.day
                    < min_day,
        },
        min_day == 1 ==> r is Some,
{
    match holey_date.day {
        None => Some(Date { year, month, day: min_day }),
        Some(written) => {
            let last: u32 = days_in_month(month, year);
            let day: u32 = if written <= last {
                written
            } else {
                last
            };
            if day >= min_day {
                Some(Date { year, month, day })
            } else {
                None
            }
        },
    }
}

/// The earliest date of the given year, from the given month and day on,
/// that suits the written month and day.
fn first_in_year(holey_date: &HoleyDate, year: i32, min_month: u32, min_day: u32) -> (r: Option<
    Date,
>)
    requires
        writable(*holey_date),
        MIN_YEAR <= year <= MAX_YEAR,
        1 <= min_month <= 12,
        1 <= min_day <= month_len(min_month as int, year as int),
        holey_date.year matches Some(y) ==> y == year,
    ensures
        match r {
            Some(d) => fits(*holey_date, d) && d.year == year && (d.month > min_month || (d.month
                == min_month && d.day >= min_day)) && forall|e: Date|
                #[trigger] fits(*holey_date, e) && e.year == year && (e.month > min_month || (
                e.month == min_month && e.day >= min_day)) ==> d.key() <= e.key(),
            None => forall|e: Date|
                #[trigger] fits(*holey_date, e) && e.year == year ==> e.month < min_month || (
                e.month == min_month && e.day < min_day),
        },
        min_month == 1 && min_day == 1 ==> r is Some,
{
    match holey_date.month {
        Some(month) => {
            if month < min_month {
                None
            } else if month == min_month {
                first_in_month(holey_date, year, month, min_day)
            } else {
                first_in_month(holey_date, year, month, 1)
            }
        },
        None => {
            match first_in_month(holey_date, year, min_month, min_day) {
                Some(d) => Some(d),
                None => {
                    if min_month < 12 {
                        first_in_month(holey_date, year, min_month + 1, 1)
                    } else {
                        None
                    }
                },
            }
        },
    }
}

/// Two dates that are both the earliest fitting date are one date.
pub proof fn lemma_filled_date_is_one(
    holey_date: HoleyDate,
    lower_bound: Date,
    date: Date,
    other: Date,
)
    requires
        is_filled_date(holey_date, lower_bound, date),
        is_filled_date(holey_date, lower_bound, other),
    ensures
        date == other,
{
    lemma_key_is_date(date, other);
}

/// Fills the open fields of `holey_date`: gives the earliest date, not
/// before `lower_bound`, that has the written year, the written month and
/// the written day, an open field taking any value. A written day that lies
/// beyond the end of a month stands for that month's last day. There is no
/// date where none from the bound on has the written fields.
pub fn fill_date_holes(holey_date: &HoleyDate, lower_bound: Date) -> (r: Option<Date>)
    requires
        lower_bound.wf(),
    ensures
        r == filled_date(*holey_date, lower_bound),
        match r {
            Some(d) => is_filled_date(*holey_date, lower_bound, d),
            None => forall|e: Date| #[trigger] fits(*holey_date, e) ==> e.key() < lower_bound.key(),
        },
{
    let month_ok = match holey_date.month {
        Some(m) => 1 <= m && m <= 12,
        None => true,
    };
    let day_ok = match holey_date.day {
        Some(n) => n >= 1,
        None => true,
    };
    if !month_ok || !day_ok {
        return None;
    }
    let found = match holey_date.year {
        Some(year) => {
            if year < lower_bound.year || year > MAX_YEAR {
                None
            } else if year == lower_bound.year {
                first_in_year(holey_date, year, lower_bound.month, lower_bound.day)
            } else {
                first_in_year(holey_date, year, 1, 1)
            }
        },
        None => {
            match first_in_year(
                holey_date,
                lower_bound.year,
                lower_bound.month,
                lower_bound.day,
            ) {
                Some(d) => Some(d),
                None => {
                    if lower_bound.year < MAX_YEAR {
                        first_in_year(holey_date, lower_bound.year + 1, 1, 1)
                    } else {
                        None
                    }
                },
            }
        },
    };
    proof {
        match found {
            Some(d) => {
                assert(is_filled_date(*holey_date, lower_bound, d));
                let chosen = choose|date: Date| is_filled_date(*holey_date, lower_bound, date);
                lemma_filled_date_is_one(*holey_date, lower_bound, d, chosen);
            },
            None => {
                assert forall|e: Date| #[trigger] fits(*holey_date, e) implies e.key()
                    < lower_bound.key() by {}
            },
        }
    }
    found
}

} // verus!
