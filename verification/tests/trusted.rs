use chrono::{Datelike, Days, NaiveDate};
use remindee::calendar::Date;

fn samples() -> Vec<(i32, u32, u32)> {
    let mut dates = vec![
        (1, 1, 1),
        (1, 12, 31),
        (0, 1, 1),
        (0, 2, 29),
        (0, 12, 31),
        (-1, 1, 1),
        (-1, 12, 31),
        (-4, 2, 29),
        (-100, 3, 1),
        (-400, 2, 29),
        (-262143, 1, 1),
        (262142, 12, 31),
        (1600, 2, 29),
        (1900, 2, 28),
        (1900, 3, 1),
        (1970, 1, 1),
        (2000, 2, 29),
        (2007, 2, 2),
        (2100, 12, 31),
    ];
    for year in [1999, 2000, 2001, 2004, 2007, 2008] {
        for month in 1..=12 {
            for day in [1, 15, 28] {
                dates.push((year, month, day));
            }
        }
    }
    dates
}

#[test]
fn the_day_count_is_that_of_chrono() {
    for (year, month, day) in samples() {
        let date = Date::from_ymd_opt(year, month, day).unwrap();
        let naive = NaiveDate::from_ymd_opt(year, month, day).unwrap();
        assert_eq!(date.day_count(), naive.num_days_from_ce() as i64);
    }
    assert_eq!(Date::from_ymd_opt(1, 1, 1).unwrap().day_count(), 1);
    assert_eq!(Date::from_ymd_opt(1970, 1, 1).unwrap().day_count(), 719163);
}

#[test]
fn the_weekday_is_the_day_count_modulo_seven() {
    for (year, month, day) in samples() {
        let date = Date::from_ymd_opt(year, month, day).unwrap();
        let naive = NaiveDate::from_ymd_opt(year, month, day).unwrap();
        assert_eq!(date.weekday_from_monday(), naive.weekday().num_days_from_monday());
        assert_eq!(date.weekday_from_monday() as i64, (date.day_count() - 1).rem_euclid(7));
    }
}

#[test]
fn added_days_add_to_the_day_count() {
    for (year, month, day) in samples() {
        let date = Date::from_ymd_opt(year, month, day).unwrap();
        let naive = NaiveDate::from_ymd_opt(year, month, day).unwrap();
        for days in [0u64, 1, 27, 28, 31, 59, 365, 366, 1461, 36524, 146097, 1000003] {
            let moved = date.add_days(days);
            let expected = naive.checked_add_days(Days::new(days));
            assert_eq!(moved.is_some(), expected.is_some());
            if let (Some(moved), Some(expected)) = (moved, expected) {
                assert_eq!(
                    (moved.year, moved.month, moved.day),
                    (expected.year(), expected.month(), expected.day())
                );
                assert_eq!(moved.day_count(), date.day_count() + days as i64);
                assert_eq!(Date::from_ymd_opt(moved.year, moved.month, moved.day), Some(moved));
            }
        }
    }
}

#[test]
fn the_calendar_ends_where_that_of_chrono_ends() {
    let last = Date::from_ymd_opt(262142, 12, 31).unwrap();
    assert_eq!(NaiveDate::MAX.year(), 262142);
    assert_eq!(NaiveDate::MIN.year(), -262143);
    assert_eq!(last.day_count(), NaiveDate::MAX.num_days_from_ce() as i64);
    let near = Date::from_ymd_opt(262142, 1, 1).unwrap();
    assert_eq!(near.add_days(364), Some(last));
    assert_eq!(near.add_days(365), None);
    let first = Date::from_ymd_opt(-262143, 1, 1).unwrap();
    assert_eq!(first.day_count(), NaiveDate::MIN.num_days_from_ce() as i64);
    assert_eq!(first.add_days((last.day_count() - first.day_count()) as u64), Some(last));
}
