use remindee::calendar::{Date, DateTime, Time};
use remindee::countdown::Countdown;
use remindee::interval::{DateInterval, Interval, TimeInterval};
use remindee::pattern::{
    DateDivisor, DatePattern, DateRange, Pattern, Recurrence, TimePattern, TimeRange,
};
use remindee::weekdays::Weekdays;
use remindee::zone::Tz;

fn day(year: i32, month: u32, day: u32) -> Date {
    Date::from_ymd_opt(year, month, day).unwrap()
}

fn clock(hour: u32, minute: u32, second: u32) -> Time {
    Time::from_hms_opt(hour, minute, second).unwrap()
}

fn at(date: Date, time: Time) -> DateTime {
    DateTime { date, time }
}

fn weekly() -> Recurrence {
    Recurrence {
        dates_patterns: vec![DatePattern::Range(DateRange {
            from: day(2007, 2, 4),
            until: Some(day(2007, 2, 20)),
            date_divisor: DateDivisor::Interval(DateInterval {
                years: 0,
                months: 0,
                weeks: 1,
                days: 0,
            }),
        })],
        time_patterns: vec![
            TimePattern::Point(clock(11, 0, 0)),
            TimePattern::Range(TimeRange {
                from: Some(clock(9, 0, 0)),
                until: Some(clock(12, 0, 0)),
                interval: TimeInterval { hours: 0, minutes: 90, seconds: 0 },
            }),
        ],
        timezone: Tz::new("Europe/Moscow".to_string()),
    }
}

#[test]
fn next_stays_the_same_within_the_day() {
    let recurrence = weekly();
    let expected = Some(at(day(2007, 2, 4), clock(10, 30, 0)));
    for (hour, minute, second) in [(9, 0, 0), (9, 0, 1), (9, 45, 0), (10, 29, 59)] {
        let now = at(day(2007, 2, 4), clock(hour, minute, second));
        assert_eq!(recurrence.next_local(now), expected);
    }
    assert_eq!(
        recurrence.next_local(at(day(2007, 2, 4), clock(10, 30, 0))),
        Some(at(day(2007, 2, 4), clock(11, 0, 0)))
    );
}

#[test]
fn next_stays_the_same_towards_a_later_date() {
    let recurrence = weekly();
    let expected = Some(at(day(2007, 2, 11), clock(9, 0, 0)));
    for now in [
        at(day(2007, 2, 5), clock(0, 0, 0)),
        at(day(2007, 2, 7), clock(13, 0, 0)),
        at(day(2007, 2, 10), clock(23, 59, 59)),
        at(day(2007, 2, 11), clock(0, 0, 0)),
        at(day(2007, 2, 11), clock(8, 59, 59)),
    ] {
        assert_eq!(recurrence.next_local(now), expected);
    }
}

#[test]
fn weekday_ranges_are_stable_towards_the_next_weekday() {
    let recurrence = Recurrence {
        dates_patterns: vec![DatePattern::Range(DateRange {
            from: day(2007, 2, 2),
            until: None,
            date_divisor: DateDivisor::Weekdays(Weekdays { bits: 0b0010001 }),
        })],
        time_patterns: vec![TimePattern::Point(clock(11, 0, 0))],
        timezone: Tz::new("Europe/Moscow".to_string()),
    };
    let expected = Some(at(day(2007, 2, 5), clock(11, 0, 0)));
    for now in [
        at(day(2007, 2, 3), clock(0, 0, 0)),
        at(day(2007, 2, 4), clock(12, 0, 0)),
        at(day(2007, 2, 5), clock(10, 59, 59)),
    ] {
        assert_eq!(recurrence.next_local(now), expected);
    }
}

#[test]
fn a_single_date_in_the_past_lets_a_later_day_fire() {
    let recurrence = Recurrence {
        dates_patterns: vec![
            DatePattern::Point(day(2007, 2, 2)),
            DatePattern::Point(day(2007, 2, 10)),
        ],
        time_patterns: vec![TimePattern::Point(clock(11, 0, 0))],
        timezone: Tz::new("Europe/Moscow".to_string()),
    };
    assert_eq!(
        recurrence.next_local(at(day(2007, 2, 2), clock(12, 0, 0))),
        Some(at(day(2007, 2, 10), clock(11, 0, 0)))
    );
    assert_eq!(
        recurrence.next_local(at(day(2007, 2, 5), clock(9, 0, 0))),
        Some(at(day(2007, 2, 5), clock(11, 0, 0)))
    );
}

#[test]
fn a_pattern_is_done_when_it_can_never_fire() {
    let span = Interval { years: 0, months: 0, weeks: 0, days: 1, hours: 0, minutes: 0, seconds: 0 };
    let mut countdown =
        Pattern::Countdown(Countdown::restore(span, Tz::new("Europe/Moscow".to_string()), false));
    assert!(!countdown.is_done());
    assert_eq!(
        countdown.next(at(day(2007, 2, 2), clock(9, 30, 30))),
        Some(at(day(2007, 2, 3), clock(9, 30, 30)))
    );
    assert!(countdown.is_done());
    assert!(!Pattern::Recurrence(weekly()).is_done());
    let silent = Recurrence { time_patterns: vec![], ..weekly() };
    assert!(Pattern::Recurrence(silent).is_done());
}

#[test]
fn ill_formed_patterns_are_told_apart() {
    assert!(weekly().is_well_formed());
    assert!(!(Recurrence { dates_patterns: vec![], ..weekly() }).is_well_formed());
    let zero_step = TimePattern::Range(TimeRange {
        from: None,
        until: None,
        interval: TimeInterval { hours: 0, minutes: 0, seconds: 0 },
    });
    assert!(!zero_step.is_well_formed());
    assert!(!(Recurrence { time_patterns: vec![zero_step], ..weekly() }).is_well_formed());
    let backwards = TimePattern::Range(TimeRange {
        from: Some(clock(12, 0, 0)),
        until: Some(clock(11, 0, 0)),
        interval: TimeInterval { hours: 1, minutes: 0, seconds: 0 },
    });
    assert!(!backwards.is_well_formed());
    assert!(!TimePattern::Point(Time { hour: 24, minute: 0, second: 0 }).is_well_formed());
    assert!(!DatePattern::Point(Date { year: 2007, month: 2, day: 29 }).is_well_formed());
    let no_days = DatePattern::Range(DateRange {
        from: day(2007, 2, 2),
        until: None,
        date_divisor: DateDivisor::Weekdays(Weekdays::none()),
    });
    assert!(!no_days.is_well_formed());
    let ends_early = DatePattern::Range(DateRange {
        from: day(2007, 2, 2),
        until: Some(day(2007, 2, 1)),
        date_divisor: DateDivisor::Weekdays(Weekdays { bits: 1 }),
    });
    assert!(!ends_early.is_well_formed());
    let out_of_order = Recurrence {
        dates_patterns: vec![
            DatePattern::Point(day(2007, 2, 10)),
            DatePattern::Point(day(2007, 2, 2)),
        ],
        ..weekly()
    };
    assert!(!out_of_order.is_well_formed());
    assert!((DateTime { date: day(2007, 2, 2), time: clock(0, 0, 0) }).is_well_formed());
}

fn mondays_and_fridays(from: Date) -> Recurrence {
    Recurrence {
        dates_patterns: vec![DatePattern::Range(DateRange {
            from,
            until: None,
            date_divisor: DateDivisor::Weekdays(Weekdays { bits: 0b0010001 }),
        })],
        time_patterns: vec![TimePattern::Point(clock(11, 0, 0))],
        timezone: Tz::new("Europe/Moscow".to_string()),
    }
}

#[test]
fn next_stays_the_same_over_the_days_after_the_last_time_of_a_day() {
    let recurrence = mondays_and_fridays(day(2007, 2, 2));
    let expected = Some(at(day(2007, 2, 5), clock(11, 0, 0)));
    for now in [
        at(day(2007, 2, 2), clock(12, 0, 0)),
        at(day(2007, 2, 2), clock(23, 59, 59)),
        at(day(2007, 2, 3), clock(9, 0, 0)),
        at(day(2007, 2, 4), clock(11, 0, 0)),
        at(day(2007, 2, 5), clock(10, 59, 59)),
    ] {
        assert_eq!(recurrence.next_local(now), expected);
    }
    let daily = Recurrence {
        dates_patterns: vec![
            DatePattern::Range(DateRange {
                from: day(2007, 2, 1),
                until: Some(day(2007, 2, 3)),
                date_divisor: DateDivisor::Interval(DateInterval {
                    years: 0,
                    months: 0,
                    weeks: 0,
                    days: 1,
                }),
            }),
            DatePattern::Point(day(2007, 2, 10)),
        ],
        ..mondays_and_fridays(day(2007, 2, 2))
    };
    let expected = Some(at(day(2007, 2, 10), clock(11, 0, 0)));
    for now in [
        at(day(2007, 2, 3), clock(11, 0, 0)),
        at(day(2007, 2, 4), clock(9, 0, 0)),
        at(day(2007, 2, 9), clock(23, 0, 0)),
        at(day(2007, 2, 10), clock(10, 0, 0)),
    ] {
        assert_eq!(daily.next_local(now), expected);
    }
}

#[test]
fn a_range_of_weekdays_that_has_not_begun_offers_its_weekdays_on_a_later_day() {
    let recurrence = mondays_and_fridays(day(2007, 2, 9));
    assert_eq!(
        recurrence.next_local(at(day(2007, 2, 2), clock(12, 0, 0))),
        Some(at(day(2007, 2, 9), clock(11, 0, 0)))
    );
    assert_eq!(
        recurrence.next_local(at(day(2007, 2, 3), clock(9, 0, 0))),
        Some(at(day(2007, 2, 5), clock(11, 0, 0)))
    );
}

#[test]
fn a_recurrence_whose_ranges_have_ended_is_done() {
    let pattern = Pattern::Recurrence(weekly());
    assert!(!pattern.is_done_at(at(day(2007, 2, 10), clock(9, 0, 0))));
    assert!(!pattern.is_done_at(at(day(2007, 2, 18), clock(8, 59, 59))));
    assert!(pattern.is_done_at(at(day(2007, 2, 18), clock(9, 0, 0))));
    assert!(pattern.is_done_at(at(day(2007, 2, 21), clock(0, 0, 0))));
    assert!(pattern.is_done_at(at(day(2008, 1, 1), clock(0, 0, 0))));
    assert!(!pattern.is_done());
    let span = Interval { years: 0, months: 0, weeks: 0, days: 1, hours: 0, minutes: 0, seconds: 0 };
    let zone = Tz::new("Europe/Moscow".to_string());
    let fresh = Pattern::Countdown(Countdown::restore(span, zone, false));
    assert!(!fresh.is_done_at(at(day(2007, 2, 2), clock(9, 0, 0))));
    let zone = Tz::new("Europe/Moscow".to_string());
    let used = Pattern::Countdown(Countdown::restore(span, zone, true));
    assert!(used.is_done_at(at(day(2007, 2, 2), clock(9, 0, 0))));
}
