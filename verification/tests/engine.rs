use remindee::calendar::{
    add_date_interval, add_interval, find_nearest_weekday, Date, DateTime, Time,
};
use remindee::countdown::Countdown;
use remindee::grammar;
use remindee::holes::fill_date_holes;
use remindee::interval::{DateInterval, Interval, TimeInterval};
use remindee::lower::LowerError;
use remindee::pattern::{
    DateDivisor, DatePattern, DateRange, Pattern, Recurrence, TimePattern, TimeRange,
};
use remindee::weekdays::Weekdays;
use remindee::zone::Tz;

fn date(year: i32, month: u32, day: u32) -> Date {
    Date::from_ymd_opt(year, month, day).unwrap()
}

fn time(hour: u32, minute: u32, second: u32) -> Time {
    Time::from_hms_opt(hour, minute, second).unwrap()
}

fn moment(year: i32, month: u32, day: u32, hour: u32, minute: u32, second: u32) -> DateTime {
    DateTime { date: date(year, month, day), time: time(hour, minute, second) }
}

fn zone(name: &str) -> Tz {
    Tz::new(name.to_string())
}

fn holey(year: Option<i32>, month: Option<u32>, day: Option<u32>) -> grammar::HoleyDate {
    grammar::HoleyDate { year, month, day }
}

fn step(years: i32, months: u32, weeks: u32, days: u32) -> DateInterval {
    DateInterval { years, months, weeks, days }
}

fn point_recurrence(
    dates: Vec<grammar::HoleyDate>,
    times: Vec<grammar::Time>,
) -> grammar::Recurrence {
    grammar::Recurrence {
        dates_patterns: dates.into_iter().map(grammar::DatePattern::Point).collect(),
        time_patterns: times.into_iter().map(grammar::TimePattern::Point).collect(),
    }
}

fn lower_error(recurrence: grammar::Recurrence) -> LowerError {
    Recurrence::from_with_tz(recurrence, zone("Europe/Moscow"), moment(2007, 2, 2, 9, 30, 30))
        .unwrap_err()
}

#[test]
fn dates_that_do_not_exist_are_refused() {
    assert_eq!(Date::from_ymd_opt(2007, 2, 29), None);
    assert_eq!(Date::from_ymd_opt(2008, 2, 29), Some(Date { year: 2008, month: 2, day: 29 }));
    assert_eq!(Date::from_ymd_opt(2007, 13, 1), None);
    assert_eq!(Date::from_ymd_opt(2007, 0, 1), None);
    assert_eq!(Date::from_ymd_opt(2007, 1, 0), None);
    assert_eq!(Date::from_ymd_opt(262143, 1, 1), None);
    assert_eq!(Date::from_ymd_opt(-262144, 1, 1), None);
    assert_eq!(Time::from_hms_opt(24, 0, 0), None);
    assert_eq!(Time::from_hms_opt(23, 60, 0), None);
    assert_eq!(Time::from_hms_opt(23, 59, 60), None);
    assert_eq!(Time::from_hms_opt(23, 59, 59), Some(Time { hour: 23, minute: 59, second: 59 }));
}

#[test]
fn dates_are_ordered_by_year_month_day() {
    assert!(date(2007, 2, 2).lt(&date(2007, 2, 3)));
    assert!(date(2007, 2, 28).lt(&date(2007, 3, 1)));
    assert!(date(2007, 12, 31).lt(&date(2008, 1, 1)));
    assert!(!date(2007, 2, 2).lt(&date(2007, 2, 2)));
    assert!(date(2007, 2, 2).le(&date(2007, 2, 2)));
    assert!(moment(2007, 2, 2, 9, 0, 0).lt(&moment(2007, 2, 2, 9, 0, 1)));
    assert!(!moment(2007, 2, 3, 0, 0, 0).lt(&moment(2007, 2, 2, 23, 59, 59)));
}

#[test]
fn weekday_counts_from_monday() {
    assert_eq!(date(2007, 2, 2).weekday_from_monday(), 4);
    assert_eq!(date(2007, 2, 5).weekday_from_monday(), 0);
    assert_eq!(date(1970, 1, 1).weekday_from_monday(), 3);
    assert_eq!(date(1, 1, 1).weekday_from_monday(), 0);
    assert_eq!(date(2024, 2, 29).weekday_from_monday(), 3);
}

#[test]
fn adding_days_stops_at_the_end_of_the_calendar() {
    assert_eq!(date(262142, 12, 31).add_days(1), None);
    assert_eq!(date(262142, 12, 30).add_days(1), Some(date(262142, 12, 31)));
    assert_eq!(date(2007, 2, 2).add_days(u64::MAX), None);
    assert_eq!(date(2007, 2, 28).add_days(1), Some(date(2007, 3, 1)));
    assert_eq!(date(2008, 2, 28).add_days(1), Some(date(2008, 2, 29)));
    assert_eq!(date(2007, 2, 2).add_days(365), Some(date(2008, 2, 2)));
}

#[test]
fn nearest_weekday_is_the_first_from_the_date_on() {
    let fri_mon = nonempty::NonEmpty::from_vec(vec![0u32, 4]).unwrap();
    assert_eq!(find_nearest_weekday(date(2007, 2, 2), &fri_mon), Some(date(2007, 2, 2)));
    assert_eq!(find_nearest_weekday(date(2007, 2, 3), &fri_mon), Some(date(2007, 2, 5)));
    assert_eq!(find_nearest_weekday(date(2007, 2, 6), &fri_mon), Some(date(2007, 2, 9)));
    let sunday = nonempty::NonEmpty::from_vec(vec![6u32]).unwrap();
    assert_eq!(find_nearest_weekday(date(2007, 2, 5), &sunday), Some(date(2007, 2, 11)));
    let nothing = nonempty::NonEmpty::from_vec(vec![7u32]).unwrap();
    assert_eq!(find_nearest_weekday(date(2007, 2, 5), &nothing), None);
}

#[test]
fn months_are_added_with_the_day_clamped() {
    assert_eq!(add_date_interval(date(2007, 1, 31), &step(0, 1, 0, 0)), Some(date(2007, 2, 28)));
    assert_eq!(add_date_interval(date(2008, 1, 31), &step(0, 1, 0, 0)), Some(date(2008, 2, 29)));
    assert_eq!(add_date_interval(date(2008, 2, 29), &step(1, 0, 0, 0)), Some(date(2009, 2, 28)));
    assert_eq!(add_date_interval(date(2007, 12, 31), &step(0, 2, 0, 0)), Some(date(2008, 2, 29)));
    assert_eq!(add_date_interval(date(2007, 11, 30), &step(0, 13, 0, 0)), Some(date(2008, 12, 30)));
    assert_eq!(add_date_interval(date(2007, 1, 31), &step(0, 1, 1, 1)), Some(date(2007, 3, 8)));
    assert_eq!(add_date_interval(date(2007, 3, 31), &step(-1, 0, 0, 0)), Some(date(2006, 3, 31)));
    assert_eq!(add_date_interval(date(2007, 2, 2), &step(0, 0, 0, 0)), Some(date(2007, 2, 2)));
    assert_eq!(add_date_interval(date(262142, 12, 1), &step(0, 1, 0, 0)), None);
    assert_eq!(add_date_interval(date(2007, 2, 2), &step(i32::MAX, 0, 0, 0)), None);
}

#[test]
fn the_day_of_a_moved_date_fits_its_month() {
    let mut current = date(2007, 1, 31);
    for _ in 0..30 {
        current = add_date_interval(current, &step(0, 1, 0, 0)).unwrap();
        assert_eq!(Date::from_ymd_opt(current.year, current.month, current.day), Some(current));
    }
    assert_eq!(current, date(2009, 7, 28));
}

#[test]
fn intervals_add_the_date_part_and_then_the_clock_part() {
    let span =
        Interval { years: 0, months: 0, weeks: 1, days: 0, hours: 1, minutes: 2, seconds: 3 };
    assert_eq!(
        add_interval(moment(2007, 2, 2, 13, 32, 30), &span),
        Some(moment(2007, 2, 9, 14, 34, 33))
    );
    let late = Interval { years: 0, months: 1, weeks: 0, days: 0, hours: 23, minutes: 59, seconds: 59 };
    assert_eq!(
        add_interval(moment(2007, 1, 31, 0, 0, 1), &late),
        Some(moment(2007, 3, 1, 0, 0, 0))
    );
    let long = Interval { years: 0, months: 0, weeks: 0, days: 0, hours: 49, minutes: 0, seconds: 0 };
    assert_eq!(add_interval(moment(2007, 2, 27, 23, 0, 0), &long), Some(moment(2007, 3, 2, 0, 0, 0)));
    assert_eq!((TimeInterval { hours: 1, minutes: 2, seconds: 3 }).total_seconds(), 3723);
}

#[test]
fn open_fields_are_filled_from_the_bound() {
    let bound = date(2007, 2, 2);
    assert_eq!(fill_date_holes(&holey(None, None, None), bound), Some(bound));
    assert_eq!(fill_date_holes(&holey(None, None, Some(3)), bound), Some(date(2007, 2, 3)));
    assert_eq!(fill_date_holes(&holey(None, Some(12), Some(31)), bound), Some(date(2007, 12, 31)));
    assert_eq!(fill_date_holes(&holey(Some(2025), Some(6), Some(7)), bound), Some(date(2025, 6, 7)));
    assert_eq!(fill_date_holes(&holey(Some(2007), Some(2), Some(2)), bound), Some(bound));
}

#[test]
fn a_day_beyond_the_month_is_clamped() {
    let bound = date(2007, 2, 2);
    assert_eq!(fill_date_holes(&holey(None, None, Some(31)), bound), Some(date(2007, 2, 28)));
    assert_eq!(fill_date_holes(&holey(Some(2008), Some(2), Some(30)), bound), Some(date(2008, 2, 29)));
}

#[test]
fn a_date_before_the_bound_moves_to_the_next_that_has_the_written_fields() {
    let bound = date(2007, 2, 2);
    assert_eq!(fill_date_holes(&holey(None, None, Some(1)), bound), Some(date(2007, 3, 1)));
    assert_eq!(fill_date_holes(&holey(None, Some(1), Some(1)), bound), Some(date(2008, 1, 1)));
    assert_eq!(fill_date_holes(&holey(None, Some(1), None), bound), Some(date(2008, 1, 1)));
    assert_eq!(fill_date_holes(&holey(None, Some(2), None), bound), Some(date(2007, 2, 2)));
    assert_eq!(fill_date_holes(&holey(Some(2008), None, None), bound), Some(date(2008, 1, 1)));
    assert_eq!(fill_date_holes(&holey(Some(2007), None, Some(1)), bound), Some(date(2007, 3, 1)));
    assert_eq!(fill_date_holes(&holey(None, Some(2), Some(1)), date(2008, 2, 2)), Some(date(2009, 2, 1)));
}

#[test]
fn the_next_year_is_a_step_of_the_calendar() {
    let march_first = holey(None, Some(3), Some(1));
    assert_eq!(fill_date_holes(&march_first, date(2007, 6, 1)), Some(date(2008, 3, 1)));
    assert_eq!(fill_date_holes(&march_first, date(2008, 3, 2)), Some(date(2009, 3, 1)));
    assert_eq!(fill_date_holes(&march_first, date(2008, 3, 1)), Some(date(2008, 3, 1)));
    let leap_day = holey(None, Some(2), Some(29));
    assert_eq!(fill_date_holes(&leap_day, date(2007, 3, 1)), Some(date(2008, 2, 29)));
    assert_eq!(fill_date_holes(&leap_day, date(2008, 3, 1)), Some(date(2009, 2, 28)));
    assert_eq!(fill_date_holes(&holey(None, Some(3), Some(1)), date(262142, 6, 1)), None);
}

#[test]
fn the_next_month_is_a_step_of_the_calendar() {
    let thirtieth = holey(None, None, Some(30));
    assert_eq!(fill_date_holes(&thirtieth, date(2007, 1, 31)), Some(date(2007, 2, 28)));
    assert_eq!(fill_date_holes(&thirtieth, date(2007, 3, 1)), Some(date(2007, 3, 30)));
    assert_eq!(fill_date_holes(&thirtieth, date(2007, 12, 31)), Some(date(2008, 1, 30)));
    let last = holey(None, None, Some(31));
    assert_eq!(fill_date_holes(&last, date(2007, 4, 30)), Some(date(2007, 4, 30)));
    assert_eq!(fill_date_holes(&last, date(2007, 5, 1)), Some(date(2007, 5, 31)));
    assert_eq!(fill_date_holes(&holey(Some(2007), None, Some(30)), date(2007, 12, 31)), None);
}

#[test]
fn a_date_that_cannot_reach_the_bound_is_not_filled() {
    let bound = date(2007, 2, 2);
    assert_eq!(fill_date_holes(&holey(Some(2007), Some(2), Some(1)), bound), None);
    assert_eq!(fill_date_holes(&holey(Some(2000), Some(1), Some(1)), bound), None);
    assert_eq!(fill_date_holes(&holey(Some(2000), None, Some(5)), bound), None);
    assert_eq!(fill_date_holes(&holey(Some(2007), Some(1), None), bound), None);
    assert_eq!(fill_date_holes(&holey(None, Some(13), None), bound), None);
    assert_eq!(fill_date_holes(&holey(None, Some(0), None), bound), None);
    assert_eq!(fill_date_holes(&holey(None, None, Some(0)), bound), None);
    assert_eq!(fill_date_holes(&holey(Some(300000), None, None), bound), None);
}

#[test]
fn filled_dates_have_the_written_fields_and_are_not_before_the_bound() {
    let bound = date(2007, 2, 2);
    for month in [None, Some(1), Some(2), Some(3), Some(12)] {
        for day in [None, Some(1), Some(2), Some(3), Some(28), Some(31)] {
            for year in [None, Some(2006), Some(2007), Some(2008)] {
                if let Some(filled) = fill_date_holes(&holey(year, month, day), bound) {
                    assert!(bound.le(&filled));
                    assert_eq!(Date::from_ymd_opt(filled.year, filled.month, filled.day), Some(filled));
                    assert!(year.map_or(true, |y| filled.year == y));
                    assert!(month.map_or(true, |m| filled.month == m));
                    let last = remindee::calendar::days_in_month(filled.month, filled.year);
                    assert!(day.map_or(true, |n| filled.day == n.min(last)));
                }
            }
        }
    }
}

#[test]
fn a_range_of_dates_steps_from_its_start() {
    let range = DateRange {
        from: date(2007, 2, 3),
        until: Some(date(2007, 2, 6)),
        date_divisor: DateDivisor::Interval(step(0, 0, 0, 2)),
    };
    assert_eq!(range.get_nearest_date(date(2007, 2, 1)), Some(date(2007, 2, 3)));
    assert_eq!(range.get_nearest_date(date(2007, 2, 3)), Some(date(2007, 2, 3)));
    assert_eq!(range.get_nearest_date(date(2007, 2, 4)), Some(date(2007, 2, 5)));
    assert_eq!(range.get_nearest_date(date(2007, 2, 6)), None);
    let open = DateRange { until: None, ..range };
    assert_eq!(open.get_nearest_date(date(2007, 2, 6)), Some(date(2007, 2, 7)));
    assert_eq!(open.get_nearest_date(date(2008, 2, 6)), Some(date(2008, 2, 6)));
}

#[test]
fn a_range_of_weekdays_starts_at_the_date_asked() {
    let range = DateRange {
        from: date(2007, 2, 2),
        until: Some(date(2007, 2, 10)),
        date_divisor: DateDivisor::Weekdays(Weekdays { bits: 0b0010001 }),
    };
    assert_eq!(range.get_nearest_date(date(2007, 2, 2)), Some(date(2007, 2, 2)));
    assert_eq!(range.get_nearest_date(date(2007, 2, 3)), Some(date(2007, 2, 5)));
    assert_eq!(range.get_nearest_date(date(2007, 2, 6)), Some(date(2007, 2, 9)));
    assert_eq!(range.get_nearest_date(date(2007, 2, 10)), None);
    assert_eq!((Weekdays { bits: 0b0010001 }).to_list(), vec![0, 4]);
    assert_eq!((Weekdays { bits: 0b1111111 }).to_list(), vec![0, 1, 2, 3, 4, 5, 6]);
}

#[test]
fn parsed_weekdays_are_taken_over() {
    let parsed = grammar::Weekdays::single(4).union(grammar::Weekdays::single(0));
    assert_eq!(Weekdays::from(parsed).bits(), 0b0010001);
    assert!(parsed.contains(grammar::Weekdays::single(4)));
    assert!(!parsed.contains(grammar::Weekdays::single(1)));
    assert_eq!(Weekdays::from(grammar::Weekdays { bits: 0xff }).bits(), 0x7f);
    assert!(Weekdays::from(grammar::Weekdays::none()).is_none());
    assert_eq!(Weekdays::from_single_weekday(grammar::Weekdays::single(6)).bits(), 64);
}

#[test]
fn a_time_range_fires_strictly_after_now() {
    let range = TimePattern::Range(TimeRange {
        from: Some(time(11, 0, 0)),
        until: Some(time(18, 0, 0)),
        interval: TimeInterval { hours: 1, minutes: 0, seconds: 0 },
    });
    assert_eq!(range.candidate_after(time(9, 0, 0)), Some(time(11, 0, 0)));
    assert_eq!(range.candidate_after(time(11, 0, 0)), Some(time(12, 0, 0)));
    assert_eq!(range.candidate_after(time(12, 30, 30)), Some(time(13, 0, 0)));
    assert_eq!(range.candidate_after(time(17, 59, 59)), Some(time(18, 0, 0)));
    assert_eq!(range.candidate_after(time(18, 0, 0)), None);
    let open = TimePattern::Range(TimeRange {
        from: None,
        until: None,
        interval: TimeInterval { hours: 7, minutes: 0, seconds: 0 },
    });
    assert_eq!(open.candidate_after(time(0, 0, 0)), Some(time(7, 0, 0)));
    assert_eq!(open.candidate_after(time(20, 59, 59)), Some(time(21, 0, 0)));
    assert_eq!(open.candidate_after(time(21, 0, 0)), None);
    let point = TimePattern::Point(time(13, 37, 0));
    assert_eq!(point.candidate_after(time(13, 36, 59)), Some(time(13, 37, 0)));
    assert_eq!(point.candidate_after(time(13, 37, 0)), None);
}

#[test]
fn next_is_later_than_now_on_the_wall_clock() {
    let recurrence = Recurrence {
        dates_patterns: vec![
            DatePattern::Point(date(2007, 2, 2)),
            DatePattern::Range(DateRange {
                from: date(2007, 2, 4),
                until: Some(date(2007, 2, 20)),
                date_divisor: DateDivisor::Interval(step(0, 0, 1, 0)),
            }),
        ],
        time_patterns: vec![
            TimePattern::Point(time(11, 0, 0)),
            TimePattern::Range(TimeRange {
                from: Some(time(9, 0, 0)),
                until: Some(time(12, 0, 0)),
                interval: TimeInterval { hours: 0, minutes: 90, seconds: 0 },
            }),
        ],
        timezone: zone("Europe/Moscow"),
    };
    let mut now = moment(2007, 2, 2, 8, 0, 0);
    let mut seen = vec![];
    while let Some(next) = recurrence.next_local(now) {
        assert!(now.lt(&next));
        seen.push(next);
        now = next;
    }
    assert_eq!(
        seen,
        vec![
            moment(2007, 2, 2, 9, 0, 0),
            moment(2007, 2, 2, 10, 30, 0),
            moment(2007, 2, 2, 11, 0, 0),
            moment(2007, 2, 2, 12, 0, 0),
            moment(2007, 2, 4, 9, 0, 0),
            moment(2007, 2, 4, 10, 30, 0),
            moment(2007, 2, 4, 11, 0, 0),
            moment(2007, 2, 4, 12, 0, 0),
            moment(2007, 2, 11, 9, 0, 0),
            moment(2007, 2, 11, 10, 30, 0),
            moment(2007, 2, 11, 11, 0, 0),
            moment(2007, 2, 11, 12, 0, 0),
            moment(2007, 2, 18, 9, 0, 0),
            moment(2007, 2, 18, 10, 30, 0),
            moment(2007, 2, 18, 11, 0, 0),
            moment(2007, 2, 18, 12, 0, 0),
        ]
    );
}

#[test]
fn a_recurrence_without_times_never_fires() {
    let recurrence = Recurrence {
        dates_patterns: vec![DatePattern::Point(date(2007, 2, 5))],
        time_patterns: vec![],
        timezone: zone("Europe/Moscow"),
    };
    assert_eq!(recurrence.next_local(moment(2007, 2, 2, 8, 0, 0)), None);
}

#[test]
fn next_maps_the_wall_clock_to_utc() {
    let recurrence = Recurrence {
        dates_patterns: vec![DatePattern::Point(date(2007, 7, 1))],
        time_patterns: vec![TimePattern::Point(time(1, 30, 0))],
        timezone: zone("Europe/Moscow"),
    };
    assert_eq!(
        recurrence.next(moment(2007, 2, 2, 9, 30, 30)),
        Some(moment(2007, 6, 30, 21, 30, 0))
    );
    let unknown = Recurrence { timezone: zone("Nowhere/At_All"), ..recurrence };
    assert_eq!(unknown.next(moment(2007, 2, 2, 9, 30, 30)), None);
}

#[test]
fn a_skipped_wall_clock_time_does_not_fire() {
    let skipped = Recurrence {
        dates_patterns: vec![DatePattern::Point(date(2007, 3, 25))],
        time_patterns: vec![TimePattern::Point(time(2, 30, 0))],
        timezone: zone("Europe/Berlin"),
    };
    assert_eq!(skipped.next(moment(2007, 3, 24, 12, 0, 0)), None);
    let repeated = Recurrence {
        dates_patterns: vec![DatePattern::Point(date(2007, 10, 28))],
        time_patterns: vec![TimePattern::Point(time(2, 30, 0))],
        timezone: zone("Europe/Berlin"),
    };
    assert_eq!(repeated.next(moment(2007, 10, 27, 12, 0, 0)), Some(moment(2007, 10, 28, 0, 30, 0)));
}

#[test]
fn a_countdown_fires_once() {
    let parsed = grammar::Countdown {
        duration: grammar::Interval {
            years: 0,
            months: 0,
            weeks: 1,
            days: 0,
            hours: 1,
            minutes: 2,
            seconds: 3,
        },
    };
    let mut countdown = Countdown::from_with_tz(parsed, zone("Europe/Moscow"));
    assert!(!countdown.is_used());
    assert_eq!(countdown.duration().weeks, 1);
    assert_eq!(countdown.zone_name(), "Europe/Moscow");
    let now = moment(2007, 2, 2, 10, 32, 30);
    assert_eq!(countdown.next(now), Some(moment(2007, 2, 9, 11, 34, 33)));
    assert!(countdown.is_used());
    assert_eq!(countdown.next(now), None);
    assert_eq!(countdown.next(moment(2008, 1, 1, 0, 0, 0)), None);
    let mut stored = Countdown::restore(countdown.duration(), zone("Europe/Moscow"), true);
    assert_eq!(stored.next(now), None);
}

#[test]
fn lowering_refuses_an_invalid_time() {
    assert_eq!(
        lower_error(point_recurrence(
            vec![holey(None, None, None)],
            vec![grammar::Time { hour: 25, minute: 0, second: 0 }]
        )),
        LowerError::InvalidTime
    );
    assert_eq!(
        lower_error(point_recurrence(
            vec![holey(None, None, None)],
            vec![
                grammar::Time { hour: 12, minute: 0, second: 0 },
                grammar::Time { hour: 12, minute: 60, second: 0 }
            ]
        )),
        LowerError::InvalidTime
    );
}

#[test]
fn lowering_refuses_a_date_in_the_past() {
    assert_eq!(
        lower_error(point_recurrence(
            vec![holey(Some(2006), Some(6), Some(7))],
            vec![grammar::Time { hour: 13, minute: 37, second: 0 }]
        )),
        LowerError::UnfillableDate
    );
    assert_eq!(
        lower_error(point_recurrence(
            vec![holey(Some(2007), Some(2), Some(2))],
            vec![grammar::Time { hour: 11, minute: 0, second: 0 }]
        )),
        LowerError::UnfillableDate
    );
    assert_eq!(
        lower_error(point_recurrence(
            vec![holey(None, None, None), holey(Some(2007), Some(1), Some(1))],
            vec![grammar::Time { hour: 13, minute: 0, second: 0 }]
        )),
        LowerError::UnfillableDate
    );
}

#[test]
fn lowering_refuses_a_recurrence_without_dates() {
    assert_eq!(
        lower_error(point_recurrence(vec![], vec![grammar::Time { hour: 25, minute: 0, second: 0 }])),
        LowerError::EmptyRecurrence
    );
}

#[test]
fn lowering_refuses_ill_formed_ranges() {
    let hour = grammar::TimeInterval { hours: 1, minutes: 0, seconds: 0 };
    let none = grammar::TimeInterval { hours: 0, minutes: 0, seconds: 0 };
    let eleven = Some(grammar::Time { hour: 11, minute: 0, second: 0 });
    let ten = Some(grammar::Time { hour: 10, minute: 0, second: 0 });
    let with_time_range = |range: grammar::TimeRange| grammar::Recurrence {
        dates_patterns: vec![grammar::DatePattern::Point(holey(None, None, None))],
        time_patterns: vec![grammar::TimePattern::Range(range)],
    };
    let with_divisor = |date_divisor: grammar::DateDivisor| grammar::Recurrence {
        dates_patterns: vec![grammar::DatePattern::Range(grammar::DateRange {
            from: holey(None, None, None),
            until: None,
            date_divisor,
        })],
        time_patterns: vec![grammar::TimePattern::Point(grammar::Time {
            hour: 11,
            minute: 0,
            second: 0,
        })],
    };
    assert_eq!(
        lower_error(with_time_range(grammar::TimeRange { from: eleven, until: None, interval: none })),
        LowerError::IllFormedRange
    );
    assert_eq!(
        lower_error(with_time_range(grammar::TimeRange { from: eleven, until: ten, interval: hour })),
        LowerError::IllFormedRange
    );
    assert_eq!(
        lower_error(with_divisor(grammar::DateDivisor::Weekdays(grammar::Weekdays::none()))),
        LowerError::IllFormedRange
    );
    assert_eq!(
        lower_error(with_divisor(grammar::DateDivisor::Interval(grammar::DateInterval {
            years: 0,
            months: 0,
            weeks: 0,
            days: 0
        }))),
        LowerError::IllFormedRange
    );
    assert_eq!(
        lower_error(with_divisor(grammar::DateDivisor::Interval(grammar::DateInterval {
            years: -1,
            months: 0,
            weeks: 0,
            days: 1
        }))),
        LowerError::IllFormedRange
    );
}

#[test]
fn lowering_refuses_an_unknown_zone() {
    let result = Recurrence::from_with_tz(
        point_recurrence(
            vec![holey(None, None, None)],
            vec![grammar::Time { hour: 15, minute: 0, second: 0 }],
        ),
        zone("Nowhere/At_All"),
        moment(2007, 2, 2, 9, 30, 30),
    );
    assert_eq!(result.unwrap_err(), LowerError::UnresolvableLocalTime);
}

#[test]
fn lowering_moves_a_time_that_has_passed_to_the_next_day() {
    let lowered = Recurrence::from_with_tz(
        point_recurrence(
            vec![holey(None, None, None)],
            vec![grammar::Time { hour: 11, minute: 0, second: 0 }],
        ),
        zone("Europe/Moscow"),
        moment(2007, 2, 2, 9, 30, 30),
    )
    .unwrap();
    assert_eq!(lowered.dates_patterns.len(), 1);
    assert!(matches!(lowered.dates_patterns[0], DatePattern::Point(d) if d == date(2007, 2, 3)));
    assert_eq!(
        lowered.next(moment(2007, 2, 2, 9, 30, 30)),
        Some(moment(2007, 2, 3, 8, 0, 0))
    );
    let monthly = Recurrence::lower_at(
        point_recurrence(
            vec![holey(None, None, Some(2))],
            vec![grammar::Time { hour: 11, minute: 0, second: 0 }],
        ),
        zone("Europe/Moscow"),
        moment(2007, 2, 2, 12, 30, 30),
    )
    .unwrap();
    assert!(matches!(monthly.dates_patterns[0], DatePattern::Point(d) if d == date(2007, 3, 2)));
}

#[test]
fn a_range_until_a_written_date_ends_on_that_date() {
    let lowered = Recurrence::lower_at(
        grammar::Recurrence {
            dates_patterns: vec![grammar::DatePattern::Range(grammar::DateRange {
                from: holey(None, None, None),
                until: Some(holey(None, Some(3), Some(1))),
                date_divisor: grammar::DateDivisor::Interval(grammar::DateInterval {
                    years: 0,
                    months: 0,
                    weeks: 0,
                    days: 1,
                }),
            })],
            time_patterns: vec![grammar::TimePattern::Point(grammar::Time {
                hour: 11,
                minute: 0,
                second: 0,
            })],
        },
        zone("Europe/Moscow"),
        moment(2007, 6, 1, 10, 0, 0),
    )
    .unwrap();
    assert!(matches!(
        lowered.dates_patterns[0],
        DatePattern::Range(DateRange { from, until: Some(until), .. })
            if from == date(2007, 6, 1) && until == date(2008, 3, 1)
    ));
}

#[test]
fn a_passed_time_moves_the_date_by_a_step_of_the_calendar() {
    let lower = |written: grammar::HoleyDate, now: DateTime| {
        Recurrence::lower_at(
            point_recurrence(vec![written], vec![grammar::Time { hour: 11, minute: 0, second: 0 }]),
            zone("Europe/Moscow"),
            now,
        )
        .unwrap()
        .dates_patterns[0]
    };
    assert!(matches!(
        lower(holey(None, None, Some(31)), moment(2007, 1, 31, 12, 0, 0)),
        DatePattern::Point(d) if d == date(2007, 2, 28)
    ));
    assert!(matches!(
        lower(holey(None, Some(3), Some(1)), moment(2007, 3, 1, 12, 0, 0)),
        DatePattern::Point(d) if d == date(2008, 3, 1)
    ));
    assert!(matches!(
        lower(holey(None, Some(2), None), moment(2007, 2, 28, 12, 0, 0)),
        DatePattern::Point(d) if d == date(2008, 2, 1)
    ));
    assert!(matches!(
        lower(holey(None, None, None), moment(2007, 12, 31, 12, 0, 0)),
        DatePattern::Point(d) if d == date(2008, 1, 1)
    ));
}

#[test]
fn lowering_threads_the_bound_through_the_dates() {
    let lowered = Recurrence::lower_at(
        grammar::Recurrence {
            dates_patterns: vec![
                grammar::DatePattern::Point(holey(None, None, Some(10))),
                grammar::DatePattern::Range(grammar::DateRange {
                    from: holey(None, None, Some(5)),
                    until: Some(holey(None, None, Some(1))),
                    date_divisor: grammar::DateDivisor::Weekdays(grammar::Weekdays::single(2)),
                }),
                grammar::DatePattern::Point(holey(None, Some(1), Some(1))),
            ],
            time_patterns: vec![grammar::TimePattern::Range(grammar::TimeRange {
                from: Some(grammar::Time { hour: 30, minute: 0, second: 0 }),
                until: None,
                interval: grammar::TimeInterval { hours: 0, minutes: 0, seconds: 1 },
            })],
        },
        zone("Europe/Moscow"),
        moment(2007, 2, 2, 12, 30, 30),
    )
    .unwrap();
    assert!(matches!(lowered.dates_patterns[0], DatePattern::Point(d) if d == date(2007, 2, 10)));
    assert!(matches!(
        lowered.dates_patterns[1],
        DatePattern::Range(DateRange { from, until: Some(until), .. })
            if from == date(2007, 3, 5) && until == date(2007, 4, 1)
    ));
    assert!(matches!(lowered.dates_patterns[2], DatePattern::Point(d) if d == date(2008, 1, 1)));
    assert!(matches!(
        lowered.time_patterns[0],
        TimePattern::Range(TimeRange { from: None, until: None, .. })
    ));
}

#[test]
fn the_spent_flag_of_a_pattern_follows_its_countdown() {
    let parsed = grammar::ReminderPattern::Countdown(grammar::Countdown {
        duration: grammar::Interval {
            years: 0,
            months: 0,
            weeks: 0,
            days: 0,
            hours: 0,
            minutes: 0,
            seconds: 1,
        },
    });
    let mut pattern =
        Pattern::from_with_tz(parsed, zone("Europe/Moscow"), moment(2007, 2, 2, 9, 30, 30)).unwrap();
    assert_eq!(pattern.next(moment(2007, 2, 2, 23, 59, 59)), Some(moment(2007, 2, 3, 0, 0, 0)));
    assert_eq!(pattern.next(moment(2007, 2, 2, 23, 59, 59)), None);
    assert!(matches!(pattern, Pattern::Countdown(ref countdown) if countdown.is_used()));
}
