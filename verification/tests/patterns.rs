use chrono::{NaiveDateTime, TimeZone};
use remindee::calendar::{Date, DateTime, Time};
use remindee::grammar;
use remindee::pattern::Pattern;
use remindee::zone::Tz;

const TEST_TZ: chrono_tz::Tz = chrono_tz::Europe::Moscow;

fn test_zone() -> Tz {
    Tz::new(TEST_TZ.name().to_string())
}

fn to_chrono(moment: DateTime) -> NaiveDateTime {
    chrono::NaiveDate::from_ymd_opt(moment.date.year, moment.date.month, moment.date.day)
        .unwrap()
        .and_hms_opt(moment.time.hour, moment.time.minute, moment.time.second)
        .unwrap()
}

fn now_time() -> DateTime {
    DateTime {
        date: Date::from_ymd_opt(2007, 2, 2).unwrap(),
        time: Time::from_hms_opt(9, 30, 30).unwrap(),
    }
}

fn get_all_times(mut pattern: Pattern, limit: usize) -> Vec<NaiveDateTime> {
    let mut cur = now_time();
    let mut times = vec![];
    while times.len() < limit {
        match pattern.next(cur) {
            Some(next) => {
                times.push(TEST_TZ.from_utc_datetime(&to_chrono(next)).naive_local());
                cur = next;
            }
            None => break,
        }
    }
    times
}

fn tz(year: i32, month: u32, day: u32, hour: u32, min: u32, sec: u32) -> NaiveDateTime {
    TEST_TZ.with_ymd_and_hms(year, month, day, hour, min, sec).unwrap().naive_local()
}

fn hole() -> grammar::HoleyDate {
    grammar::HoleyDate { year: None, month: None, day: None }
}

fn at(hour: u32, minute: u32, second: u32) -> grammar::Time {
    grammar::Time { hour, minute, second }
}

fn days(days: u32) -> grammar::DateDivisor {
    grammar::DateDivisor::Interval(grammar::DateInterval { years: 0, months: 0, weeks: 0, days })
}

fn recurrence(
    dates_patterns: Vec<grammar::DatePattern>,
    time_patterns: Vec<grammar::TimePattern>,
) -> grammar::ReminderPattern {
    grammar::ReminderPattern::Recurrence(grammar::Recurrence { dates_patterns, time_patterns })
}

fn weekdays(list: &[u32]) -> grammar::Weekdays {
    let mut set = grammar::Weekdays::none();
    for &day in list {
        set = set.union(grammar::Weekdays::single(day));
    }
    set
}

#[test]
fn test_countdown() {
    let parsed = grammar::ReminderPattern::Countdown(grammar::Countdown {
        duration: grammar::Interval {
            years: 0,
            months: 0,
            weeks: 1,
            days: 0,
            hours: 1,
            minutes: 2,
            seconds: 3,
        },
    });
    let pattern = Pattern::from_with_tz(parsed, test_zone(), now_time()).unwrap();
    assert_eq!(get_all_times(pattern, 100), vec![tz(2007, 2, 9, 13, 32, 33)]);
}

#[test]
fn test_periodic() {
    let parsed = recurrence(
        vec![grammar::DatePattern::Range(grammar::DateRange {
            from: hole(),
            until: None,
            date_divisor: days(1),
        })],
        vec![grammar::TimePattern::Range(grammar::TimeRange {
            from: Some(at(11, 0, 0)),
            until: Some(at(18, 0, 0)),
            interval: grammar::TimeInterval { hours: 1, minutes: 0, seconds: 0 },
        })],
    );
    let pattern = Pattern::from_with_tz(parsed, test_zone(), now_time()).unwrap();
    assert_eq!(
        get_all_times(pattern, 15),
        vec![
            tz(2007, 2, 2, 13, 0, 0),
            tz(2007, 2, 2, 14, 0, 0),
            tz(2007, 2, 2, 15, 0, 0),
            tz(2007, 2, 2, 16, 0, 0),
            tz(2007, 2, 2, 17, 0, 0),
            tz(2007, 2, 2, 18, 0, 0),
            tz(2007, 2, 3, 11, 0, 0),
            tz(2007, 2, 3, 12, 0, 0),
            tz(2007, 2, 3, 13, 0, 0),
            tz(2007, 2, 3, 14, 0, 0),
            tz(2007, 2, 3, 15, 0, 0),
            tz(2007, 2, 3, 16, 0, 0),
            tz(2007, 2, 3, 17, 0, 0),
            tz(2007, 2, 3, 18, 0, 0),
            tz(2007, 2, 4, 11, 0, 0),
        ]
    );
}

#[test]
fn test_date_range() {
    let parsed = recurrence(
        vec![grammar::DatePattern::Range(grammar::DateRange {
            from: grammar::HoleyDate { year: None, month: None, day: Some(3) },
            until: Some(grammar::HoleyDate { year: None, month: None, day: Some(6) }),
            date_divisor: days(2),
        })],
        vec![grammar::TimePattern::Point(at(13, 37, 0))],
    );
    let pattern = Pattern::from_with_tz(parsed, test_zone(), now_time()).unwrap();
    assert_eq!(
        get_all_times(pattern, 100),
        vec![tz(2007, 2, 3, 13, 37, 0), tz(2007, 2, 5, 13, 37, 0),]
    );
}

#[test]
fn test_date_format1() {
    let parsed = recurrence(
        vec![grammar::DatePattern::Point(grammar::HoleyDate {
            year: Some(2025),
            month: Some(6),
            day: Some(7),
        })],
        vec![grammar::TimePattern::Point(at(13, 37, 0))],
    );
    let pattern = Pattern::from_with_tz(parsed, test_zone(), now_time()).unwrap();
    assert_eq!(get_all_times(pattern, 100), vec![tz(2025, 6, 7, 13, 37, 0)]);
}

#[test]
fn test_date_format2() {
    let parsed = recurrence(
        vec![grammar::DatePattern::Point(grammar::HoleyDate {
            year: Some(2025),
            month: Some(6),
            day: Some(7),
        })],
        vec![grammar::TimePattern::Point(at(13, 37, 0))],
    );
    let pattern = Pattern::from_with_tz(parsed, test_zone(), now_time()).unwrap();
    assert_eq!(get_all_times(pattern, 100), vec![tz(2025, 6, 7, 13, 37, 0)]);
}

#[test]
fn test_end_of_month_increment() {
    let parsed = recurrence(
        vec![grammar::DatePattern::Range(grammar::DateRange {
            from: grammar::HoleyDate { year: None, month: Some(12), day: Some(31) },
            until: None,
            date_divisor: grammar::DateDivisor::Interval(grammar::DateInterval {
                years: 0,
                months: 1,
                weeks: 0,
                days: 0,
            }),
        })],
        vec![grammar::TimePattern::Point(at(13, 37, 0))],
    );
    let pattern = Pattern::from_with_tz(parsed, test_zone(), now_time()).unwrap();
    assert_eq!(
        get_all_times(pattern, 16),
        vec![
            tz(2007, 12, 31, 13, 37, 0),
            tz(2008, 1, 31, 13, 37, 0),
            tz(2008, 2, 29, 13, 37, 0),
            tz(2008, 3, 29, 13, 37, 0),
            tz(2008, 4, 29, 13, 37, 0),
            tz(2008, 5, 29, 13, 37, 0),
            tz(2008, 6, 29, 13, 37, 0),
            tz(2008, 7, 29, 13, 37, 0),
            tz(2008, 8, 29, 13, 37, 0),
            tz(2008, 9, 29, 13, 37, 0),
            tz(2008, 10, 29, 13, 37, 0),
            tz(2008, 11, 29, 13, 37, 0),
            tz(2008, 12, 29, 13, 37, 0),
            tz(2009, 1, 29, 13, 37, 0),
            tz(2009, 2, 28, 13, 37, 0),
            tz(2009, 3, 28, 13, 37, 0),
        ]
    );
}

#[test]
fn test_weekdays() {
    let parsed = recurrence(
        vec![grammar::DatePattern::Range(grammar::DateRange {
            from: hole(),
            until: None,
            date_divisor: grammar::DateDivisor::Weekdays(weekdays(&[4, 0])),
        })],
        vec![grammar::TimePattern::Point(at(11, 0, 0))],
    );
    let pattern = Pattern::from_with_tz(parsed, test_zone(), now_time()).unwrap();
    assert_eq!(
        get_all_times(pattern, 4),
        vec![
            tz(2007, 2, 5, 11, 0, 0),
            tz(2007, 2, 9, 11, 0, 0),
            tz(2007, 2, 12, 11, 0, 0),
            tz(2007, 2, 16, 11, 0, 0),
        ]
    );
}

#[test]
fn test_weekdays_ranges() {
    let parsed = recurrence(
        vec![grammar::DatePattern::Range(grammar::DateRange {
            from: hole(),
            until: None,
            date_divisor: grammar::DateDivisor::Weekdays(weekdays(&[4, 5, 6, 0, 2])),
        })],
        vec![grammar::TimePattern::Point(at(15, 0, 20))],
    );
    let pattern = Pattern::from_with_tz(parsed, test_zone(), now_time()).unwrap();
    assert_eq!(
        get_all_times(pattern, 10),
        vec![
            tz(2007, 2, 2, 15, 0, 20),
            tz(2007, 2, 3, 15, 0, 20),
            tz(2007, 2, 4, 15, 0, 20),
            tz(2007, 2, 5, 15, 0, 20),
            tz(2007, 2, 7, 15, 0, 20),
            tz(2007, 2, 9, 15, 0, 20),
            tz(2007, 2, 10, 15, 0, 20),
            tz(2007, 2, 11, 15, 0, 20),
            tz(2007, 2, 12, 15, 0, 20),
            tz(2007, 2, 14, 15, 0, 20),
        ]
    );
}

#[test]
fn test_description_trim() {
    let parsed = recurrence(
        vec![grammar::DatePattern::Point(hole())],
        vec![grammar::TimePattern::Point(at(15, 16, 0))],
    );
    let pattern = Pattern::from_with_tz(parsed, test_zone(), now_time()).unwrap();
    assert_eq!(get_all_times(pattern, 100), vec![tz(2007, 2, 2, 15, 16, 0),]);
}
