use remindee::calendar::{days_in_month, days_in_year, Date};

#[test]
fn month_lengths_follow_the_leap_rule() {
    assert_eq!(days_in_month(2, 2008), 29);
    assert_eq!(days_in_month(2, 2007), 28);
    assert_eq!(days_in_month(2, 1900), 28);
    assert_eq!(days_in_month(2, 2000), 29);
    assert_eq!(days_in_month(4, 2007), 30);
    assert_eq!(days_in_month(12, 2007), 31);
    assert_eq!(days_in_year(2007), 365);
    assert_eq!(days_in_year(2008), 366);
}

#[test]
fn adding_days_crosses_months_and_years() {
    let d = Date::from_ymd_opt(2007, 12, 31).unwrap();
    assert_eq!(d.add_days(1), Date::from_ymd_opt(2008, 1, 1));
    assert_eq!(d.add_days(60), Date::from_ymd_opt(2008, 2, 29));
    assert_eq!(d.add_days(0), Some(d));
}
