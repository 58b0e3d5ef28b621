use investments::error::Error;
use investments::time::parsing::{
    now, parse_date, parse_date_time, parse_duration, parse_time, parse_user_date, today, utc_now,
};
use investments::time::period::parse_period;
use investments::time::{Date, DateOptTime, DateTime, Month, Period};

fn date(year: i32, month: u32, day: u32) -> Date {
    Date::from_ymd(year, month, day)
}

fn period(first: Date, last: Date) -> Period {
    Period::new(first, last).unwrap()
}

#[test]
fn union() {
    let cases = [
        (period(date(2000, 1, 1), date(2000, 2, 1)), period(date(2000, 2, 2), date(2000, 3, 1)),
            Some(period(date(2000, 1, 1), date(2000, 3, 1)))),
        (period(date(2000, 1, 1), date(2000, 2, 1)), period(date(2000, 2, 1), date(2000, 3, 1)),
            Some(period(date(2000, 1, 1), date(2000, 3, 1)))),
        (period(date(2000, 1, 1), date(2000, 2, 1)), period(date(2000, 1, 31), date(2000, 3, 1)),
            Some(period(date(2000, 1, 1), date(2000, 3, 1)))),
        (period(date(2000, 1, 1), date(2000, 2, 1)), period(date(2000, 1, 1), date(2000, 2, 1)),
            Some(period(date(2000, 1, 1), date(2000, 2, 1)))),
        (period(date(2000, 1, 1), date(2000, 2, 1)), period(date(2000, 2, 3), date(2000, 3, 1)), None),
    ];
    for (first, second, expected) in cases {
        assert_eq!(first.try_union(second), expected);
        assert_eq!(second.try_union(first), expected);
    }
}

#[test]
fn invalid_period() {
    assert!(matches!(Period::new(date(2000, 2, 2), date(2000, 2, 1)), Err(Error::InvalidPeriod(_, _))));
    assert_eq!(Period::new(date(2000, 2, 1), date(2000, 2, 1)).unwrap().days(), 1);
}

#[test]
fn period_dates() {
    let p = period(date(2020, 2, 28), date(2020, 3, 1));
    assert_eq!(p.prev_date(), date(2020, 2, 27));
    assert_eq!(p.first_date(), date(2020, 2, 28));
    assert_eq!(p.last_date(), date(2020, 3, 1));
    assert_eq!(p.next_date(), date(2020, 3, 2));
    assert_eq!(p.days(), 3);
    assert!(p.contains(date(2020, 2, 29)));
    assert!(!p.contains(date(2020, 3, 2)));
    assert!(p.contains_period(period(date(2020, 2, 29), date(2020, 3, 1))));
    assert!(!p.contains_period(period(date(2020, 2, 29), date(2020, 3, 2))));
    assert_eq!(p.try_intersect(period(date(2020, 3, 1), date(2020, 4, 1))),
        Some(period(date(2020, 3, 1), date(2020, 3, 1))));
    assert_eq!(p.try_intersect(period(date(2020, 3, 2), date(2020, 4, 1))), None);
}

#[test]
fn period_joining() {
    let joined = period(date(2020, 1, 1), date(2020, 1, 31)).join(period(date(2020, 2, 1), date(2020, 2, 29)));
    assert_eq!(joined.unwrap(), period(date(2020, 1, 1), date(2020, 2, 29)));
    let gap = period(date(2020, 1, 1), date(2020, 1, 30)).join(period(date(2020, 2, 1), date(2020, 2, 29)));
    assert!(matches!(gap, Err(Error::NonContinuousPeriods(_, _))));
}

#[test]
fn period_parsing_from_dates() {
    assert_eq!(parse_period(date(2020, 1, 1), date(2020, 12, 31)).unwrap(), (date(2020, 1, 1), date(2021, 1, 1)));
    assert_eq!(parse_period(date(2020, 1, 1), date(2020, 1, 1)).unwrap(), (date(2020, 1, 1), date(2020, 1, 2)));
    assert!(matches!(parse_period(date(2020, 1, 3), date(2020, 1, 1)), Err(Error::InvalidPeriod(_, _))));
}

#[test]
fn months() {
    let month = Month::from(date(2020, 2, 10));
    assert_eq!(month.period(), period(date(2020, 2, 1), date(2020, 2, 29)));
    assert_eq!(month.day_or_last(31), date(2020, 2, 29));
    assert_eq!(month.day_or_last(15), date(2020, 2, 15));
    let december = Month::from(date(2020, 12, 1));
    assert_eq!(december.next(), Month::from(date(2021, 1, 1)));
}

#[test]
fn dates() {
    assert_eq!(date(2020, 2, 28).succ_opt(), Some(date(2020, 2, 29)));
    assert_eq!(date(2021, 2, 28).succ_opt(), Some(date(2021, 3, 1)));
    assert_eq!(date(2020, 12, 31).succ_opt(), Some(date(2021, 1, 1)));
    assert_eq!(date(2021, 1, 1).pred_opt(), Some(date(2020, 12, 31)));
    assert_eq!(Date::from_ymd_opt(2021, 2, 29), None);
    assert!(date(2020, 1, 1).before(&date(2020, 1, 2)));
    assert!(!date(2020, 1, 2).before(&date(2020, 1, 2)));
}

#[test]
fn durations() {
    assert_eq!(parse_duration("30m").unwrap(), 30 * 60);
    assert_eq!(parse_duration("6h").unwrap(), 6 * 60 * 60);
    assert_eq!(parse_duration("1d").unwrap(), 24 * 60 * 60);
    assert_eq!(parse_duration("100d").unwrap(), 100 * 24 * 60 * 60);
    for invalid in ["", "d", "0d", "01d", "1s", "+1d", "-1d", "1.5h", " 1d", "1d "] {
        assert!(matches!(parse_duration(invalid), Err(Error::InvalidDuration(text)) if text == invalid), "{invalid}");
    }
}

#[test]
fn dates_with_optional_time() {
    let day = date(2020, 5, 1);
    let max = DateOptTime::new_max_time(day);
    assert_eq!(max.date, day);
    let time = max.time.unwrap();
    assert_eq!((time.hour, time.minute, time.second, time.nanosecond), (23, 59, 59, 999_999_999));

    let without_time = DateOptTime::from(day);
    assert_eq!(without_time.time, None);
    let start = without_time.or_min_time();
    assert_eq!(start.date, day);
    assert_eq!((start.time.hour, start.time.minute, start.time.second), (0, 0, 0));

    let exact = DateOptTime::from(DateTime { date: day, time: time });
    assert_eq!(exact.or_min_time().time, time);
}

#[test]
fn text_parsing() {
    assert_eq!(parse_date("22.06.2018", "%d.%m.%Y").unwrap(), date(2018, 6, 22));
    assert!(matches!(parse_date("31.06.2018", "%d.%m.%Y"), Err(Error::InvalidDate(text)) if text == "31.06.2018"));
    assert_eq!(parse_user_date("2018.06.22").unwrap(), date(2018, 6, 22));
    assert_eq!(parse_user_date("22.06.2018").unwrap(), date(2018, 6, 22));
    assert!(parse_user_date("2018-06-22").is_err());

    let time = parse_time("19:33:27", "%H:%M:%S").unwrap();
    assert_eq!((time.hour, time.minute, time.second, time.nanosecond), (19, 33, 27, 0));
    assert!(matches!(parse_time("25:00:00", "%H:%M:%S"), Err(Error::InvalidTime(_))));

    let date_time = parse_date_time("2018-06-22 01:02:03", "%Y-%m-%d %H:%M:%S").unwrap();
    assert_eq!(date_time.date, date(2018, 6, 22));
    assert_eq!((date_time.time.hour, date_time.time.minute, date_time.time.second), (1, 2, 3));
}

#[test]
fn clock() {
    assert!(today().year >= 2024);
    assert!(now().date.year >= 2024);
    assert!(utc_now().date.year >= 2024);
    assert!(investments::time::parsing::timestamp() > 1_700_000_000);
}
