use vstd::prelude::*;

use chrono::{Datelike, Timelike};

use crate::error::Error;
use super::date::{days_before_month, is_leap, Date};

verus! {

/// A time of day.
#[derive(Clone, Copy, Debug, PartialEq, Eq, Structural)]
pub struct Time {
    pub hour: u32,
    pub minute: u32,
    pub second: u32,
    /// Nanoseconds; up to 2 seconds' worth when the time is a leap second.
    pub nanosecond: u32,
}

impl Time {
    pub open spec fn wf(self) -> bool {
        &&& self.hour < 24
        &&& self.minute < 60
        &&& self.second < 60
        &&& self.nanosecond < 2_000_000_000
        &&& self.nanosecond >= 1_000_000_000 ==> self.second == 59
    }
}

/// A date and a time of day, with no time zone attached.
#[derive(Clone, Copy, Debug, PartialEq, Eq, Structural)]
pub struct DateTime {
    pub date: Date,
    pub time: Time,
}

impl DateTime {
    pub open spec fn wf(self) -> bool {
        self.date.wf() && self.time.wf()
    }

    pub fn date(&self) -> (result: Date)
        ensures
            result == self.date,
    {
        self.date
    }

    pub fn time(&self) -> (result: Time)
        ensures
            result == self.time,
    {
        self.time
    }
}

/// A date with a time of day, where the time may be unknown.
#[derive(Clone, Copy, Debug, PartialEq, Eq, Structural)]
pub struct DateOptTime {
    pub date: Date,
    pub time: Option<Time>,
}

impl DateOptTime {
    /// The date at the last moment of the day.
    pub fn new_max_time(date: Date) -> (result: DateOptTime)
        ensures
            result == (DateOptTime {
                date,
                time: Some(Time { hour: 23, minute: 59, second: 59, nanosecond: 999_999_999 }),
            }),
    {
        DateOptTime { date, time: Some(Time { hour: 23, minute: 59, second: 59, nanosecond: 999_999_999 }) }
    }

    /// The date and time, at the start of the day if the time is unknown.
    pub fn or_min_time(&self) -> (result: DateTime)
        ensures
            result.date == self.date,
            result.time == match self.time {
                Some(time) => time,
                None => Time { hour: 0, minute: 0, second: 0, nanosecond: 0 },
            },
    {
        DateTime {
            date: self.date,
            time: match self.time {
                Some(time) => time,
                None => Time { hour: 0, minute: 0, second: 0, nanosecond: 0 },
            },
        }
    }
}

impl From<Date> for DateOptTime {
    fn from(date: Date) -> (result: DateOptTime) {
        DateOptTime { date, time: None }
    }
}

impl vstd::std_specs::convert::FromSpecImpl<Date> for DateOptTime {
    open spec fn obeys_from_spec() -> bool {
        true
    }

    open spec fn from_spec(date: Date) -> DateOptTime {
        DateOptTime { date, time: None }
    }
}

impl From<DateTime> for DateOptTime {
    fn from(time: DateTime) -> (result: DateOptTime) {
        DateOptTime { date: time.date, time: Some(time.time) }
    }
}

impl vstd::std_specs::convert::FromSpecImpl<DateTime> for DateOptTime {
    open spec fn obeys_from_spec() -> bool {
        true
    }

    open spec fn from_spec(time: DateTime) -> DateOptTime {
        DateOptTime { date: time.date, time: Some(time.time) }
    }
}

/// What `chrono::NaiveDate::parse_from_str` gives for a text and a format string.
pub uninterp spec fn chrono_date_parse(text: Seq<char>, format: Seq<char>) -> Option<Date>;

/// What `chrono::NaiveTime::parse_from_str` gives for a text and a format string.
pub uninterp spec fn chrono_time_parse(text: Seq<char>, format: Seq<char>) -> Option<Time>;

/// What `chrono::NaiveDateTime::parse_from_str` gives for a text and a format string.
pub uninterp spec fn chrono_date_time_parse(text: Seq<char>, format: Seq<char>) -> Option<DateTime>;

/// Calls `chrono::NaiveDate::parse_from_str`. Claims only that the outcome is a function of
/// the text and the format, and that a parsed date is a valid one (chrono can't hold others).
#[verifier::external_body]
fn parse_date_with_chrono(text: &str, format: &str) -> (result: Option<Date>)
    ensures
        result == chrono_date_parse(text@, format@),
        result matches Some(date) ==> date.wf(),
{
    match chrono::NaiveDate::parse_from_str(text, format) {
        Ok(date) => Some(Date { year: date.year(), month: date.month(), day: date.day() }),
        Err(_) => None,
    }
}

/// Calls `chrono::NaiveTime::parse_from_str`. Claims only that the outcome is a function of
/// the text and the format, and that a parsed time is a valid one.
#[verifier::external_body]
fn parse_time_with_chrono(text: &str, format: &str) -> (result: Option<Time>)
    ensures
        result == chrono_time_parse(text@, format@),
        result matches Some(time) ==> time.wf(),
{
    match chrono::NaiveTime::parse_from_str(text, format) {
        Ok(t) => Some(Time { hour: t.hour(), minute: t.minute(), second: t.second(), nanosecond: t.nanosecond() }),
        Err(_) => None,
    }
}

/// Calls `chrono::NaiveDateTime::parse_from_str`. Claims only that the outcome is a function of
/// the text and the format, and that a parsed value is a valid date and time.
#[verifier::external_body]
fn parse_date_time_with_chrono(text: &str, format: &str) -> (result: Option<DateTime>)
    ensures
        result == chrono_date_time_parse(text@, format@),
        result matches Some(value) ==> value.wf(),
{
    match chrono::NaiveDateTime::parse_from_str(text, format) {
        Ok(value) => Some(DateTime {
            date: Date { year: value.year(), month: value.month(), day: value.day() },
            time: Time { hour: value.hour(), minute: value.minute(), second: value.second(), nanosecond: value.nanosecond() },
        }),
        Err(_) => None,
    }
}

/// The days before `month` in `year`.
fn month_offset(year: i32, month: u32) -> (result: i64)
    requires
        1 <= month <= 12,
    ensures
        result == days_before_month(year as int, month as int),
{
    let common: i64 = if month <= 1 {
        0
    } else if month == 2 {
        31
    } else if month == 3 {
        59
    } else if month == 4 {
        90
    } else if month == 5 {
        120
    } else if month == 6 {
        151
    } else if month == 7 {
        181
    } else if month == 8 {
        212
    } else if month == 9 {
        243
    } else if month == 10 {
        273
    } else if month == 11 {
        304
    } else {
        334
    };
    if month > 2 && is_leap(year) {
        common + 1
    } else {
        common
    }
}

/// The number of a valid date's day, counted from a day 400,000 years earlier than the one that
/// `Date::number` counts from.
fn shifted_day_number(date: Date) -> (result: i64)
    requires
        date.wf(),
    ensures
        result == date.number() + 146_097_000,
{
    let year: i64 = date.year as i64 + 400_000;
    let before: u64 = (year - 1) as u64;
    let leap_days: i64 = (before / 4) as i64 - (before / 100) as i64 + (before / 400) as i64;
    let ghost y = date.year as int;
    proof {
        assert((y + 399_999) / 4 == (y - 1) / 4 + 100_000);
        assert((y + 399_999) / 100 == (y - 1) / 100 + 4_000);
        assert((y + 399_999) / 400 == (y - 1) / 400 + 1_000);
        lemma_day_number_bounds(date);
    }
    365 * year + leap_days + month_offset(date.year, date.month) + date.day as i64
}

/// The number of days from `earlier` to `date`: the difference of their day numbers.
pub(crate) fn days_since(date: Date, earlier: Date) -> (result: i64)
    requires
        date.wf(),
        earlier.wf(),
    ensures
        result == date.number() - earlier.number(),
{
    shifted_day_number(date) - shifted_day_number(earlier)
}

/// Calls `chrono::Local::now`: the current local date and time. Nothing is claimed of the value
/// but that it is a valid one.
#[verifier::external_body]
fn local_now() -> (result: DateTime)
    ensures
        result.wf(),
{
    let now = chrono::Local::now().naive_local();
    DateTime {
        date: Date { year: now.year(), month: now.month(), day: now.day() },
        time: Time { hour: now.hour(), minute: now.minute(), second: now.second(), nanosecond: now.nanosecond() },
    }
}

/// Calls `chrono::Utc::now`: the current UTC date and time. Nothing is claimed of the value but
/// that it is a valid one.
#[verifier::external_body]
fn utc_now_with_chrono() -> (result: DateTime)
    ensures
        result.wf(),
{
    let now = chrono::Utc::now().naive_utc();
    DateTime {
        date: Date { year: now.year(), month: now.month(), day: now.day() },
        time: Time { hour: now.hour(), minute: now.minute(), second: now.second(), nanosecond: now.nanosecond() },
    }
}


/// `seconds` and `nanos` after the UNIX epoch is a valid UTC date and time. A count of a second
/// or more nanoseconds marks a leap second, which only the last second of a minute can have.
pub open spec fn is_unix_time(seconds: i64, nanos: i32) -> bool {
    0 <= nanos && exists|moment: DateTime|
        moment.wf() && unix_seconds(moment) == seconds && moment.time.nanosecond == nanos
}

/// Calls `chrono::DateTime::from_timestamp`: the UTC date and time `seconds` and `nanos` after the
/// UNIX epoch, where it is a valid one.
#[verifier::external_body]
pub(crate) fn from_unix_time(seconds: i64, nanos: i32) -> (result: Option<DateTime>)
    ensures
        result is Some <==> is_unix_time(seconds, nanos),
        result matches Some(moment) ==> moment.wf() && unix_seconds(moment) == seconds && moment.time.nanosecond
            == nanos,
{
    match chrono::DateTime::from_timestamp(seconds, nanos as u32) {
        Some(moment) => {
            let moment = moment.naive_utc();
            Some(DateTime {
                date: Date { year: moment.year(), month: moment.month(), day: moment.day() },
                time: Time { hour: moment.hour(), minute: moment.minute(), second: moment.second(), nanosecond: moment.nanosecond() },
            })
        },
        None => None,
    }
}

/// Parses a date written in `format` (a chrono format string).
pub fn parse_date(date: &str, format: &str) -> (result: Result<Date, Error>)
    ensures
        match chrono_date_parse(date@, format@) {
            Some(parsed) => result == Ok::<Date, Error>(parsed),
            None => result matches Err(Error::InvalidDate(text)) && text@ == date@,
        },
        result matches Ok(parsed) ==> parsed.wf(),
{
    match parse_date_with_chrono(date, format) {
        Some(parsed) => Ok(parsed),
        None => Err(Error::InvalidDate(date.to_owned())),
    }
}

/// Parses a date that a user wrote as `YYYY.MM.DD` or as `DD.MM.YYYY`.
pub fn parse_user_date(date: &str) -> (result: Result<Date, Error>)
    ensures
        match (chrono_date_parse(date@, "%Y.%m.%d"@), chrono_date_parse(date@, "%d.%m.%Y"@)) {
            (Some(parsed), _) => result == Ok::<Date, Error>(parsed),
            (None, Some(parsed)) => result == Ok::<Date, Error>(parsed),
            (None, None) => result matches Err(Error::InvalidDate(text)) && text@ == date@,
        },
        result matches Ok(parsed) ==> parsed.wf(),
{
    match parse_date(date, "%Y.%m.%d") {
        Ok(parsed) => Ok(parsed),
        Err(_) => parse_date(date, "%d.%m.%Y"),
    }
}

/// Parses a time of day written in `format` (a chrono format string).
pub fn parse_time(time: &str, format: &str) -> (result: Result<Time, Error>)
    ensures
        match chrono_time_parse(time@, format@) {
            Some(parsed) => result == Ok::<Time, Error>(parsed),
            None => result matches Err(Error::InvalidTime(text)) && text@ == time@,
        },
        result matches Ok(parsed) ==> parsed.wf(),
{
    match parse_time_with_chrono(time, format) {
        Some(parsed) => Ok(parsed),
        None => Err(Error::InvalidTime(time.to_owned())),
    }
}

/// Parses a date and time written in `format` (a chrono format string).
pub fn parse_date_time(date_time: &str, format: &str) -> (result: Result<DateTime, Error>)
    ensures
        match chrono_date_time_parse(date_time@, format@) {
            Some(parsed) => result == Ok::<DateTime, Error>(parsed),
            None => result matches Err(Error::InvalidTime(text)) && text@ == date_time@,
        },
        result matches Ok(parsed) ==> parsed.wf(),
{
    match parse_date_time_with_chrono(date_time, format) {
        Some(parsed) => Ok(parsed),
        None => Err(Error::InvalidTime(date_time.to_owned())),
    }
}

/// Today's local date.
pub fn today() -> (result: Date)
    ensures
        result.wf(),
{
    local_now().date
}

/// The date on which a trade made now is concluded: today.
pub fn today_trade_conclusion_date() -> (result: Date)
    ensures
        result.wf(),
{
    today()
}

/// The current local date and time.
pub fn now() -> (result: DateTime)
    ensures
        result.wf(),
{
    local_now()
}

/// The current UTC date and time.
pub fn utc_now() -> (result: DateTime)
    ensures
        result.wf(),
{
    utc_now_with_chrono()
}

/// The first day of UNIX time.
pub open spec fn unix_epoch() -> Date {
    Date { year: 1970, month: 1, day: 1 }
}

/// The seconds from the UNIX epoch to `moment`, leap seconds not counted.
pub open spec fn unix_seconds(moment: DateTime) -> int {
    (moment.date.number() - unix_epoch().number()) * 86400 + moment.time.hour * 3600
        + moment.time.minute * 60 + moment.time.second
}

/// The day number of a valid date lies within a hundred million of zero.
proof fn lemma_day_number_bounds(date: Date)
    requires
        date.wf(),
    ensures
        -100_000_000 <= date.number() <= 100_000_000,
{
    let year = date.year as int;
    assert(-262143 <= year <= 262142);
    assert(-65536 <= (year - 1) / 4 <= 65536);
    assert(-2622 <= (year - 1) / 100 <= 2622);
    assert(-656 <= (year - 1) / 400 <= 656);
    assert(0 <= days_before_month(year, date.month as int) <= 335);
}

/// The current UNIX time in seconds: that of the current UTC date and time.
pub fn timestamp() -> (result: i64)
    ensures
        exists|moment: DateTime| moment.wf() && result == unix_seconds(moment),
{
    let moment = utc_now();
    let epoch = Date::from_ymd(1970, 1, 1);
    proof {
        lemma_day_number_bounds(moment.date);
        lemma_day_number_bounds(epoch);
    }
    let days = days_since(moment.date, epoch);
    let result: i64 = days * 86400 + moment.time.hour as i64 * 3600 + moment.time.minute as i64 * 60
        + moment.time.second as i64;
    assert(result == unix_seconds(moment));
    result
}

/// The seconds in a unit of a duration: `m`inutes, `h`ours or `d`ays.
pub open spec fn unit_seconds(unit: char) -> Option<int> {
    if unit == 'm' {
        Some(60)
    } else if unit == 'h' {
        Some(3600)
    } else if unit == 'd' {
        Some(86400)
    } else {
        None
    }
}

/// A duration in seconds, written as a positive number without leading zeros and a unit.
pub open spec fn spec_parse_duration(text: Seq<char>) -> Option<int> {
    if text.len() < 2 {
        None
    } else {
        let digits = text.drop_last();
        if digits[0] != '0' && crate::tax_statement::encoding::all_digits(digits) {
            match unit_seconds(text.last()) {
                Some(unit) => Some(crate::tax_statement::encoding::digits_value(digits) * unit),
                None => None,
            }
        } else {
            None
        }
    }
}

/// The durations that can be given: a `chrono` duration holds up to `i64::MAX` milliseconds.
pub open spec fn duration_fits(text: Seq<char>) -> bool {
    spec_parse_duration(text) matches Some(seconds) ==> seconds <= i64::MAX / 1000
}

/// Parses a duration such as `30m`, `6h` or `1d` into seconds.
pub fn parse_duration(text: &str) -> (result: Result<i64, Error>)
    requires
        duration_fits(text@),
    ensures
        match spec_parse_duration(text@) {
            Some(seconds) => result == Ok::<i64, Error>(seconds as i64),
            None => result matches Err(Error::InvalidDuration(t)) && t@ == text@,
        },
{
    let len = text.unicode_len();
    if len < 2 || text.get_char(0) == '0' {
        return Err(Error::InvalidDuration(text.to_owned()));
    }
    let digits = crate::text::substring(text, 0, len - 1);
    assert(digits@ =~= text@.drop_last());
    let unit: i64 = match text.get_char(len - 1) {
        'm' => 60,
        'h' => 60 * 60,
        'd' => 60 * 60 * 24,
        _ => return Err(Error::InvalidDuration(text.to_owned())),
    };
    let ghost all = crate::tax_statement::encoding::all_digits(digits@);
    let bound: u64 = 9223372036854775;
    assert(bound == i64::MAX / 1000);
    let mut value: u64 = 0;
    let mut i: usize = 0;
    while i < len - 1
        invariant
            len == text@.len(),
            digits@ == text@.drop_last(),
            i <= len - 1,
            forall|k: int| 0 <= k < i ==> crate::tax_statement::encoding::is_digit(#[trigger] digits@[k]),
            value == crate::tax_statement::encoding::digits_value(digits@.subrange(0, i as int)),
            value <= bound,
            bound == i64::MAX / 1000,
            unit >= 60,
            all == crate::tax_statement::encoding::all_digits(digits@),
            duration_fits(text@),
            len >= 2,
            digits@[0] != '0',
            unit_seconds(text@.last()) == Some(unit as int),
        decreases len - 1 - i,
    {
        let c = digits.get_char(i);
        if !('0' <= c && c <= '9') {
            assert(!crate::tax_statement::encoding::is_digit(digits@[i as int]));
            return Err(Error::InvalidDuration(text.to_owned()));
        }
        let d = (c as u32 - '0' as u32) as u64;
        assert(crate::tax_statement::encoding::is_digit(digits@[i as int]));
        assert(digits@.subrange(0, i + 1).drop_last() =~= digits@.subrange(0, i as int));
        assert(crate::tax_statement::encoding::digits_value(digits@.subrange(0, i + 1)) == value * 10 + d);
        if value > (bound - d) / 10 {
            proof {
                crate::tax_statement::encoding::lemma_prefix_value_grows(digits@, i + 1);
                assert(digits@.subrange(0, i + 1) =~= digits@.subrange(0, i + 1));
                assert(value * 10 + d > bound) by (nonlinear_arith)
                    requires value > (bound - d) / 10, d <= 9;
                if all {
                    assert(crate::tax_statement::encoding::digits_value(digits@) > bound);
                    assert(unit >= 60);
                    assert(crate::tax_statement::encoding::digits_value(digits@) * unit > bound) by (nonlinear_arith)
                        requires crate::tax_statement::encoding::digits_value(digits@) > bound, unit >= 60;
                }
            }
            return Err(Error::InvalidDuration(text.to_owned()));
        }
        assert(value * 10 + d <= bound) by (nonlinear_arith)
            requires value <= (bound - d) / 10, d <= 9;
        value = value * 10 + d;
        i = i + 1;
    }
    assert(digits@.subrange(0, i as int) =~= digits@);
    assert(spec_parse_duration(text@) == Some(value as int * unit as int));
    if value > bound / (unit as u64) {
        proof {
            let v = value as int;
            let u = unit as int;
            let b = bound as int;
            assert(v * u > b) by (nonlinear_arith)
                requires v > b / u, u > 0;
        }
        return Err(Error::InvalidDuration(text.to_owned()));
    }
    proof {
        let v = value as int;
        let u = unit as int;
        let b = bound as int;
        assert(v * u <= b) by (nonlinear_arith)
            requires v <= b / u, u > 0;
    }
    Ok(value as i64 * unit)
}

} // verus!
