use vstd::prelude::*;

verus! {

/// The first year that a calendar date can have.
pub const MIN_YEAR: i32 = -262143;
/// The last year that a calendar date can have.
pub const MAX_YEAR: i32 = 262142;

pub open spec fn is_leap_year(year: int) -> bool {
    (year % 4 == 0 && year % 100 != 0) || year % 400 == 0
}

pub open spec fn spec_days_in_month(year: int, month: int) -> int {
    if month == 2 {
        if is_leap_year(year) { 29 } else { 28 }
    } else if month == 4 || month == 6 || month == 9 || month == 11 {
        30
    } else {
        31
    }
}

/// Whether `year`-`month`-`day` names an existing day of the proleptic Gregorian calendar
/// within the supported range of years.
pub open spec fn is_valid_ymd(year: int, month: int, day: int) -> bool {
    &&& MIN_YEAR <= year <= MAX_YEAR
    &&& 1 <= month <= 12
    &&& 1 <= day <= spec_days_in_month(year, month)
}

/// The number of leap years in `[0, year)` minus the number of leap years in `[year, 0)`, shifted
/// by a constant: only differences of it are meaningful.
pub open spec fn leap_years_before(year: int) -> int {
    (year - 1) / 4 - (year - 1) / 100 + (year - 1) / 400
}

pub open spec fn days_before_year(year: int) -> int {
    365 * year + leap_years_before(year)
}

pub open spec fn days_before_month(year: int, month: int) -> int {
    let common: int = if month <= 1 { 0 }
        else if month == 2 { 31 }
        else if month == 3 { 59 }
        else if month == 4 { 90 }
        else if month == 5 { 120 }
        else if month == 6 { 151 }
        else if month == 7 { 181 }
        else if month == 8 { 212 }
        else if month == 9 { 243 }
        else if month == 10 { 273 }
        else if month == 11 { 304 }
        else { 334 };
    if month > 2 && is_leap_year(year) { common + 1 } else { common }
}

/// A serial number of a day: consecutive days have consecutive numbers.
pub open spec fn day_number(year: int, month: int, day: int) -> int {
    days_before_year(year) + days_before_month(year, month) + day
}

pub proof fn lemma_leap_years_step(year: int)
    ensures
        leap_years_before(year + 1) == leap_years_before(year) + if is_leap_year(year) { 1int } else { 0int },
{
    let a = year - 1;
    assert(year / 4 - a / 4 == if year % 4 == 0 { 1int } else { 0int }) by (nonlinear_arith)
        requires a == year - 1;
    assert(year / 100 - a / 100 == if year % 100 == 0 { 1int } else { 0int }) by (nonlinear_arith)
        requires a == year - 1;
    assert(year / 400 - a / 400 == if year % 400 == 0 { 1int } else { 0int }) by (nonlinear_arith)
        requires a == year - 1;
    assert(year % 400 == 0 ==> year % 100 == 0 && year % 4 == 0) by (nonlinear_arith);
    assert(year % 100 == 0 ==> year % 4 == 0) by (nonlinear_arith);
}

/// A calendar date (proleptic Gregorian calendar).
#[derive(Clone, Copy, Debug, PartialEq, Eq, Structural)]
pub struct Date {
    pub year: i32,
    pub month: u32,
    pub day: u32,
}

impl Date {
    pub open spec fn wf(self) -> bool {
        is_valid_ymd(self.year as int, self.month as int, self.day as int)
    }

    /// Chronological order: `self` is strictly earlier than `other`.
    pub open spec fn spec_before(self, other: Date) -> bool {
        ||| self.year < other.year
        ||| self.year == other.year && self.month < other.month
        ||| self.year == other.year && self.month == other.month && self.day < other.day
    }

    pub open spec fn spec_not_after(self, other: Date) -> bool {
        !other.spec_before(self)
    }

    /// The day that follows `self`, if it is still within the supported range.
    pub open spec fn spec_succ(self) -> Option<Date> {
        if (self.day as int) < spec_days_in_month(self.year as int, self.month as int) {
            Some(Date { year: self.year, month: self.month, day: (self.day + 1) as u32 })
        } else if self.month < 12 {
            Some(Date { year: self.year, month: (self.month + 1) as u32, day: 1 })
        } else if self.year < MAX_YEAR {
            Some(Date { year: (self.year + 1) as i32, month: 1, day: 1 })
        } else {
            None
        }
    }

    /// The day that precedes `self`, if it is still within the supported range.
    pub open spec fn spec_pred(self) -> Option<Date> {
        if self.day > 1 {
            Some(Date { year: self.year, month: self.month, day: (self.day - 1) as u32 })
        } else if self.month > 1 {
            Some(Date {
                year: self.year,
                month: (self.month - 1) as u32,
                day: spec_days_in_month(self.year as int, self.month - 1) as u32,
            })
        } else if self.year > MIN_YEAR {
            Some(Date { year: (self.year - 1) as i32, month: 12, day: 31 })
        } else {
            None
        }
    }

    pub open spec fn number(self) -> int {
        day_number(self.year as int, self.month as int, self.day as int)
    }

    /// Consecutive days have consecutive day numbers.
    pub proof fn lemma_succ_number(self)
        requires
            self.wf(),
            self.spec_succ() is Some,
        ensures
            self.spec_succ()->0.number() == self.number() + 1,
    {
        if self.month == 12 && self.day == 31 {
            lemma_leap_years_step(self.year as int);
        }
    }

    /// The next day follows the day and is a valid date.
    pub proof fn lemma_succ_after(self)
        requires
            self.wf(),
            self.spec_succ() is Some,
        ensures
            self.spec_before(self.spec_succ()->0),
            self.spec_succ()->0.wf(),
    {
    }

    /// Later days have larger day numbers.
    pub proof fn lemma_number_order(self, other: Date)
        requires
            self.wf(),
            other.wf(),
        ensures
            self.spec_before(other) <==> self.number() < other.number(),
            self == other <==> self.number() == other.number(),
    {
        if self.year < other.year {
            lemma_year_numbers(self.year as int, other.year as int);
        } else if other.year < self.year {
            lemma_year_numbers(other.year as int, self.year as int);
        }
    }

    pub fn from_ymd_opt(year: i32, month: u32, day: u32) -> (result: Option<Date>)
        ensures
            result is Some <==> is_valid_ymd(year as int, month as int, day as int),
            result matches Some(date) ==> date == (Date { year, month, day }),
    {
        if year < MIN_YEAR || year > MAX_YEAR || month < 1 || month > 12 {
            return None;
        }
        if day < 1 || day > days_in_month(year, month) {
            return None;
        }
        Some(Date { year, month, day })
    }

    pub fn from_ymd(year: i32, month: u32, day: u32) -> (result: Date)
        requires
            is_valid_ymd(year as int, month as int, day as int),
        ensures
            result == (Date { year, month, day }),
    {
        Date { year, month, day }
    }

    pub fn year(&self) -> (result: i32)
        ensures
            result == self.year,
    {
        self.year
    }

    pub fn month(&self) -> (result: u32)
        ensures
            result == self.month,
    {
        self.month
    }

    pub fn day(&self) -> (result: u32)
        ensures
            result == self.day,
    {
        self.day
    }

    /// Whether `self` is strictly earlier than `other`.
    pub fn before(&self, other: &Date) -> (result: bool)
        ensures
            result == self.spec_before(*other),
    {
        self.year < other.year || (self.year == other.year && (self.month < other.month || (
        self.month == other.month && self.day < other.day)))
    }

    /// Whether `self` is not later than `other`.
    pub fn not_after(&self, other: &Date) -> (result: bool)
        ensures
            result == self.spec_not_after(*other),
    {
        !other.before(self)
    }

    pub fn succ_opt(&self) -> (result: Option<Date>)
        requires
            self.wf(),
        ensures
            result == self.spec_succ(),
            result matches Some(next) ==> next.wf() && self.spec_before(next),
    {
        if self.day < days_in_month(self.year, self.month) {
            Some(Date { year: self.year, month: self.month, day: self.day + 1 })
        } else if self.month < 12 {
            Some(Date { year: self.year, month: self.month + 1, day: 1 })
        } else if self.year < MAX_YEAR {
            Some(Date { year: self.year + 1, month: 1, day: 1 })
        } else {
            None
        }
    }

    pub fn pred_opt(&self) -> (result: Option<Date>)
        requires
            self.wf(),
        ensures
            result == self.spec_pred(),
            result matches Some(prev) ==> prev.wf() && prev.spec_before(*self),
    {
        if self.day > 1 {
            Some(Date { year: self.year, month: self.month, day: self.day - 1 })
        } else if self.month > 1 {
            Some(Date { year: self.year, month: self.month - 1, day: days_in_month(self.year, self.month - 1) })
        } else if self.year > MIN_YEAR {
            Some(Date { year: self.year - 1, month: 12, day: 31 })
        } else {
            None
        }
    }
}

/// A later year starts after all days of an earlier one.
proof fn lemma_year_numbers(a: int, b: int)
    requires
        a < b,
    ensures
        days_before_year(a) + 365 + if is_leap_year(a) { 1int } else { 0int } <= days_before_year(b),
    decreases b - a,
{
    lemma_leap_years_step(a);
    lemma_leap_years_step(a + 1);
    if a + 1 < b {
        lemma_year_numbers(a + 1, b);
    }
}

pub fn is_leap(year: i32) -> (result: bool)
    ensures
        result == is_leap_year(year as int),
{
    (year % 4 == 0 && year % 100 != 0) || year % 400 == 0
}

pub fn days_in_month(year: i32, month: u32) -> (result: u32)
    ensures
        result == spec_days_in_month(year as int, month as int),
        28 <= result <= 31,
{
    if month == 2 {
        if is_leap(year) { 29 } else { 28 }
    } else if month == 4 || month == 6 || month == 9 || month == 11 {
        30
    } else {
        31
    }
}

} // verus!
