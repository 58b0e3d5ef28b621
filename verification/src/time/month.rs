use vstd::prelude::*;

use super::date::{Date, is_valid_ymd, spec_days_in_month, MAX_YEAR, MIN_YEAR};
use super::period::Period;

verus! {

/// A calendar month of a particular year.
#[derive(Clone, Copy, Debug, PartialEq, Eq, Structural, Hash)]
pub struct Month {
    pub year: i32,
    pub month: u32,
}

impl Month {
    pub open spec fn wf(self) -> bool {
        MIN_YEAR <= self.year <= MAX_YEAR && 1 <= self.month <= 12
    }

    pub open spec fn spec_next(self) -> Month {
        if self.month == 12 {
            Month { year: (self.year + 1) as i32, month: 1 }
        } else {
            Month { year: self.year, month: (self.month + 1) as u32 }
        }
    }

    /// The first and the last day of the month.
    pub open spec fn spec_period(self) -> Period {
        Period {
            first: Date { year: self.year, month: self.month, day: 1 },
            last: Date {
                year: self.year,
                month: self.month,
                day: spec_days_in_month(self.year as int, self.month as int) as u32,
            },
        }
    }

    /// The month that `date` belongs to.
    pub fn from(date: Date) -> (result: Month)
        ensures
            result == (Month { year: date.year, month: date.month }),
            date.wf() ==> result.wf(),
    {
        Month { year: date.year(), month: date.month() }
    }

    /// The given day of the month, or the last day of the month if the month is shorter.
    pub fn day_or_last(&self, day: u32) -> (result: Date)
        requires
            self.wf(),
            self.spec_next().year <= MAX_YEAR,
        ensures
            is_valid_ymd(self.year as int, self.month as int, day as int) ==> result == (Date {
                year: self.year, month: self.month, day }),
            !is_valid_ymd(self.year as int, self.month as int, day as int) ==> result == self.spec_period().last,
            result.wf(),
    {
        match Date::from_ymd_opt(self.year, self.month, day) {
            Some(date) => date,
            None => self.period().last_date(),
        }
    }

    /// The period that the month covers.
    pub fn period(&self) -> (result: Period)
        requires
            self.wf(),
            self.spec_next().year <= MAX_YEAR,
        ensures
            result == self.spec_period(),
            result.wf(),
    {
        let first_day = Date::from_ymd(self.year, self.month, 1);
        let next_month = self.next();
        let next_month_start = Date::from_ymd(next_month.year, next_month.month, 1);
        let last_day = match next_month_start.pred_opt() {
            Some(date) => date,
            None => first_day,
        };
        assert(last_day == self.spec_period().last);
        Period { first: first_day, last: last_day }
    }

    pub fn next(self) -> (result: Month)
        requires
            self.wf(),
        ensures
            result == self.spec_next(),
    {
        let mut month = self;
        if month.month == 12 {
            month.year = month.year + 1;
            month.month = 1;
        } else {
            month.month = month.month + 1;
        }
        month
    }
}

/// The months of a year follow each other, and the month after the last one is the first month of
/// the next year: the day after a month's period is the first day of the next month.
pub proof fn law_next_month_follows(month: Month)
    requires
        month.wf(),
        month.spec_next().year <= MAX_YEAR,
    ensures
        month.spec_period().last.spec_succ() == Some(month.spec_next().spec_period().first),
        month.spec_next().wf(),
{
}

} // verus!
