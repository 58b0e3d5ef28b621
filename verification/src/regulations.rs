use vstd::prelude::*;

use crate::decimal::Decimal;
use crate::time::date::MAX_YEAR;
use crate::time::Date;

verus! {

/// A country's currency and flat income tax rate.
pub struct Country {
    pub currency: &'static str,
    pub tax_rate: Decimal,
}

impl Country {
    /// An approximate date when the tax on an income is paid: March 15 of the next year.
    pub fn get_tax_payment_date(&self, income_date: Date) -> (result: Date)
        requires
            income_date.wf(),
            income_date.year < MAX_YEAR,
        ensures
            result == (Date { year: (income_date.year + 1) as i32, month: 3, day: 15 }),
            result.wf(),
    {
        Date::from_ymd(income_date.year() + 1, 3, 15)
    }
}

/// Russia: rubles, 13%.
pub fn russia() -> (result: Country)
    ensures
        result.currency@ == "RUB"@,
        result.tax_rate == (Decimal { mantissa: 13, scale: 2 }),
{
    Country { currency: "RUB", tax_rate: Decimal::new(13, 2) }
}

/// The USA: dollars, 10%.
pub fn us() -> (result: Country)
    ensures
        result.currency@ == "USD"@,
        result.tax_rate == (Decimal { mantissa: 10, scale: 2 }),
{
    Country { currency: "USD", tax_rate: Decimal::new(10, 2) }
}

} // verus!
