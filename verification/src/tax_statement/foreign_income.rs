use vstd::prelude::*;

use crate::currency;
use crate::decimal::{rust_decimal_checked_mul, Decimal};
use crate::error::Error;
use crate::text;

verus! {

/// Kinds of foreign income that a tax statement holds.
#[derive(Debug, Clone, Copy, PartialEq, Eq, Structural)]
pub enum IncomeType {
    Dividend,
    Interest,
    Stock,
}

pub open spec fn spec_income_code(income_type: IncomeType) -> Seq<char> {
    match income_type {
        IncomeType::Dividend => "1010"@,
        IncomeType::Stock => "1530"@,
        IncomeType::Interest => "6013"@,
    }
}

impl IncomeType {
    /// The code of the income type: dividends, income from selling securities traded on an
    /// organized market, or interest from sources abroad.
    pub fn code(&self) -> (result: &'static str)
        ensures
            result@ == spec_income_code(*self),
    {
        match self {
            IncomeType::Dividend => "1010",
            IncomeType::Stock => "1530",
            IncomeType::Interest => "6013",
        }
    }
}

/// The currency of an income and its rates: per `income_date_units` (and `tax_payment_date_units`)
/// units of the currency, on the day of the income and on the day the tax is paid.
#[derive(Debug)]
pub struct Currency {
    pub code: &'static str,
    pub name: &'static str,
    pub income_date_rate: Decimal,
    pub income_date_units: u16,
    pub tax_payment_date_rate: Decimal,
    pub tax_payment_date_units: u16,
    pub automatic_currency_rates: bool,
}

/// The code, name and rate units of the currencies that tax statements support.
pub open spec fn statement_currency(currency: Seq<char>) -> Option<(Seq<char>, Seq<char>, u16)> {
    if currency == "AUD"@ {
        Some(("036"@, "Австралийский доллар"@, 100u16))
    } else if currency == "EUR"@ {
        Some(("978"@, "Евро"@, 100u16))
    } else if currency == "GBP"@ {
        Some(("826"@, "Фунт стерлингов"@, 100u16))
    } else if currency == "HKD"@ {
        Some(("344"@, "Гонконгский доллар"@, 100u16))
    } else if currency == "RUB"@ {
        Some(("643"@, "Российский рубль"@, 1000u16))
    } else if currency == "USD"@ {
        Some(("840"@, "Доллар США"@, 100u16))
    } else {
        None
    }
}

pub open spec fn units_decimal(units: u16) -> Decimal {
    Decimal { mantissa: units as i128, scale: 0 }
}

/// Whether a rate per unit can be turned into a rate per the currency's units.
pub open spec fn rate_fits(currency: Seq<char>, rate: Decimal) -> bool {
    statement_currency(currency) matches Some((_, _, units)) ==> rust_decimal_checked_mul(rate, units_decimal(units))
        is Some
}

/// The currency record of `currency` with a rate per unit, or the error for a currency that
/// isn't supported.
pub open spec fn is_currency_of(result: Result<Currency, Error>, currency: Seq<char>, rate: Decimal) -> bool {
    match statement_currency(currency) {
        Some((code, name, units)) => result matches Ok(c) && c.code@ == code && c.name@ == name
            && c.income_date_units == units && c.tax_payment_date_units == units && c.income_date_rate
            == currency::spec_round(rust_decimal_checked_mul(rate, units_decimal(units))->0) && c.tax_payment_date_rate
            == c.income_date_rate && !c.automatic_currency_rates,
        None => result matches Err(Error::UnsupportedStatementCurrency(c)) && c@ == currency,
    }
}

impl Currency {
    fn lookup(currency: &str) -> (result: Option<(&'static str, &'static str, u16)>)
        ensures
            match statement_currency(currency@) {
                Some((code, name, units)) => result matches Some((c, n, u)) && c@ == code && n@ == name && u == units,
                None => result is None,
            },
    {
        if text::str_eq(currency, "AUD") {
            Some(("036", "Австралийский доллар", 100))
        } else if text::str_eq(currency, "EUR") {
            Some(("978", "Евро", 100))
        } else if text::str_eq(currency, "GBP") {
            Some(("826", "Фунт стерлингов", 100))
        } else if text::str_eq(currency, "HKD") {
            Some(("344", "Гонконгский доллар", 100))
        } else if text::str_eq(currency, "RUB") {
            Some(("643", "Российский рубль", 1000))
        } else if text::str_eq(currency, "USD") {
            Some(("840", "Доллар США", 100))
        } else {
            None
        }
    }

    /// The currency record of an income: the currency's code and name, and the rate per the
    /// currency's units, rounded to money precision. The rates are given in the statement by
    /// hand.
    pub fn new(currency: &str, precise_currency_rate: Decimal) -> (result: Result<Currency, Error>)
        requires
            precise_currency_rate.wf(),
            rate_fits(currency@, precise_currency_rate),
        ensures
            is_currency_of(result, currency@, precise_currency_rate),
    {
        let (code, name, units) = match Currency::lookup(currency) {
            Some(found) => found,
            None => return Err(Error::UnsupportedStatementCurrency(currency.to_owned())),
        };
        let rate = currency::round(precise_currency_rate.times(Decimal::from_int(units as i64)));
        Ok(Currency {
            code,
            name,
            income_date_rate: rate,
            income_date_units: units,
            tax_payment_date_rate: rate,
            tax_payment_date_units: units,
            automatic_currency_rates: false,
        })
    }

    /// As `new`, but `None` where the rate per the currency's units can't be represented.
    pub fn try_new(currency: &str, precise_currency_rate: Decimal) -> (result: Option<Result<Currency, Error>>)
        requires
            precise_currency_rate.wf(),
        ensures
            match result {
                Some(result) => is_currency_of(result, currency@, precise_currency_rate),
                None => !rate_fits(currency@, precise_currency_rate),
            },
    {
        match Currency::lookup(currency) {
            Some((_, _, units)) => {
                if precise_currency_rate.checked_mul(Decimal::from_int(units as i64)).is_none() {
                    return None;
                }
            },
            None => {},
        }
        Some(Currency::new(currency, precise_currency_rate))
    }
}

/// A tax paid abroad, in the currency of the income and in rubles.
#[derive(Debug)]
pub struct PaidTax {
    pub tax_rate: u8,
    pub amount: Decimal,
    pub local_amount: Decimal,
}

impl PaidTax {
    /// The tax rate is always written as zero.
    pub fn new(amount: Decimal, local_amount: Decimal) -> (result: PaidTax)
        ensures
            result.tax_rate == 0,
            result.amount == amount,
            result.local_amount == local_amount,
    {
        PaidTax { tax_rate: 0, amount, local_amount }
    }
}

/// A deduction from an income: its code and amount.
#[derive(Debug)]
pub struct Deduction {
    pub code: &'static str,
    pub amount: Decimal,
}

impl Deduction {
    /// The deduction of the expenses on securities traded on an organized market. It is always
    /// written, zero too: without it the income takes no part in settling losses.
    pub fn securities_expenses(amount: Decimal) -> (result: Deduction)
        ensures
            result.code@ == "201"@,
            result.amount == amount,
    {
        Deduction { code: "201", amount }
    }
}

/// The income of a controlled foreign company.
#[derive(Debug)]
pub struct ControlledForeignCompany {
    pub profit_calculation_method: u8,
    pub number: &'static str,
    pub paid_tax: Decimal,
}

} // verus!
