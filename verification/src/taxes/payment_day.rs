use vstd::prelude::*;

use crate::localities::Jurisdiction;
use crate::time::Date;
use crate::time::date::is_valid_ymd;

use crate::error::Error;
use crate::tax_statement::encoding::{all_digits, is_digit, parse_unsigned, spec_parse_unsigned};

verus! {

/// When taxes are paid: on a day of the year after the tax year, or when the account is closed.
#[derive(Clone, Copy, Debug, PartialEq, Eq, Structural)]
pub enum TaxPaymentDaySpec {
    Day { month: u32, day: u32 },
    OnClose(Date),
}

impl TaxPaymentDaySpec {
    /// March 15.
    pub fn default() -> (result: TaxPaymentDaySpec)
        ensures
            result == (TaxPaymentDaySpec::Day { month: 3, day: 15 }),
    {
        TaxPaymentDaySpec::Day { month: 3, day: 15 }
    }

    /// The day exists in every year.
    pub open spec fn wf(self) -> bool {
        match self {
            TaxPaymentDaySpec::Day { month, day } => is_valid_ymd(2001, month as int, day as int),
            TaxPaymentDaySpec::OnClose(date) => date.wf(),
        }
    }
}

/// Tax payment day rules of a jurisdiction.
#[derive(Clone, Copy, Debug, PartialEq, Eq, Structural)]
pub struct TaxPaymentDay {
    pub jurisdiction: Jurisdiction,
    pub spec: TaxPaymentDaySpec,
}

/// The approximate date when tax for `tax_year` is paid.
pub open spec fn spec_payment_date(
    jurisdiction: Jurisdiction, spec: TaxPaymentDaySpec, tax_year: int, trading: bool,
) -> Date {
    match spec {
        TaxPaymentDaySpec::Day { month, day } => if trading && jurisdiction == Jurisdiction::Russia {
            Date { year: (tax_year + 1) as i32, month: 1, day: 1 }
        } else {
            Date { year: (tax_year + 1) as i32, month, day }
        },
        TaxPaymentDaySpec::OnClose(close_date) => if trading {
            close_date
        } else {
            Date { year: (tax_year + 1) as i32, month: 3, day: 15 }
        },
    }
}

/// The tax year of income received on `income_date`.
pub open spec fn spec_tax_year(spec: TaxPaymentDaySpec, income_date: Date, trading: bool) -> int {
    match spec {
        TaxPaymentDaySpec::Day { .. } => income_date.year as int,
        TaxPaymentDaySpec::OnClose(close_date) => if trading { close_date.year as int } else { income_date.year as int },
    }
}

/// Day rules are valid in every year, which is the case for all days but February 29.
proof fn lemma_day_in_any_year(month: u32, day: u32, year: int)
    requires
        is_valid_ymd(2001, month as int, day as int),
        crate::time::date::MIN_YEAR <= year <= crate::time::date::MAX_YEAR,
    ensures
        is_valid_ymd(year, month as int, day as int),
{
}

impl TaxPaymentDay {
    pub fn new(jurisdiction: Jurisdiction, spec: TaxPaymentDaySpec) -> (result: TaxPaymentDay)
        ensures
            result == (TaxPaymentDay { jurisdiction, spec }),
    {
        TaxPaymentDay { jurisdiction, spec }
    }

    /// Returns tax year and an approximate date when tax is going to be paid for the specified
    /// income.
    pub fn get(&self, income_date: Date, trading: bool) -> (result: (i32, Date))
        requires
            self.spec.wf(),
            income_date.wf(),
            income_date.year < crate::time::date::MAX_YEAR,
            self.spec matches TaxPaymentDaySpec::OnClose(close_date) ==> income_date.spec_not_after(close_date)
                && close_date.year < crate::time::date::MAX_YEAR,
        ensures
            result.0 == spec_tax_year(self.spec, income_date, trading),
            result.1 == spec_payment_date(self.jurisdiction, self.spec, result.0 as int, trading),
            result.1.wf(),
    {
        let tax_year = match self.spec {
            TaxPaymentDaySpec::Day { .. } => income_date.year(),
            TaxPaymentDaySpec::OnClose(close_date) => {
                if trading {
                    close_date.year()
                } else {
                    income_date.year()
                }
            },
        };
        (tax_year, self.get_for(tax_year, trading))
    }

    /// The approximate date when tax for `tax_year` is paid.
    pub fn get_for(&self, tax_year: i32, trading: bool) -> (result: Date)
        requires
            self.spec.wf(),
            crate::time::date::MIN_YEAR <= tax_year < crate::time::date::MAX_YEAR,
            self.spec matches TaxPaymentDaySpec::OnClose(close_date) ==> tax_year <= close_date.year,
        ensures
            result == spec_payment_date(self.jurisdiction, self.spec, tax_year as int, trading),
            result.wf(),
        decreases if self.spec is OnClose { 1nat } else { 0nat },
    {
        match self.spec {
            TaxPaymentDaySpec::Day { month, day } => {
                let (mut month, mut day) = (month, day);
                if trading && self.jurisdiction == Jurisdiction::Russia {
                    month = 1;
                    day = 1;
                }
                proof {
                    lemma_day_in_any_year(month, day, tax_year + 1);
                }
                Date::from_ymd(tax_year + 1, month, day)
            },
            TaxPaymentDaySpec::OnClose(close_date) => {
                if trading {
                    close_date
                } else {
                    let tax_payment_day = TaxPaymentDay::new(self.jurisdiction, TaxPaymentDaySpec::default());
                    tax_payment_day.get_for(tax_year, trading)
                }
            },
        }
    }
}

/// A day of the year written as `day.month`: both numbers of ASCII digits, the day one that
/// every year has (not February 29).
pub open spec fn spec_parse_day(text: Seq<char>) -> Option<TaxPaymentDaySpec> {
    let parts = crate::text::split(text, "."@);
    if parts.len() != 2 || parts[0].len() == 0 || parts[1].len() == 0 || !all_digits(parts[0]) || !all_digits(
        parts[1],
    ) {
        None
    } else {
        match (spec_parse_unsigned(parts[0]), spec_parse_unsigned(parts[1])) {
            (Some(day), Some(month)) => if day <= u32::MAX && month <= u32::MAX && is_valid_ymd(2001, month, day) {
                Some(TaxPaymentDaySpec::Day { month: month as u32, day: day as u32 })
            } else {
                None
            },
            _ => None,
        }
    }
}

/// How a configuration gives the tax payment day: `on-close` (the day the account is closed,
/// `close_date`) or a day of the year.
pub open spec fn spec_parse_tax_payment_day(text: Seq<char>, close_date: Date) -> Option<TaxPaymentDaySpec> {
    if text == "on-close"@ {
        Some(TaxPaymentDaySpec::OnClose(close_date))
    } else {
        spec_parse_day(text)
    }
}

fn all_digits_exec(text: &str) -> (result: bool)
    ensures
        result == all_digits(text@),
{
    let len = text.unicode_len();
    let mut i: usize = 0;
    while i < len
        invariant
            len == text@.len(),
            i <= len,
            forall|k: int| 0 <= k < i ==> is_digit(#[trigger] text@[k]),
        decreases len - i,
    {
        let c = text.get_char(i);
        if !('0' <= c && c <= '9') {
            assert(!is_digit(text@[i as int]));
            return false;
        }
        i = i + 1;
    }
    true
}

impl TaxPaymentDaySpec {
    /// Reads the tax payment day of a configuration.
    pub fn parse(text: &str, close_date: Date) -> (result: Result<TaxPaymentDaySpec, Error>)
        ensures
            match spec_parse_tax_payment_day(text@, close_date) {
                Some(spec) => result == Ok::<TaxPaymentDaySpec, Error>(spec),
                None => result matches Err(Error::InvalidTaxPaymentDay(t)) && t@ == text@,
            },
    {
        if crate::text::str_eq(text, "on-close") {
            return Ok(TaxPaymentDaySpec::OnClose(close_date));
        }
        proof {
            reveal_strlit(".");
        }
        let parts = crate::text::split_str(text, ".");
        if parts.len() != 2 {
            return Err(Error::InvalidTaxPaymentDay(text.to_owned()));
        }
        assert(parts@.map_values(|piece: String| piece@)[0] == parts@[0]@);
        assert(parts@.map_values(|piece: String| piece@)[1] == parts@[1]@);
        let (day_text, month_text) = (parts[0].as_str(), parts[1].as_str());
        if day_text.unicode_len() == 0 || month_text.unicode_len() == 0 || !all_digits_exec(day_text)
            || !all_digits_exec(month_text) {
            return Err(Error::InvalidTaxPaymentDay(text.to_owned()));
        }
        let (day, month) = match (parse_unsigned(day_text), parse_unsigned(month_text)) {
            (Some(day), Some(month)) => (day, month),
            _ => return Err(Error::InvalidTaxPaymentDay(text.to_owned())),
        };
        if day > u32::MAX as usize || month > u32::MAX as usize {
            return Err(Error::InvalidTaxPaymentDay(text.to_owned()));
        }
        match Date::from_ymd_opt(2001, month as u32, day as u32) {
            Some(_) => Ok(TaxPaymentDaySpec::Day { month: month as u32, day: day as u32 }),
            None => Err(Error::InvalidTaxPaymentDay(text.to_owned())),
        }
    }
}

} // verus!
