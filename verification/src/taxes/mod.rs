pub mod calculator;
pub mod long_term_ownership;
pub mod net_calculator;
pub mod payment_day;
pub mod rates;
pub mod remapping;

use vstd::prelude::*;

use crate::currency;
use crate::decimal::Decimal;
use crate::error::Error;
use crate::localities::Jurisdiction;
use crate::util;

pub use calculator::{Tax, TaxCalculator};
pub use long_term_ownership::{
    LtoDeductibleProfit, LtoDeduction, LtoDeductionCalculator, NetLtoDeduction, NetLtoDeductionCalculator,
};
pub use net_calculator::{NetTax, NetTaxCalculator};
pub use payment_day::{TaxPaymentDay, TaxPaymentDaySpec};
pub use remapping::{TaxRemapping, TaxRemappingConfig};
pub use rates::{FixedTaxRate, ProgressiveTaxRate, TaxRate};

verus! {

/// Kinds of taxable income.
#[derive(Clone, Copy, Debug, PartialEq, Eq, Structural, Hash)]
pub enum IncomeType {
    Trading,
    Dividends,
    Interest,
}

/// Exemptions from taxes that a portfolio can claim.
#[derive(Clone, Copy, Debug, PartialEq, Eq, Structural)]
pub enum TaxExemption {
    LongTermOwnership,
    TaxFree,
}

impl TaxExemption {
    /// Whether the exemption frees income from taxes by itself: a tax-free account does, while
    /// long-term ownership is applied sale by sale.
    pub fn is_applicable(&self) -> (result: bool)
        ensures
            result == (*self == TaxExemption::TaxFree),
    {
        match self {
            TaxExemption::LongTermOwnership => false,
            TaxExemption::TaxFree => true,
        }
    }

    /// The exemption that a configuration names: `long-term-ownership` or `tax-free`.
    pub fn from_name(name: &str) -> (result: Option<TaxExemption>)
        ensures
            result == (if name@ == "long-term-ownership"@ {
                Some(TaxExemption::LongTermOwnership)
            } else if name@ == "tax-free"@ {
                Some(TaxExemption::TaxFree)
            } else {
                None
            }),
    {
        if crate::text::str_eq(name, "long-term-ownership") {
            Some(TaxExemption::LongTermOwnership)
        } else if crate::text::str_eq(name, "tax-free") {
            Some(TaxExemption::TaxFree)
        } else {
            None
        }
    }
}

/// A portfolio may claim one tax exemption at most, and only with a broker of the Russian
/// jurisdiction.
pub fn validate_tax_exemptions(jurisdiction: Jurisdiction, exemptions: &[TaxExemption]) -> (result: Result<(), Error>)
    ensures
        exemptions@.len() == 0 ==> result is Ok,
        exemptions@.len() > 1 ==> (result matches Err(e) && e is TooManyTaxExemptions),
        exemptions@.len() == 1 && jurisdiction != Jurisdiction::Russia ==> (result matches Err(e)
            && e is UnsupportedTaxExemptions),
        exemptions@.len() == 1 && jurisdiction == Jurisdiction::Russia ==> result is Ok,
{
    if exemptions.len() == 0 {
        return Ok(());
    }
    if exemptions.len() > 1 {
        return Err(Error::TooManyTaxExemptions);
    }
    if jurisdiction != Jurisdiction::Russia {
        return Err(Error::UnsupportedTaxExemptions);
    }
    Ok(())
}

/// Taxes are computed in money precision first and then rounded to the tax precision.
pub open spec fn spec_round_tax(tax: Decimal, precision: nat) -> Decimal {
    util::spec_round(currency::spec_round(tax), precision)
}

/// Rounds a computed tax: to money precision, then to `precision` fractional digits.
pub fn round_tax(tax: Decimal, precision: u32) -> (result: Decimal)
    requires
        tax.wf(),
    ensures
        result == spec_round_tax(tax, precision as nat),
        result.wf(),
{
    util::round(currency::round(tax), precision)
}

} // verus!
