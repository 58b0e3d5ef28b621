use vstd::prelude::*;

use crate::decimal::Decimal;
use crate::util;

verus! {

/// An amount of money in a currency.
#[derive(Clone, Debug)]
pub struct Cash {
    pub currency: String,
    pub amount: Decimal,
}

impl Cash {
    pub fn new(currency: &str, amount: Decimal) -> (result: Cash)
        ensures
            result.currency@ == currency@,
            result.amount == amount,
    {
        Cash { currency: currency.to_owned(), amount }
    }

    pub fn zero(currency: &str) -> (result: Cash)
        ensures
            result.currency@ == currency@,
            result.amount == Decimal::spec_zero(),
    {
        Cash { currency: currency.to_owned(), amount: Decimal::zero() }
    }
}

/// Money amounts are kept with two fractional digits.
pub open spec fn spec_round(amount: Decimal) -> Decimal {
    util::spec_round(amount, 2)
}

/// Rounds a money amount to two fractional digits.
pub fn round(amount: Decimal) -> (result: Decimal)
    requires
        amount.wf(),
    ensures
        result == spec_round(amount),
        result.wf(),
{
    util::round(amount, 2)
}

} // verus!
