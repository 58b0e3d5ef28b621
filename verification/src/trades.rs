use vstd::prelude::*;

use crate::currency::Cash;
use crate::decimal::{self, Decimal};
use crate::error::Error;
use crate::util;

verus! {

/// The highest precision that a price is calculated with.
pub const MAX_PRICE_PRECISION: u32 = 20;

pub open spec fn spec_decimal_precision(value: Decimal) -> u32 {
    if value.mantissa == 0 { 0 } else { value.scale }
}

/// Searches for the least precision, starting with `precision`, at which `price` rounded gives
/// `amount` back when multiplied by `quantity` and rounded to `amount_precision`. `Some(Some(p))`
/// is the found price (normalized), `Some(None)` means that no precision up to the maximum works,
/// `None` that a product overflows.
pub open spec fn price_search(
    price: Decimal, quantity: Decimal, amount: Decimal, amount_precision: u32, precision: u32,
) -> Option<Option<Decimal>>
    decreases if precision >= MAX_PRICE_PRECISION { 0int } else { MAX_PRICE_PRECISION - precision },
{
    let round_price = util::spec_round(price, precision as nat);
    match decimal::rust_decimal_checked_mul(round_price, quantity) {
        None => None,
        Some(volume) => if util::spec_round(volume, amount_precision as nat).spec_same_value(amount) {
            Some(Some(util::spec_round(round_price, 28)))
        } else if precision >= MAX_PRICE_PRECISION {
            Some(None)
        } else {
            price_search(price, quantity, amount, amount_precision, (precision + 1) as u32)
        },
    }
}

/// The price of one unit of `quantity` units bought for `volume`: the quotient rounded to the
/// least precision that gives the volume back, or `None` where an operation overflows.
pub open spec fn spec_calculate_price(quantity: Decimal, volume: Decimal) -> Option<Option<Decimal>> {
    match decimal::rust_decimal_checked_div(volume, quantity) {
        None => None,
        Some(price) => price_search(
            price, quantity, volume, spec_decimal_precision(volume), spec_decimal_precision(volume)),
    }
}

/// Calculates the price of one unit of `quantity` units bought for `volume`; gives `None` where
/// an operation overflows.
pub fn checked_calculate_price(quantity: Decimal, volume: &Cash) -> (result: Option<Result<Cash, Error>>)
    requires
        quantity.wf(),
        volume.amount.wf(),
    ensures
        match spec_calculate_price(quantity, volume.amount) {
            None => result is None,
            Some(None) => result matches Some(Err(Error::UnableToCalculatePrice(v, q))) && v == volume.amount
                && q == quantity,
            Some(Some(price)) => result matches Some(Ok(cash)) && cash.amount == price && cash.currency@
                == volume.currency@,
        },
{
    let volume_precision = util::decimal_precision(volume.amount);

    let price = match volume.amount.checked_div(quantity) {
        Some(price) => price,
        None => return None,
    };
    let ghost expected = spec_calculate_price(quantity, volume.amount);
    let mut price_precision = volume_precision;

    loop
        invariant
            quantity.wf(),
            volume.amount.wf(),
            price.wf(),
            volume_precision == spec_decimal_precision(volume.amount),
            expected == price_search(price, quantity, volume.amount, volume_precision, price_precision),
            expected == spec_calculate_price(quantity, volume.amount),
        decreases if price_precision >= MAX_PRICE_PRECISION { 0int } else { MAX_PRICE_PRECISION - price_precision },
    {
        let round_price = util::round(price, price_precision);
        let round_volume = match round_price.checked_mul(quantity) {
            Some(round_volume) => round_volume,
            None => return None,
        };

        if util::round(round_volume, volume_precision).same_value(&volume.amount) {
            proof {
                util::lemma_normalization_is_rounding(round_price);
            }
            return Some(Ok(Cash::new(volume.currency.as_str(), round_price.normalize())));
        }

        if price_precision >= MAX_PRICE_PRECISION {
            return Some(Err(Error::UnableToCalculatePrice(volume.amount, quantity)));
        }
        price_precision = price_precision + 1;
    }
}

/// Calculates the price of one unit of `quantity` units bought for `volume`: the quotient, rounded
/// to the least precision (from the volume's one up to 20 digits) that gives the volume back.
pub fn calculate_price(quantity: Decimal, volume: &Cash) -> (result: Result<Cash, Error>)
    requires
        quantity.wf(),
        volume.amount.wf(),
        spec_calculate_price(quantity, volume.amount) is Some,
    ensures
        match spec_calculate_price(quantity, volume.amount) {
            Some(None) => result matches Err(Error::UnableToCalculatePrice(v, q)) && v == volume.amount
                && q == quantity,
            Some(Some(price)) => result matches Ok(cash) && cash.amount == price && cash.currency@
                == volume.currency@,
            None => false,
        },
{
    match checked_calculate_price(quantity, volume) {
        Some(result) => result,
        None => Err(Error::UnableToCalculatePrice(volume.amount, quantity)),
    }
}

/// The volume of a deal of `quantity` units at `price`, or `None` on overflow.
pub fn price_volume(price: &Cash, quantity: Decimal) -> (result: Option<Cash>)
    requires
        price.amount.wf(),
        quantity.wf(),
    ensures
        match decimal::rust_decimal_checked_mul(price.amount, quantity) {
            None => result is None,
            Some(volume) => result matches Some(cash) && cash.amount == volume && cash.currency@ == price.currency@,
        },
        result matches Some(cash) ==> cash.amount.wf(),
{
    match price.amount.checked_mul(quantity) {
        Some(volume) => Some(Cash::new(price.currency.as_str(), volume)),
        None => None,
    }
}

/// The price of one of `quantity` units bought at `price`, in `currency`, where `converted` is
/// the deal's volume converted to `currency`: the converted volume is kept with two more
/// fractional digits than the volume has, and the price is calculated from it. `None` where an
/// operation overflows.
pub fn convert_price(price: &Cash, quantity: Decimal, converted: Decimal, currency: &str) -> (result: Option<
    Result<Cash, Error>,
>)
    requires
        price.amount.wf(),
        quantity.wf(),
        converted.wf(),
    ensures
        match decimal::rust_decimal_checked_mul(price.amount, quantity) {
            None => result is None,
            Some(volume) => {
                let rounded = util::spec_round(converted, (spec_decimal_precision(volume) + 2) as nat);
                match spec_calculate_price(quantity, rounded) {
                    None => result is None,
                    Some(None) => result matches Some(Err(Error::UnableToConvertPrice(q, p, c, cause))) && q
                        == quantity && p.amount == price.amount && p.currency@ == price.currency@ && c@ == currency@
                        && (*cause matches Error::UnableToCalculatePrice(v, q2) && v == rounded && q2 == quantity),
                    Some(Some(unit_price)) => result matches Some(Ok(cash)) && cash.amount == unit_price
                        && cash.currency@ == currency@,
                }
            },
        },
{
    let volume = match price_volume(price, quantity) {
        Some(volume) => volume,
        None => return None,
    };
    let precision = util::decimal_precision(volume.amount) + 2;
    let rounded = util::round(converted, precision);
    match checked_calculate_price(quantity, &Cash::new(currency, rounded)) {
        None => None,
        Some(Ok(unit_price)) => Some(Ok(unit_price)),
        Some(Err(error)) => Some(Err(Error::UnableToConvertPrice(
            quantity,
            Cash::new(price.currency.as_str(), price.amount),
            currency.to_owned(),
            Box::new(error),
        ))),
    }
}

} // verus!
