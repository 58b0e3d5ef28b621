use vstd::prelude::*;

use crate::currency::Cash;
use crate::decimal::{self, rust_decimal_checked_div, rust_decimal_parse, Decimal};
use crate::error::Error;
use crate::tax_statement::encoding::push_char;
use crate::text;
use crate::time::Date;

verus! {

/// The currency that the central bank gives rates in.
pub open spec fn base_currency() -> Seq<char> {
    "RUB"@
}

/// A currency's rate on a date.
#[derive(Debug, Clone, Copy)]
pub struct CurrencyRate {
    pub date: Date,
    pub price: Decimal,
}

/// A text with decimal commas turned into points.
pub open spec fn with_points(text: Seq<char>) -> Seq<char> {
    text.map_values(|c: char| if c == ',' { '.' } else { c })
}

/// A price as the central bank writes it: a positive number with a decimal comma.
pub open spec fn spec_parse_price(text: Seq<char>) -> Option<Decimal> {
    match rust_decimal_parse(with_points(text)) {
        Some(price) => if price.mantissa > 0 {
            Some(price)
        } else {
            None
        },
        None => None,
    }
}

/// Reads a price written with a decimal comma; `None` unless it is a positive number.
pub fn parse_price(text: &str) -> (result: Option<Decimal>)
    ensures
        result == spec_parse_price(text@),
        result matches Some(price) ==> price.wf(),
{
    let mut converted = String::new();
    let len = text.unicode_len();
    let mut i: usize = 0;
    while i < len
        invariant
            len == text@.len(),
            i <= len,
            converted@ == with_points(text@.subrange(0, i as int)),
        decreases len - i,
    {
        let c = text.get_char(i);
        push_char(&mut converted, if c == ',' { '.' } else { c });
        i = i + 1;
        assert(converted@ =~= with_points(text@.subrange(0, i as int)));
    }
    assert(text@.subrange(0, len as int) =~= text@);
    match decimal::parse(converted.as_str()) {
        Some(price) => if price.mantissa > 0 {
            Some(price)
        } else {
            None
        },
        None => None,
    }
}

/// The rate of a currency among `(currency, rate)` pairs: the last one given.
pub open spec fn find_rate(rates: Seq<(Seq<char>, Decimal)>, currency: Seq<char>) -> Option<Decimal>
    decreases rates.len(),
{
    if rates.len() == 0 {
        None
    } else if rates.last().0 == currency {
        Some(rates.last().1)
    } else {
        find_rate(rates.drop_last(), currency)
    }
}

/// The rate of a currency in rubles: one for the ruble itself.
pub open spec fn ruble_rate(rates: Seq<(Seq<char>, Decimal)>, currency: Seq<char>) -> Option<Decimal> {
    if currency == base_currency() {
        Some(Decimal { mantissa: 1, scale: 0 })
    } else {
        find_rate(rates, currency)
    }
}

pub open spec fn rates_model(rates: Seq<(String, Decimal)>) -> Seq<(Seq<char>, Decimal)> {
    rates.map_values(|rate: (String, Decimal)| (rate.0@, rate.1))
}

/// The rates to divide for a quote of `base` in `quote`, if both are known.
pub open spec fn quote_rates(rates: Seq<(Seq<char>, Decimal)>, base: Seq<char>, quote: Seq<char>) -> Option<
    (Decimal, Decimal),
> {
    match (ruble_rate(rates, base), ruble_rate(rates, quote)) {
        (Some(base_rate), Some(quote_rate)) => Some((base_rate, quote_rate)),
        _ => None,
    }
}

/// Whether a quote of `base` in `quote` can be computed: the quotient of the rates is
/// representable.
pub open spec fn quote_fits(rates: Seq<(Seq<char>, Decimal)>, base: Seq<char>, quote: Seq<char>) -> bool {
    quote_rates(rates, base, quote) matches Some((b, q)) ==> rust_decimal_checked_div(b, q) is Some
}

pub open spec fn valid_rates(rates: Seq<(String, Decimal)>) -> bool {
    forall|i: int| 0 <= i < rates.len() ==> (#[trigger] rates[i]).1.wf()
}

fn find_rate_exec(rates: &Vec<(String, Decimal)>, currency: &str) -> (result: Option<Decimal>)
    requires
        valid_rates(rates@),
    ensures
        result == find_rate(rates_model(rates@), currency@),
        result matches Some(rate) ==> rate.wf(),
{
    let ghost model = rates_model(rates@);
    let mut i: usize = rates.len();
    assert(model.subrange(0, i as int) =~= model);
    while i > 0
        invariant
            i <= rates@.len(),
            valid_rates(rates@),
            model == rates_model(rates@),
            find_rate(model, currency@) == find_rate(model.subrange(0, i as int), currency@),
        decreases i,
    {
        assert(model.subrange(0, i as int).drop_last() =~= model.subrange(0, i - 1));
        if text::str_eq(rates[i - 1].0.as_str(), currency) {
            return Some(rates[i - 1].1);
        }
        i = i - 1;
    }
    None
}

fn ruble_rate_exec(rates: &Vec<(String, Decimal)>, currency: &str) -> (result: Option<Decimal>)
    requires
        valid_rates(rates@),
    ensures
        result == ruble_rate(rates_model(rates@), currency@),
        result matches Some(rate) ==> rate.wf(),
{
    if text::str_eq(currency, "RUB") {
        Some(Decimal::new(1, 0))
    } else {
        find_rate_exec(rates, currency)
    }
}

/// The quote of `base` in `quote` from the rubles rates of the currencies: the rate of `base`
/// divided by that of `quote`; `None` where one of them isn't known.
pub fn get_quote(base: &str, quote: &str, rates: &Vec<(String, Decimal)>) -> (result: Option<Cash>)
    requires
        valid_rates(rates@),
        quote_fits(rates_model(rates@), base@, quote@),
    ensures
        match quote_rates(rates_model(rates@), base@, quote@) {
            Some((b, q)) => result matches Some(cash) && cash.currency@ == quote@ && Some(cash.amount)
                == rust_decimal_checked_div(b, q),
            None => result is None,
        },
{
    let base_rate = ruble_rate_exec(rates, base)?;
    let quote_rate = ruble_rate_exec(rates, quote)?;
    Some(Cash::new(quote, base_rate.divided_by(quote_rate)))
}

/// As `get_quote`, but `None` where the quotient of the rates can't be represented.
pub fn try_get_quote(base: &str, quote: &str, rates: &Vec<(String, Decimal)>) -> (result: Option<Option<Cash>>)
    requires
        valid_rates(rates@),
    ensures
        match result {
            None => !quote_fits(rates_model(rates@), base@, quote@),
            Some(result) => match quote_rates(rates_model(rates@), base@, quote@) {
                Some((b, q)) => result matches Some(cash) && cash.currency@ == quote@ && Some(cash.amount)
                    == rust_decimal_checked_div(b, q),
                None => result is None,
            },
        },
{
    if let (Some(b), Some(q)) = (ruble_rate_exec(rates, base), ruble_rate_exec(rates, quote)) {
        if b.checked_div(q).is_none() {
            return None;
        }
    }
    Some(get_quote(base, quote, rates))
}

/// A currency's rate on a date, given per `lot` units.
#[derive(Debug, Clone, Copy)]
pub struct LotRate {
    pub date: Date,
    pub lot: i32,
    pub price: Decimal,
}

/// The historical rates of a currency that the central bank gives, and the period it says they
/// are of.
#[derive(Debug)]
pub struct HistoricalRates {
    pub start_date: Date,
    pub end_date: Date,
    pub rates: Vec<LotRate>,
}

/// A rate is valid if it is given per one or more units and is positive.
pub open spec fn is_valid_rate(rate: LotRate) -> bool {
    rate.lot >= 1 && rate.price.mantissa > 0
}

pub open spec fn first_invalid(rates: Seq<LotRate>) -> Option<int> {
    if exists|i: int| 0 <= i < rates.len() && !is_valid_rate(#[trigger] rates[i]) {
        Some(choose|i: int| 0 <= i < rates.len() && !is_valid_rate(#[trigger] rates[i]) && forall|j: int|
            0 <= j < i ==> is_valid_rate(#[trigger] rates[j]))
    } else {
        None
    }
}

/// Whether each rate per unit can be computed.
pub open spec fn rates_fit(rates: Seq<LotRate>) -> bool {
    forall|i: int| 0 <= i < rates.len() ==> rust_decimal_checked_div(
        (#[trigger] rates[i]).price,
        Decimal { mantissa: rates[i].lot as i128, scale: 0 },
    ) is Some
}

/// The error for an invalid rate.
pub open spec fn is_invalid_rate_error(error: Error, rate: LotRate) -> bool {
    if rate.lot < 1 {
        error == Error::InvalidLot(rate.lot)
    } else {
        error == Error::InvalidPrice(rate.price)
    }
}

/// The rates per unit of a currency for a period, from the central bank's answer: each rate must
/// be valid, and the answer must be for the period asked.
pub fn historical_rates(start_date: Date, end_date: Date, response: &HistoricalRates) -> (result: Result<
    Vec<CurrencyRate>,
    Error,
>)
    requires
        forall|i: int| 0 <= i < response.rates@.len() ==> (#[trigger] response.rates@[i]).price.wf(),
        rates_fit(response.rates@),
    ensures
        match first_invalid(response.rates@) {
            Some(i) => result matches Err(e) && is_invalid_rate_error(e, response.rates@[i]),
            None => if response.start_date != start_date || response.end_date != end_date {
                result matches Err(e) && e is InvalidRatesPeriod
            } else {
                result matches Ok(rates) && rates@.len() == response.rates@.len() && forall|i: int|
                    0 <= i < rates@.len() ==> (#[trigger] rates@[i]).date == response.rates@[i].date && Some(
                    rates@[i].price) == rust_decimal_checked_div(
                    response.rates@[i].price,
                    Decimal { mantissa: response.rates@[i].lot as i128, scale: 0 },
                )
            },
        },
{
    let mut i: usize = 0;
    while i < response.rates.len()
        invariant
            i <= response.rates@.len(),
            forall|j: int| 0 <= j < i ==> is_valid_rate(#[trigger] response.rates@[j]),
        decreases response.rates.len() - i,
    {
        let rate = response.rates[i];
        if rate.lot < 1 || rate.price.mantissa <= 0 {
            proof {
                assert(!is_valid_rate(response.rates@[i as int]));
                let k = first_invalid(response.rates@)->0;
                assert(k == i) by {
                    if k < i {
                        assert(is_valid_rate(response.rates@[k]));
                    }
                    if k > i {
                        assert(is_valid_rate(response.rates@[i as int]));
                    }
                }
            }
            if rate.lot < 1 {
                return Err(Error::InvalidLot(rate.lot));
            }
            return Err(Error::InvalidPrice(rate.price));
        }
        i = i + 1;
    }
    assert(first_invalid(response.rates@) is None);

    if !(response.start_date == start_date) || !(response.end_date == end_date) {
        return Err(Error::InvalidRatesPeriod);
    }

    let mut rates: Vec<CurrencyRate> = Vec::new();
    let mut k: usize = 0;
    while k < response.rates.len()
        invariant
            k <= response.rates@.len(),
            rates@.len() == k,
            forall|j: int| 0 <= j < response.rates@.len() ==> (#[trigger] response.rates@[j]).price.wf(),
            rates_fit(response.rates@),
            forall|j: int| 0 <= j < k ==> (#[trigger] rates@[j]).date == response.rates@[j].date && Some(
                rates@[j].price) == rust_decimal_checked_div(
                response.rates@[j].price,
                Decimal { mantissa: response.rates@[j].lot as i128, scale: 0 },
            ),
        decreases response.rates.len() - k,
    {
        let rate = response.rates[k];
        assert(rust_decimal_checked_div(rate.price, Decimal { mantissa: rate.lot as i128, scale: 0 }) is Some);
        let price = rate.price.divided_by(Decimal::from_int(rate.lot as i64));
        rates.push(CurrencyRate { date: rate.date, price });
        k = k + 1;
    }
    Ok(rates)
}

} // verus!
