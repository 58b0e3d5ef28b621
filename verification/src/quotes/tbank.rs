use vstd::prelude::*;

use crate::currency::Cash;
use crate::decimal::{self, is_normalization_of, rust_decimal_checked_add, rust_decimal_checked_div, Decimal};
use crate::error::Error;
use crate::text;
use crate::time::parsing::{from_unix_time, is_unix_time};
use crate::time::Date;
use crate::util::{lemma_normalized, normalized};
use super::config::TbankExchange;

verus! {

/// The exchanges that instruments are traded on, as the Invest API tells them.
#[derive(Clone, Copy, Debug, PartialEq, Eq, Structural)]
pub enum RealExchange {
    Unspecified,
    Moex,
    Rts,
    Otc,
}

impl RealExchange {
    /// The name of the value in the API's definition.
    pub fn as_str_name(&self) -> (result: &'static str)
        ensures
            result@ == match self {
                RealExchange::Unspecified => "REAL_EXCHANGE_UNSPECIFIED"@,
                RealExchange::Moex => "REAL_EXCHANGE_MOEX"@,
                RealExchange::Rts => "REAL_EXCHANGE_RTS"@,
                RealExchange::Otc => "REAL_EXCHANGE_OTC"@,
            },
    {
        match self {
            RealExchange::Unspecified => "REAL_EXCHANGE_UNSPECIFIED",
            RealExchange::Moex => "REAL_EXCHANGE_MOEX",
            RealExchange::Rts => "REAL_EXCHANGE_RTS",
            RealExchange::Otc => "REAL_EXCHANGE_OTC",
        }
    }
}

/// Whether a stock traded on `real_exchange` under the exchange name `exchange` belongs to the
/// stocks of `tbank_exchange`. Some strange exchanges are skipped; SPB Hong Kong ETFs have no real
/// exchange and are told by their exchange name; the fallback takes all but MOEX stocks.
pub open spec fn spec_match_stock(tbank_exchange: TbankExchange, real_exchange: RealExchange, exchange: Seq<char>) -> bool {
    if exchange == "Issuance"@ || exchange == "moex_close"@ || exchange == "spb_close"@ {
        false
    } else {
        match tbank_exchange {
            TbankExchange::Moex => real_exchange == RealExchange::Moex,
            TbankExchange::Spb => real_exchange == RealExchange::Rts || exchange == "SPB_HK"@,
            _ => real_exchange != RealExchange::Moex,
        }
    }
}

impl TbankExchange {
    /// Whether a stock belongs to the stocks of this exchange (which isn't the currency one).
    pub fn match_stock(&self, real_exchange: RealExchange, exchange: &str) -> (result: bool)
        requires
            *self != TbankExchange::Currency,
        ensures
            result == spec_match_stock(*self, real_exchange, exchange@),
    {
        if text::str_eq(exchange, "Issuance") || text::str_eq(exchange, "moex_close") || text::str_eq(
            exchange,
            "spb_close",
        ) {
            return false;
        }
        match self {
            TbankExchange::Moex => real_exchange == RealExchange::Moex,
            TbankExchange::Spb => real_exchange == RealExchange::Rts || text::str_eq(exchange, "SPB_HK"),
            _ => real_exchange != RealExchange::Moex,
        }
    }
}

/// The price that a quotation of whole units and billionths gives.
pub open spec fn quotation_sum(units: i64, nano: i32) -> Decimal {
    rust_decimal_checked_add(
        Decimal { mantissa: units as i128, scale: 0 },
        Decimal { mantissa: nano as i128, scale: 9 },
    )->0
}

/// Reads the price of a quotation: `units + nano / 10^9`, normalized; it must be positive.
pub fn parse_price(units: i64, nano: i32) -> (result: Result<Decimal, Error>)
    ensures
        rust_decimal_checked_add(
            Decimal { mantissa: units as i128, scale: 0 },
            Decimal { mantissa: nano as i128, scale: 9 },
        ) is Some,
        units != 0 && nano != 0 ==> quotation_sum(units, nano) == (Decimal {
            mantissa: (units * 1_000_000_000 + nano) as i128,
            scale: 9,
        }),
        result matches Ok(price) ==> price.wf(),
        quotation_sum(units, nano).mantissa > 0 ==> (result matches Ok(price) && is_normalization_of(
            price,
            quotation_sum(units, nano),
        )),
        quotation_sum(units, nano).mantissa <= 0 ==> (result matches Err(Error::InvalidNamedDecimal(name, value))
            && name@ == "price"@ && value.mantissa <= 0 && is_normalization_of(value, quotation_sum(units, nano))),
{
    let whole = Decimal::from_int(units);
    let fraction = Decimal::new(nano as i64, 9);
    proof {
        assert(crate::decimal::pow10(9) == 1_000_000_000) by {
            reveal_with_fuel(crate::decimal::pow10, 10);
        }
        assert(crate::decimal::scaled_to(whole, 9) == units * 1_000_000_000);
        assert(crate::decimal::scaled_to(fraction, 9) == nano as int);
    }
    let sum = match whole.checked_add(fraction) {
        Some(sum) => sum,
        None => whole,
    };
    let price = sum.normalize();
    proof {
        reveal_strlit("price");
        if sum.mantissa != 0 {
            crate::util::lemma_pow10_positive((sum.scale - price.scale) as nat);
            assert(price.mantissa > 0 <==> sum.mantissa > 0) by (nonlinear_arith)
                requires
                    price.mantissa * crate::decimal::pow10((sum.scale - price.scale) as nat) == sum.mantissa,
                    crate::decimal::pow10((sum.scale - price.scale) as nat) > 0;
        }
    }
    if price.mantissa <= 0 {
        return Err(Error::InvalidNamedDecimal("price".to_owned(), price));
    }
    Ok(price)
}

/// A price as the Invest API gives it: whole units and billionths.
#[derive(Clone, Copy, Debug, PartialEq, Eq, Structural)]
pub struct Quotation {
    pub units: i64,
    pub nano: i32,
}

/// A point of time as the Invest API gives it: seconds and nanoseconds of UNIX time.
#[derive(Clone, Copy, Debug, PartialEq, Eq, Structural)]
pub struct Timestamp {
    pub seconds: i64,
    pub nanos: i32,
}

/// An hourly candle: the day it falls on in the exchange's time zone, where its time is a valid
/// one, and its open and close prices.
#[derive(Clone, Copy, Debug, PartialEq, Eq, Structural)]
pub struct Candle {
    pub date: Option<Date>,
    pub open: Option<Quotation>,
    pub close: Option<Quotation>,
}

/// A stock as the Invest API lists it.
#[derive(Clone, Debug)]
pub struct Stock {
    pub uid: String,
    pub isin: String,
    pub symbol: String,
    pub name: String,
    pub currency: String,
}

/// A currency as the Invest API lists it: its ticker, the name of the currency pair that its
/// quotes are given for, the quote currency and the number of base currency units that a price
/// is given for.
#[derive(Clone, Debug)]
pub struct Currency {
    pub uid: String,
    pub symbol: String,
    pub pair: String,
    pub quote: String,
    pub denomination: Decimal,
}

/// An instrument whose quotes are asked for.
#[derive(Debug)]
pub enum Instrument {
    Stock(Stock),
    Currency(Currency),
}

pub open spec fn instrument_uid(instrument: Instrument) -> Seq<char> {
    match instrument {
        Instrument::Stock(stock) => stock.uid@,
        Instrument::Currency(currency) => currency.uid@,
    }
}

fn uid_of(instrument: &Instrument) -> (result: &String)
    ensures
        result@ == instrument_uid(*instrument),
{
    match instrument {
        Instrument::Stock(stock) => &stock.uid,
        Instrument::Currency(currency) => &currency.uid,
    }
}

/// A currency's denomination is a valid number.
pub open spec fn instrument_wf(instrument: Instrument) -> bool {
    match instrument {
        Instrument::Stock(_) => true,
        Instrument::Currency(currency) => currency.denomination.wf(),
    }
}

/// Instruments keyed by their UIDs, each UID once.
pub open spec fn instruments_wf(instruments: Seq<(String, Instrument)>) -> bool {
    &&& forall|i: int| 0 <= i < instruments.len() ==> instrument_wf(#[trigger] instruments[i].1)
    &&& forall|i: int| 0 <= i < instruments.len() ==> (#[trigger] instruments[i]).0@ == instrument_uid(instruments[i].1)
    &&& forall|i: int, j: int| 0 <= i < j < instruments.len() ==> (#[trigger] instruments[i]).0@ != (#[trigger] instruments[j]).0@
}

/// The position of the instrument with the UID `uid`, if there is one.
pub open spec fn find_uid(instruments: Seq<(String, Instrument)>, uid: Seq<char>) -> Option<int> {
    if exists|i: int| 0 <= i < instruments.len() && (#[trigger] instruments[i]).0@ == uid {
        Some(choose|i: int| 0 <= i < instruments.len() && (#[trigger] instruments[i]).0@ == uid)
    } else {
        None
    }
}

proof fn lemma_find_uid(instruments: Seq<(String, Instrument)>, uid: Seq<char>, i: int)
    requires
        instruments_wf(instruments),
        0 <= i < instruments.len(),
        instruments[i].0@ == uid,
    ensures
        find_uid(instruments, uid) == Some(i),
{
    let j = choose|j: int| 0 <= j < instruments.len() && (#[trigger] instruments[j]).0@ == uid;
    assert(instruments[j].0@ == uid);
    if j < i {
        assert(instruments[j].0@ != instruments[i].0@);
    } else if i < j {
        assert(instruments[i].0@ != instruments[j].0@);
    }
}

/// Two instruments that share a UID: a stock and a currency pair (their symbols), or two stocks.
pub enum UidConflict {
    StockAndCurrencyPair(Seq<char>, Seq<char>),
    TwoStocks(Seq<char>, Seq<char>),
}

/// Whether `instrument`, asked for under `symbol`, conflicts with the instrument of the same UID
/// that was asked for before. A currency may replace a currency and a stock the same stock.
pub open spec fn uid_conflict(previous: Instrument, symbol: Seq<char>, instrument: Instrument) -> Option<UidConflict> {
    match instrument {
        Instrument::Currency(_) => match previous {
            Instrument::Stock(stock) => Some(UidConflict::StockAndCurrencyPair(stock.symbol@, symbol)),
            Instrument::Currency(_) => None,
        },
        Instrument::Stock(_) => match previous {
            Instrument::Stock(stock) => if stock.symbol@ != symbol {
                Some(UidConflict::TwoStocks(symbol, stock.symbol@))
            } else {
                None
            },
            Instrument::Currency(currency) => Some(UidConflict::StockAndCurrencyPair(symbol, currency.symbol@)),
        },
    }
}

pub open spec fn is_conflict_error(error: Error, conflict: UidConflict) -> bool {
    match conflict {
        UidConflict::StockAndCurrencyPair(stock, pair) => error matches Error::StockAndCurrencyPairUid(s, p) && s@
            == stock && p@ == pair,
        UidConflict::TwoStocks(first, second) => error matches Error::TwoStocksUid(f, s) && f@ == first && s@ == second,
    }
}

/// Adds an instrument asked for under `symbol` to the instruments whose quotes are asked for,
/// keyed by its UID. An instrument of the same UID is replaced by it, unless they conflict: then
/// it is an error, and the instruments stay as they were.
pub fn add_instrument(instruments: &mut Vec<(String, Instrument)>, symbol: &str, instrument: Instrument) -> (result:
    Result<(), Error>)
    requires
        instruments_wf(old(instruments)@),
        instrument_wf(instrument),
    ensures
        instruments_wf(final(instruments)@),
        match find_uid(old(instruments)@, instrument_uid(instrument)) {
            None => {
                &&& result is Ok
                &&& final(instruments)@.len() == old(instruments)@.len() + 1
                &&& final(instruments)@.drop_last() == old(instruments)@
                &&& final(instruments)@.last().1 == instrument
            },
            Some(i) => match uid_conflict(old(instruments)@[i].1, symbol@, instrument) {
                Some(conflict) => result matches Err(e) && is_conflict_error(e, conflict) && final(instruments)@ == old(
                    instruments,
                )@,
                None => {
                    &&& result is Ok
                    &&& final(instruments)@.len() == old(instruments)@.len()
                    &&& forall|j: int| 0 <= j < final(instruments)@.len() && j != i ==> final(instruments)@[j] == old(
                        instruments,
                    )@[j]
                    &&& final(instruments)@[i].1 == instrument
                },
            },
        },
{
    let ghost uid = instrument_uid(instrument);
    let key = uid_of(&instrument).clone();
    let ghost start = instruments@;
    let mut i: usize = 0;
    while i < instruments.len()
        invariant
            0 <= i <= instruments.len(),
            key@ == uid,
            uid == instrument_uid(instrument),
            instrument_wf(instrument),
            instruments@ == start,
            start == old(instruments)@,
            instruments_wf(start),
            forall|j: int| 0 <= j < i ==> (#[trigger] instruments@[j]).0@ != uid,
        decreases instruments.len() - i,
    {
        if text::str_eq(instruments[i].0.as_str(), key.as_str()) {
            proof {
                lemma_find_uid(instruments@, uid, i as int);
            }
            let previous = &instruments[i].1;
            let conflict = match &instrument {
                Instrument::Currency(_) => match previous {
                    Instrument::Stock(stock) => Some(
                        Error::StockAndCurrencyPairUid(stock.symbol.clone(), symbol.to_owned()),
                    ),
                    Instrument::Currency(_) => None,
                },
                Instrument::Stock(_) => match previous {
                    Instrument::Stock(stock) => if text::str_eq(stock.symbol.as_str(), symbol) {
                        None
                    } else {
                        Some(Error::TwoStocksUid(symbol.to_owned(), stock.symbol.clone()))
                    },
                    Instrument::Currency(currency) => Some(
                        Error::StockAndCurrencyPairUid(symbol.to_owned(), currency.symbol.clone()),
                    ),
                },
            };
            assert(conflict is Some <==> uid_conflict(*previous, symbol@, instrument) is Some);
            assert(conflict matches Some(e) ==> is_conflict_error(e, uid_conflict(*previous, symbol@, instrument)->0));
            if let Some(error) = conflict {
                return Err(error);
            }
            let ghost before = instruments@;
            let ghost added = instrument;
            instruments[i] = (key, instrument);
            assert(instruments@[i as int].1 == added);
            assert(instruments@[i as int].0@ == uid);
            assert(instruments_wf(instruments@)) by {
                assert forall|a: int| 0 <= a < instruments@.len() implies (#[trigger] instruments@[a]).0@
                    == instrument_uid(instruments@[a].1) by {
                    if a != i {
                        assert(instruments@[a] == before[a]);
                    } else {
                        assert(instruments@[a].0@ == uid);
                    }
                }
                assert forall|a: int| 0 <= a < instruments@.len() implies instrument_wf(#[trigger] instruments@[a].1) by {
                    if a != i {
                        assert(instruments@[a] == before[a]);
                    }
                }
                assert forall|a: int, b: int| 0 <= a < b < instruments@.len() implies (#[trigger] instruments@[a]).0@
                    != (#[trigger] instruments@[b]).0@ by {
                    assert(before[a].0@ != before[b].0@);
                }
            }
            return Ok(());
        }
        i = i + 1;
    }
    proof {
        assert(find_uid(instruments@, uid) is None);
    }
    let ghost before = instruments@;
    instruments.push((key, instrument));
    assert(instruments@.drop_last() =~= before);
    assert(instruments_wf(instruments@)) by {
        assert forall|a: int| 0 <= a < instruments@.len() implies (#[trigger] instruments@[a]).0@ == instrument_uid(
            instruments@[a].1,
        ) by {
            if a < before.len() {
                assert(instruments@[a] == before[a]);
            }
        }
        assert forall|a: int, b: int| 0 <= a < b < instruments@.len() implies (#[trigger] instruments@[a]).0@
            != (#[trigger] instruments@[b]).0@ by {
            if b < before.len() {
                assert(before[a].0@ != before[b].0@);
            } else {
                assert(before[a].0@ != uid);
            }
        }
    }
    Ok(())
}

/// The last price of an instrument, and the time it was got at, where the response gives them.
#[derive(Debug)]
pub struct LastPrice {
    pub instrument_uid: String,
    pub price: Option<Quotation>,
    pub time: Option<Timestamp>,
}

/// Quotes older than five days are outdated.
pub open spec fn spec_is_outdated_quote(time: Timestamp, now: Timestamp) -> bool {
    (now.seconds - time.seconds) * 1_000_000_000 + (now.nanos - time.nanos) >= 5 * 86400 * 1_000_000_000int
}

/// Whether a quote of `time` is outdated at `now`: five days or more have passed since.
pub fn is_outdated_quote(time: Timestamp, now: Timestamp) -> (result: bool)
    ensures
        result == spec_is_outdated_quote(time, now),
{
    let passed: i128 = (now.seconds as i128 - time.seconds as i128) * 1_000_000_000 + (now.nanos as i128 - time.nanos as i128);
    passed >= 5 * 86400 * 1_000_000_000
}

/// What a quote is given as: its symbol, its currency and its price.
pub type QuoteModel = (Seq<char>, Seq<char>, Decimal);

pub open spec fn quote_model(quote: (String, Cash)) -> QuoteModel {
    (quote.0@, quote.1.currency@, quote.1.amount)
}

/// The symbol that an instrument's quotes are given for.
pub open spec fn quote_symbol(instrument: Instrument) -> Seq<char> {
    match instrument {
        Instrument::Stock(stock) => stock.symbol@,
        Instrument::Currency(currency) => currency.pair@,
    }
}

/// The currency of an instrument's prices.
pub open spec fn quote_currency(instrument: Instrument) -> Seq<char> {
    match instrument {
        Instrument::Stock(stock) => stock.currency@,
        Instrument::Currency(currency) => currency.quote@,
    }
}

/// The number of units that an instrument's price is given for.
pub open spec fn quote_denomination(instrument: Instrument) -> Decimal {
    match instrument {
        Instrument::Stock(_) => Decimal { mantissa: 1, scale: 0 },
        Instrument::Currency(currency) => currency.denomination,
    }
}

/// Why quotes can't be got from last prices.
pub enum QuoteFailure {
    UnexpectedUid(Seq<char>),
    InvalidTime(Seq<char>, Timestamp),
    InvalidPrice(Decimal),
    Overflow(Seq<char>),
}

pub open spec fn is_quote_failure(error: Error, failure: QuoteFailure) -> bool {
    match failure {
        QuoteFailure::UnexpectedUid(uid) => error matches Error::UnexpectedInstrumentUid(u) && u@ == uid,
        QuoteFailure::InvalidTime(symbol, time) => error matches Error::InvalidQuoteTime(s, seconds, nanos) && s@
            == symbol && seconds == time.seconds && nanos == time.nanos,
        QuoteFailure::InvalidPrice(value) => error matches Error::InvalidNamedDecimal(name, v) && name@ == "price"@
            && v == value,
        QuoteFailure::Overflow(symbol) => error matches Error::PriceOverflow(s) && s@ == symbol,
    }
}

/// The Invest API that prices come from: T-Bank's checks a quotation before it divides it by the
/// denomination; Tinkoff's divides it first and checks the normalized quotient.
#[derive(Clone, Copy, Debug, PartialEq, Eq, Structural)]
pub enum InvestApi {
    Tinkoff,
    Tbank,
}

/// The price of one unit of an instrument that a quotation gives: it must be positive.
pub open spec fn quote_price(api: InvestApi, instrument: Instrument, price: Quotation) -> Result<Decimal, QuoteFailure> {
    let sum = quotation_sum(price.units, price.nano);
    match api {
        InvestApi::Tbank => if sum.mantissa <= 0 {
            Err(QuoteFailure::InvalidPrice(normalized(sum)))
        } else {
            match rust_decimal_checked_div(normalized(sum), quote_denomination(instrument)) {
                Some(quotient) => Ok(quotient),
                None => Err(QuoteFailure::Overflow(quote_symbol(instrument))),
            }
        },
        InvestApi::Tinkoff => match rust_decimal_checked_div(sum, quote_denomination(instrument)) {
            None => Err(QuoteFailure::Overflow(quote_symbol(instrument))),
            Some(quotient) => if normalized(quotient).mantissa <= 0 {
                Err(QuoteFailure::InvalidPrice(normalized(quotient)))
            } else {
                Ok(normalized(quotient))
            },
        },
    }
}

/// The quotes that the last prices from the `i`-th on give, after `quotes`, for the instruments
/// that have got no price yet. Each price must be of one of these instruments; one without a
/// price or a time is skipped, and so is an outdated one.
pub open spec fn quotes_from(
    api: InvestApi,
    remaining: Seq<(String, Instrument)>,
    prices: Seq<LastPrice>,
    i: int,
    quotes: Seq<QuoteModel>,
    now: Timestamp,
) -> Result<Seq<QuoteModel>, QuoteFailure>
    decreases prices.len() - i,
{
    if i < 0 || i >= prices.len() {
        Ok(quotes)
    } else {
        let last = prices[i];
        match find_uid(remaining, last.instrument_uid@) {
            None => Err(QuoteFailure::UnexpectedUid(last.instrument_uid@)),
            Some(k) => {
                let instrument = remaining[k].1;
                let rest = remaining.remove(k);
                match last.price {
                    Some(price) => match last.time {
                        Some(time) => if !is_unix_time(time.seconds, time.nanos) {
                            Err(QuoteFailure::InvalidTime(quote_symbol(instrument), time))
                        } else if spec_is_outdated_quote(time, now) {
                            quotes_from(api, rest, prices, i + 1, quotes, now)
                        } else {
                            match quote_price(api, instrument, price) {
                                Err(failure) => Err(failure),
                                Ok(amount) => quotes_from(
                                    api,
                                    rest,
                                    prices,
                                    i + 1,
                                    quotes.push((quote_symbol(instrument), quote_currency(instrument), amount)),
                                    now,
                                ),
                            }
                        },
                        None => quotes_from(api, rest, prices, i + 1, quotes, now),
                    },
                    None => quotes_from(api, rest, prices, i + 1, quotes, now),
                }
            },
        }
    }
}

/// The quotes that last prices give for the instruments asked for, in the order of the prices
/// (a later quote of a symbol replaces an earlier one). With no instruments there are no quotes.
pub open spec fn spec_quotes_from_last_prices(
    api: InvestApi,
    instruments: Seq<(String, Instrument)>,
    prices: Seq<LastPrice>,
    now: Timestamp,
) -> Result<Seq<QuoteModel>, QuoteFailure> {
    if instruments.len() == 0 {
        Ok(Seq::empty())
    } else {
        quotes_from(api, instruments, prices, 0, Seq::empty(), now)
    }
}

pub open spec fn is_quotes_result(result: Result<Vec<(String, Cash)>, Error>, expected: Result<Seq<QuoteModel>, QuoteFailure>) -> bool {
    match expected {
        Ok(quotes) => result matches Ok(got) && got@.map_values(|quote: (String, Cash)| quote_model(quote)) == quotes,
        Err(failure) => result matches Err(error) && is_quote_failure(error, failure),
    }
}

/// The position of the instrument with the UID `uid`.
fn find_instrument(instruments: &Vec<(String, Instrument)>, uid: &String) -> (result: Option<usize>)
    requires
        instruments_wf(instruments@),
    ensures
        match result {
            Some(i) => find_uid(instruments@, uid@) == Some(i as int),
            None => find_uid(instruments@, uid@) is None,
        },
{
    let mut i: usize = 0;
    while i < instruments.len()
        invariant
            0 <= i <= instruments.len(),
            instruments_wf(instruments@),
            forall|j: int| 0 <= j < i ==> (#[trigger] instruments@[j]).0@ != uid@,
        decreases instruments.len() - i,
    {
        if text::str_eq(instruments[i].0.as_str(), uid.as_str()) {
            proof {
                lemma_find_uid(instruments@, uid@, i as int);
            }
            return Some(i);
        }
        i = i + 1;
    }
    None
}

proof fn lemma_remove_wf(instruments: Seq<(String, Instrument)>, k: int)
    requires
        instruments_wf(instruments),
        0 <= k < instruments.len(),
    ensures
        instruments_wf(instruments.remove(k)),
{
    let rest = instruments.remove(k);
    assert forall|a: int| 0 <= a < rest.len() implies (#[trigger] rest[a]).0@ == instrument_uid(rest[a].1) by {
        if a >= k {
            assert(rest[a] == instruments[a + 1]);
        }
    }
    assert forall|a: int, b: int| 0 <= a < b < rest.len() implies (#[trigger] rest[a]).0@ != (#[trigger] rest[b]).0@ by {
        let x = if a < k { a } else { a + 1 };
        let y = if b < k { b } else { b + 1 };
        assert(rest[a] == instruments[x]);
        assert(rest[b] == instruments[y]);
    }
}

/// The value of a quotation: `units + nano / 10^9`.
fn quotation_value(units: i64, nano: i32) -> (result: Decimal)
    ensures
        result == quotation_sum(units, nano),
        rust_decimal_checked_add(Decimal { mantissa: units as i128, scale: 0 }, Decimal { mantissa: nano as i128, scale: 9 }) is Some,
        result.wf(),
{
    let whole = Decimal::from_int(units);
    let fraction = Decimal::new(nano as i64, 9);
    match whole.checked_add(fraction) {
        Some(sum) => sum,
        None => whole,
    }
}

/// The price of one unit of an instrument whose prices are given for `denomination` units.
fn price_of(
    api: InvestApi,
    price: Quotation,
    denomination: Decimal,
    symbol: &String,
    Ghost(instrument): Ghost<Instrument>,
) -> (result: Result<Decimal, Error>)
    requires
        denomination.wf(),
        quote_denomination(instrument) == denomination,
        quote_symbol(instrument) == symbol@,
    ensures
        match quote_price(api, instrument, price) {
            Ok(amount) => result == Ok::<Decimal, Error>(amount),
            Err(failure) => result matches Err(error) && is_quote_failure(error, failure),
        },
{
    match api {
        InvestApi::Tbank => {
            let value = match parse_price(price.units, price.nano) {
                Ok(value) => value,
                Err(error) => {
                    proof {
                        if let Error::InvalidNamedDecimal(_, v) = error {
                            lemma_normalized(v, quotation_sum(price.units, price.nano));
                        }
                    }
                    return Err(error);
                },
            };
            proof {
                lemma_normalized(value, quotation_sum(price.units, price.nano));
            }
            match value.checked_div(denomination) {
                Some(amount) => Ok(amount),
                None => Err(Error::PriceOverflow(symbol.clone())),
            }
        },
        InvestApi::Tinkoff => {
            let sum = quotation_value(price.units, price.nano);
            let quotient = match sum.checked_div(denomination) {
                Some(quotient) => quotient,
                None => return Err(Error::PriceOverflow(symbol.clone())),
            };
            let amount = quotient.normalize();
            proof {
                lemma_normalized(amount, quotient);
                reveal_strlit("price");
            }
            if amount.mantissa <= 0 {
                return Err(Error::InvalidNamedDecimal("price".to_owned(), amount));
            }
            Ok(amount)
        },
    }
}

/// Turns the last prices that the Invest API gives for the instruments asked for into quotes, at
/// the time `now`.
pub fn quotes_from_last_prices(api: InvestApi, instruments: Vec<(String, Instrument)>, prices: Vec<LastPrice>, now: Timestamp) -> (result:
    Result<Vec<(String, Cash)>, Error>)
    requires
        instruments_wf(instruments@),
    ensures
        is_quotes_result(result, spec_quotes_from_last_prices(api, instruments@, prices@, now)),
{
    let ghost expected = spec_quotes_from_last_prices(api, instruments@, prices@, now);
    let mut quotes: Vec<(String, Cash)> = Vec::new();
    if instruments.len() == 0 {
        assert(quotes@.map_values(|quote: (String, Cash)| quote_model(quote)) =~= Seq::<QuoteModel>::empty());
        return Ok(quotes);
    }
    let ghost initial = instruments@;
    let mut remaining = instruments;
    let mut i: usize = 0;
    assert(quotes@.map_values(|quote: (String, Cash)| quote_model(quote)) =~= Seq::<QuoteModel>::empty());
    while i < prices.len()
        invariant
            0 <= i <= prices.len(),
            instruments_wf(remaining@),
            expected == quotes_from(api, remaining@, prices@, i as int, quotes@.map_values(|quote: (String, Cash)| quote_model(quote)), now),
            expected == spec_quotes_from_last_prices(api, initial, prices@, now),
            initial == instruments@,
            forall|j: int| 0 <= j < remaining@.len() ==> instrument_wf((#[trigger] remaining@[j]).1),
        decreases prices.len() - i,
    {
        let ghost model = quotes@.map_values(|quote: (String, Cash)| quote_model(quote));
        let last = &prices[i];
        let k = match find_instrument(&remaining, &last.instrument_uid) {
            Some(k) => k,
            None => {
                assert(expected == quotes_from(api, remaining@, prices@, i as int, model, now));
                assert(find_uid(remaining@, prices@[i as int].instrument_uid@) is None);
                assert(expected == Err::<Seq<QuoteModel>, _>(QuoteFailure::UnexpectedUid(last.instrument_uid@)));
                let error = Error::UnexpectedInstrumentUid(last.instrument_uid.clone());
                assert(is_quote_failure(error, QuoteFailure::UnexpectedUid(last.instrument_uid@)));
                assert(is_quotes_result(Err(error), expected));
                assert(expected == spec_quotes_from_last_prices(api, initial, prices@, now));
                return Err(error);
            },
        };
        let ghost before = remaining@;
        proof {
            lemma_remove_wf(remaining@, k as int);
        }
        let (_, instrument) = remaining.remove(k);
        assert(instrument_wf(instrument));
        assert forall|j: int| 0 <= j < remaining@.len() implies instrument_wf((#[trigger] remaining@[j]).1) by {
            if j < k {
                assert(remaining@[j] == before[j]);
            } else {
                assert(remaining@[j] == before[j + 1]);
            }
        }
        let ghost spec_instrument = instrument;
        assert(spec_instrument == before[k as int].1);
        assert(find_uid(before, prices@[i as int].instrument_uid@) == Some(k as int));
        let (symbol, currency, denomination) = match instrument {
            Instrument::Stock(stock) => (stock.symbol, stock.currency, Decimal::from_int(1)),
            Instrument::Currency(currency) => (currency.pair, currency.quote, currency.denomination),
        };
        assert(symbol@ == quote_symbol(spec_instrument));
        assert(currency@ == quote_currency(spec_instrument));
        assert(denomination == quote_denomination(spec_instrument));
        if let (Some(price), Some(time)) = (last.price, last.time) {
            if from_unix_time(time.seconds, time.nanos).is_none() {
                assert(expected == Err::<Seq<QuoteModel>, _>(QuoteFailure::InvalidTime(symbol@, time)));
                return Err(Error::InvalidQuoteTime(symbol, time.seconds, time.nanos));
            }
            if !is_outdated_quote(time, now) {
                let amount = price_of(api, price, denomination, &symbol, Ghost(spec_instrument))?;
                let quote = (symbol, Cash::new(currency.as_str(), amount));
                quotes.push(quote);
                assert(quotes@.map_values(|quote: (String, Cash)| quote_model(quote)) =~= model.push(
                    (quote_symbol(spec_instrument), quote_currency(spec_instrument), amount),
                ));
            }
        }
        i = i + 1;
    }
    Ok(quotes)
}

/// Why daily quotes can't be got from candles.
pub enum CandleFailure {
    InvalidCandle(Candle),
    InvalidPrice(Decimal),
    Overflow,
}

pub open spec fn is_candle_failure(error: Error, failure: CandleFailure, currency: Seq<char>) -> bool {
    match failure {
        CandleFailure::InvalidCandle(candle) => error == Error::InvalidCandle(candle),
        CandleFailure::InvalidPrice(value) => error matches Error::InvalidNamedDecimal(name, v) && name@ == "price"@
            && v == value,
        CandleFailure::Overflow => error matches Error::PriceOverflow(c) && c@ == currency,
    }
}

/// The price of a quotation, which must be positive.
pub open spec fn positive_price(price: Quotation) -> Result<Decimal, CandleFailure> {
    let sum = quotation_sum(price.units, price.nano);
    if sum.mantissa <= 0 {
        Err(CandleFailure::InvalidPrice(normalized(sum)))
    } else {
        Ok(normalized(sum))
    }
}

/// A candle's day and price: the mean of its open and close prices.
pub open spec fn candle_price(candle: Candle) -> Result<(Date, Decimal), CandleFailure> {
    match (candle.date, candle.open, candle.close) {
        (Some(date), Some(open), Some(close)) => match positive_price(open) {
            Err(failure) => Err(failure),
            Ok(open) => match positive_price(close) {
                Err(failure) => Err(failure),
                Ok(close) => match rust_decimal_checked_add(open, close) {
                    None => Err(CandleFailure::Overflow),
                    Some(sum) => match rust_decimal_checked_div(sum, Decimal { mantissa: 2, scale: 0 }) {
                        None => Err(CandleFailure::Overflow),
                        Some(price) => Ok((date, price)),
                    },
                },
            },
        },
        _ => Err(CandleFailure::InvalidCandle(candle)),
    }
}

/// The position of `date` among the days, if it is there.
pub open spec fn find_date(dates: Seq<Date>, date: Date) -> Option<int> {
    if exists|i: int| 0 <= i < dates.len() && dates[i] == date {
        Some(choose|i: int| 0 <= i < dates.len() && dates[i] == date)
    } else {
        None
    }
}

pub open spec fn dates_unique(dates: Seq<Date>) -> bool {
    forall|i: int, j: int| 0 <= i < j < dates.len() ==> dates[i] != dates[j]
}

/// The days of the candles from the `i`-th on, after `dates`, each once, in the order in which
/// they first come, and the prices of each day, in the order of the candles.
pub open spec fn group_prices(candles: Seq<Candle>, i: int, dates: Seq<Date>, prices: Seq<Seq<Decimal>>) -> Result<
    (Seq<Date>, Seq<Seq<Decimal>>),
    CandleFailure,
>
    decreases candles.len() - i,
{
    if i < 0 || i >= candles.len() {
        Ok((dates, prices))
    } else {
        match candle_price(candles[i]) {
            Err(failure) => Err(failure),
            Ok((date, price)) => match find_date(dates, date) {
                Some(k) => group_prices(candles, i + 1, dates, prices.update(k, prices[k].push(price))),
                None => group_prices(candles, i + 1, dates.push(date), prices.push(seq![price])),
            },
        }
    }
}

/// The sum of prices, added up in their order from zero.
pub open spec fn price_sum(prices: Seq<Decimal>) -> Option<Decimal>
    decreases prices.len(),
{
    if prices.len() == 0 {
        Some(Decimal { mantissa: 0, scale: 0 })
    } else {
        match price_sum(prices.drop_last()) {
            None => None,
            Some(sum) => rust_decimal_checked_add(sum, prices.last()),
        }
    }
}

/// The mean of a day's prices, normalized.
pub open spec fn mean_price(prices: Seq<Decimal>) -> Option<Decimal> {
    match price_sum(prices) {
        None => None,
        Some(sum) => match rust_decimal_checked_div(sum, Decimal { mantissa: prices.len() as i128, scale: 0 }) {
            None => None,
            Some(mean) => Some(normalized(mean)),
        },
    }
}

/// The mean prices of the days.
pub open spec fn daily_means(dates: Seq<Date>, prices: Seq<Seq<Decimal>>) -> Result<Seq<(Date, Decimal)>, CandleFailure>
    decreases dates.len(),
{
    if dates.len() == 0 || prices.len() != dates.len() {
        Ok(Seq::empty())
    } else {
        match daily_means(dates.drop_last(), prices.drop_last()) {
            Err(failure) => Err(failure),
            Ok(means) => match mean_price(prices.last()) {
                None => Err(CandleFailure::Overflow),
                Some(mean) => Ok(means.push((dates.last(), mean))),
            },
        }
    }
}

/// The quotes of each day that hourly candles give: the mean of the candles' prices, each the
/// mean of its open and close prices. The days come in the order in which their first candles
/// come.
pub open spec fn spec_daily_quotes(candles: Seq<Candle>) -> Result<Seq<(Date, Decimal)>, CandleFailure> {
    match group_prices(candles, 0, Seq::empty(), Seq::empty()) {
        Err(failure) => Err(failure),
        Ok((dates, prices)) => daily_means(dates, prices),
    }
}

pub open spec fn is_daily_quotes_result(
    result: Result<Vec<(Date, Cash)>, Error>,
    expected: Result<Seq<(Date, Decimal)>, CandleFailure>,
    currency: Seq<char>,
) -> bool {
    match expected {
        Ok(quotes) => result matches Ok(got) && got@.len() == quotes.len() && forall|i: int|
            0 <= i < quotes.len() ==> (#[trigger] got@[i]).0 == quotes[i].0 && got@[i].1.currency@ == currency
                && got@[i].1.amount == quotes[i].1,
        Err(failure) => result matches Err(error) && is_candle_failure(error, failure, currency),
    }
}

fn candle_price_exec(candle: Candle, currency: &str) -> (result: Result<(Date, Decimal), Error>)
    ensures
        match candle_price(candle) {
            Ok(price) => result == Ok::<(Date, Decimal), Error>(price),
            Err(failure) => result matches Err(error) && is_candle_failure(error, failure, currency@),
        },
        result matches Ok(price) ==> price.1.wf(),
{
    let (date, open, close) = match (candle.date, candle.open, candle.close) {
        (Some(date), Some(open), Some(close)) => (date, open, close),
        _ => return Err(Error::InvalidCandle(candle)),
    };
    let open = match parse_price(open.units, open.nano) {
        Ok(open) => open,
        Err(error) => {
            proof {
                if let Error::InvalidNamedDecimal(_, v) = error {
                    lemma_normalized(v, quotation_sum(open.units, open.nano));
                }
            }
            return Err(error);
        },
    };
    proof {
        lemma_normalized(open, quotation_sum(candle.open->0.units, candle.open->0.nano));
    }
    let close = match parse_price(close.units, close.nano) {
        Ok(close) => close,
        Err(error) => {
            proof {
                if let Error::InvalidNamedDecimal(_, v) = error {
                    lemma_normalized(v, quotation_sum(close.units, close.nano));
                }
            }
            return Err(error);
        },
    };
    proof {
        lemma_normalized(close, quotation_sum(candle.close->0.units, candle.close->0.nano));
    }
    let sum = match open.checked_add(close) {
        Some(sum) => sum,
        None => return Err(Error::PriceOverflow(currency.to_owned())),
    };
    match sum.checked_div(Decimal::from_int(2)) {
        Some(price) => Ok((date, price)),
        None => Err(Error::PriceOverflow(currency.to_owned())),
    }
}

fn find_date_exec(dates: &Vec<Date>, date: Date) -> (result: Option<usize>)
    requires
        dates_unique(dates@),
    ensures
        match result {
            Some(i) => find_date(dates@, date) == Some(i as int),
            None => find_date(dates@, date) is None,
        },
{
    let mut i: usize = 0;
    while i < dates.len()
        invariant
            0 <= i <= dates.len(),
            dates_unique(dates@),
            forall|j: int| 0 <= j < i ==> dates@[j] != date,
        decreases dates.len() - i,
    {
        if dates[i] == date {
            proof {
                let j = choose|j: int| 0 <= j < dates@.len() && dates@[j] == date;
                assert(dates@[j] == date);
                if j < i {
                    assert(dates@[j] != dates@[i as int]);
                } else if i < j {
                    assert(dates@[i as int] != dates@[j]);
                }
            }
            return Some(i);
        }
        i = i + 1;
    }
    None
}

pub open spec fn groups_model(groups: Seq<Vec<Decimal>>) -> Seq<Seq<Decimal>> {
    groups.map_values(|group: Vec<Decimal>| group@)
}

pub open spec fn all_wf(prices: Seq<Decimal>) -> bool {
    forall|i: int| 0 <= i < prices.len() ==> (#[trigger] prices[i]).wf()
}

/// The mean of a day's prices, normalized.
fn mean_price_exec(prices: &Vec<Decimal>) -> (result: Option<Decimal>)
    requires
        all_wf(prices@),
        prices@.len() <= i64::MAX,
    ensures
        result == mean_price(prices@),
        result matches Some(mean) ==> mean.wf(),
{
    let mut sum = Decimal::zero();
    let mut i: usize = 0;
    while i < prices.len()
        invariant
            0 <= i <= prices.len(),
            all_wf(prices@),
            price_sum(prices@.subrange(0, i as int)) == Some(sum),
            sum.wf(),
        decreases prices.len() - i,
    {
        assert(prices@.subrange(0, i + 1).drop_last() =~= prices@.subrange(0, i as int));
        sum = match sum.checked_add(prices[i]) {
            Some(next) => next,
            None => {
                proof {
                    lemma_price_sum_none(prices@, i as int + 1);
                    assert(prices@.subrange(0, prices@.len() as int) =~= prices@);
                }
                return None;
            },
        };
        i = i + 1;
    }
    assert(prices@.subrange(0, prices@.len() as int) =~= prices@);
    let count = Decimal::from_int(prices.len() as i64);
    assert(count == Decimal { mantissa: prices@.len() as i128, scale: 0 });
    match sum.checked_div(count) {
        Some(mean) => {
            let result = mean.normalize();
            proof {
                lemma_normalized(result, mean);
            }
            Some(result)
        },
        None => None,
    }
}

proof fn lemma_price_sum_none(prices: Seq<Decimal>, n: int)
    requires
        0 <= n <= prices.len(),
        price_sum(prices.subrange(0, n)) is None,
    ensures
        price_sum(prices) is None,
    decreases prices.len() - n,
{
    if n < prices.len() {
        assert(prices.subrange(0, n + 1).drop_last() =~= prices.subrange(0, n));
        lemma_price_sum_none(prices, n + 1);
    } else {
        assert(prices.subrange(0, n) =~= prices);
    }
}

/// Turns hourly candles into daily quotes in `currency`: the mean of the day's candles' prices,
/// each the mean of its open and close prices.
pub fn daily_quotes(candles: Vec<Candle>, currency: &str) -> (result: Result<Vec<(Date, Cash)>, Error>)
    requires
        candles@.len() <= i64::MAX,
    ensures
        is_daily_quotes_result(result, spec_daily_quotes(candles@), currency@),
{
    let mut dates: Vec<Date> = Vec::new();
    let mut groups: Vec<Vec<Decimal>> = Vec::new();
    let mut i: usize = 0;
    assert(groups_model(groups@) =~= Seq::<Seq<Decimal>>::empty());
    while i < candles.len()
        invariant
            0 <= i <= candles.len(),
            candles@.len() <= i64::MAX,
            dates@.len() == groups@.len(),
            dates_unique(dates@),
            forall|k: int| 0 <= k < groups@.len() ==> all_wf(#[trigger] groups@[k]@) && groups@[k]@.len() <= i,
            group_prices(candles@, i as int, dates@, groups_model(groups@)) == group_prices(
                candles@,
                0,
                Seq::empty(),
                Seq::empty(),
            ),
        decreases candles.len() - i,
    {
        let (date, price) = match candle_price_exec(candles[i], currency) {
            Ok(price) => price,
            Err(error) => return Err(error),
        };
        let ghost model = groups_model(groups@);
        match find_date_exec(&dates, date) {
            Some(k) => {
                let ghost before = groups@;
                let mut group = groups.remove(k);
                group.push(price);
                groups.insert(k, group);
                assert(groups_model(groups@) =~= model.update(k as int, model[k as int].push(price)));
                assert forall|j: int| 0 <= j < groups@.len() implies all_wf(#[trigger] groups@[j]@)
                    && groups@[j]@.len() <= i + 1 by {
                    if j != k {
                        assert(groups@[j] == before[j]);
                    }
                }
            },
            None => {
                let ghost before_dates = dates@;
                let ghost before = groups@;
                dates.push(date);
                let mut group: Vec<Decimal> = Vec::new();
                group.push(price);
                assert(group@ =~= seq![price]);
                groups.push(group);
                assert(groups_model(groups@) =~= model.push(seq![price]));
                assert forall|j: int| 0 <= j < groups@.len() implies all_wf(#[trigger] groups@[j]@)
                    && groups@[j]@.len() <= i + 1 by {
                    if j < before.len() {
                        assert(groups@[j] == before[j]);
                    }
                }
                assert(dates_unique(dates@)) by {
                    assert forall|a: int, b: int| 0 <= a < b < dates@.len() implies dates@[a] != dates@[b] by {
                        if b == before_dates.len() {
                            assert(dates@[a] == before_dates[a]);
                        }
                    }
                }
            },
        }
        i = i + 1;
    }
    let ghost all_dates = dates@;
    let ghost all_groups = groups_model(groups@);
    assert(spec_daily_quotes(candles@) == daily_means(all_dates, all_groups));
    assert(all_dates.subrange(0, 0) =~= Seq::<Date>::empty());
    assert(all_groups.subrange(0, 0) =~= Seq::<Seq<Decimal>>::empty());
    let mut quotes: Vec<(Date, Cash)> = Vec::new();
    let mut k: usize = 0;
    while k < dates.len()
        invariant
            0 <= k <= dates.len(),
            dates.len() == groups.len(),
            dates@ == all_dates,
            groups_model(groups@) == all_groups,
            spec_daily_quotes(candles@) == daily_means(all_dates, all_groups),
            candles@.len() <= i64::MAX,
            forall|j: int| 0 <= j < groups@.len() ==> all_wf(#[trigger] groups@[j]@) && groups@[j]@.len() <= candles@.len(),
            daily_means(all_dates.subrange(0, k as int), all_groups.subrange(0, k as int)) matches Ok(means)
                && means.len() == quotes@.len() && forall|j: int| 0 <= j < means.len() ==> (#[trigger] quotes@[j]).0
                == means[j].0 && quotes@[j].1.currency@ == currency@ && quotes@[j].1.amount == means[j].1,
        decreases dates.len() - k,
    {
        let ghost prefix_dates = all_dates.subrange(0, k as int + 1);
        let ghost prefix_groups = all_groups.subrange(0, k as int + 1);
        assert(prefix_dates.drop_last() =~= all_dates.subrange(0, k as int));
        assert(prefix_groups.drop_last() =~= all_groups.subrange(0, k as int));
        assert(all_groups[k as int] == groups@[k as int]@);
        let mean = match mean_price_exec(&groups[k]) {
            Some(mean) => mean,
            None => {
                proof {
                    assert(prefix_dates.len() == k + 1);
                    assert(prefix_groups.last() == all_groups[k as int]);
                    lemma_daily_means_error(all_dates, all_groups, k as int + 1);
                }
                return Err(Error::PriceOverflow(currency.to_owned()));
            },
        };
        quotes.push((dates[k], Cash::new(currency, mean)));
        k = k + 1;
    }
    assert(all_dates.subrange(0, k as int) =~= all_dates);
    assert(all_groups.subrange(0, k as int) =~= all_groups);
    Ok(quotes)
}

/// A failure among the first days' means is the failure of all of them.
proof fn lemma_daily_means_error(dates: Seq<Date>, prices: Seq<Seq<Decimal>>, n: int)
    requires
        dates.len() == prices.len(),
        0 < n <= dates.len(),
        daily_means(dates.subrange(0, n), prices.subrange(0, n)) matches Err(failure) && failure is Overflow,
    ensures
        daily_means(dates, prices) matches Err(failure) && failure is Overflow,
    decreases dates.len() - n,
{
    if n < dates.len() {
        assert(dates.subrange(0, n + 1).drop_last() =~= dates.subrange(0, n));
        assert(prices.subrange(0, n + 1).drop_last() =~= prices.subrange(0, n));
        lemma_daily_means_error(dates, prices, n + 1);
    } else {
        assert(dates.subrange(0, n) =~= dates);
        assert(prices.subrange(0, n) =~= prices);
    }
}

/// The sum of the mantissas of numbers.
pub open spec fn mantissa_sum(prices: Seq<Decimal>) -> int
    decreases prices.len(),
{
    if prices.len() == 0 {
        0
    } else {
        mantissa_sum(prices.drop_last()) + prices.last().mantissa
    }
}

/// Whole prices that fit in 32 bits.
pub open spec fn small_whole_prices(prices: Seq<Decimal>) -> bool {
    forall|i: int| 0 <= i < prices.len() ==> (#[trigger] prices[i]).scale == 0 && 0 < prices[i].mantissa
        < 0x1_0000_0000
}

proof fn lemma_whole_price_sum(prices: Seq<Decimal>)
    requires
        decimal::sums_and_quotients_obey_facts(),
        prices.len() < 0x1_0000_0000,
        small_whole_prices(prices),
    ensures
        price_sum(prices) == Some(Decimal { mantissa: mantissa_sum(prices) as i128, scale: 0 }),
        0 <= mantissa_sum(prices) <= prices.len() * 0xFFFF_FFFF,
        prices.len() > 0 ==> mantissa_sum(prices) > 0,
    decreases prices.len(),
{
    if prices.len() > 0 {
        let rest = prices.drop_last();
        assert(small_whole_prices(rest)) by {
            assert forall|i: int| 0 <= i < rest.len() implies (#[trigger] rest[i]).scale == 0 && 0 < rest[i].mantissa
                < 0x1_0000_0000 by {
                assert(rest[i] == prices[i]);
            }
        }
        lemma_whole_price_sum(rest);
        let sum = Decimal { mantissa: mantissa_sum(rest) as i128, scale: 0 };
        let last = prices.last();
        assert(small_whole_prices(prices));
        assert(last.scale == 0 && 0 < last.mantissa < 0x1_0000_0000) by {
            assert(last == prices[prices.len() - 1]);
        }
        assert(mantissa_sum(rest) <= 0xFFFF_FFFF * 0xFFFF_FFFF) by (nonlinear_arith)
            requires
                mantissa_sum(rest) <= rest.len() * 0xFFFF_FFFF,
                rest.len() < 0x1_0000_0000;
        assert(sum.wf() && last.wf());
        assert(decimal::sum_facts(sum, last, rust_decimal_checked_add(sum, last)));
        assert(decimal::pow10(0) == 1);
        assert(decimal::scaled_to(sum, 0) == sum.mantissa);
        assert(decimal::scaled_to(last, 0) == last.mantissa);
        assert(mantissa_sum(prices) <= prices.len() * 0xFFFF_FFFF) by (nonlinear_arith)
            requires
                mantissa_sum(prices) == mantissa_sum(rest) + prices.last().mantissa,
                mantissa_sum(rest) <= rest.len() * 0xFFFF_FFFF,
                rest.len() + 1 == prices.len(),
                prices.last().mantissa < 0x1_0000_0000;
    }
}

/// A day's quote is the arithmetic mean of all of the day's candle prices: where the prices are
/// whole numbers whose sum their count divides, the mean is that quotient, so that it times the
/// number of prices is their sum.
pub proof fn law_mean_price_is_mean(prices: Seq<Decimal>)
    requires
        decimal::sums_and_quotients_obey_facts(),
        0 < prices.len() < 0x1_0000_0000,
        small_whole_prices(prices),
        mantissa_sum(prices) % (prices.len() as int) == 0,
    ensures
        mean_price(prices) == Some(Decimal { mantissa: (mantissa_sum(prices) / (prices.len() as int)) as i128, scale: 0 }),
        (mantissa_sum(prices) / (prices.len() as int)) * prices.len() == mantissa_sum(prices),
{
    lemma_whole_price_sum(prices);
    let n = prices.len() as int;
    let total = mantissa_sum(prices);
    assert(total <= 0xFFFF_FFFF * 0xFFFF_FFFF) by (nonlinear_arith)
        requires
            total <= n * 0xFFFF_FFFF,
            n < 0x1_0000_0000;
    let sum = Decimal { mantissa: total as i128, scale: 0 };
    let count = Decimal { mantissa: n as i128, scale: 0 };
    assert(sum.wf() && count.wf());
    assert(decimal::quotient_facts(sum, count, rust_decimal_checked_div(sum, count)));
    assert(decimal::abs(count.mantissa as int) == n);
    let mean = Decimal { mantissa: (total / n) as i128, scale: 0 };
    assert(rust_decimal_checked_div(sum, count) == Some(mean));
    assert(decimal::pow10(0) == 1);
    lemma_normalized(mean, mean);
    assert((total / n) * n == total) by (nonlinear_arith)
        requires
            total % n == 0,
            n > 0;
}

/// Candles of one day whose open and close prices are the same whole number, below 2^31.
pub open spec fn flat_whole_candles(candles: Seq<Candle>, date: Date) -> bool {
    forall|i: int| 0 <= i < candles.len() ==> {
        &&& (#[trigger] candles[i]).date == Some(date)
        &&& candles[i].open matches Some(open)
        &&& candles[i].close == Some(open)
        &&& open.nano == 0
        &&& 0 < open.units < 0x8000_0000
    }
}

/// The prices of flat candles.
pub open spec fn flat_prices(candles: Seq<Candle>) -> Seq<Decimal> {
    candles.map_values(|candle: Candle| Decimal { mantissa: candle.open->0.units as i128, scale: 0 })
}

proof fn lemma_flat_candle_price(candle: Candle, date: Date)
    requires
        decimal::sums_and_quotients_obey_facts(),
        candle.date == Some(date),
        candle.open matches Some(open),
        candle.close == candle.open,
        candle.open->0.nano == 0,
        0 < candle.open->0.units < 0x8000_0000,
    ensures
        candle_price(candle) == Ok::<_, CandleFailure>((date, Decimal { mantissa: candle.open->0.units as i128, scale: 0 })),
{
    let u = candle.open->0.units;
    let price = Decimal { mantissa: u as i128, scale: 0 };
    let fraction = Decimal { mantissa: 0, scale: 9 };
    assert(price.wf() && fraction.wf());
    assert(decimal::sum_facts(price, fraction, rust_decimal_checked_add(price, fraction)));
    assert(quotation_sum(u, 0) == price);
    assert(decimal::pow10(0) == 1);
    lemma_normalized(price, price);
    assert(positive_price(candle.open->0) == Ok::<_, CandleFailure>(price));
    assert(decimal::sum_facts(price, price, rust_decimal_checked_add(price, price)));
    assert(decimal::scaled_to(price, 0) == u);
    let double = Decimal { mantissa: (2 * u) as i128, scale: 0 };
    assert(rust_decimal_checked_add(price, price) == Some(double));
    let two = Decimal { mantissa: 2, scale: 0 };
    assert(double.wf() && two.wf());
    assert(decimal::quotient_facts(double, two, rust_decimal_checked_div(double, two)));
    assert((2 * u) % 2 == 0 && (2 * u) / 2 == u);
    assert(rust_decimal_checked_div(double, two) == Some(price));
}

proof fn lemma_flat_groups(candles: Seq<Candle>, date: Date, i: int)
    requires
        decimal::sums_and_quotients_obey_facts(),
        flat_whole_candles(candles, date),
        1 <= i <= candles.len(),
    ensures
        group_prices(candles, i, seq![date], seq![flat_prices(candles).subrange(0, i)]) == Ok::<_, CandleFailure>((
            seq![date],
            seq![flat_prices(candles)],
        )),
    decreases candles.len() - i,
{
    let prices = flat_prices(candles);
    if i == candles.len() {
        assert(prices.subrange(0, i) =~= prices);
    } else {
        lemma_flat_candle_price(candles[i], date);
        let dates = seq![date];
        assert(dates[0] == date);
        let k = choose|k: int| 0 <= k < dates.len() && dates[k] == date;
        assert(k == 0);
        assert(find_date(dates, date) == Some(0int));
        let groups = seq![prices.subrange(0, i)];
        assert(prices[i] == Decimal { mantissa: candles[i].open->0.units as i128, scale: 0 });
        assert(prices.subrange(0, i).push(prices[i]) =~= prices.subrange(0, i + 1));
        assert(groups[0] == prices.subrange(0, i));
        assert(groups.update(0, groups[0].push(prices[i])) =~= seq![prices.subrange(0, i + 1)]);
        lemma_flat_groups(candles, date, i + 1);
    }
}

/// A day's quote is the mean of all of the day's candle prices: for candles of one day whose
/// open and close prices are the same whole number, and whose prices' sum their count divides,
/// the day's quote is that quotient.
pub proof fn law_daily_quote_is_mean(candles: Seq<Candle>, date: Date)
    requires
        decimal::sums_and_quotients_obey_facts(),
        0 < candles.len() < 0x1_0000_0000,
        flat_whole_candles(candles, date),
        mantissa_sum(flat_prices(candles)) % (candles.len() as int) == 0,
    ensures
        spec_daily_quotes(candles) == Ok::<_, CandleFailure>(seq![(date, Decimal {
            mantissa: (mantissa_sum(flat_prices(candles)) / (candles.len() as int)) as i128,
            scale: 0,
        })]),
{
    let prices = flat_prices(candles);
    lemma_flat_candle_price(candles[0], date);
    assert(find_date(Seq::<Date>::empty(), date) is None);
    assert(seq![prices[0]] =~= prices.subrange(0, 1));
    lemma_flat_groups(candles, date, 1);
    assert(small_whole_prices(prices));
    law_mean_price_is_mean(prices);
    assert(prices.len() == candles.len());
    assert(prices[0] == Decimal { mantissa: candles[0].open->0.units as i128, scale: 0 });
    assert(group_prices(candles, 0, Seq::empty(), Seq::empty()) == group_prices(candles, 1, seq![date], seq![
        seq![prices[0]],
    ]));
    assert(seq![seq![prices[0]]] =~= seq![prices.subrange(0, 1)]);
    let dates = seq![date];
    let groups = seq![prices];
    assert(dates.drop_last() =~= Seq::<Date>::empty());
    assert(groups.drop_last() =~= Seq::<Seq<Decimal>>::empty());
    assert(dates.last() == date && groups.last() == prices);
    let mean = mean_price(prices)->0;
    assert(mean_price(prices) == Some(mean));
    assert(daily_means(Seq::<Date>::empty(), Seq::<Seq<Decimal>>::empty()) == Ok::<_, CandleFailure>(
        Seq::<(Date, Decimal)>::empty(),
    ));
    assert(daily_means(dates, groups) == Ok::<_, CandleFailure>(Seq::<(Date, Decimal)>::empty().push((date, mean))));
    assert(Seq::<(Date, Decimal)>::empty().push((date, mean)) =~= seq![(date, mean)]);
}

} // verus!
