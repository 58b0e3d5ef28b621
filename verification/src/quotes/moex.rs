use vstd::prelude::*;

use crate::currency::Cash;
use crate::decimal::Decimal;
use crate::error::Error;
use crate::text;
use crate::time::parsing::{chrono_date_parse, chrono_date_time_parse, parse_date, parse_date_time, DateTime};
use crate::time::Date;

verus! {

/// A row of a Moscow Exchange table of securities or of their market data. Security rows hold
/// the currency and the previous trading day's date and close price; market data rows hold the
/// number of trades, the last price and the time the data was fetched.
#[derive(Debug)]
pub struct MoexRow {
    pub symbol: Option<String>,
    pub currency: Option<String>,
    pub prev_date: Option<String>,
    pub prev_price: Option<Decimal>,
    pub trades: Option<u64>,
    pub price: Option<Decimal>,
    pub time: Option<String>,
}

/// A named table of a Moscow Exchange response.
#[derive(Debug)]
pub struct MoexTable {
    pub id: String,
    pub rows: Vec<MoexRow>,
}

/// The quotes that a response gives (in rubles), and the symbols whose quotes are outdated.
#[derive(Debug)]
pub struct MoexQuotes {
    pub quotes: Vec<(String, Cash)>,
    pub outdated: Vec<String>,
}

/// Why a response can't be read.
pub enum QuotesFailure {
    DuplicatedData(Seq<char>),
    MissingSecuritiesInfo,
    UnexpectedResponse,
    UnsupportedCurrency(Seq<char>, Seq<char>),
    InvalidDate(Seq<char>),
    InvalidTime(Seq<char>),
    InvalidPrice(Decimal),
    DuplicatedSymbol(Seq<char>),
    MissingSecurityInfo(Seq<char>),
    NoLastPrice(Seq<char>),
}

pub open spec fn is_quotes_failure(error: Error, failure: QuotesFailure) -> bool {
    match failure {
        QuotesFailure::DuplicatedData(id) => error matches Error::DuplicatedData(t) && t@ == id,
        QuotesFailure::MissingSecuritiesInfo => error is MissingSecuritiesInfo,
        QuotesFailure::UnexpectedResponse => error is UnexpectedResponse,
        QuotesFailure::UnsupportedCurrency(symbol, currency) => error matches Error::UnsupportedCurrency(s, c)
            && s@ == symbol && c@ == currency,
        QuotesFailure::InvalidDate(value) => error matches Error::InvalidDate(t) && t@ == value,
        QuotesFailure::InvalidTime(value) => error matches Error::InvalidTime(t) && t@ == value,
        QuotesFailure::InvalidPrice(price) => error == Error::InvalidPrice(price),
        QuotesFailure::DuplicatedSymbol(symbol) => error matches Error::DuplicatedSymbol(s) && s@ == symbol,
        QuotesFailure::MissingSecurityInfo(symbol) => error matches Error::MissingSecurityInfo(s) && s@ == symbol,
        QuotesFailure::NoLastPrice(symbol) => error matches Error::NoLastPrice(s) && s@ == symbol,
    }
}

pub open spec fn is_valid_price(price: Decimal) -> bool {
    !price.spec_is_zero() && !price.spec_is_negative()
}

/// A security's symbol, the previous trading day and its close price.
pub type SecurityModel = (Seq<char>, Date, Decimal);

/// The last security with a symbol.
pub open spec fn find_security(securities: Seq<SecurityModel>, symbol: Seq<char>) -> Option<SecurityModel>
    decreases securities.len(),
{
    if securities.len() == 0 {
        None
    } else if securities.last().0 == symbol {
        Some(securities.last())
    } else {
        find_security(securities.drop_last(), symbol)
    }
}

/// The last quote of a symbol.
pub open spec fn find_quote(quotes: Seq<(Seq<char>, Decimal)>, symbol: Seq<char>) -> Option<Decimal>
    decreases quotes.len(),
{
    if quotes.len() == 0 {
        None
    } else if quotes.last().0 == symbol {
        Some(quotes.last().1)
    } else {
        find_quote(quotes.drop_last(), symbol)
    }
}

pub open spec fn date_format() -> Seq<char> {
    "%Y-%m-%d"@
}

pub open spec fn time_format() -> Seq<char> {
    "%Y-%m-%d %H:%M:%S"@
}

/// Which tables, from the one numbered `i` on, hold the securities and their market data.
pub open spec fn select_tables(tables: Seq<MoexTable>, i: int, securities: Option<int>, market_data: Option<int>) -> Result<
    (Option<int>, Option<int>),
    QuotesFailure,
>
    decreases tables.len() - i,
{
    if i < 0 || i >= tables.len() {
        Ok((securities, market_data))
    } else {
        let id = tables[i].id@;
        if id == "securities"@ {
            if securities is Some {
                Err(QuotesFailure::DuplicatedData(id))
            } else {
                select_tables(tables, i + 1, Some(i), market_data)
            }
        } else if id == "marketdata"@ {
            if market_data is Some {
                Err(QuotesFailure::DuplicatedData(id))
            } else {
                select_tables(tables, i + 1, securities, Some(i))
            }
        } else {
            select_tables(tables, i + 1, securities, market_data)
        }
    }
}

/// The securities of rows from the one numbered `i` on, after `securities`.
pub open spec fn securities_from(rows: Seq<MoexRow>, i: int, securities: Seq<SecurityModel>) -> Result<
    Seq<SecurityModel>,
    QuotesFailure,
>
    decreases rows.len() - i,
{
    if i < 0 || i >= rows.len() {
        Ok(securities)
    } else {
        let row = rows[i];
        match (row.symbol, row.currency, row.prev_date, row.prev_price) {
            (Some(symbol), Some(currency), Some(prev_date), Some(prev_price)) => if currency@ != "SUR"@ {
                Err(QuotesFailure::UnsupportedCurrency(symbol@, currency@))
            } else {
                match chrono_date_parse(prev_date@, date_format()) {
                    None => Err(QuotesFailure::InvalidDate(prev_date@)),
                    Some(date) => if !is_valid_price(prev_price) {
                        Err(QuotesFailure::InvalidPrice(prev_price))
                    } else if find_security(securities, symbol@) is Some {
                        Err(QuotesFailure::DuplicatedSymbol(symbol@))
                    } else {
                        securities_from(rows, i + 1, securities.push((symbol@, date, prev_price)))
                    },
                }
            },
            _ => Err(QuotesFailure::UnexpectedResponse),
        }
    }
}

/// The quotes and the outdated symbols of market data rows from the one numbered `i` on. Data
/// of a day before `min_date` is outdated.
pub open spec fn quotes_from(
    rows: Seq<MoexRow>,
    i: int,
    securities: Seq<SecurityModel>,
    min_date: Date,
    quotes: Seq<(Seq<char>, Decimal)>,
    outdated: Seq<Seq<char>>,
) -> Result<(Seq<(Seq<char>, Decimal)>, Seq<Seq<char>>), QuotesFailure>
    decreases rows.len() - i,
{
    if i < 0 || i >= rows.len() {
        Ok((quotes, outdated))
    } else {
        let row = rows[i];
        match row.symbol {
            None => Err(QuotesFailure::UnexpectedResponse),
            Some(symbol) => match row.time {
                None => Err(QuotesFailure::UnexpectedResponse),
                Some(time) => match chrono_date_time_parse(time@, time_format()) {
                    None => Err(QuotesFailure::InvalidTime(time@)),
                    Some(fetched) => if fetched.date.spec_before(min_date) {
                        quotes_from(rows, i + 1, securities, min_date, quotes, outdated.push(symbol@))
                    } else {
                        match row.trades {
                            None => Err(QuotesFailure::UnexpectedResponse),
                            Some(trades) => match find_security(securities, symbol@) {
                                None => Err(QuotesFailure::MissingSecurityInfo(symbol@)),
                                Some((_, prev_date, prev_price)) => {
                                    let price = match row.price {
                                        Some(price) => if is_valid_price(price) {
                                            Ok(Some(price))
                                        } else {
                                            Err(QuotesFailure::InvalidPrice(price))
                                        },
                                        None => if trades != 0 {
                                            Err(QuotesFailure::NoLastPrice(symbol@))
                                        } else if prev_date.spec_before(min_date) {
                                            Ok(None)
                                        } else {
                                            Ok(Some(prev_price))
                                        },
                                    };
                                    match price {
                                        Err(failure) => Err(failure),
                                        Ok(None) => quotes_from(rows, i + 1, securities, min_date, quotes,
                                            outdated.push(symbol@)),
                                        Ok(Some(price)) => if find_quote(quotes, symbol@) is Some {
                                            Err(QuotesFailure::DuplicatedSymbol(symbol@))
                                        } else {
                                            quotes_from(rows, i + 1, securities, min_date, quotes.push((symbol@, price)),
                                                outdated)
                                        },
                                    }
                                },
                            },
                        }
                    },
                },
            },
        }
    }
}

/// The quotes and the outdated symbols of a response's tables.
pub open spec fn spec_parse_quotes(tables: Seq<MoexTable>, min_date: Date) -> Result<
    (Seq<(Seq<char>, Decimal)>, Seq<Seq<char>>),
    QuotesFailure,
> {
    match select_tables(tables, 0, None, None) {
        Err(failure) => Err(failure),
        Ok((Some(s), Some(m))) => match securities_from(tables[s].rows@, 0, Seq::empty()) {
            Err(failure) => Err(failure),
            Ok(securities) => quotes_from(tables[m].rows@, 0, securities, min_date, Seq::empty(), Seq::empty()),
        },
        Ok(_) => Err(QuotesFailure::MissingSecuritiesInfo),
    }
}

pub open spec fn security_model(security: (String, Date, Decimal)) -> SecurityModel {
    (security.0@, security.1, security.2)
}

pub open spec fn quote_model(quote: (String, Cash)) -> (Seq<char>, Decimal) {
    (quote.0@, quote.1.amount)
}

/// Whether quotes and outdated symbols are the ones expected, the quotes in rubles.
pub open spec fn is_quotes_result(result: Result<MoexQuotes, Error>, expected: Result<
    (Seq<(Seq<char>, Decimal)>, Seq<Seq<char>>),
    QuotesFailure,
>) -> bool {
    match expected {
        Ok((quotes, outdated)) => result matches Ok(parsed) && parsed.quotes@.map_values(
            |quote: (String, Cash)| quote_model(quote),
        ) == quotes && (forall|i: int| 0 <= i < parsed.quotes@.len() ==> (#[trigger] parsed.quotes@[i]).1.currency@
            == "RUB"@) && parsed.outdated.deep_view() == outdated,
        Err(failure) => result matches Err(e) && is_quotes_failure(e, failure),
    }
}

/// Data of a day before `min_date` (the last working day that quotes may be of) is outdated.
pub fn is_outdated(date: Date, min_date: Date) -> (result: bool)
    ensures
        result == date.spec_before(min_date),
{
    date.before(&min_date)
}

/// Parses the time that market data was fetched at.
pub fn parse_time(value: &str) -> (result: Result<DateTime, Error>)
    ensures
        match chrono_date_time_parse(value@, time_format()) {
            Some(parsed) => result == Ok::<DateTime, Error>(parsed),
            None => result matches Err(Error::InvalidTime(text)) && text@ == value@,
        },
{
    parse_date_time(value, "%Y-%m-%d %H:%M:%S")
}

fn get_value<T>(value: Option<T>) -> (result: Result<T, Error>)
    ensures
        match value {
            Some(v) => result matches Ok(r) && r == v,
            None => result matches Err(e) && e is UnexpectedResponse,
        },
{
    match value {
        Some(value) => Ok(value),
        None => Err(Error::UnexpectedResponse),
    }
}

fn find_security_exec(securities: &Vec<(String, Date, Decimal)>, symbol: &str) -> (result: Option<(Date, Decimal)>)
    ensures
        match find_security(securities@.map_values(|s: (String, Date, Decimal)| security_model(s)), symbol@) {
            Some((_, date, price)) => result == Some((date, price)),
            None => result is None,
        },
{
    let ghost model = securities@.map_values(|s: (String, Date, Decimal)| security_model(s));
    let mut i: usize = securities.len();
    assert(model.subrange(0, i as int) =~= model);
    while i > 0
        invariant
            i <= securities@.len(),
            model == securities@.map_values(|s: (String, Date, Decimal)| security_model(s)),
            find_security(model, symbol@) == find_security(model.subrange(0, i as int), symbol@),
        decreases i,
    {
        let ghost prefix = model.subrange(0, i as int);
        assert(prefix.drop_last() =~= model.subrange(0, i - 1));
        if text::str_eq(securities[i - 1].0.as_str(), symbol) {
            return Some((securities[i - 1].1, securities[i - 1].2));
        }
        i = i - 1;
    }
    None
}

fn has_quote(quotes: &Vec<(String, Cash)>, symbol: &str) -> (result: bool)
    ensures
        result == find_quote(quotes@.map_values(|q: (String, Cash)| quote_model(q)), symbol@) is Some,
{
    let ghost model = quotes@.map_values(|q: (String, Cash)| quote_model(q));
    let mut i: usize = quotes.len();
    assert(model.subrange(0, i as int) =~= model);
    while i > 0
        invariant
            i <= quotes@.len(),
            model == quotes@.map_values(|q: (String, Cash)| quote_model(q)),
            find_quote(model, symbol@) == find_quote(model.subrange(0, i as int), symbol@),
        decreases i,
    {
        let ghost prefix = model.subrange(0, i as int);
        assert(prefix.drop_last() =~= model.subrange(0, i - 1));
        if text::str_eq(quotes[i - 1].0.as_str(), symbol) {
            return true;
        }
        i = i - 1;
    }
    false
}

fn text_value(value: &Option<String>) -> (result: Result<String, Error>)
    ensures
        match value {
            Some(v) => result matches Ok(r) && r@ == v@,
            None => result matches Err(e) && e is UnexpectedResponse,
        },
{
    match value {
        Some(value) => Ok(value.clone()),
        None => Err(Error::UnexpectedResponse),
    }
}

/// Finds the tables of securities and of their market data.
fn select_tables_exec(tables: &Vec<MoexTable>) -> (result: Result<(Option<usize>, Option<usize>), Error>)
    ensures
        match select_tables(tables@, 0, None, None) {
            Ok((securities, market_data)) => result matches Ok((s, m)) && optional_index(s) == securities
                && optional_index(m) == market_data && (s matches Some(s) ==> s < tables@.len()) && (
                m matches Some(m) ==> m < tables@.len()),
            Err(failure) => result matches Err(e) && is_quotes_failure(e, failure),
        },
{
    let mut securities: Option<usize> = None;
    let mut market_data: Option<usize> = None;
    let mut i: usize = 0;
    while i < tables.len()
        invariant
            i <= tables@.len(),
            select_tables(tables@, 0, None, None) == select_tables(tables@, i as int, optional_index(securities),
                optional_index(market_data)),
            securities matches Some(s) ==> s < tables@.len(),
            market_data matches Some(m) ==> m < tables@.len(),
        decreases tables.len() - i,
    {
        let id = tables[i].id.as_str();
        if text::str_eq(id, "securities") {
            if securities.is_some() {
                return Err(Error::DuplicatedData(tables[i].id.clone()));
            }
            securities = Some(i);
        } else if text::str_eq(id, "marketdata") {
            if market_data.is_some() {
                return Err(Error::DuplicatedData(tables[i].id.clone()));
            }
            market_data = Some(i);
        }
        i = i + 1;
    }
    Ok((securities, market_data))
}

pub open spec fn optional_index(index: Option<usize>) -> Option<int> {
    match index {
        Some(i) => Some(i as int),
        None => None,
    }
}

pub open spec fn securities_model(securities: Seq<(String, Date, Decimal)>) -> Seq<SecurityModel> {
    securities.map_values(|s: (String, Date, Decimal)| security_model(s))
}

/// Reads the securities: each one's symbol, previous trading day and close price.
fn read_securities(rows: &Vec<MoexRow>) -> (result: Result<Vec<(String, Date, Decimal)>, Error>)
    ensures
        match securities_from(rows@, 0, Seq::empty()) {
            Ok(securities) => result matches Ok(s) && securities_model(s@) == securities,
            Err(failure) => result matches Err(e) && is_quotes_failure(e, failure),
        },
{
    let mut securities: Vec<(String, Date, Decimal)> = Vec::new();
    let mut i: usize = 0;
    assert(securities_model(securities@) =~= Seq::<SecurityModel>::empty());
    while i < rows.len()
        invariant
            i <= rows@.len(),
            securities_from(rows@, 0, Seq::empty()) == securities_from(rows@, i as int, securities_model(
                securities@)),
        decreases rows.len() - i,
    {
        let row = &rows[i];
        let symbol = text_value(&row.symbol)?;
        let currency = text_value(&row.currency)?;
        let prev_date = text_value(&row.prev_date)?;
        let prev_price = get_value(row.prev_price)?;

        if !text::str_eq(currency.as_str(), "SUR") {
            return Err(Error::UnsupportedCurrency(symbol, currency));
        }

        let prev_date = parse_date(prev_date.as_str(), "%Y-%m-%d")?;
        if prev_price.is_zero() || prev_price.is_sign_negative() {
            return Err(Error::InvalidPrice(prev_price));
        }

        if find_security_exec(&securities, symbol.as_str()).is_some() {
            return Err(Error::DuplicatedSymbol(symbol));
        }
        let ghost before = securities_model(securities@);
        securities.push((symbol, prev_date, prev_price));
        assert(securities_model(securities@) =~= before.push(security_model(securities@.last())));
        i = i + 1;
    }
    Ok(securities)
}

pub open spec fn quotes_model(quotes: Seq<(String, Cash)>) -> Seq<(Seq<char>, Decimal)> {
    quotes.map_values(|quote: (String, Cash)| quote_model(quote))
}

/// Reads the quotes from market data rows.
fn read_quotes(rows: &Vec<MoexRow>, securities: &Vec<(String, Date, Decimal)>, min_date: Date) -> (result: Result<
    MoexQuotes,
    Error,
>)
    ensures
        is_quotes_result(result, quotes_from(rows@, 0, securities_model(securities@), min_date, Seq::empty(),
            Seq::empty())),
{
    let ghost model = securities_model(securities@);
    let mut quotes: Vec<(String, Cash)> = Vec::new();
    let mut outdated: Vec<String> = Vec::new();
    let mut i: usize = 0;
    assert(quotes_model(quotes@) =~= Seq::<(Seq<char>, Decimal)>::empty());
    assert(outdated.deep_view() =~= Seq::<Seq<char>>::empty());
    while i < rows.len()
        invariant
            i <= rows@.len(),
            model == securities_model(securities@),
            quotes_from(rows@, 0, model, min_date, Seq::empty(), Seq::empty()) == quotes_from(rows@, i as int,
                model, min_date, quotes_model(quotes@), outdated.deep_view()),
            forall|k: int| 0 <= k < quotes@.len() ==> (#[trigger] quotes@[k]).1.currency@ == "RUB"@,
        decreases rows.len() - i,
    {
        let row = &rows[i];
        let symbol = text_value(&row.symbol)?;
        let time = text_value(&row.time)?;
        let date = parse_time(time.as_str())?.date();
        if is_outdated(date, min_date) {
            let ghost before = outdated.deep_view();
            outdated.push(symbol);
            assert(outdated.deep_view() =~= before.push(outdated@.last()@));
            i = i + 1;
            continue;
        }

        let trades = get_value(row.trades)?;
        let (prev_date, prev_price) = match find_security_exec(securities, symbol.as_str()) {
            Some(security) => security,
            None => return Err(Error::MissingSecurityInfo(symbol)),
        };

        let price = match row.price {
            Some(price) => {
                if price.is_zero() || price.is_sign_negative() {
                    return Err(Error::InvalidPrice(price));
                }
                price
            },
            None => {
                if trades != 0 {
                    return Err(Error::NoLastPrice(symbol));
                }
                if is_outdated(prev_date, min_date) {
                    let ghost before = outdated.deep_view();
                    outdated.push(symbol);
                    assert(outdated.deep_view() =~= before.push(outdated@.last()@));
                    i = i + 1;
                    continue;
                }
                prev_price
            },
        };

        if has_quote(&quotes, symbol.as_str()) {
            return Err(Error::DuplicatedSymbol(symbol));
        }
        let ghost before = quotes_model(quotes@);
        quotes.push((symbol, Cash::new("RUB", price)));
        assert(quotes_model(quotes@) =~= before.push(quote_model(quotes@.last())));
        i = i + 1;
    }
    Ok(MoexQuotes { quotes, outdated })
}

/// Reads the quotes of a Moscow Exchange response: the table of securities gives their
/// currency (rubles only) and the previous trading day's close price; the table of market data
/// gives the last price, or none if there were no trades, in which case the close price is the
/// quote. Data of a day before `min_date` is outdated: such symbols are listed apart.
pub fn parse_quotes(tables: &Vec<MoexTable>, min_date: Date) -> (result: Result<MoexQuotes, Error>)
    ensures
        is_quotes_result(result, spec_parse_quotes(tables@, min_date)),
{
    let (securities, market_data) = match select_tables_exec(tables)? {
        (Some(securities), Some(market_data)) => (securities, market_data),
        _ => return Err(Error::MissingSecuritiesInfo),
    };
    let securities = read_securities(&tables[securities].rows)?;
    read_quotes(&tables[market_data].rows, &securities, min_date)
}

pub open spec fn valid_unique_quotes(quotes: Seq<(Seq<char>, Decimal)>) -> bool {
    &&& forall|i: int| 0 <= i < quotes.len() ==> is_valid_price(#[trigger] quotes[i].1)
    &&& forall|i: int, j: int| 0 <= i < j < quotes.len() ==> #[trigger] quotes[i].0 != #[trigger] quotes[j].0
}

pub open spec fn valid_securities(securities: Seq<SecurityModel>) -> bool {
    forall|i: int| 0 <= i < securities.len() ==> is_valid_price(#[trigger] securities[i].2)
}

proof fn lemma_find_quote_none(quotes: Seq<(Seq<char>, Decimal)>, symbol: Seq<char>)
    requires
        find_quote(quotes, symbol) is None,
    ensures
        forall|i: int| 0 <= i < quotes.len() ==> #[trigger] quotes[i].0 != symbol,
    decreases quotes.len(),
{
    if quotes.len() > 0 {
        lemma_find_quote_none(quotes.drop_last(), symbol);
        assert forall|i: int| 0 <= i < quotes.len() implies #[trigger] quotes[i].0 != symbol by {
            if i < quotes.len() - 1 {
                assert(quotes.drop_last()[i] == quotes[i]);
            }
        }
    }
}

proof fn lemma_find_security_valid(securities: Seq<SecurityModel>, symbol: Seq<char>)
    requires
        valid_securities(securities),
    ensures
        find_security(securities, symbol) matches Some(security) ==> is_valid_price(security.2),
    decreases securities.len(),
{
    if securities.len() > 0 {
        assert(is_valid_price(securities[securities.len() - 1].2));
        assert forall|i: int| 0 <= i < securities.drop_last().len() implies is_valid_price(
            #[trigger] securities.drop_last()[i].2) by {
            assert(securities.drop_last()[i] == securities[i]);
        }
        lemma_find_security_valid(securities.drop_last(), symbol);
    }
}

proof fn lemma_securities_valid(rows: Seq<MoexRow>, i: int, securities: Seq<SecurityModel>)
    requires
        valid_securities(securities),
    ensures
        securities_from(rows, i, securities) matches Ok(result) ==> valid_securities(result),
    decreases rows.len() - i,
{
    if 0 <= i < rows.len() {
        let row = rows[i];
        if let (Some(symbol), Some(currency), Some(prev_date), Some(prev_price)) = (
            row.symbol,
            row.currency,
            row.prev_date,
            row.prev_price,
        ) {
            if let Some(date) = chrono_date_parse(prev_date@, date_format()) {
                if is_valid_price(prev_price) {
                    let next = securities.push((symbol@, date, prev_price));
                    assert forall|k: int| 0 <= k < next.len() implies is_valid_price(#[trigger] next[k].2) by {
                        if k < securities.len() {
                            assert(next[k] == securities[k]);
                        }
                    }
                    lemma_securities_valid(rows, i + 1, next);
                }
            }
        }
    }
}

proof fn lemma_quotes_valid(
    rows: Seq<MoexRow>,
    i: int,
    securities: Seq<SecurityModel>,
    min_date: Date,
    quotes: Seq<(Seq<char>, Decimal)>,
    outdated: Seq<Seq<char>>,
)
    requires
        valid_securities(securities),
        valid_unique_quotes(quotes),
    ensures
        quotes_from(rows, i, securities, min_date, quotes, outdated) matches Ok((result, _)) ==> valid_unique_quotes(
            result),
    decreases rows.len() - i,
{
    if 0 <= i < rows.len() {
        let row = rows[i];
        if let (Some(symbol), Some(time)) = (row.symbol, row.time) {
            if let Some(fetched) = chrono_date_time_parse(time@, time_format()) {
                if fetched.date.spec_before(min_date) {
                    lemma_quotes_valid(rows, i + 1, securities, min_date, quotes, outdated.push(symbol@));
                } else if let Some(trades) = row.trades {
                    lemma_find_security_valid(securities, symbol@);
                    if let Some((_, prev_date, prev_price)) = find_security(securities, symbol@) {
                        lemma_quotes_valid(rows, i + 1, securities, min_date, quotes, outdated.push(symbol@));
                        let price = match row.price {
                            Some(price) => price,
                            None => prev_price,
                        };
                        if find_quote(quotes, symbol@) is None {
                            lemma_find_quote_none(quotes, symbol@);
                            let next = quotes.push((symbol@, price));
                            if is_valid_price(price) {
                                assert forall|a: int, b: int| 0 <= a < b < next.len() implies #[trigger] next[a].0
                                    != #[trigger] next[b].0 by {
                                    if b == next.len() - 1 {
                                        assert(next[a] == quotes[a]);
                                    } else {
                                        assert(next[a] == quotes[a] && next[b] == quotes[b]);
                                    }
                                }
                                assert forall|k: int| 0 <= k < next.len() implies is_valid_price(#[trigger] next[k].1) by {
                                    if k < quotes.len() {
                                        assert(next[k] == quotes[k]);
                                    }
                                }
                                lemma_quotes_valid(rows, i + 1, securities, min_date, next, outdated);
                            }
                        }
                    }
                }
            }
        }
    }
}

/// The quotes read from a response are all positive, and no symbol has two of them.
pub proof fn law_quotes_positive_and_unique(tables: Seq<MoexTable>, min_date: Date)
    ensures
        spec_parse_quotes(tables, min_date) matches Ok((quotes, _)) ==> valid_unique_quotes(quotes),
{
    if let Ok((Some(s), Some(m))) = select_tables(tables, 0, None, None) {
        lemma_securities_valid(tables[s].rows@, 0, Seq::empty());
        if let Ok(securities) = securities_from(tables[s].rows@, 0, Seq::empty()) {
            lemma_quotes_valid(tables[m].rows@, 0, securities, min_date, Seq::empty(), Seq::empty());
        }
    }
}

} // verus!
