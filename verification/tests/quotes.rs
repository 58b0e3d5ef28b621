use std::time::Duration;

use investments::decimal::{self, Decimal};
use investments::error::Error;
use investments::quotes::cbr::{get_quote, historical_rates, parse_price, try_get_quote, HistoricalRates, LotRate};
use investments::quotes::config::{
    AlphaVantageConfig, ClientInterceptor, FcsApiConfig, FinnhubConfig, TwelveDataConfig,
};
use investments::quotes::deposits::{parse_date, trim_column_title, DepositStatistics};
use investments::quotes::config::TbankExchange;
use investments::quotes::tbank::{
    self, add_instrument, daily_quotes, is_outdated_quote, quotes_from_last_prices, Candle, Currency, Instrument, InvestApi,
    LastPrice, Quotation, RealExchange, Stock, Timestamp,
};
use investments::quotes::moex::{is_outdated, parse_quotes, parse_time, MoexRow, MoexTable};
use investments::time::Date;

fn dec(text: &str) -> Decimal {
    decimal::parse(text).unwrap()
}

fn security(symbol: &str, currency: &str, prev_date: &str, prev_price: &str) -> MoexRow {
    MoexRow {
        symbol: Some(symbol.to_owned()),
        currency: Some(currency.to_owned()),
        prev_date: Some(prev_date.to_owned()),
        prev_price: Some(dec(prev_price)),
        trades: None,
        price: None,
        time: None,
    }
}

fn market_data(symbol: &str, trades: u64, price: Option<&str>, time: &str) -> MoexRow {
    MoexRow {
        symbol: Some(symbol.to_owned()),
        currency: None,
        prev_date: None,
        prev_price: None,
        trades: Some(trades),
        price: price.map(dec),
        time: Some(time.to_owned()),
    }
}

fn tables(securities: Vec<MoexRow>, market: Vec<MoexRow>) -> Vec<MoexTable> {
    vec![
        MoexTable { id: "securities".to_owned(), rows: securities },
        MoexTable { id: "dataversion".to_owned(), rows: vec![] },
        MoexTable { id: "marketdata".to_owned(), rows: market },
    ]
}

fn long_ago() -> Date {
    Date::from_ymd(2000, 1, 1)
}

#[test]
fn moex_quotes_parsing() {
    let response = tables(
        vec![
            security("FXUS", "SUR", "2018-11-09", "3320"),
            security("FXIT", "SUR", "2018-11-09", "4500"),
        ],
        vec![
            market_data("FXUS", 0, None, "2018-11-10 19:33:27"),
            market_data("FXIT", 10, Some("4612"), "2018-11-10 19:33:27"),
        ],
    );
    let quotes = parse_quotes(&response, long_ago()).unwrap();
    assert_eq!(quotes.quotes.len(), 2);
    assert_eq!(quotes.quotes[0].0, "FXUS");
    assert_eq!(quotes.quotes[0].1.currency, "RUB");
    assert!(quotes.quotes[0].1.amount.same_value(&dec("3320")));
    assert_eq!(quotes.quotes[1].0, "FXIT");
    assert!(quotes.quotes[1].1.amount.same_value(&dec("4612")));
    assert!(quotes.outdated.is_empty());
}

#[test]
fn moex_outdated_quotes() {
    let response = tables(
        vec![
            security("FXUS", "SUR", "2018-11-09", "3320"),
            security("FXIT", "SUR", "2018-11-01", "4500"),
        ],
        vec![
            market_data("FXUS", 0, None, "2018-11-01 19:33:27"),
            market_data("FXIT", 0, None, "2018-11-10 19:33:27"),
        ],
    );
    let quotes = parse_quotes(&response, Date::from_ymd(2018, 11, 9)).unwrap();
    assert!(quotes.quotes.is_empty());
    assert_eq!(quotes.outdated, vec!["FXUS".to_owned(), "FXIT".to_owned()]);
    assert!(is_outdated(Date::from_ymd(2018, 11, 8), Date::from_ymd(2018, 11, 9)));
    assert!(!is_outdated(Date::from_ymd(2018, 11, 9), Date::from_ymd(2018, 11, 9)));
}

#[test]
fn moex_response_errors() {
    let ok_security = || security("FXUS", "SUR", "2018-11-09", "3320");

    let missing = vec![MoexTable { id: "securities".to_owned(), rows: vec![] }];
    assert!(matches!(parse_quotes(&missing, long_ago()), Err(Error::MissingSecuritiesInfo)));

    let mut duplicated = tables(vec![], vec![]);
    duplicated.push(MoexTable { id: "securities".to_owned(), rows: vec![] });
    assert!(matches!(parse_quotes(&duplicated, long_ago()), Err(Error::DuplicatedData(id)) if id == "securities"));

    let usd = tables(vec![security("AAPL", "USD", "2018-11-09", "200")], vec![]);
    assert!(matches!(parse_quotes(&usd, long_ago()),
        Err(Error::UnsupportedCurrency(symbol, currency)) if symbol == "AAPL" && currency == "USD"));

    let bad_date = tables(vec![security("FXUS", "SUR", "09.11.2018", "3320")], vec![]);
    assert!(matches!(parse_quotes(&bad_date, long_ago()), Err(Error::InvalidDate(text)) if text == "09.11.2018"));

    let zero_price = tables(vec![security("FXUS", "SUR", "2018-11-09", "0")], vec![]);
    assert!(matches!(parse_quotes(&zero_price, long_ago()), Err(Error::InvalidPrice(_))));

    let twice = tables(vec![ok_security(), ok_security()], vec![]);
    assert!(matches!(parse_quotes(&twice, long_ago()), Err(Error::DuplicatedSymbol(s)) if s == "FXUS"));

    let mut no_currency = ok_security();
    no_currency.currency = None;
    assert!(matches!(parse_quotes(&tables(vec![no_currency], vec![]), long_ago()), Err(Error::UnexpectedResponse)));

    let unknown = tables(vec![ok_security()], vec![market_data("FXIT", 1, Some("1"), "2018-11-10 19:33:27")]);
    assert!(matches!(parse_quotes(&unknown, long_ago()), Err(Error::MissingSecurityInfo(s)) if s == "FXIT"));

    let no_price = tables(vec![ok_security()], vec![market_data("FXUS", 1, None, "2018-11-10 19:33:27")]);
    assert!(matches!(parse_quotes(&no_price, long_ago()), Err(Error::NoLastPrice(s)) if s == "FXUS"));

    let negative = tables(vec![ok_security()], vec![market_data("FXUS", 1, Some("-1"), "2018-11-10 19:33:27")]);
    assert!(matches!(parse_quotes(&negative, long_ago()), Err(Error::InvalidPrice(_))));

    let bad_time = tables(vec![ok_security()], vec![market_data("FXUS", 1, Some("1"), "yesterday")]);
    assert!(matches!(parse_quotes(&bad_time, long_ago()), Err(Error::InvalidTime(t)) if t == "yesterday"));

    let repeated = tables(vec![ok_security()], vec![
        market_data("FXUS", 1, Some("1"), "2018-11-10 19:33:27"),
        market_data("FXUS", 1, Some("2"), "2018-11-10 19:33:27"),
    ]);
    assert!(matches!(parse_quotes(&repeated, long_ago()), Err(Error::DuplicatedSymbol(s)) if s == "FXUS"));
}

#[test]
fn moex_time_parsing() {
    let time = parse_time("2018-11-09 19:33:27").unwrap();
    assert_eq!(time.date(), Date::from_ymd(2018, 11, 9));
    assert_eq!((time.time.hour, time.time.minute, time.time.second), (19, 33, 27));
    assert!(parse_time("2018-11-09").is_err());
}

#[test]
fn deposit_statistics() {
    let mut statistics = DepositStatistics::new("RUB deposit: 1 year", "RUB", 365);
    assert!(matches!(statistics.add(2020, 2, dec("5")), Err(Error::MissingPreviousInterestRates(2020, 2))));
    for month in 1..=12 {
        statistics.add(2020, month, dec("5")).unwrap();
    }
    assert!(matches!(statistics.add(2020, 12, dec("5")), Err(Error::UnexpectedInterestRates(2020, 12, 2020, 12))));
    assert!(matches!(statistics.add(2022, 1, dec("5")), Err(Error::UnexpectedInterestRates(2022, 1, 2020, 12))));
    statistics.add(2021, 1, dec("4.5")).unwrap();
    assert!(matches!(statistics.add(2021, 3, dec("5")), Err(Error::UnexpectedInterestRates(2021, 3, 2021, 1))));
    statistics.add(2021, 2, dec("4.4")).unwrap();
    assert_eq!(statistics.interest_rates.len(), 2);
    assert_eq!(statistics.interest_rates[0].0, 2020);
    assert_eq!(statistics.interest_rates[0].1.len(), 12);
    assert_eq!(statistics.interest_rates[1].0, 2021);
    assert_eq!(statistics.interest_rates[1].1.len(), 2);
    assert!(statistics.interest_rates[1].1[1].same_value(&dec("4.4")));
    // Every year but the last one is full.
    assert!(statistics.interest_rates[..statistics.interest_rates.len() - 1].iter().all(|(_, rates)| rates.len() == 12));
}

#[test]
fn deposit_table_values() {
    assert_eq!(trim_column_title("от 91 до 180 дней**"), "от 91 до 180 дней");
    assert_eq!(trim_column_title("*"), "");
    assert_eq!(trim_column_title("a*b"), "a*b");
    assert_eq!(trim_column_title(&trim_column_title("title**")), trim_column_title("title**"));
    assert_eq!(parse_date("Январь 2020"), Some((2020, 1)));
    assert_eq!(parse_date("Декабрь 2019"), Some((2019, 12)));
    assert_eq!(parse_date("Январь"), None);
    assert_eq!(parse_date("Янв 2020"), None);
    assert_eq!(parse_date("Январь  2020"), None);
    assert_eq!(parse_date("Май -5"), Some((-5, 5)));
}

#[test]
fn provider_configs() {
    assert_eq!(AlphaVantageConfig::default_url(), "https://www.alphavantage.co");
    assert_eq!(FcsApiConfig::default_url(), "https://fcsapi.com");
    assert_eq!(FinnhubConfig::default_url(), "https://finnhub.io");
    assert_eq!(TwelveDataConfig::default_url(), "https://api.twelvedata.com");
    let interceptor = ClientInterceptor::new("token", Duration::from_secs(10));
    assert_eq!(interceptor.token, "token");
    assert_eq!(interceptor.request_timeout, Duration::from_secs(10));
}

fn rates(values: &[(&str, &str)]) -> Vec<(String, Decimal)> {
    values.iter().map(|(currency, rate)| (currency.to_string(), dec(rate))).collect()
}

#[test]
fn cbr_quotes() {
    let rates = rates(&[("USD", "90"), ("VND", "0.0036"), ("USD", "80")]);
    let usd = get_quote("USD", "RUB", &rates).unwrap();
    assert_eq!(usd.currency, "RUB");
    assert!(usd.amount.same_value(&dec("80")));
    let rub = get_quote("RUB", "USD", &rates).unwrap();
    assert!(rub.amount.same_value(&dec("0.0125")));
    let vnd = get_quote("USD", "VND", &rates).unwrap();
    assert_eq!(vnd.currency, "VND");
    assert!(investments::util::round(vnd.amount, 10).same_value(&dec("22222.2222222222")));
    assert!(get_quote("RUB", "RUB", &rates).unwrap().amount.same_value(&dec("1")));
    assert!(get_quote("XXX", "RUB", &rates).is_none());
    assert!(get_quote("RUB", "YYY", &rates).is_none());
    assert!(try_get_quote("USD", "RUB", &rates).unwrap().is_some());
}

#[test]
fn cbr_prices() {
    assert!(parse_price("90,1234").unwrap().same_value(&dec("90.1234")));
    assert!(parse_price("90.5").unwrap().same_value(&dec("90.5")));
    assert_eq!(parse_price("0,0"), None);
    assert_eq!(parse_price("-1,5"), None);
    assert_eq!(parse_price("abc"), None);
}

#[test]
fn cbr_historical_rates() {
    let start = Date::from_ymd(2018, 1, 1);
    let end = Date::from_ymd(2018, 1, 10);
    let response = |lot: i32, price: &str, end_date: Date| HistoricalRates {
        start_date: start,
        end_date,
        rates: vec![
            LotRate { date: Date::from_ymd(2018, 1, 9), lot: 1, price: dec("56.7") },
            LotRate { date: Date::from_ymd(2018, 1, 10), lot, price: dec(price) },
        ],
    };

    let rates = historical_rates(start, end, &response(100, "51.2", end)).unwrap();
    assert_eq!(rates.len(), 2);
    assert_eq!(rates[0].date, Date::from_ymd(2018, 1, 9));
    assert!(rates[0].price.same_value(&dec("56.7")));
    assert!(rates[1].price.same_value(&dec("0.512")));

    assert!(matches!(historical_rates(start, end, &response(0, "51.2", end)), Err(Error::InvalidLot(0))));
    assert!(matches!(historical_rates(start, end, &response(1, "0", end)), Err(Error::InvalidPrice(_))));
    assert!(matches!(historical_rates(start, end, &response(1, "1", start)), Err(Error::InvalidRatesPeriod)));
}

#[test]
fn tbank_prices() {
    let price = tbank::parse_price(10, 500_000_000).unwrap();
    assert!(price.same_value(&dec("10.5")));
    assert_eq!(price.scale(), 1);
    assert!(tbank::parse_price(0, 1).unwrap().same_value(&dec("0.000000001")));
    assert!(tbank::parse_price(7, 0).unwrap().same_value(&dec("7")));
    assert!(matches!(tbank::parse_price(0, 0), Err(Error::InvalidNamedDecimal(name, _)) if name == "price"));
    assert!(matches!(tbank::parse_price(-1, -500_000_000), Err(Error::InvalidNamedDecimal(_, _))));
}

#[test]
fn tbank_stock_matching() {
    assert!(TbankExchange::Moex.match_stock(RealExchange::Moex, "MOEX"));
    assert!(!TbankExchange::Moex.match_stock(RealExchange::Moex, "moex_close"));
    assert!(!TbankExchange::Moex.match_stock(RealExchange::Rts, "SPB"));
    assert!(TbankExchange::Spb.match_stock(RealExchange::Rts, "SPB"));
    assert!(TbankExchange::Spb.match_stock(RealExchange::Unspecified, "SPB_HK"));
    assert!(!TbankExchange::Spb.match_stock(RealExchange::Otc, "OTC"));
    assert!(TbankExchange::Unknown.match_stock(RealExchange::Otc, "OTC"));
    assert!(!TbankExchange::Unknown.match_stock(RealExchange::Moex, "MOEX"));
    assert!(!TbankExchange::Unknown.match_stock(RealExchange::Otc, "Issuance"));
    assert_eq!(RealExchange::Rts.as_str_name(), "REAL_EXCHANGE_RTS");
}

fn stock(uid: &str, symbol: &str) -> Instrument {
    Instrument::Stock(Stock {
        uid: uid.to_owned(),
        isin: format!("US{symbol}"),
        symbol: symbol.to_owned(),
        name: symbol.to_owned(),
        currency: "USD".to_owned(),
    })
}

fn currency_pair(uid: &str, symbol: &str, denomination: i64) -> Instrument {
    Instrument::Currency(Currency {
        uid: uid.to_owned(),
        symbol: symbol.to_owned(),
        pair: "USD/RUB".to_owned(),
        quote: "RUB".to_owned(),
        denomination: Decimal::from_int(denomination),
    })
}

#[test]
fn instruments_by_uid() {
    let mut instruments = Vec::new();
    add_instrument(&mut instruments, "AAPL", stock("u1", "AAPL")).unwrap();
    add_instrument(&mut instruments, "USD/RUB", currency_pair("u2", "USD000UTSTOM", 1)).unwrap();
    add_instrument(&mut instruments, "AAPL", stock("u1", "AAPL")).unwrap();
    add_instrument(&mut instruments, "RUB/USD", currency_pair("u2", "USD000UTSTOM", 1)).unwrap();
    assert_eq!(instruments.len(), 2);

    assert!(matches!(add_instrument(&mut instruments, "MSFT", stock("u1", "MSFT")),
        Err(Error::TwoStocksUid(a, b)) if a == "MSFT" && b == "AAPL"));
    assert!(matches!(add_instrument(&mut instruments, "EUR/RUB", currency_pair("u1", "EUR_RUB", 1)),
        Err(Error::StockAndCurrencyPairUid(a, b)) if a == "AAPL" && b == "EUR/RUB"));
    assert!(matches!(add_instrument(&mut instruments, "TSLA", stock("u2", "TSLA")),
        Err(Error::StockAndCurrencyPairUid(a, b)) if a == "TSLA" && b == "USD000UTSTOM"));
    assert_eq!(instruments.len(), 2);
}

fn last_price(uid: &str, units: i64, nano: i32, seconds: i64) -> LastPrice {
    LastPrice {
        instrument_uid: uid.to_owned(),
        price: Some(Quotation { units, nano }),
        time: Some(Timestamp { seconds, nanos: 0 }),
    }
}

#[test]
fn quotes_of_last_prices() {
    let now = Timestamp { seconds: 1_700_000_000, nanos: 0 };
    assert!(!is_outdated_quote(Timestamp { seconds: 1_700_000_000 - 5 * 86400 + 1, nanos: 0 }, now));
    assert!(is_outdated_quote(Timestamp { seconds: 1_700_000_000 - 5 * 86400, nanos: 0 }, now));

    let instruments = || vec![
        ("u1".to_owned(), stock("u1", "AAPL")),
        ("u2".to_owned(), currency_pair("u2", "USD000UTSTOM", 100)),
        ("u3".to_owned(), stock("u3", "MSFT")),
    ];
    let prices = vec![
        last_price("u1", 150, 250_000_000, now.seconds - 60),
        last_price("u2", 9000, 0, now.seconds - 60),
        last_price("u3", 300, 0, now.seconds - 6 * 86400),
    ];
    let quotes = quotes_from_last_prices(InvestApi::Tbank, instruments(), prices, now).unwrap();
    assert_eq!(quotes.len(), 2);
    assert_eq!(quotes[0].0, "AAPL");
    assert_eq!(quotes[0].1.currency, "USD");
    assert!(quotes[0].1.amount.same_value(&dec("150.25")));
    assert_eq!(quotes[1].0, "USD/RUB");
    assert_eq!(quotes[1].1.currency, "RUB");
    assert!(quotes[1].1.amount.same_value(&dec("90")));

    let missing = vec![LastPrice { instrument_uid: "u1".to_owned(), price: None, time: None }];
    assert!(quotes_from_last_prices(InvestApi::Tbank, instruments(), missing, now).unwrap().is_empty());
    assert!(quotes_from_last_prices(InvestApi::Tbank, Vec::new(), vec![last_price("u9", 1, 0, now.seconds)], now).unwrap().is_empty());

    let unexpected = vec![last_price("u9", 1, 0, now.seconds)];
    assert!(matches!(quotes_from_last_prices(InvestApi::Tbank, instruments(), unexpected, now),
        Err(Error::UnexpectedInstrumentUid(uid)) if uid == "u9"));
    let twice = vec![last_price("u1", 1, 0, now.seconds), last_price("u1", 1, 0, now.seconds)];
    assert!(matches!(quotes_from_last_prices(InvestApi::Tbank, instruments(), twice, now),
        Err(Error::UnexpectedInstrumentUid(uid)) if uid == "u1"));
    let invalid_time = vec![LastPrice {
        instrument_uid: "u1".to_owned(),
        price: Some(Quotation { units: 1, nano: 0 }),
        time: Some(Timestamp { seconds: 0, nanos: -1 }),
    }];
    assert!(matches!(quotes_from_last_prices(InvestApi::Tbank, instruments(), invalid_time, now),
        Err(Error::InvalidQuoteTime(symbol, 0, -1)) if symbol == "AAPL"));
    let zero = vec![last_price("u1", 0, 0, now.seconds)];
    assert!(matches!(quotes_from_last_prices(InvestApi::Tbank, instruments(), zero, now),
        Err(Error::InvalidNamedDecimal(name, _)) if name == "price"));

    // Tinkoff's prices are divided by the denomination before they are checked and normalized.
    let prices = vec![last_price("u2", 9000, 0, now.seconds - 60), last_price("u1", 150, 250_000_000, now.seconds)];
    let quotes = quotes_from_last_prices(InvestApi::Tinkoff, instruments(), prices, now).unwrap();
    assert_eq!(quotes.len(), 2);
    assert_eq!(quotes[0].0, "USD/RUB");
    assert!(quotes[0].1.amount.same_value(&dec("90")));
    assert_eq!(quotes[0].1.amount.scale(), 0);
    assert!(quotes[1].1.amount.same_value(&dec("150.25")));
    assert_eq!(quotes[1].1.amount.scale(), 2);
    let negative = vec![last_price("u1", -1, 0, now.seconds)];
    assert!(matches!(quotes_from_last_prices(InvestApi::Tinkoff, instruments(), negative, now),
        Err(Error::InvalidNamedDecimal(name, value)) if name == "price" && value.same_value(&dec("-1"))));
}

fn candle(date: Option<Date>, open: i64, close: i64) -> Candle {
    Candle { date, open: Some(Quotation { units: open, nano: 0 }), close: Some(Quotation { units: close, nano: 0 }) }
}

#[test]
fn daily_quotes_of_candles() {
    let first = Date::from_ymd(2024, 3, 1);
    let second = Date::from_ymd(2024, 3, 4);
    let candles = vec![
        candle(Some(first), 10, 12),
        candle(Some(first), 12, 13),
        candle(Some(second), 20, 20),
        candle(Some(first), 14, 14),
    ];
    let quotes = daily_quotes(candles, "RUB").unwrap();
    assert_eq!(quotes.len(), 2);
    assert_eq!(quotes[0].0, first);
    assert!(quotes[0].1.amount.same_value(&dec("12.5")));
    assert_eq!(quotes[0].1.currency, "RUB");
    assert_eq!(quotes[1].0, second);
    assert!(quotes[1].1.amount.same_value(&dec("20")));
    assert!(quotes[1].1.amount.scale() == 0);

    assert!(daily_quotes(Vec::new(), "RUB").unwrap().is_empty());
    let invalid = candle(None, 1, 1);
    assert!(matches!(daily_quotes(vec![invalid], "RUB"), Err(Error::InvalidCandle(c)) if c == invalid));
    assert!(matches!(daily_quotes(vec![candle(Some(first), 0, 1)], "RUB"),
        Err(Error::InvalidNamedDecimal(name, _)) if name == "price"));
}
