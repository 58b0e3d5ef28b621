use investments::decimal::{self, Decimal};
use investments::quotes::cbr::{self, HistoricalRates, LotRate};
use investments::time::Date;

fn dec(text: &str) -> Decimal {
    decimal::parse(text).unwrap()
}

fn rate(day: u32, lot: i32, value: &str) -> LotRate {
    LotRate { date: Date::from_ymd(2018, 9, day), lot, price: cbr::parse_price(value).unwrap() }
}

#[test]
fn empty_historical_rates() {
    let start = Date::from_ymd(2018, 9, 2);
    let end = Date::from_ymd(2018, 9, 3);
    let response = HistoricalRates { start_date: start, end_date: end, rates: vec![] };
    assert!(cbr::historical_rates(start, end, &response).unwrap().is_empty());
}

#[test]
fn historical_rates() {
    let start = Date::from_ymd(2018, 9, 1);
    let end = Date::from_ymd(2018, 9, 4);

    let usd = HistoricalRates { start_date: start, end_date: end, rates: vec![rate(1, 1, "68,0447"), rate(4, 1, "67,7443")] };
    let rates = cbr::historical_rates(start, end, &usd).unwrap();
    assert_eq!(rates.len(), 2);
    assert_eq!(rates[0].date, Date::from_ymd(2018, 9, 1));
    assert!(rates[0].price.same_value(&dec("68.0447")));
    assert_eq!(rates[1].date, Date::from_ymd(2018, 9, 4));
    assert!(rates[1].price.same_value(&dec("67.7443")));

    let jpy = HistoricalRates {
        start_date: start, end_date: end, rates: vec![rate(1, 100, "61,4704"), rate(4, 100, "61,0172")],
    };
    let rates = cbr::historical_rates(start, end, &jpy).unwrap();
    assert_eq!(rates.len(), 2);
    assert_eq!(rates[0].date, Date::from_ymd(2018, 9, 1));
    assert!(rates[0].price.same_value(&dec("0.614704")));
    assert_eq!(rates[1].date, Date::from_ymd(2018, 9, 4));
    assert!(rates[1].price.same_value(&dec("0.610172")));
}
