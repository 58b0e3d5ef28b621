use investments::error::Error;
use investments::statement::ib::{
    format_record, is_header, parse_header, parse_period, parse_transaction_date, IbStatementParser,
};
use investments::time::Date;

fn record(values: &[&str]) -> Vec<String> {
    values.iter().map(|value| value.to_string()).collect()
}

#[test]
fn period_parsing() {
    assert_eq!(parse_period("October 1, 2018").unwrap(),
               (Date::from_ymd(2018, 10, 1), Date::from_ymd(2018, 10, 2)));

    assert_eq!(parse_period("September 30, 2018").unwrap(),
               (Date::from_ymd(2018, 9, 30), Date::from_ymd(2018, 10, 1)));

    assert_eq!(parse_period("May 21, 2018 - September 28, 2018").unwrap(),
               (Date::from_ymd(2018, 5, 21), Date::from_ymd(2018, 9, 29)));
}

#[test]
fn transaction_date_parsing() {
    assert_eq!(parse_transaction_date("2018-06-22").unwrap(), Date::from_ymd(2018, 6, 22));
}

#[test]
fn invalid_periods() {
    assert!(parse_period("2018-06-22").is_err());
    assert!(parse_period("May 21, 2018 - September 28, 2018 - October 1, 2018").is_err());
    assert!(parse_period("").is_err());
}

#[test]
fn period_at_year_end() {
    assert_eq!(parse_period("December 31, 2018").unwrap(),
               (Date::from_ymd(2018, 12, 31), Date::from_ymd(2019, 1, 1)));
}

#[test]
fn header_records() {
    assert!(is_header(&record(&["Statement", "Header", "Field Name", "Field Value"])));
    assert!(!is_header(&record(&["Statement", "Data", "Period", "October 1, 2018"])));
    assert!(!is_header(&record(&["Statement"])));

    let (name, fields) = parse_header(&record(&["Statement", "Header", "Field Name", "Field Value"]));
    assert_eq!(name, "Statement");
    assert_eq!(fields, vec!["Field Name".to_string(), "Field Value".to_string()]);
}

#[test]
fn record_formatting() {
    assert_eq!(format_record(&record(&["a", "b\"c"])), r#""a", "b\"c""#);
    assert_eq!(format_record(&record(&[])), "");
}

fn statement_records() -> Vec<Vec<String>> {
    vec![
        record(&["Statement", "Header", "Field Name", "Field Value"]),
        record(&["Statement", "Data", "BrokerName", "Interactive Brokers"]),
        record(&["Statement", "Data", "Period", "May 21, 2018 - September 28, 2018"]),
        record(&["Deposits & Withdrawals", "Header", "Currency", "Settle Date", "Description", "Amount"]),
        record(&["Deposits & Withdrawals", "Data", "USD", "2018-06-22", "Electronic Fund Transfer", "1000.50"]),
        record(&["Deposits & Withdrawals", "Data", "Total", "", "", "1000.50"]),
        record(&["Trades", "Header", "Symbol"]),
        record(&["Trades", "SubTotal", "VTI"]),
    ]
}

#[test]
fn statement_reading() {
    let statement = IbStatementParser::new().parse_records(&statement_records()).unwrap();
    assert_eq!(statement.period, (Date::from_ymd(2018, 5, 21), Date::from_ymd(2018, 9, 29)));
    assert_eq!(statement.deposits.len(), 1);
    assert_eq!(statement.deposits[0].date, Date::from_ymd(2018, 6, 22));
    assert_eq!(statement.deposits[0].amount.currency, "USD");
    assert_eq!(statement.deposits[0].amount.amount.mantissa, 100050);
    assert_eq!(statement.deposits[0].amount.amount.scale, 2);
}

#[test]
fn statement_reading_errors() {
    assert!(matches!(IbStatementParser::new().parse_records(&vec![]), Err(Error::EmptyStatement)));

    let mut records = statement_records();
    records.remove(0);
    assert!(matches!(IbStatementParser::new().parse_records(&records), Err(Error::InvalidHeaderRecord(_))));

    let mut records = statement_records();
    records.push(record(&["Other", "Data", "X"]));
    assert!(matches!(IbStatementParser::new().parse_records(&records), Err(Error::InvalidDataRecord(_))));

    let mut records = statement_records();
    records.insert(2, record(&["Statement", "Total", "X"]));
    assert!(matches!(IbStatementParser::new().parse_records(&records), Err(Error::InvalidDataRecordType(_))));

    let mut records = statement_records();
    records.insert(3, record(&["Statement", "Data", "Period", "October 1, 2018"]));
    assert!(matches!(IbStatementParser::new().parse_records(&records), Err(Error::InvalidRecord(_, _))));

    let mut records = statement_records();
    records.remove(2);
    assert!(matches!(IbStatementParser::new().parse_records(&records), Err(Error::MissingStatementPeriod)));
}
