use investments::decimal::{self, Decimal};
use investments::error::Error;
use investments::tax_statement::declaration::{self, enable_foreign_income};
use investments::tax_statement::encoding::parse_unsigned;
use investments::tax_statement::foreign_income::{Currency, IncomeType, PaidTax};
use investments::tax_statement::writer::TaxStatementWriter;
use investments::tax_statement::{
    extension_year, get_extension, get_header, is_record_name, statement_year, ForeignIncome, Record, TaxStatement,
    TaxStatementReader, UnknownRecord,
};

fn dec(text: &str) -> Decimal {
    decimal::parse(text).unwrap()
}

fn strings(values: &[&str]) -> Vec<String> {
    values.iter().map(|value| value.to_string()).collect()
}

fn unknown(name: &str, fields: &[&str]) -> Record {
    Record::Unknown(UnknownRecord { name: name.to_owned(), fields: strings(fields) })
}

fn income(prefix: &str) -> Vec<String> {
    (1..=23).map(|i| format!("{prefix}{i}")).collect()
}

fn statement() -> TaxStatement {
    TaxStatement {
        year: 2017,
        records: vec![
            unknown("@DeclInfo", &["1", "", "Some text"]),
            Record::ForeignIncome(ForeignIncome { incomes: vec![income("a"), income("b")] }),
            unknown("@DeclInquiry", &[]),
            unknown("@Nalog", &["0"]),
        ],
    }
}

fn assert_same_records(actual: &[Record], expected: &[Record]) {
    assert_eq!(actual.len(), expected.len());
    for (actual, expected) in actual.iter().zip(expected) {
        match (actual, expected) {
            (Record::Unknown(a), Record::Unknown(e)) => {
                assert_eq!(a.name, e.name);
                assert_eq!(a.fields, e.fields);
            },
            (Record::ForeignIncome(a), Record::ForeignIncome(e)) => assert_eq!(a.incomes, e.incomes),
            _ => panic!("{:?} != {:?}", actual, expected),
        }
    }
}

#[test]
fn record_names() {
    assert!(is_record_name("@DeclInfo"));
    assert!(!is_record_name("DeclInfo"));
    assert!(!is_record_name(""));
}

#[test]
fn extensions_and_headers() {
    assert_eq!(get_extension(2017), ".dc7");
    assert_eq!(get_extension(2020), ".dc0");
    assert_eq!(get_extension(-3), ".dc-3");
    assert_eq!(get_header(2021), "DLSG            Decl20210103FFFFFFFFFFFFFFFFFFFFFFFFFFFFFFFF");
    assert_eq!(declaration::get_extension(2025), ".de5");
    assert_eq!(extension_year("statement.dc7"), Some(7));
    assert_eq!(extension_year("statement.dc"), None);
    assert_eq!(extension_year("statement.dcx"), None);
    assert_eq!(extension_year("statement.dc7.bak"), None);
    assert_eq!(declaration::extension_year("de5"), Some(5));
    assert_eq!(declaration::extension_year("de+5"), Some(5));
    assert_eq!(declaration::extension_year("de256"), None);
    assert_eq!(declaration::extension_year("dc5"), None);
}

#[test]
fn statement_years() {
    assert_eq!(statement_year(7, 2021), 2017);
    assert_eq!(statement_year(2, 2021), 2022);
    assert_eq!(statement_year(1, 2021), 2021);
    assert_eq!(statement_year(3, 2021), 2013);
    assert_eq!(statement_year(0, 2029), 2020);
    assert_eq!(statement_year(9, -1), -1);
}

#[test]
fn sizes_parsing() {
    assert_eq!(parse_unsigned("0012"), Some(12));
    assert_eq!(parse_unsigned("+012"), Some(12));
    assert_eq!(parse_unsigned("-012"), None);
    assert_eq!(parse_unsigned(" 12"), None);
    assert_eq!(parse_unsigned(""), None);
    assert_eq!(parse_unsigned("+"), None);
    assert_eq!(parse_unsigned("99999999999999999999999"), None);
}

#[test]
fn writing_and_reading() {
    let statement = statement();
    let data = TaxStatementWriter::write(&statement).unwrap();
    assert!(data.starts_with(b"DLSG            Decl20170103FFFF"));

    let read = TaxStatementReader::read_in_year("statement.dc7", data.clone(), 2021).unwrap();
    assert_eq!(read.year, 2017);
    assert_same_records(&read.records, &statement.records);

    let rewritten = TaxStatementWriter::write(&read).unwrap();
    assert_eq!(rewritten, data);

    // Zero bytes at the end are ignored.
    let mut padded = data.clone();
    padded.extend_from_slice(&[0, 0, 0]);
    let read = TaxStatementReader::read_in_year("statement.dc7", padded, 2021).unwrap();
    assert_same_records(&read.records, &statement.records);
}

#[test]
fn value_framing() {
    let mut writer = TaxStatementWriter::new();
    writer.write_data("abc").unwrap();
    writer.write_data("").unwrap();
    writer.write_data("Дивиденд").unwrap();
    let mut expected = b"0003abc0000".to_vec();
    expected.extend_from_slice(b"0008");
    expected.extend_from_slice(&[0xc4, 0xe8, 0xe2, 0xe8, 0xe4, 0xe5, 0xed, 0xe4]);
    assert_eq!(writer.output, expected);

    let mut reader = TaxStatementReader::new(writer.output);
    assert_eq!(reader.read_data().unwrap(), "abc");
    assert_eq!(reader.read_data().unwrap(), "");
    assert_eq!(reader.read_data().unwrap(), "Дивиденд");
    assert_eq!(reader.at_eof().unwrap(), true);

    let too_big = "x".repeat(10000);
    assert!(matches!(TaxStatementWriter::new().write_data(&too_big), Err(Error::TooBigData(_))));
    assert!(matches!(TaxStatementWriter::new().write_data("漢字"), Err(Error::UnencodableText(_))));
}

#[test]
fn reading_errors() {
    let data = TaxStatementWriter::write(&statement()).unwrap();

    assert!(matches!(TaxStatementReader::read_in_year("statement.txt", data.clone(), 2021),
        Err(Error::InvalidExtension)));
    assert!(matches!(TaxStatementReader::read_in_year("statement.dc8", data.clone(), 2021),
        Err(Error::UnexpectedHeader)));

    let header = get_header(2017).into_bytes();
    assert!(matches!(TaxStatementReader::read_in_year("statement.dc7", header.clone(), 2021), Err(Error::NoRecords)));

    let mut no_name = header.clone();
    no_name.extend_from_slice(b"0004Decl");
    assert!(matches!(TaxStatementReader::read_in_year("statement.dc7", no_name, 2021),
        Err(Error::InvalidRecordName(name)) if name == "Decl"));

    let mut bad_size = header.clone();
    bad_size.extend_from_slice(b"00x4@Dec");
    assert!(matches!(TaxStatementReader::read_in_year("statement.dc7", bad_size, 2021),
        Err(Error::InvalidDataSize(size)) if size == "00x4"));

    let mut truncated = header.clone();
    truncated.extend_from_slice(b"0010@Decl");
    assert!(matches!(TaxStatementReader::read_in_year("statement.dc7", truncated, 2021),
        Err(Error::UnexpectedEndOfData)));

    let mut zeros = header.clone();
    zeros.extend_from_slice(b"0005@Decl");
    zeros.extend_from_slice(&[0, 0, b'1']);
    assert!(matches!(TaxStatementReader::read_in_year("statement.dc7", zeros, 2021),
        Err(Error::UnexpectedZeroByte)));

    let mut wrong_income = header.clone();
    wrong_income.extend_from_slice(b"0012@DeclForeign00011");
    wrong_income.extend_from_slice(b"0018@CurrencyIncome001");
    assert!(matches!(TaxStatementReader::read_in_year("statement.dc7", wrong_income, 2021),
        Err(Error::UnexpectedRecordName(got, expected)) if got == "@CurrencyIncome001" && expected == "@CurrencyIncome000"));

    let mut bad_count = header;
    bad_count.extend_from_slice(b"0012@DeclForeign0001x");
    assert!(matches!(TaxStatementReader::read_in_year("statement.dc7", bad_count, 2021),
        Err(Error::InvalidNumber(count)) if count == "x"));
}

#[test]
fn unknown_records() {
    let mut data = Vec::new();
    data.extend_from_slice(b"0001a0001b0002@c0001d");
    let mut reader = TaxStatementReader::new(data);
    let (record, next) = UnknownRecord::read(&mut reader, "@x".to_owned()).unwrap();
    assert_eq!(record.fields, strings(&["a", "b"]));
    assert_eq!(next, Some("@c".to_owned()));
    let (record, next) = UnknownRecord::read(&mut reader, "@c".to_owned()).unwrap();
    assert_eq!(record.fields, strings(&["d"]));
    assert_eq!(next, None);
}

#[test]
fn currencies() {
    let usd = Currency::new("USD", dec("75.12345")).unwrap();
    assert_eq!((usd.code, usd.name, usd.income_date_units), ("840", "Доллар США", 100));
    assert!(usd.income_date_rate.same_value(&dec("7512.35")));
    assert!(usd.tax_payment_date_rate.same_value(&dec("7512.35")));
    assert!(!usd.automatic_currency_rates);

    let rub = Currency::new("RUB", dec("1")).unwrap();
    assert_eq!((rub.code, rub.income_date_units), ("643", 1000));
    assert!(rub.income_date_rate.same_value(&dec("1000")));

    let eur = Currency::new("EUR", dec("90.005")).unwrap();
    assert_eq!(eur.code, "978");
    assert!(eur.income_date_rate.same_value(&dec("9000.5")));

    assert!(matches!(Currency::new("JPY", dec("0.5")), Err(Error::UnsupportedStatementCurrency(c)) if c == "JPY"));
    assert!(Currency::try_new("USD", dec("1")).is_some());
}

#[test]
fn foreign_income_values() {
    assert_eq!(IncomeType::Dividend.code(), "1010");
    assert_eq!(IncomeType::Stock.code(), "1530");
    assert_eq!(IncomeType::Interest.code(), "6013");

    let tax = PaidTax::new(dec("10"), dec("750"));
    assert_eq!(tax.tax_rate, 0);
    assert!(tax.amount.same_value(&dec("10")) && tax.local_amount.same_value(&dec("750")));
}

#[test]
fn foreign_income_section_enabling() {
    assert_eq!(enable_foreign_income(0), Some(10));
    assert_eq!(enable_foreign_income(1), Some(11));
    assert_eq!(enable_foreign_income(101), Some(111));
    assert_eq!(enable_foreign_income(10), Some(10));
    assert_eq!(enable_foreign_income(11111101), Some(11111111));
    assert_eq!(enable_foreign_income(2), None);
    assert_eq!(enable_foreign_income(111111111), None);

    for value in [0, 1, 10, 101, 1000, 11111101] {
        let enabled = enable_foreign_income(value).unwrap();
        assert_eq!(enable_foreign_income(enabled), Some(enabled));
    }
}

#[test]
fn extension_round_trip() {
    for year in [2013, 2017, 2020, 2021, 2022] {
        let name = format!("statement{}", get_extension(year));
        let short_year = extension_year(&name).unwrap();
        assert_eq!(statement_year(short_year, 2021), year);
    }
}

fn framed(value: &[u8]) -> Vec<u8> {
    let mut bytes = format!("{:04}", value.len()).into_bytes();
    bytes.extend_from_slice(value);
    bytes
}

#[test]
fn reading_and_rewriting() {
    let mut data = get_header(2017).into_bytes();
    for value in [&b"@DeclInfo"[..], b"1", &[0xCF, 0xF0, 0xE8], b"@DeclForeign", b"0", b"@Nalog", b""] {
        data.extend(framed(value));
    }
    let written = data.clone();
    data.extend_from_slice(&[0, 0]);

    let read = TaxStatementReader::read_in_year("statement.dc7", data.clone(), 2021).unwrap();
    assert_eq!(read.year, 2017);
    assert_eq!(TaxStatementWriter::write(&read).unwrap(), written);

    // A size written with a sign reads, but is written back with digits only.
    let mut signed = get_header(2017).into_bytes();
    signed.extend_from_slice(b"+009@DeclInfo");
    let read = TaxStatementReader::read_in_year("statement.dc7", signed.clone(), 2021).unwrap();
    let rewritten = TaxStatementWriter::write(&read).unwrap();
    assert_ne!(rewritten, signed);
    assert!(rewritten.ends_with(b"0009@DeclInfo"));
}
