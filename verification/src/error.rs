use vstd::prelude::*;

use crate::decimal::Decimal;
use crate::time::{Date, Period};
use crate::quotes::tbank::Candle;
use crate::currency::Cash;

verus! {

/// The ways in which the library's operations can fail.
#[derive(Debug)]
pub enum Error {
    /// The text is not a date in the expected format.
    InvalidDate(String),
    /// The text is not a time (or a date and time) in the expected format.
    InvalidTime(String),
    /// The first date of a period follows its last date.
    InvalidPeriod(Date, Date),
    /// Two periods can't be joined: the second one doesn't start right after the first one.
    NonContinuousPeriods(Period, Period),
    /// The text is not a decimal number.
    InvalidDecimal(String),
    /// The value doesn't comply to the restrictions it is subject to.
    RestrictedDecimal(Decimal),
    /// A named value doesn't comply to the restrictions it is subject to.
    InvalidNamedDecimal(String, Decimal),
    /// No price with a reasonable precision gives the volume back.
    UnableToCalculatePrice(Decimal, Decimal),
    /// The statement has no records.
    EmptyStatement,
    /// The statement doesn't start with a header record.
    InvalidHeaderRecord(Vec<String>),
    /// A data record doesn't belong to the section it is in.
    InvalidDataRecord(Vec<String>),
    /// A data record has an unexpected type.
    InvalidDataRecordType(Vec<String>),
    /// A data record can't be parsed.
    InvalidRecord(Vec<String>, Box<Error>),
    /// A record lacks a field (record name, field name).
    MissingField(String, String),
    /// A statement value is given twice.
    DuplicateStatementValue(String),
    /// The statement doesn't say which period it covers.
    MissingStatementPeriod,
    /// A withheld tax is in another currency than the country's one.
    UnexpectedTaxCurrency(String),
    /// A withheld tax isn't rounded as taxes are (the tax and the rounded tax).
    UnexpectedWithheldTax(Decimal, Decimal),
    /// Two tax remapping rules match the same date and description.
    DuplicatedTaxRemapping(Date, String),
    /// A tax remapping rule hasn't been applied to any tax.
    UnmappedTaxRemapping(Date, String),
    /// The data ends before a value that it announces.
    UnexpectedEndOfData,
    /// The bytes are not valid Windows-1251 text.
    InvalidEncoding,
    /// The size of a data value is not a number (the text read).
    InvalidDataSize(String),
    /// A zero byte is followed by other data.
    UnexpectedZeroByte,
    /// A record name doesn't start with `@` (the text read).
    InvalidRecordName(String),
    /// Another record was expected (the name read and the one expected).
    UnexpectedRecordName(String, String),
    /// A value is not a number (the text read).
    InvalidNumber(String),
    /// The tax statement doesn't start with the expected header.
    UnexpectedHeader,
    /// The tax statement has no records.
    NoRecords,
    /// The tax statement's file name doesn't end with `.dc` and a digit.
    InvalidExtension,
    /// A text is too long to be written as one value (the text).
    TooBigData(String),
    /// A text holds characters that Windows-1251 can't represent (the text).
    UnencodableText(String),
    /// A server response holds the same data twice (the data's name).
    DuplicatedData(String),
    /// A server response lacks the securities' info or their market data.
    MissingSecuritiesInfo,
    /// A server response lacks a value.
    UnexpectedResponse,
    /// A security is nominated in a currency that isn't supported (the symbol and the currency).
    UnsupportedCurrency(String, String),
    /// A price is zero or negative.
    InvalidPrice(Decimal),
    /// A symbol is given twice.
    DuplicatedSymbol(String),
    /// There is market data for a symbol but no info of the security.
    MissingSecurityInfo(String),
    /// There is no last price of a symbol that has been traded.
    NoLastPrice(String),
    /// Tax statements don't support incomes in the currency.
    UnsupportedStatementCurrency(String),
    /// A month's interest rates don't follow the last ones (the year and month given, then the
    /// last year and the number of its months).
    UnexpectedInterestRates(i32, u32, i32, u32),
    /// A month's interest rates come without those of the months before (the year and month).
    MissingPreviousInterestRates(i32, u32),
    /// A portfolio claims more than one tax exemption.
    TooManyTaxExemptions,
    /// Tax exemptions are claimed with a broker outside the Russian jurisdiction.
    UnsupportedTaxExemptions,
    /// A row has no cell for a column (the column and the cell).
    MissingColumn(usize, usize),
    /// A row has non-empty cells between two columns' cells (from the first up to the second).
    CellsBetweenColumns(usize, usize),
    /// A row has non-empty cells after the last column's cell (from the first of them).
    CellsAfterColumns(usize),
    /// The text is not a duration (the text).
    InvalidDuration(String),
    /// A rate is given for less than one unit (the number of units).
    InvalidLot(i32),
    /// Rates are given for another period than the one asked.
    InvalidRatesPeriod,
    /// The text is not a tax payment day (the text).
    InvalidTaxPaymentDay(String),
    /// A stock and a currency pair have the same instrument UID (the stock's symbol and the
    /// pair's).
    StockAndCurrencyPairUid(String, String),
    /// Two stocks have the same instrument UID (their symbols).
    TwoStocksUid(String, String),
    /// A price is given for an instrument that wasn't asked for (its UID).
    UnexpectedInstrumentUid(String),
    /// The time of a quote isn't a valid one (the symbol, the seconds and nanoseconds).
    InvalidQuoteTime(String, i64, i32),
    /// A price can't be computed without an overflow (the symbol or the currency).
    PriceOverflow(String),
    /// A candle lacks its time or one of its prices.
    InvalidCandle(Candle),
    /// A price can't be converted to another currency (the quantity, the price, the currency and
    /// why).
    UnableToConvertPrice(Decimal, Cash, String, Box<Error>),
}

} // verus!
