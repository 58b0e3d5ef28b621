use vstd::prelude::*;

use crate::currency::Cash;
use crate::decimal::{self, Decimal};
use crate::error::Error;
use crate::text::{self, split, split_str, starts_with, str_eq};
use crate::time::Date;
use crate::time::parsing::{chrono_date_parse, parse_date};
use crate::util::{self, DecimalRestrictions};
use super::{Statement, StatementBuilder, Transaction};

verus! {

/// A period as the statement writes it: `Month D, YYYY` or `Month D, YYYY - Month D, YYYY`. The
/// result is half-open: it ends the day after the last date. `None` where that day doesn't exist,
/// `Some(None)` where the text is not a period.
pub open spec fn spec_parse_period(period: Seq<char>) -> Option<Option<(Date, Date)>> {
    let dates = split(period, " - "@);
    if dates.len() == 1 {
        match chrono_date_parse(dates[0], "%B %d, %Y"@) {
            None => Some(None),
            Some(date) => match date.spec_succ() {
                None => None,
                Some(next) => Some(Some((date, next))),
            },
        }
    } else if dates.len() == 2 {
        match (chrono_date_parse(dates[0], "%B %d, %Y"@), chrono_date_parse(dates[1], "%B %d, %Y"@)) {
            (Some(first), Some(last)) => match last.spec_succ() {
                None => None,
                Some(next) => Some(Some((first, next))),
            },
            _ => Some(None),
        }
    } else {
        Some(None)
    }
}

/// Parses a statement period; gives `None` where the day after its last date doesn't exist.
pub fn checked_parse_period(period: &str) -> (result: Option<Result<(Date, Date), Error>>)
    ensures
        match spec_parse_period(period@) {
            None => result is None,
            Some(None) => result matches Some(Err(_)),
            Some(Some(parsed)) => result == Some(Ok::<(Date, Date), Error>(parsed)),
        },
        result matches Some(Ok(parsed)) ==> parsed.0.wf() && parsed.1.wf(),
{
    proof {
        reveal_strlit(" - ");
    }
    let dates = split_str(period, " - ");
    let ghost pieces = dates@.map_values(|piece: String| piece@);
    assert(pieces.len() == dates@.len());

    if dates.len() == 1 {
        assert(pieces[0] == dates@[0]@);
        let date = match parse_period_date(dates[0].as_str()) {
            Ok(date) => date,
            Err(e) => return Some(Err(e)),
        };
        match date.succ_opt() {
            Some(next) => Some(Ok((date, next))),
            None => None,
        }
    } else if dates.len() == 2 {
        assert(pieces[0] == dates@[0]@);
        assert(pieces[1] == dates@[1]@);
        let first = parse_period_date(dates[0].as_str());
        let last = parse_period_date(dates[1].as_str());
        match (first, last) {
            (Ok(first), Ok(last)) => match last.succ_opt() {
                Some(next) => Some(Ok((first, next))),
                None => None,
            },
            (Err(e), _) => Some(Err(e)),
            (_, Err(e)) => Some(Err(e)),
        }
    } else {
        Some(Err(Error::InvalidDate(period.to_owned())))
    }
}

/// Parses a statement period: `Month D, YYYY` or `Month D, YYYY - Month D, YYYY`, giving the
/// first date and the day after the last one.
pub fn parse_period(period: &str) -> (result: Result<(Date, Date), Error>)
    requires
        spec_parse_period(period@) is Some,
    ensures
        match spec_parse_period(period@) {
            Some(Some(parsed)) => result == Ok::<(Date, Date), Error>(parsed),
            _ => result is Err,
        },
{
    match checked_parse_period(period) {
        Some(result) => result,
        None => Err(Error::InvalidDate(period.to_owned())),
    }
}

/// Parses a date such as `October 1, 2018`.
pub fn parse_period_date(date: &str) -> (result: Result<Date, Error>)
    ensures
        match chrono_date_parse(date@, "%B %d, %Y"@) {
            Some(parsed) => result == Ok::<Date, Error>(parsed),
            None => result is Err,
        },
        result matches Ok(parsed) ==> parsed.wf(),
{
    parse_date(date, "%B %d, %Y")
}

/// Parses a date such as `2018-06-22`.
pub fn parse_transaction_date(date: &str) -> (result: Result<Date, Error>)
    ensures
        match chrono_date_parse(date@, "%Y-%m-%d"@) {
            Some(parsed) => result == Ok::<Date, Error>(parsed),
            None => result is Err,
        },
        result matches Ok(parsed) ==> parsed.wf(),
{
    parse_date(date, "%Y-%m-%d")
}

/// What `format!("{:?}", value)` gives for a string: the string quoted and escaped.
pub uninterp spec fn debug_quoted(value: Seq<char>) -> Seq<char>;

/// Quotes and escapes a string as `format!("{:?}", value)` does. Claims only that the outcome
/// is a function of the string.
#[verifier::external_body]
fn quote(value: &str) -> (result: String)
    ensures
        result@ == debug_quoted(value@),
{
    format!("{:?}", value)
}

/// The quoted values joined with `", "`.
pub open spec fn formatted_record(values: Seq<Seq<char>>) -> Seq<char>
    decreases values.len(),
{
    if values.len() == 0 {
        Seq::empty()
    } else if values.len() == 1 {
        debug_quoted(values[0])
    } else {
        formatted_record(values.drop_last()) + ", "@ + debug_quoted(values.last())
    }
}

/// Formats a record for messages: its values quoted and separated by commas.
pub fn format_record(values: &Vec<String>) -> (result: String)
    ensures
        result@ == formatted_record(values.deep_view()),
{
    let mut result = String::new();
    let mut i: usize = 0;
    while i < values.len()
        invariant
            i <= values@.len(),
            result@ == formatted_record(values.deep_view().take(i as int)),
        decreases values.len() - i,
    {
        let ghost prefix = values.deep_view().take(i as int);
        assert(values.deep_view().take(i + 1).drop_last() =~= prefix);
        if i != 0 {
            result.append(", ");
        }
        let quoted = quote(values[i].as_str());
        result.append(quoted.as_str());
        i = i + 1;
    }
    assert(values.deep_view().take(values@.len() as int) =~= values.deep_view());
    result
}

/// Whether a record starts a section: its second value is `Header`.
pub open spec fn spec_is_header(record: Seq<Seq<char>>) -> bool {
    record.len() >= 2 && record[1] == "Header"@
}

pub fn is_header(record: &Vec<String>) -> (result: bool)
    ensures
        result == spec_is_header(record.deep_view()),
{
    record.len() >= 2 && str_eq(record[1].as_str(), "Header")
}

/// A section header: its name and the names of its fields.
pub fn parse_header(record: &Vec<String>) -> (result: (String, Vec<String>))
    requires
        record@.len() >= 2,
    ensures
        result.0@ == record.deep_view()[0],
        result.1.deep_view() == record.deep_view().skip(2),
{
    let name = record[0].clone();
    let mut fields: Vec<String> = Vec::new();
    let mut i: usize = 2;
    assert(fields.deep_view() =~= record.deep_view().subrange(2, 2));
    while i < record.len()
        invariant
            2 <= i <= record@.len(),
            fields.deep_view() == record.deep_view().subrange(2, i as int),
        decreases record.len() - i,
    {
        let ghost before = fields.deep_view();
        let value = record[i].clone();
        assert(value@ == record.deep_view()[i as int]);
        fields.push(value);
        assert(fields.deep_view() =~= before.push(value@));
        assert(fields.deep_view() =~= record.deep_view().subrange(2, i + 1));
        i = i + 1;
    }
    assert(record.deep_view().subrange(2, i as int) =~= record.deep_view().skip(2));
    (name, fields)
}

/// The first position of `field` among `fields`.
pub open spec fn field_position(fields: Seq<Seq<char>>, field: Seq<char>) -> Option<int>
    decreases fields.len(),
{
    if fields.len() == 0 {
        None
    } else {
        match field_position(fields.drop_last(), field) {
            Some(i) => Some(i),
            None => if fields.last() == field { Some(fields.len() - 1) } else { None },
        }
    }
}

/// The value of `field` in a data record whose section has `fields`.
pub open spec fn spec_get_value(fields: Seq<Seq<char>>, values: Seq<Seq<char>>, field: Seq<char>) -> Option<Seq<char>> {
    match field_position(fields, field) {
        Some(i) => if i + 2 < values.len() { Some(values[i + 2]) } else { None },
        None => None,
    }
}

/// A data record of a section.
pub struct Record<'a> {
    pub name: &'a str,
    pub fields: &'a Vec<String>,
    pub values: &'a Vec<String>,
}

impl<'a> Record<'a> {
    /// The value of a field of the record.
    pub fn get_value(&self, field: &str) -> (result: Result<String, Error>)
        ensures
            match spec_get_value(self.fields.deep_view(), self.values.deep_view(), field@) {
                Some(value) => result matches Ok(v) && v@ == value,
                None => result matches Err(Error::MissingField(n, f)) && n@ == self.name@ && f@ == field@,
            },
    {
        let mut i: usize = 0;
        while i < self.fields.len()
            invariant
                i <= self.fields@.len(),
                field_position(self.fields.deep_view().take(i as int), field@) is None,
            decreases self.fields.len() - i,
        {
            let ghost prefix = self.fields.deep_view().take(i as int);
            assert(self.fields.deep_view().take(i + 1).drop_last() =~= prefix);
            if str_eq(self.fields[i].as_str(), field) {
                proof {
                    lemma_position_prefix(self.fields.deep_view(), field@, i + 1);
                }
                if i < self.values.len() && self.values.len() - i > 2 {
                    return Ok(self.values[i + 2].clone());
                }
                return Err(Error::MissingField(self.name.to_owned(), field.to_owned()));
            }
            i = i + 1;
        }
        assert(self.fields.deep_view().take(i as int) =~= self.fields.deep_view());
        Err(Error::MissingField(self.name.to_owned(), field.to_owned()))
    }
}

/// A position found in a prefix is the position in the whole sequence.
proof fn lemma_position_prefix(fields: Seq<Seq<char>>, field: Seq<char>, n: int)
    requires
        0 < n <= fields.len(),
        field_position(fields.take(n), field) is Some,
    ensures
        field_position(fields, field) == field_position(fields.take(n), field),
    decreases fields.len() - n,
{
    if n < fields.len() {
        assert(fields.take(n + 1).drop_last() =~= fields.take(n));
        lemma_position_prefix(fields, field, n + 1);
    } else {
        assert(fields.take(n) =~= fields);
    }
}

/// What a section's data records are about.
#[derive(Clone, Copy, Debug, PartialEq, Eq, Structural)]
pub enum RecordKind {
    /// General statement information.
    StatementInfo,
    /// Deposits and withdrawals.
    Deposits,
    /// Sections that are skipped.
    Unknown,
}

pub open spec fn spec_record_kind(name: Seq<char>) -> RecordKind {
    if name == "Statement"@ {
        RecordKind::StatementInfo
    } else if name == "Deposits & Withdrawals"@ {
        RecordKind::Deposits
    } else {
        RecordKind::Unknown
    }
}

pub fn record_kind(name: &str) -> (result: RecordKind)
    ensures
        result == spec_record_kind(name@),
{
    if str_eq(name, "Statement") {
        RecordKind::StatementInfo
    } else if str_eq(name, "Deposits & Withdrawals") {
        RecordKind::Deposits
    } else {
        RecordKind::Unknown
    }
}

/// A deposit as the statement gives it: date, currency and amount.
pub type DepositModel = (Date, Seq<char>, Decimal);

/// What has been read of a statement: its period and the deposits.
pub type StatementModel = (Option<(Date, Date)>, Seq<DepositModel>);

/// The statement after a statement information record; `None` where a date overflows,
/// `Some(None)` where the record is invalid.
pub open spec fn statement_info_step(
    fields: Seq<Seq<char>>, values: Seq<Seq<char>>, state: StatementModel,
) -> Option<Option<StatementModel>> {
    match spec_get_value(fields, values, "Field Name"@) {
        None => Some(None),
        Some(name) => if name != "Period"@ {
            Some(Some(state))
        } else {
            match spec_get_value(fields, values, "Field Value"@) {
                None => Some(None),
                Some(value) => match spec_parse_period(value) {
                    None => None,
                    Some(None) => Some(None),
                    Some(Some(period)) => if state.0 is Some {
                        Some(None)
                    } else {
                        Some(Some((Some(period), state.1)))
                    },
                },
            }
        },
    }
}

/// The deposit that a deposits record gives (`None` for a total); `Err` where the record is
/// invalid.
pub open spec fn deposit_step(fields: Seq<Seq<char>>, values: Seq<Seq<char>>) -> Result<Option<DepositModel>, ()> {
    match spec_get_value(fields, values, "Currency"@) {
        None => Err(()),
        Some(currency) => if currency.len() >= 5 && currency.subrange(0, 5) == "Total"@ {
            Ok(None)
        } else {
            match spec_get_value(fields, values, "Settle Date"@) {
                None => Err(()),
                Some(date) => match chrono_date_parse(date, "%Y-%m-%d"@) {
                    None => Err(()),
                    Some(date) => match spec_get_value(fields, values, "Amount"@) {
                        None => Err(()),
                        Some(amount) => match decimal::rust_decimal_parse(amount) {
                            None => Err(()),
                            Some(amount) => Ok(Some((date, currency, amount))),
                        },
                    },
                },
            }
        },
    }
}

/// The statement after a data record of a section of `kind`.
pub open spec fn record_step(
    kind: RecordKind, fields: Seq<Seq<char>>, values: Seq<Seq<char>>, state: StatementModel,
) -> Option<Option<StatementModel>> {
    match kind {
        RecordKind::StatementInfo => statement_info_step(fields, values, state),
        RecordKind::Deposits => match deposit_step(fields, values) {
            Err(()) => Some(None),
            Ok(None) => Some(Some(state)),
            Ok(Some(deposit)) => Some(Some((state.0, state.1.push(deposit)))),
        },
        RecordKind::Unknown => Some(Some(state)),
    }
}

/// Every deposits and withdrawals record whose currency doesn't start with "Total" adds exactly
/// one transaction to what has been read: its settle date, its currency and its amount as
/// written, whatever the amount's sign; a total adds nothing.
pub proof fn law_every_deposit_record_kept(
    fields: Seq<Seq<char>>,
    values: Seq<Seq<char>>,
    state: StatementModel,
    date: Date,
    amount: Decimal,
)
    ensures
        spec_get_value(fields, values, "Currency"@) matches Some(currency) ==> {
            &&& currency.len() >= 5 && currency.subrange(0, 5) == "Total"@ ==> record_step(
                RecordKind::Deposits,
                fields,
                values,
                state,
            ) == Some(Some(state))
            &&& !(currency.len() >= 5 && currency.subrange(0, 5) == "Total"@) && (spec_get_value(
                fields,
                values,
                "Settle Date"@,
            ) matches Some(date_text) && chrono_date_parse(date_text, "%Y-%m-%d"@) == Some(date)) && (spec_get_value(
                fields,
                values,
                "Amount"@,
            ) matches Some(amount_text) && decimal::rust_decimal_parse(amount_text) == Some(amount)) ==> record_step(
                RecordKind::Deposits,
                fields,
                values,
                state,
            ) == Some(Some((state.0, state.1.push((date, currency, amount)))))
        },
{
}

/// Why reading a statement failed; the numbers are record indices.
pub enum ReadFailure {
    Empty,
    InvalidHeader,
    InvalidDataRecord(int),
    InvalidDataRecordType(int),
    InvalidRecord(int),
}

/// Reads records from `i` on, in the section whose header is record `header`. `None` where a
/// date overflows.
pub open spec fn read_from(
    records: Seq<Seq<Seq<char>>>, i: int, header: int, state: StatementModel,
) -> Option<Result<StatementModel, ReadFailure>>
    decreases records.len() - i,
{
    if i < 0 || i >= records.len() || header < 0 || header >= records.len() || records[header].len() < 2 {
        Some(Ok(state))
    } else if spec_is_header(records[i]) {
        read_from(records, i + 1, i, state)
    } else {
        let name = records[header][0];
        let fields = records[header].skip(2);
        let record = records[i];
        let kind = spec_record_kind(name);
        if record.len() < 2 || record[0] != name {
            Some(Err(ReadFailure::InvalidDataRecord(i)))
        } else if kind != RecordKind::Unknown && record[1] != "Data"@ {
            Some(Err(ReadFailure::InvalidDataRecordType(i)))
        } else {
            match record_step(kind, fields, record, state) {
                None => None,
                Some(None) => Some(Err(ReadFailure::InvalidRecord(i))),
                Some(Some(next)) => read_from(records, i + 1, header, next),
            }
        }
    }
}

/// Reads a statement's records: the first one must be a section header.
pub open spec fn spec_read_records(records: Seq<Seq<Seq<char>>>) -> Option<Result<StatementModel, ReadFailure>> {
    if records.len() == 0 {
        Some(Err(ReadFailure::Empty))
    } else if !spec_is_header(records[0]) {
        Some(Err(ReadFailure::InvalidHeader))
    } else {
        read_from(records, 1, 0, (None, Seq::empty()))
    }
}

pub open spec fn deposit_model(deposit: Transaction) -> DepositModel {
    (deposit.date, deposit.amount.currency@, deposit.amount.amount)
}

pub open spec fn builder_model(builder: StatementBuilder) -> StatementModel {
    (builder.period, builder.deposits@.map_values(|deposit: Transaction| deposit_model(deposit)))
}

/// The error that reading gives for a failure.
pub open spec fn is_read_error(error: Error, failure: ReadFailure, records: Seq<Seq<Seq<char>>>) -> bool {
    match failure {
        ReadFailure::Empty => error is EmptyStatement,
        ReadFailure::InvalidHeader => error matches Error::InvalidHeaderRecord(record) && record.deep_view() == records[0],
        ReadFailure::InvalidDataRecord(i) => error matches Error::InvalidDataRecord(record) && record.deep_view() == records[i],
        ReadFailure::InvalidDataRecordType(i) => error matches Error::InvalidDataRecordType(record)
            && record.deep_view() == records[i],
        ReadFailure::InvalidRecord(i) => error matches Error::InvalidRecord(record, _) && record.deep_view() == records[i],
    }
}

/// Reads an Interactive Brokers statement: CSV records in sections.
pub struct IbStatementParser {
    pub statement: StatementBuilder,
}

impl IbStatementParser {
    pub fn new() -> (result: IbStatementParser)
        ensures
            builder_model(result.statement) == (None::<(Date, Date)>, Seq::<DepositModel>::empty()),
    {
        let result = IbStatementParser { statement: StatementBuilder::new() };
        assert(builder_model(result.statement).1 =~= Seq::<DepositModel>::empty());
        result
    }
}

/// A copy of a record.
fn copy_record(record: &Vec<String>) -> (result: Vec<String>)
    ensures
        result.deep_view() == record.deep_view(),
{
    let mut result: Vec<String> = Vec::new();
    let mut i: usize = 0;
    while i < record.len()
        invariant
            i <= record@.len(),
            result.deep_view() == record.deep_view().take(i as int),
        decreases record.len() - i,
    {
        let ghost before = result.deep_view();
        let value = record[i].clone();
        result.push(value);
        assert(result.deep_view() =~= before.push(value@));
        assert(result.deep_view() =~= record.deep_view().take(i + 1));
        i = i + 1;
    }
    assert(record.deep_view().take(i as int) =~= record.deep_view());
    result
}

impl IbStatementParser {
    /// Applies a statement information record; `None` where a date overflows.
    fn parse_statement_info(&mut self, record: &Record) -> (result: Option<Result<(), Error>>)
        ensures
            match statement_info_step(record.fields.deep_view(), record.values.deep_view(), builder_model(old(self).statement)) {
                None => result is None,
                Some(None) => result matches Some(Err(_)),
                Some(Some(next)) => result matches Some(Ok(())) && builder_model(final(self).statement) == next,
            },
    {
        proof {
            reveal_strlit("Period");
        }
        let name = match record.get_value("Field Name") {
            Ok(name) => name,
            Err(e) => return Some(Err(e)),
        };
        if !str_eq(name.as_str(), "Period") {
            return Some(Ok(()));
        }
        let value = match record.get_value("Field Value") {
            Ok(value) => value,
            Err(e) => return Some(Err(e)),
        };
        let period = match checked_parse_period(value.as_str()) {
            None => return None,
            Some(Err(e)) => return Some(Err(e)),
            Some(Ok(period)) => period,
        };
        match self.statement.set_period(period) {
            Ok(()) => Some(Ok(())),
            Err(e) => Some(Err(e)),
        }
    }

    /// Applies a deposits record.
    fn parse_deposit(&mut self, record: &Record) -> (result: Result<(), Error>)
        ensures
            match deposit_step(record.fields.deep_view(), record.values.deep_view()) {
                Err(()) => result is Err,
                Ok(None) => result is Ok && final(self).statement == old(self).statement,
                Ok(Some(deposit)) => result is Ok && builder_model(final(self).statement) == (
                    builder_model(old(self).statement).0, builder_model(old(self).statement).1.push(deposit)),
            },
    {
        let currency = record.get_value("Currency")?;
        proof {
            reveal_strlit("Total");
        }
        if starts_with(currency.as_str(), "Total") {
            return Ok(());
        }

        let date = parse_transaction_date(record.get_value("Settle Date")?.as_str())?;
        let amount = record.get_value("Amount")?;
        let amount = util::parse_decimal(amount.as_str(), DecimalRestrictions::No)?;
        let ghost before = builder_model(self.statement);
        self.statement.deposits.push(Transaction::new(date, Cash::new(currency.as_str(), amount)));
        assert(builder_model(self.statement).1 =~= before.1.push((date, currency@, amount)));
        Ok(())
    }

    /// Reads a statement from its CSV records; `None` where a date overflows.
    pub fn checked_parse_records(self, records: &Vec<Vec<String>>) -> (result: Option<Result<Statement, Error>>)
        requires
            builder_model(self.statement) == (None::<(Date, Date)>, Seq::<DepositModel>::empty()),
        ensures
            match spec_read_records(records.deep_view()) {
                None => result is None,
                Some(Err(failure)) => result matches Some(Err(e)) && is_read_error(e, failure, records.deep_view()),
                Some(Ok(model)) => match model.0 {
                    None => result matches Some(Err(Error::MissingStatementPeriod)),
                    Some(period) => result matches Some(Ok(statement)) && statement.period == period
                        && statement.deposits@.map_values(|deposit: Transaction| deposit_model(deposit)) == model.1,
                },
            },
    {
        let mut parser = self;
        let ghost rdv = records.deep_view();
        if records.len() == 0 {
            return Some(Err(Error::EmptyStatement));
        }
        if !is_header(&records[0]) {
            return Some(Err(Error::InvalidHeaderRecord(copy_record(&records[0]))));
        }
        let ghost total = spec_read_records(rdv);

        let mut header: usize = 0;
        let (mut name, mut fields) = parse_header(&records[0]);
        let mut i: usize = 1;

        while i < records.len()
            invariant
                rdv == records.deep_view(),
                rdv.len() == records@.len(),
                0 <= header < i <= records@.len(),
                rdv[header as int].len() >= 2,
                name@ == rdv[header as int][0],
                fields.deep_view() == rdv[header as int].skip(2),
                total == spec_read_records(rdv),
                total == read_from(rdv, i as int, header as int, builder_model(parser.statement)),
            decreases records.len() - i,
        {
            let record = &records[i];
            assert(record.deep_view() == rdv[i as int]);
            if is_header(record) {
                header = i;
                let parsed = parse_header(record);
                name = parsed.0;
                fields = parsed.1;
                i = i + 1;
                continue;
            }

            if record.len() < 2 || !str_eq(record[0].as_str(), name.as_str()) {
                return Some(Err(Error::InvalidDataRecord(copy_record(record))));
            }

            let kind = record_kind(name.as_str());
            proof {
                reveal_strlit("Data");
            }
            if kind != RecordKind::Unknown && !str_eq(record[1].as_str(), "Data") {
                return Some(Err(Error::InvalidDataRecordType(copy_record(record))));
            }

            let values = Record { name: name.as_str(), fields: &fields, values: record };
            let outcome = match kind {
                RecordKind::StatementInfo => parser.parse_statement_info(&values),
                RecordKind::Deposits => Some(parser.parse_deposit(&values)),
                RecordKind::Unknown => Some(Ok(())),
            };
            match outcome {
                None => return None,
                Some(Err(e)) => return Some(Err(Error::InvalidRecord(copy_record(record), Box::new(e)))),
                Some(Ok(())) => {},
            }
            i = i + 1;
        }

        Some(parser.statement.get())
    }

    /// Reads a statement from its CSV records.
    pub fn parse_records(self, records: &Vec<Vec<String>>) -> (result: Result<Statement, Error>)
        requires
            builder_model(self.statement) == (None::<(Date, Date)>, Seq::<DepositModel>::empty()),
            spec_read_records(records.deep_view()) is Some,
        ensures
            match spec_read_records(records.deep_view()) {
                None => false,
                Some(Err(failure)) => result matches Err(e) && is_read_error(e, failure, records.deep_view()),
                Some(Ok(model)) => match model.0 {
                    None => result matches Err(Error::MissingStatementPeriod),
                    Some(period) => result matches Ok(statement) && statement.period == period
                        && statement.deposits@.map_values(|deposit: Transaction| deposit_model(deposit)) == model.1,
                },
            },
    {
        match self.checked_parse_records(records) {
            Some(result) => result,
            None => Err(Error::EmptyStatement),
        }
    }
}

} // verus!
