use vstd::prelude::*;
use vstd::string::*;

use crate::error::Error;
use crate::text;
use crate::time::date::{MAX_YEAR, MIN_YEAR};
use crate::time::parsing::today;
use super::encoding::{
    decode_windows_1251, optional_text, push_zero_padded, spec_parse_unsigned, parse_unsigned, windows_1251_decoded, zero_padded,
};
use super::{
    extension_year, get_header, is_record_name, spec_extension_year, spec_header, spec_is_record_name,
    spec_statement_year, statement_year, Type,
};

verus! {

/// Why a tax statement can't be read.
pub enum FormatFailure {
    UnexpectedEnd,
    InvalidEncoding,
    InvalidDataSize(Seq<char>),
    UnexpectedZeroByte,
    InvalidRecordName(Seq<char>),
    UnexpectedRecordName(Seq<char>, Seq<char>),
    InvalidNumber(Seq<char>),
    UnexpectedHeader,
    NoRecords,
    InvalidExtension,
}

/// The error that a failure is reported with.
pub open spec fn is_failure(error: Error, failure: FormatFailure) -> bool {
    match failure {
        FormatFailure::UnexpectedEnd => error is UnexpectedEndOfData,
        FormatFailure::InvalidEncoding => error is InvalidEncoding,
        FormatFailure::InvalidDataSize(text) => error matches Error::InvalidDataSize(t) && t@ == text,
        FormatFailure::UnexpectedZeroByte => error is UnexpectedZeroByte,
        FormatFailure::InvalidRecordName(text) => error matches Error::InvalidRecordName(t) && t@ == text,
        FormatFailure::UnexpectedRecordName(got, expected) => error matches Error::UnexpectedRecordName(g, e)
            && g@ == got && e@ == expected,
        FormatFailure::InvalidNumber(text) => error matches Error::InvalidNumber(t) && t@ == text,
        FormatFailure::UnexpectedHeader => error is UnexpectedHeader,
        FormatFailure::NoRecords => error is NoRecords,
        FormatFailure::InvalidExtension => error is InvalidExtension,
    }
}

/// `size` bytes at `pos`, decoded, and the position after them.
pub open spec fn raw_at(data: Seq<u8>, pos: int, size: int) -> Result<(Seq<char>, int), FormatFailure> {
    if pos + size > data.len() {
        Err(FormatFailure::UnexpectedEnd)
    } else {
        match windows_1251_decoded(data.subrange(pos, pos + size)) {
            Some(text) => Ok((text, pos + size)),
            None => Err(FormatFailure::InvalidEncoding),
        }
    }
}

/// The size of the data value at `pos`: four characters that hold a number.
pub open spec fn size_at(data: Seq<u8>, pos: int) -> Result<(int, int), FormatFailure> {
    match raw_at(data, pos, 4) {
        Err(failure) => Err(failure),
        Ok((text, next)) => match spec_parse_unsigned(text) {
            Some(size) => Ok((size, next)),
            None => Err(FormatFailure::InvalidDataSize(text)),
        },
    }
}

/// The data value at `pos`: its size, then as many bytes; and the position after it.
pub open spec fn data_at(data: Seq<u8>, pos: int) -> Result<(Seq<char>, int), FormatFailure> {
    match size_at(data, pos) {
        Err(failure) => Err(failure),
        Ok((size, next)) => raw_at(data, next, size),
    }
}

/// Whether the data ends at `pos`. Zero bytes at the end don't count, but a zero byte that
/// other bytes follow is an error.
pub open spec fn eof_at(data: Seq<u8>, pos: int) -> Result<bool, FormatFailure> {
    if pos >= data.len() {
        Ok(true)
    } else if data[pos] != 0 {
        Ok(false)
    } else if forall|i: int| pos <= i < data.len() ==> data[i] == 0 {
        Ok(true)
    } else {
        Err(FormatFailure::UnexpectedZeroByte)
    }
}

/// The fields of a record of unknown structure from `pos` on: the values up to the next record
/// name, or to the end; that name, if any; the position after it.
pub open spec fn unknown_fields_at(data: Seq<u8>, pos: int, fields: Seq<Seq<char>>) -> Result<
    (Seq<Seq<char>>, Option<Seq<char>>, int),
    FormatFailure,
>
    decreases data.len() - pos,
{
    match eof_at(data, pos) {
        Err(failure) => Err(failure),
        Ok(true) => Ok((fields, None, data.len() as int)),
        Ok(false) => match data_at(data, pos) {
            Err(failure) => Err(failure),
            Ok((value, next)) => if spec_is_record_name(value) {
                Ok((fields, Some(value), next))
            } else if pos < next <= data.len() {
                unknown_fields_at(data, next, fields.push(value))
            } else {
                Err(FormatFailure::UnexpectedEnd)
            },
        },
    }
}

/// `count` data values from `pos` on.
pub open spec fn values_at(data: Seq<u8>, pos: int, count: nat) -> Result<(Seq<Seq<char>>, int), FormatFailure>
    decreases count,
{
    if count == 0 {
        Ok((Seq::empty(), pos))
    } else {
        match values_at(data, pos, (count - 1) as nat) {
            Err(failure) => Err(failure),
            Ok((values, next)) => match data_at(data, next) {
                Err(failure) => Err(failure),
                Ok((value, after)) => Ok((values.push(value), after)),
            },
        }
    }
}

/// The number of fields of a foreign income.
pub const CURRENCY_INCOME_FIELDS: usize = 23;

pub open spec fn currency_income_name(index: nat) -> Seq<char> {
    "@CurrencyIncome"@ + zero_padded(index, 3)
}

/// The foreign incomes from `pos` on, from the one numbered `index` up to `count`.
pub open spec fn incomes_at(data: Seq<u8>, pos: int, index: nat, count: nat, incomes: Seq<Seq<Seq<char>>>) -> Result<
    (Seq<Seq<Seq<char>>>, int),
    FormatFailure,
>
    decreases count - index,
{
    if index >= count {
        Ok((incomes, pos))
    } else {
        match data_at(data, pos) {
            Err(failure) => Err(failure),
            Ok((name, next)) => if name != currency_income_name(index) {
                Err(FormatFailure::UnexpectedRecordName(name, currency_income_name(index)))
            } else {
                match values_at(data, next, CURRENCY_INCOME_FIELDS as nat) {
                    Err(failure) => Err(failure),
                    Ok((fields, after)) => incomes_at(data, after, index + 1, count, incomes.push(fields)),
                }
            },
        }
    }
}

/// The foreign income record from `pos` on: the number of incomes, then the incomes.
pub open spec fn foreign_income_at(data: Seq<u8>, pos: int) -> Result<(Seq<Seq<Seq<char>>>, int), FormatFailure> {
    match data_at(data, pos) {
        Err(failure) => Err(failure),
        Ok((text, next)) => match spec_parse_unsigned(text) {
            None => Err(FormatFailure::InvalidNumber(text)),
            Some(count) => incomes_at(data, next, 0, count as nat, Seq::empty()),
        },
    }
}

/// A record as it is read: foreign incomes, each made of its fields, or a record of unknown
/// structure with its name and fields.
pub enum RecordModel {
    ForeignIncome(Seq<Seq<Seq<char>>>),
    Unknown(Seq<char>, Seq<Seq<char>>),
}

/// The name of the foreign income record.
pub open spec fn foreign_income_name() -> Seq<char> {
    "@DeclForeign"@
}

/// The records from `pos` on, after `records`. `pending` is a record name that the previous
/// record has read already.
pub open spec fn records_at(data: Seq<u8>, pos: int, pending: Option<Seq<char>>, records: Seq<RecordModel>) -> Result<
    Seq<RecordModel>,
    FormatFailure,
>
    decreases data.len() - pos, if pending is Some { 1int } else { 0int },
{
    if pos < 0 || pos > data.len() {
        Err(FormatFailure::UnexpectedEnd)
    } else {
        match pending {
            None => match eof_at(data, pos) {
                Err(failure) => Err(failure),
                Ok(true) => Ok(records),
                Ok(false) => match data_at(data, pos) {
                    Err(failure) => Err(failure),
                    Ok((name, next)) => if !spec_is_record_name(name) {
                        Err(FormatFailure::InvalidRecordName(name))
                    } else if pos < next {
                        records_at(data, next, Some(name), records)
                    } else {
                        Err(FormatFailure::UnexpectedEnd)
                    },
                },
            },
            Some(name) => if name == foreign_income_name() {
                match foreign_income_at(data, pos) {
                    Err(failure) => Err(failure),
                    Ok((incomes, next)) => if pos <= next <= data.len() {
                        records_at(data, next, None, records.push(RecordModel::ForeignIncome(incomes)))
                    } else {
                        Err(FormatFailure::UnexpectedEnd)
                    },
                }
            } else {
                match unknown_fields_at(data, pos, Seq::empty()) {
                    Err(failure) => Err(failure),
                    Ok((fields, next_name, next)) => if next <= data.len() && (pos < next || (pos == next && next_name is None)) {
                        records_at(data, next, next_name, records.push(RecordModel::Unknown(name, fields)))
                    } else {
                        Err(FormatFailure::UnexpectedEnd)
                    },
                }
            },
        }
    }
}

/// A tax statement's year and records, read from a file name, its contents and the current year.
pub open spec fn spec_read_statement(path: Seq<char>, data: Seq<u8>, current_year: int) -> Result<
    (int, Seq<RecordModel>),
    FormatFailure,
> {
    match spec_extension_year(path) {
        None => Err(FormatFailure::InvalidExtension),
        Some(short_year) => {
            let year = spec_statement_year(short_year, current_year);
            let header = spec_header(year);
            match raw_at(data, 0, header.len() as int) {
                Err(failure) => Err(failure),
                Ok((text, next)) => if text != header {
                    Err(FormatFailure::UnexpectedHeader)
                } else {
                    match records_at(data, next, None, Seq::empty()) {
                        Err(failure) => Err(failure),
                        Ok(records) => if records.len() == 0 {
                            Err(FormatFailure::NoRecords)
                        } else {
                            Ok((year, records))
                        },
                    }
                },
            }
        },
    }
}

/// Whether a statement read, or the error it failed with, is the one expected.
pub open spec fn is_read_result(
    result: Result<TaxStatement, Error>, expected: Result<(int, Seq<RecordModel>), FormatFailure>,
) -> bool {
    match expected {
        Ok((year, records)) => result matches Ok(statement) && statement.year == year && records_model(
            statement.records@) == records,
        Err(failure) => result matches Err(e) && is_failure(e, failure),
    }
}

/// A record of a structure that isn't known: its name and its values.
#[derive(Debug)]
pub struct UnknownRecord {
    pub name: String,
    pub fields: Vec<String>,
}

/// The foreign incomes of a tax statement, each made of its fields.
#[derive(Debug)]
pub struct ForeignIncome {
    pub incomes: Vec<Vec<String>>,
}

/// A record of a tax statement.
#[derive(Debug)]
pub enum Record {
    ForeignIncome(ForeignIncome),
    Unknown(UnknownRecord),
}

pub open spec fn incomes_model(incomes: Seq<Vec<String>>) -> Seq<Seq<Seq<char>>> {
    incomes.map_values(|income: Vec<String>| income.deep_view())
}

pub open spec fn record_model(record: Record) -> RecordModel {
    match record {
        Record::ForeignIncome(income) => RecordModel::ForeignIncome(incomes_model(income.incomes@)),
        Record::Unknown(record) => RecordModel::Unknown(record.name@, record.fields.deep_view()),
    }
}

pub open spec fn records_model(records: Seq<Record>) -> Seq<RecordModel> {
    records.map_values(|record: Record| record_model(record))
}

/// A tax statement: its year and records.
#[derive(Debug)]
pub struct TaxStatement {
    pub year: i32,
    pub records: Vec<Record>,
}

/// Reads the values of a tax statement file held in memory.
pub struct TaxStatementReader {
    pub data: Vec<u8>,
    pub pos: usize,
}

impl TaxStatementReader {
    pub open spec fn wf(&self) -> bool {
        self.pos <= self.data@.len() <= usize::MAX / 4
    }

    pub fn new(data: Vec<u8>) -> (result: TaxStatementReader)
        requires
            data@.len() <= usize::MAX / 4,
        ensures
            result.wf(),
            result.data@ == data@,
            result.pos == 0,
    {
        TaxStatementReader { data, pos: 0 }
    }

    /// Reads and decodes `size` bytes.
    fn read_raw(&mut self, size: usize) -> (result: Result<String, Error>)
        requires
            old(self).wf(),
        ensures
            final(self).wf(),
            final(self).data@ == old(self).data@,
            final(self).pos >= old(self).pos,
            match raw_at(old(self).data@, old(self).pos as int, size as int) {
                Ok((text, next)) => result matches Ok(t) && t@ == text && final(self).pos == next,
                Err(failure) => result matches Err(e) && is_failure(e, failure),
            },
    {
        if size > self.data.len() - self.pos {
            return Err(Error::UnexpectedEndOfData);
        }
        let end = self.pos + size;
        let bytes = &self.data.as_slice()[self.pos..end];
        match decode_windows_1251(bytes) {
            Some(text) => {
                self.pos = end;
                Ok(text)
            },
            None => Err(Error::InvalidEncoding),
        }
    }

    fn read_data_size(&mut self) -> (result: Result<usize, Error>)
        requires
            old(self).wf(),
        ensures
            final(self).wf(),
            final(self).data@ == old(self).data@,
            final(self).pos >= old(self).pos,
            match size_at(old(self).data@, old(self).pos as int) {
                Ok((size, next)) => result == Ok::<usize, Error>(size as usize) && final(self).pos == next,
                Err(failure) => result matches Err(e) && is_failure(e, failure),
            },
    {
        let data = self.read_raw(4)?;
        match parse_unsigned(data.as_str()) {
            Some(size) => Ok(size),
            None => Err(Error::InvalidDataSize(data)),
        }
    }

    /// Reads a data value: its size, then its bytes.
    pub fn read_data(&mut self) -> (result: Result<String, Error>)
        requires
            old(self).wf(),
        ensures
            final(self).wf(),
            final(self).data@ == old(self).data@,
            final(self).pos >= old(self).pos,
            result is Ok ==> final(self).pos >= old(self).pos + 4,
            match data_at(old(self).data@, old(self).pos as int) {
                Ok((text, next)) => result matches Ok(t) && t@ == text && final(self).pos == next,
                Err(failure) => result matches Err(e) && is_failure(e, failure),
            },
    {
        let size = self.read_data_size()?;
        self.read_raw(size)
    }

    /// Reads a value of a type.
    pub fn read_value<T: Type>(&mut self) -> (result: Result<T, Error>)
        requires
            old(self).wf(),
        ensures
            final(self).wf(),
            final(self).data@ == old(self).data@,
            match data_at(old(self).data@, old(self).pos as int) {
                Ok((text, next)) => result is Ok && final(self).pos == next,
                Err(failure) => result matches Err(e) && is_failure(e, failure),
            },
    {
        let data = self.read_data()?;
        Ok(T::decode(data.as_str()))
    }

    /// Whether all the data has been read. Zero bytes at the end are skipped.
    pub fn at_eof(&mut self) -> (result: Result<bool, Error>)
        requires
            old(self).wf(),
        ensures
            final(self).wf(),
            final(self).data@ == old(self).data@,
            final(self).pos >= old(self).pos,
            match eof_at(old(self).data@, old(self).pos as int) {
                Ok(at_end) => result == Ok::<bool, Error>(at_end) && final(self).pos == (if at_end {
                    old(self).data@.len() as int
                } else {
                    old(self).pos as int
                }),
                Err(failure) => result matches Err(e) && is_failure(e, failure),
            },
    {
        let len = self.data.len();
        if self.pos >= len {
            return Ok(true);
        }
        if self.data[self.pos] != 0 {
            return Ok(false);
        }
        let mut i: usize = self.pos;
        while i < len
            invariant
                self.wf(),
                self.pos == old(self).pos,
                self.data@ == old(self).data@,
                len == self.data@.len(),
                self.pos < len,
                self.data@[self.pos as int] == 0,
                self.pos <= i <= len,
                forall|k: int| self.pos <= k < i ==> self.data@[k] == 0,
            decreases len - i,
        {
            if self.data[i] != 0 {
                assert(self.data@[i as int] != 0);
                return Err(Error::UnexpectedZeroByte);
            }
            i = i + 1;
        }
        self.pos = len;
        Ok(true)
    }
}

impl UnknownRecord {
    /// Reads the fields of a record named `name`: the values up to the next record name, which
    /// is returned too, or up to the end.
    pub fn read(reader: &mut TaxStatementReader, name: String) -> (result: Result<(UnknownRecord, Option<String>), Error>)
        requires
            old(reader).wf(),
        ensures
            final(reader).wf(),
            final(reader).data@ == old(reader).data@,
            final(reader).pos >= old(reader).pos,
            result matches Ok((_, Some(_))) ==> final(reader).pos > old(reader).pos,
            match unknown_fields_at(old(reader).data@, old(reader).pos as int, Seq::empty()) {
                Ok((fields, next_name, next)) => result matches Ok((record, read_name)) && record.name@ == name@
                    && record.fields.deep_view() == fields && optional_text(read_name) == next_name
                    && final(reader).pos == next,
                Err(failure) => result matches Err(e) && is_failure(e, failure),
            },
    {
        let ghost data = reader.data@;
        let ghost start = reader.pos as int;
        let mut fields: Vec<String> = Vec::new();
        let mut next_record_name: Option<String> = None;
        assert(fields.deep_view() =~= Seq::<Seq<char>>::empty());

        loop
            invariant_except_break
                reader.wf(),
                reader.data@ == data,
                data == old(reader).data@,
                start == old(reader).pos,
                reader.pos >= start,
                next_record_name is None,
                unknown_fields_at(data, start, Seq::empty()) == unknown_fields_at(data, reader.pos as int,
                    fields.deep_view()),
            ensures
                reader.wf(),
                reader.data@ == data,
                data == old(reader).data@,
                reader.pos >= start,
                next_record_name is Some ==> reader.pos > start,
                start == old(reader).pos,
                unknown_fields_at(data, start, Seq::empty()) == Ok::<_, FormatFailure>((
                    fields.deep_view(),
                    optional_text(next_record_name),
                    reader.pos as int,
                )),
            decreases reader.data@.len() - reader.pos,
        {
            let ghost pos = reader.pos as int;
            let at_end = reader.at_eof()?;
            if at_end {
                break;
            }
            let data_value = reader.read_data()?;
            if is_record_name(data_value.as_str()) {
                next_record_name = Some(data_value);
                break;
            }
            let ghost before = fields.deep_view();
            fields.push(data_value);
            proof {
                assert(fields.deep_view() =~= before.push(data_value@));
            }
        }

        let record = UnknownRecord { name, fields };
        Ok((record, next_record_name))
    }
}

/// Once reading values fails, reading more of them fails the same way.
proof fn lemma_values_failure(data: Seq<u8>, pos: int, n: nat, m: nat)
    requires
        n <= m,
        values_at(data, pos, n) is Err,
    ensures
        values_at(data, pos, m) == values_at(data, pos, n),
    decreases m - n,
{
    if n < m {
        lemma_values_failure(data, pos, n, (m - 1) as nat);
    }
}

impl ForeignIncome {
    /// Reads `count` values.
    fn read_values(reader: &mut TaxStatementReader, count: usize) -> (result: Result<Vec<String>, Error>)
        requires
            old(reader).wf(),
        ensures
            final(reader).wf(),
            final(reader).data@ == old(reader).data@,
            final(reader).pos >= old(reader).pos,
            match values_at(old(reader).data@, old(reader).pos as int, count as nat) {
                Ok((values, next)) => result matches Ok(v) && v.deep_view() == values && final(reader).pos == next,
                Err(failure) => result matches Err(e) && is_failure(e, failure),
            },
    {
        let ghost data = reader.data@;
        let ghost start = reader.pos as int;
        let mut values: Vec<String> = Vec::new();
        let mut i: usize = 0;
        assert(values.deep_view() =~= Seq::<Seq<char>>::empty());
        while i < count
            invariant
                reader.wf(),
                reader.data@ == data,
                data == old(reader).data@,
                start == old(reader).pos,
                reader.pos >= start,
                i <= count,
                values_at(data, start, i as nat) == Ok::<_, FormatFailure>((values.deep_view(), reader.pos as int)),
            decreases count - i,
        {
            let value = match reader.read_data() {
                Ok(value) => value,
                Err(e) => {
                    proof {
                        lemma_values_failure(data, start, (i + 1) as nat, count as nat);
                    }
                    return Err(e);
                },
            };
            let ghost before = values.deep_view();
            values.push(value);
            proof {
                assert(values.deep_view() =~= before.push(value@));
            }
            i = i + 1;
        }
        Ok(values)
    }

    /// The name of the record of a foreign income.
    pub fn income_name(index: usize) -> (result: String)
        ensures
            result@ == currency_income_name(index as nat),
    {
        let mut name = String::from_str("@CurrencyIncome");
        push_zero_padded(&mut name, index as u64, 3);
        name
    }

    /// Reads the foreign incomes: their number, then each of them: its record name and its
    /// fields.
    pub fn read(reader: &mut TaxStatementReader) -> (result: Result<ForeignIncome, Error>)
        requires
            old(reader).wf(),
        ensures
            final(reader).wf(),
            final(reader).data@ == old(reader).data@,
            final(reader).pos >= old(reader).pos,
            match foreign_income_at(old(reader).data@, old(reader).pos as int) {
                Ok((incomes, next)) => result matches Ok(income) && incomes_model(income.incomes@) == incomes
                    && final(reader).pos == next,
                Err(failure) => result matches Err(e) && is_failure(e, failure),
            },
    {
        let ghost data = reader.data@;
        let count_text = reader.read_data()?;
        let count = match parse_unsigned(count_text.as_str()) {
            Some(count) => count,
            None => return Err(Error::InvalidNumber(count_text)),
        };
        let ghost start = reader.pos as int;
        let mut incomes: Vec<Vec<String>> = Vec::new();
        let mut index: usize = 0;
        assert(incomes_model(incomes@) =~= Seq::<Seq<Seq<char>>>::empty());
        while index < count
            invariant
                reader.wf(),
                reader.data@ == data,
                data == old(reader).data@,
                reader.pos >= old(reader).pos,
                index <= count,
                foreign_income_at(data, old(reader).pos as int) == incomes_at(data, start, 0, count as nat,
                    Seq::empty()),
                incomes_at(data, start, 0, count as nat, Seq::empty()) == incomes_at(data, reader.pos as int,
                    index as nat, count as nat, incomes_model(incomes@)),
            decreases count - index,
        {
            let name = reader.read_data()?;
            let expected_name = ForeignIncome::income_name(index);
            if !text::str_eq(name.as_str(), expected_name.as_str()) {
                return Err(Error::UnexpectedRecordName(name, expected_name));
            }
            let fields = ForeignIncome::read_values(reader, CURRENCY_INCOME_FIELDS)?;
            let ghost before = incomes_model(incomes@);
            incomes.push(fields);
            proof {
                assert(incomes_model(incomes@) =~= before.push(fields.deep_view()));
            }
            index = index + 1;
        }
        Ok(ForeignIncome { incomes })
    }
}

impl TaxStatementReader {
    /// Reads the records, up to the end of the data.
    fn read_records(&mut self) -> (result: Result<Vec<Record>, Error>)
        requires
            old(self).wf(),
        ensures
            final(self).wf(),
            match records_at(old(self).data@, old(self).pos as int, None, Seq::empty()) {
                Ok(records) => result matches Ok(r) && records_model(r@) == records,
                Err(failure) => result matches Err(e) && is_failure(e, failure),
            },
    {
        let ghost data = self.data@;
        let ghost start = self.pos as int;
        let mut records: Vec<Record> = Vec::new();
        let mut next_record_name: Option<String> = None;
        assert(records_model(records@) =~= Seq::<RecordModel>::empty());

        loop
            invariant_except_break
                self.wf(),
                self.data@ == data,
                data == old(self).data@,
                start == old(self).pos,
                records_at(data, start, None, Seq::empty()) == records_at(data, self.pos as int, optional_text(
                    next_record_name), records_model(records@)),
            ensures
                self.wf(),
                data == old(self).data@,
                start == old(self).pos,
                records_at(data, start, None, Seq::empty()) == Ok::<_, FormatFailure>(records_model(records@)),
            decreases self.data@.len() - self.pos, if next_record_name is Some { 1int } else { 0int },
        {
            let ghost pos = self.pos as int;
            let pending = next_record_name;
            next_record_name = None;
            let record_name = match pending {
                Some(name) => name,
                None => {
                    if self.at_eof()? {
                        break;
                    }
                    let data_value = self.read_data()?;
                    if !is_record_name(data_value.as_str()) {
                        return Err(Error::InvalidRecordName(data_value));
                    }
                    data_value
                },
            };
            let ghost name_pos = self.pos as int;
            proof {
                assert(records_at(data, start, None, Seq::empty()) == records_at(data, name_pos, Some(record_name@),
                    records_model(records@)));
            }

            let ghost before = records_model(records@);
            if text::str_eq(record_name.as_str(), "@DeclForeign") {
                let income = ForeignIncome::read(self)?;
                proof {
                    assert(record_model(Record::ForeignIncome(income)) == RecordModel::ForeignIncome(
                        incomes_model(income.incomes@)));
                }
                records.push(Record::ForeignIncome(income));
                proof {
                    assert(records_model(records@) =~= before.push(RecordModel::ForeignIncome(
                        incomes_model(records@.last()->ForeignIncome_0.incomes@))));
                }
            } else {
                let (record, read_next) = UnknownRecord::read(self, record_name)?;
                next_record_name = read_next;
                records.push(Record::Unknown(record));
                proof {
                    assert(records_model(records@) =~= before.push(RecordModel::Unknown(record_name@,
                        records@.last()->Unknown_0.fields.deep_view())));
                }
            }
        }
        Ok(records)
    }

    /// Reads a tax statement from the name and the contents of its file, in `current_year`.
    pub fn read_in_year(path: &str, data: Vec<u8>, current_year: i32) -> (result: Result<TaxStatement, Error>)
        requires
            data@.len() <= usize::MAX / 4,
            MIN_YEAR <= current_year <= MAX_YEAR,
        ensures
            is_read_result(result, spec_read_statement(path@, data@, current_year as int)),
    {
        let short_year = match extension_year(path) {
            Some(short_year) => short_year,
            None => return Err(Error::InvalidExtension),
        };
        let year = statement_year(short_year, current_year);
        let mut reader = TaxStatementReader::new(data);

        let header = get_header(year);
        let text = reader.read_raw(header.unicode_len())?;
        if !text::str_eq(text.as_str(), header.as_str()) {
            return Err(Error::UnexpectedHeader);
        }

        let records = reader.read_records()?;
        if records.len() == 0 {
            return Err(Error::NoRecords);
        }

        Ok(TaxStatement { year, records })
    }

    /// Reads a tax statement from the name and the contents of its file. The decade of its year
    /// is guessed from today's date.
    pub fn read(path: &str, data: Vec<u8>) -> (result: Result<TaxStatement, Error>)
        requires
            data@.len() <= usize::MAX / 4,
        ensures
            exists|current_year: int| MIN_YEAR <= current_year <= MAX_YEAR && is_read_result(result,
                #[trigger] spec_read_statement(path@, data@, current_year)),
    {
        let current_year = today().year();
        TaxStatementReader::read_in_year(path, data, current_year)
    }
}

} // verus!
