use vstd::prelude::*;
use vstd::string::*;

use crate::error::Error;
use super::encoding::{
    ascii_bytes, decimal, encode_windows_1251, is_ascii_text, lemma_decimal_len, push_decimal, push_zero_padded,
    windows_1251_encoded, zero_padded,
};
use super::reader::{currency_income_name, foreign_income_name, ForeignIncome, Record, RecordModel, TaxStatement,
    UnknownRecord, records_model};
use super::{get_header, spec_header};

verus! {

/// Why a tax statement can't be written: a text is too long for a value, or it can't be encoded.
pub enum WriteFailure {
    TooBig(Seq<char>),
    Unencodable(Seq<char>),
}

pub open spec fn is_write_failure(error: Error, failure: WriteFailure) -> bool {
    match failure {
        WriteFailure::TooBig(text) => error matches Error::TooBigData(t) && t@ == text,
        WriteFailure::Unencodable(text) => error matches Error::UnencodableText(t) && t@ == text,
    }
}

/// The largest size of a value's bytes: the size is written with four digits.
pub const MAX_DATA_SIZE: usize = 9999;

/// A value's bytes after their size, written with four digits.
pub open spec fn frame(bytes: Seq<u8>) -> Seq<u8> {
    ascii_bytes(zero_padded(bytes.len(), 4)) + bytes
}

/// The bytes that a data value is written as.
pub open spec fn spec_write_data(text: Seq<char>) -> Result<Seq<u8>, WriteFailure> {
    match windows_1251_encoded(text) {
        None => Err(WriteFailure::Unencodable(text)),
        Some(bytes) => if bytes.len() > MAX_DATA_SIZE {
            Err(WriteFailure::TooBig(text))
        } else {
            Ok(frame(bytes))
        },
    }
}

/// The bytes that data values are written as, one after another.
pub open spec fn spec_write_values(values: Seq<Seq<char>>) -> Result<Seq<u8>, WriteFailure>
    decreases values.len(),
{
    if values.len() == 0 {
        Ok(Seq::empty())
    } else {
        match spec_write_values(values.drop_last()) {
            Err(failure) => Err(failure),
            Ok(bytes) => match spec_write_data(values.last()) {
                Err(failure) => Err(failure),
                Ok(data) => Ok(bytes + data),
            },
        }
    }
}

/// The values of the foreign incomes from `index` on.
pub open spec fn incomes_values(incomes: Seq<Seq<Seq<char>>>, index: nat) -> Seq<Seq<char>>
    decreases incomes.len() - index,
{
    if index >= incomes.len() {
        Seq::empty()
    } else {
        seq![currency_income_name(index)] + incomes[index as int] + incomes_values(incomes, index + 1)
    }
}

/// The values that a record is written as.
pub open spec fn record_values(record: RecordModel) -> Seq<Seq<char>> {
    match record {
        RecordModel::ForeignIncome(incomes) => seq![foreign_income_name(), decimal(incomes.len())]
            + incomes_values(incomes, 0),
        RecordModel::Unknown(name, fields) => seq![name] + fields,
    }
}

/// The values that records are written as.
pub open spec fn records_values(records: Seq<RecordModel>) -> Seq<Seq<char>>
    decreases records.len(),
{
    if records.len() == 0 {
        Seq::empty()
    } else {
        records_values(records.drop_last()) + record_values(records.last())
    }
}

/// The bytes that a tax statement is written as: the header of its year, then its records.
pub open spec fn spec_write_statement(year: int, records: Seq<RecordModel>) -> Result<Seq<u8>, WriteFailure> {
    match spec_write_values(records_values(records)) {
        Err(failure) => Err(failure),
        Ok(bytes) => Ok(ascii_bytes(spec_header(year)) + bytes),
    }
}

pub proof fn lemma_header_ascii(year: int)
    ensures
        is_ascii_text(spec_header(year)),
{
    reveal_strlit("DLSG            Decl");
    reveal_strlit("0103FFFFFFFFFFFFFFFFFFFFFFFFFFFFFFFF");
    let digits = if year < 0 { decimal((-year) as nat) } else { decimal(year as nat) };
    lemma_decimal_len(if year < 0 { (-year) as nat } else { year as nat });
    assert(is_ascii_text(digits));
    let signed = super::encoding::signed_decimal(year);
    assert(is_ascii_text(signed));
    let header = spec_header(year);
    assert forall|i: int| 0 <= i < header.len() implies (header[i] as u32) < 128 by {
        let first = "DLSG            Decl"@;
        if i < first.len() {
            assert(header[i] == first[i]);
        } else if i < first.len() + signed.len() {
            assert(header[i] == signed[i - first.len()]);
        } else {
            assert(header[i] == "0103FFFFFFFFFFFFFFFFFFFFFFFFFFFFFFFF"@[i - first.len() - signed.len()]);
        }
    }
}

/// Writes the values of a tax statement file to memory.
pub struct TaxStatementWriter {
    pub output: Vec<u8>,
}

impl TaxStatementWriter {
    pub fn new() -> (result: TaxStatementWriter)
        ensures
            result.output@ == Seq::<u8>::empty(),
    {
        TaxStatementWriter { output: Vec::new() }
    }

    fn write_bytes(&mut self, data: &[u8])
        ensures
            final(self).output@ == old(self).output@ + data@,
    {
        let mut i: usize = 0;
        let ghost start = self.output@;
        while i < data.len()
            invariant
                i <= data@.len(),
                self.output@ == start + data@.subrange(0, i as int),
            decreases data.len() - i,
        {
            self.output.push(data[i]);
            i = i + 1;
            assert(self.output@ =~= start + data@.subrange(0, i as int));
        }
        assert(data@.subrange(0, i as int) =~= data@);
    }

    /// Writes a text as it is, encoded.
    pub fn write_raw(&mut self, data: &str) -> (result: Result<(), Error>)
        ensures
            is_ascii_text(data@) ==> windows_1251_encoded(data@) == Some(ascii_bytes(data@)),
            match windows_1251_encoded(data@) {
                Some(bytes) => result is Ok && final(self).output@ == old(self).output@ + bytes,
                None => result matches Err(e) && is_write_failure(e, WriteFailure::Unencodable(data@)),
            },
    {
        match encode_windows_1251(data) {
            Some(bytes) => {
                self.write_bytes(bytes.as_slice());
                Ok(())
            },
            None => Err(Error::UnencodableText(data.to_owned())),
        }
    }

    /// Writes a data value: the size of its encoded bytes, with four digits, then the bytes.
    pub fn write_data(&mut self, data: &str) -> (result: Result<(), Error>)
        ensures
            match spec_write_data(data@) {
                Ok(bytes) => result is Ok && final(self).output@ == old(self).output@ + bytes,
                Err(failure) => result matches Err(e) && is_write_failure(e, failure),
            },
    {
        let encoded_data = match encode_windows_1251(data) {
            Some(bytes) => bytes,
            None => return Err(Error::UnencodableText(data.to_owned())),
        };
        if encoded_data.len() > MAX_DATA_SIZE {
            return Err(Error::TooBigData(data.to_owned()));
        }

        let mut size = String::new();
        push_zero_padded(&mut size, encoded_data.len() as u64, 4);
        proof {
            lemma_zero_padded_ascii(encoded_data@.len(), 4);
        }
        let size_bytes = match encode_windows_1251(size.as_str()) {
            Some(bytes) => bytes,
            None => return Err(Error::UnencodableText(size)),
        };
        let ghost start = self.output@;
        self.write_bytes(size_bytes.as_slice());
        self.write_bytes(encoded_data.as_slice());
        assert(self.output@ =~= start + frame(encoded_data@));
        Ok(())
    }
}

pub proof fn lemma_zero_padded_ascii(n: nat, width: nat)
    ensures
        is_ascii_text(zero_padded(n, width)),
        n < 10000 && width == 4 ==> zero_padded(n, width).len() == 4,
{
    lemma_decimal_len(n);
    let digits = decimal(n);
    let padded = zero_padded(n, width);
    if digits.len() < width {
        let zeros = Seq::new((width - digits.len()) as nat, |i: int| '0');
        assert forall|i: int| 0 <= i < padded.len() implies (padded[i] as u32) < 128 by {
            if i < zeros.len() {
                assert(padded[i] == '0');
            } else {
                assert(padded[i] == digits[i - zeros.len()]);
            }
        }
    }
}

/// Writing values one after another gives the bytes of the first ones, then those of the others;
/// or the first failure.
pub proof fn lemma_write_values_append(a: Seq<Seq<char>>, b: Seq<Seq<char>>)
    ensures
        spec_write_values(a + b) == (match spec_write_values(a) {
            Err(failure) => Err(failure),
            Ok(x) => match spec_write_values(b) {
                Err(failure) => Err(failure),
                Ok(y) => Ok(x + y),
            },
        }),
    decreases b.len(),
{
    if b.len() == 0 {
        assert(a + b =~= a);
        if let Ok(x) = spec_write_values(a) {
            assert(x + Seq::<u8>::empty() =~= x);
        }
    } else {
        lemma_write_values_append(a, b.drop_last());
        assert((a + b).drop_last() =~= a + b.drop_last());
        assert((a + b).last() == b.last());
        if let Ok(x) = spec_write_values(a) {
            if let Ok(y) = spec_write_values(b.drop_last()) {
                if let Ok(z) = spec_write_data(b.last()) {
                    assert(x + y + z =~= x + (y + z));
                }
            }
        }
    }
}

impl TaxStatementWriter {
    /// Writes data values one after another.
    pub fn write_values(&mut self, values: &Vec<String>) -> (result: Result<(), Error>)
        ensures
            match spec_write_values(values.deep_view()) {
                Ok(bytes) => result is Ok && final(self).output@ == old(self).output@ + bytes,
                Err(failure) => result matches Err(e) && is_write_failure(e, failure),
            },
    {
        let ghost start = self.output@;
        let mut i: usize = 0;
        assert(values.deep_view().subrange(0, 0) =~= Seq::<Seq<char>>::empty());
        while i < values.len()
            invariant
                i <= values@.len(),
                start == old(self).output@,
                spec_write_values(values.deep_view().subrange(0, i as int)) matches Ok(bytes) && self.output@ == start
                    + bytes,
            decreases values.len() - i,
        {
            let ghost done = values.deep_view().subrange(0, i as int);
            let ghost next = values.deep_view().subrange(0, i + 1);
            assert(next.drop_last() =~= done);
            assert(next.last() == values@[i as int]@);
            let ghost before = self.output@;
            match self.write_data(values[i].as_str()) {
                Ok(()) => {
                    assert(self.output@ =~= start + spec_write_values(next)->Ok_0);
                },
                Err(e) => {
                    proof {
                        lemma_write_values_append(next, values.deep_view().subrange(i + 1, values@.len() as int));
                        assert(next + values.deep_view().subrange(i + 1, values@.len() as int) =~= values.deep_view());
                    }
                    return Err(e);
                },
            }
            i = i + 1;
        }
        assert(values.deep_view().subrange(0, i as int) =~= values.deep_view());
        Ok(())
    }
}

/// Appends clones of texts.
fn push_all(values: &mut Vec<String>, texts: &Vec<String>)
    ensures
        final(values).deep_view() == old(values).deep_view() + texts.deep_view(),
{
    let ghost start = values.deep_view();
    let mut i: usize = 0;
    while i < texts.len()
        invariant
            i <= texts@.len(),
            start == old(values).deep_view(),
            values.deep_view() == start + texts.deep_view().subrange(0, i as int),
        decreases texts.len() - i,
    {
        let ghost before = values.deep_view();
        values.push(texts[i].clone());
        assert(values.deep_view() =~= before.push(texts@[i as int]@));
        i = i + 1;
        assert(values.deep_view() =~= start + texts.deep_view().subrange(0, i as int));
    }
    assert(texts.deep_view().subrange(0, i as int) =~= texts.deep_view());
}

impl UnknownRecord {
    /// The values that the record is written as: its name, then its fields.
    pub fn values(&self) -> (result: Vec<String>)
        ensures
            result.deep_view() == record_values(RecordModel::Unknown(self.name@, self.fields.deep_view())),
    {
        let mut values: Vec<String> = Vec::new();
        values.push(self.name.clone());
        assert(values.deep_view() =~= seq![self.name@]);
        push_all(&mut values, &self.fields);
        values
    }

    pub fn write(&self, writer: &mut TaxStatementWriter) -> (result: Result<(), Error>)
        ensures
            match spec_write_values(record_values(RecordModel::Unknown(self.name@, self.fields.deep_view()))) {
                Ok(bytes) => result is Ok && final(writer).output@ == old(writer).output@ + bytes,
                Err(failure) => result matches Err(e) && is_write_failure(e, failure),
            },
    {
        writer.write_values(&self.values())
    }
}

proof fn lemma_incomes_values_step(incomes: Seq<Seq<Seq<char>>>, index: nat)
    requires
        index < incomes.len(),
    ensures
        incomes_values(incomes, index) == seq![currency_income_name(index)] + incomes[index as int]
            + incomes_values(incomes, index + 1),
{
}

impl ForeignIncome {
    /// The values that the record is written as: its name, the number of incomes, then each
    /// income's record name and fields.
    pub fn values(&self) -> (result: Vec<String>)
        ensures
            result.deep_view() == record_values(RecordModel::ForeignIncome(
                super::reader::incomes_model(self.incomes@))),
    {
        let ghost model = super::reader::incomes_model(self.incomes@);
        let mut values: Vec<String> = Vec::new();
        values.push(String::from_str("@DeclForeign"));
        let mut count = String::new();
        push_decimal(&mut count, self.incomes.len() as u64);
        values.push(count);
        assert(values.deep_view() =~= seq![foreign_income_name(), decimal(model.len())]);
        let mut i: usize = 0;
        while i < self.incomes.len()
            invariant
                i <= self.incomes@.len(),
                model == super::reader::incomes_model(self.incomes@),
                values.deep_view() + incomes_values(model, i as nat) == record_values(RecordModel::ForeignIncome(model)),
            decreases self.incomes.len() - i,
        {
            proof {
                lemma_incomes_values_step(model, i as nat);
            }
            let ghost before = values.deep_view();
            values.push(ForeignIncome::income_name(i));
            push_all(&mut values, &self.incomes[i]);
            assert(values.deep_view() =~= before + seq![currency_income_name(i as nat)] + model[i as int]);
            assert(before + incomes_values(model, i as nat) =~= values.deep_view() + incomes_values(model, (i + 1)
                as nat));
            i = i + 1;
        }
        assert(values.deep_view() + incomes_values(model, i as nat) =~= values.deep_view());
        values
    }

    pub fn write(&self, writer: &mut TaxStatementWriter) -> (result: Result<(), Error>)
        ensures
            match spec_write_values(record_values(RecordModel::ForeignIncome(
                super::reader::incomes_model(self.incomes@)))) {
                Ok(bytes) => result is Ok && final(writer).output@ == old(writer).output@ + bytes,
                Err(failure) => result matches Err(e) && is_write_failure(e, failure),
            },
    {
        writer.write_values(&self.values())
    }
}

impl Record {
    /// The values that the record is written as.
    pub fn values(&self) -> (result: Vec<String>)
        ensures
            result.deep_view() == record_values(super::reader::record_model(*self)),
    {
        match self {
            Record::ForeignIncome(income) => income.values(),
            Record::Unknown(record) => record.values(),
        }
    }
}

impl TaxStatementWriter {
    /// Writes a tax statement: the header of its year, then its records.
    pub fn write(statement: &TaxStatement) -> (result: Result<Vec<u8>, Error>)
        ensures
            match spec_write_statement(statement.year as int, records_model(statement.records@)) {
                Ok(bytes) => result matches Ok(output) && output@ == bytes,
                Err(failure) => result matches Err(e) && is_write_failure(e, failure),
            },
    {
        let mut writer = TaxStatementWriter::new();
        let header = get_header(statement.year);
        proof {
            lemma_header_ascii(statement.year as int);
        }
        writer.write_raw(header.as_str())?;

        let ghost records = records_model(statement.records@);
        let mut values: Vec<String> = Vec::new();
        let mut i: usize = 0;
        assert(values.deep_view() =~= records_values(records.subrange(0, 0)));
        while i < statement.records.len()
            invariant
                i <= statement.records@.len(),
                records == records_model(statement.records@),
                values.deep_view() == records_values(records.subrange(0, i as int)),
            decreases statement.records.len() - i,
        {
            let record_values = statement.records[i].values();
            let ghost before = values.deep_view();
            let mut k: usize = 0;
            while k < record_values.len()
                invariant
                    k <= record_values@.len(),
                    values.deep_view() == before + record_values.deep_view().subrange(0, k as int),
                decreases record_values.len() - k,
            {
                let ghost step = values.deep_view();
                values.push(record_values[k].clone());
                assert(values.deep_view() =~= step.push(record_values@[k as int]@));
                k = k + 1;
                assert(values.deep_view() =~= before + record_values.deep_view().subrange(0, k as int));
            }
            assert(record_values.deep_view().subrange(0, k as int) =~= record_values.deep_view());
            assert(records.subrange(0, i + 1).drop_last() =~= records.subrange(0, i as int));
            i = i + 1;
        }
        assert(records.subrange(0, i as int) =~= records);
        writer.write_values(&values)?;
        Ok(writer.output)
    }
}

} // verus!
