use vstd::prelude::*;

use super::encoding::{
    all_digits, ascii_bytes, decimal, digit_char, digit_value, digits_value, is_digit, lemma_decimal_len,
    spec_parse_unsigned, unsigned_digits, windows_1251_decoded, windows_1251_encoded, zero_padded,
};
use super::reader::{
    currency_income_name, data_at, eof_at, foreign_income_at, foreign_income_name, incomes_at, raw_at, records_at,
    spec_read_statement, unknown_fields_at, values_at, FormatFailure, RecordModel, CURRENCY_INCOME_FIELDS,
};
use super::writer::{
    WriteFailure, frame, incomes_values, lemma_write_values_append, lemma_zero_padded_ascii, record_values, records_values,
    spec_write_data, spec_write_statement, spec_write_values, MAX_DATA_SIZE,
};
use super::{spec_extension_year, spec_header, spec_is_record_name, spec_statement_year};

verus! {

/// A text that can be written as a value and that reading gives back: it encodes to no more bytes
/// than a value can hold, and these decode to the text.
pub open spec fn round_trips(text: Seq<char>) -> bool {
    &&& windows_1251_encoded(text) matches Some(bytes)
    &&& bytes.len() <= MAX_DATA_SIZE
    &&& windows_1251_decoded(bytes) == Some(text)
}

pub open spec fn all_round_trip(values: Seq<Seq<char>>) -> bool {
    forall|i: int| 0 <= i < values.len() ==> round_trips(#[trigger] values[i])
}

/// The sizes of values, written with four digits, decode to their digits.
pub open spec fn sizes_decode() -> bool {
    forall|n: nat| n <= MAX_DATA_SIZE ==> windows_1251_decoded(ascii_bytes(#[trigger] zero_padded(n, 4)))
        == Some(zero_padded(n, 4))
}

/// A record that reading can tell apart: the foreign incomes have their number of fields; a record
/// of unknown structure has a record name that isn't the foreign income one, and none of its
/// fields looks like a record name.
pub open spec fn is_readable(record: RecordModel) -> bool {
    match record {
        RecordModel::ForeignIncome(incomes) => incomes.len() <= usize::MAX && forall|i: int|
            0 <= i < incomes.len() ==> (#[trigger] incomes[i]).len() == CURRENCY_INCOME_FIELDS,
        RecordModel::Unknown(name, fields) => spec_is_record_name(name) && name != foreign_income_name() && forall|
            i: int,
        | 0 <= i < fields.len() ==> !spec_is_record_name(#[trigger] fields[i]),
    }
}

proof fn lemma_digits_value_push(digits: Seq<char>, c: char)
    ensures
        digits_value(digits.push(c)) == digits_value(digits) * 10 + digit_value(c),
{
    assert(digits.push(c).drop_last() =~= digits);
}

proof fn lemma_digit_char(n: int)
    requires
        0 <= n < 10,
    ensures
        digit_value(digit_char(n)) == n,
        is_digit(digit_char(n)),
{
}

proof fn lemma_decimal_digits(n: nat)
    ensures
        all_digits(decimal(n)),
        digits_value(decimal(n)) == n,
        decimal(n).len() > 0,
    decreases n,
{
    if n < 10 {
        lemma_digit_char(n as int);
        assert(decimal(n) =~= seq![digit_char(n as int)]);
        assert(decimal(n).drop_last() =~= Seq::<char>::empty());
        assert(digits_value(Seq::<char>::empty()) == 0);
    } else {
        lemma_digit_char((n % 10) as int);
        lemma_decimal_digits(n / 10);
        lemma_digits_value_push(decimal(n / 10), digit_char((n % 10) as int));
        let d = decimal(n);
        assert forall|i: int| 0 <= i < d.len() implies is_digit(#[trigger] d[i]) by {
            if i < d.len() - 1 {
                assert(d[i] == decimal(n / 10)[i]);
            }
        }
    }
}

proof fn lemma_leading_zeros(zeros: Seq<char>, digits: Seq<char>)
    requires
        forall|i: int| 0 <= i < zeros.len() ==> #[trigger] zeros[i] == '0',
    ensures
        digits_value(zeros + digits) == digits_value(digits),
    decreases digits.len(),
{
    if digits.len() == 0 {
        assert(zeros + digits =~= zeros);
        lemma_zeros_value(zeros);
    } else {
        lemma_leading_zeros(zeros, digits.drop_last());
        assert((zeros + digits).drop_last() =~= zeros + digits.drop_last());
    }
}

proof fn lemma_zeros_value(zeros: Seq<char>)
    requires
        forall|i: int| 0 <= i < zeros.len() ==> #[trigger] zeros[i] == '0',
    ensures
        digits_value(zeros) == 0,
    decreases zeros.len(),
{
    if zeros.len() > 0 {
        assert(zeros[zeros.len() - 1] == '0');
        lemma_zeros_value(zeros.drop_last());
    }
}

/// A number's digits read back as the number.
proof fn lemma_parse_decimal(n: nat)
    requires
        n <= usize::MAX,
    ensures
        spec_parse_unsigned(decimal(n)) == Some(n as int),
{
    lemma_decimal_digits(n);
    assert(is_digit(decimal(n)[0]));
    assert(unsigned_digits(decimal(n)) == decimal(n));
}

/// A size written with four digits reads back as the size.
proof fn lemma_parse_size(n: nat)
    requires
        n <= MAX_DATA_SIZE,
    ensures
        spec_parse_unsigned(zero_padded(n, 4)) == Some(n as int),
        zero_padded(n, 4).len() == 4,
        is_digit(zero_padded(n, 4)[0]),
{
    lemma_decimal_digits(n);
    lemma_zero_padded_ascii(n, 4);
    lemma_decimal_len(n);
    let digits = decimal(n);
    let padded = zero_padded(n, 4);
    if digits.len() < 4 {
        let zeros = Seq::new((4 - digits.len()) as nat, |i: int| '0');
        assert(padded == zeros + digits);
        lemma_leading_zeros(zeros, digits);
        assert forall|i: int| 0 <= i < padded.len() implies is_digit(#[trigger] padded[i]) by {
            if i < zeros.len() {
                assert(padded[i] == '0');
            } else {
                assert(padded[i] == digits[i - zeros.len()]);
            }
        }
    }
    assert(is_digit(padded[0]));
    assert(unsigned_digits(padded) == padded);
}

/// The bytes a value is written as.
pub open spec fn encoded(text: Seq<char>) -> Seq<u8> {
    frame(windows_1251_encoded(text)->0)
}

/// The value at a position where it was written reads back, and the data doesn't end there.
proof fn lemma_read_frame(data: Seq<u8>, pos: int, text: Seq<char>)
    requires
        0 <= pos,
        round_trips(text),
        sizes_decode(),
        pos + encoded(text).len() <= data.len(),
        data.subrange(pos, pos + encoded(text).len()) == encoded(text),
    ensures
        data_at(data, pos) == Ok::<_, FormatFailure>((text, pos + encoded(text).len())),
        eof_at(data, pos) == Ok::<_, FormatFailure>(false),
        encoded(text).len() >= 4,
{
    let bytes = windows_1251_encoded(text)->0;
    let size = zero_padded(bytes.len(), 4);
    lemma_parse_size(bytes.len());
    assert(ascii_bytes(size).len() == 4);
    assert(data.subrange(pos, pos + 4) =~= ascii_bytes(size)) by {
        assert forall|i: int| 0 <= i < 4 implies data.subrange(pos, pos + 4)[i] == ascii_bytes(size)[i] by {
            assert(data.subrange(pos, pos + encoded(text).len())[i] == encoded(text)[i]);
        }
    }
    assert(windows_1251_decoded(ascii_bytes(size)) == Some(size));
    assert(data.subrange(pos + 4, pos + 4 + bytes.len()) =~= bytes) by {
        assert forall|i: int| 0 <= i < bytes.len() implies data.subrange(pos + 4, pos + 4 + bytes.len())[i]
            == bytes[i] by {
            assert(data.subrange(pos, pos + encoded(text).len())[4 + i] == encoded(text)[4 + i]);
        }
    }
    assert(data[pos] == encoded(text)[0]) by {
        assert(data.subrange(pos, pos + encoded(text).len())[0] == encoded(text)[0]);
    }
    assert(encoded(text)[0] == (size[0] as u8));
    assert(data[pos] != 0);
}

/// Values that all round-trip are written.
proof fn lemma_write_values_ok(values: Seq<Seq<char>>)
    requires
        all_round_trip(values),
    ensures
        spec_write_values(values) is Ok,
    decreases values.len(),
{
    if values.len() > 0 {
        assert(round_trips(values[values.len() - 1]));
        assert forall|i: int| 0 <= i < values.drop_last().len() implies round_trips(#[trigger] values.drop_last()[i]) by {
            assert(round_trips(values[i]));
        }
        lemma_write_values_ok(values.drop_last());
    }
}

proof fn lemma_all_round_trip_split(a: Seq<Seq<char>>, b: Seq<Seq<char>>)
    requires
        all_round_trip(a + b),
    ensures
        all_round_trip(a),
        all_round_trip(b),
{
    assert forall|i: int| 0 <= i < a.len() implies round_trips(#[trigger] a[i]) by {
        assert((a + b)[i] == a[i]);
    }
    assert forall|i: int| 0 <= i < b.len() implies round_trips(#[trigger] b[i]) by {
        assert((a + b)[a.len() + i] == b[i]);
    }
}

/// The bytes of values that all round-trip.
pub open spec fn written(values: Seq<Seq<char>>) -> Seq<u8> {
    spec_write_values(values)->Ok_0
}

/// The first value is written first, then the others.
proof fn lemma_written_first(values: Seq<Seq<char>>)
    requires
        values.len() > 0,
        all_round_trip(values),
    ensures
        written(values) == encoded(values[0]) + written(values.drop_first()),
        all_round_trip(values.drop_first()),
{
    assert(values =~= seq![values[0]] + values.drop_first());
    lemma_all_round_trip_split(seq![values[0]], values.drop_first());
    lemma_write_values_ok(values.drop_first());
    lemma_write_values_append(seq![values[0]], values.drop_first());
    assert(seq![values[0]].drop_last() =~= Seq::<Seq<char>>::empty());
    assert(spec_write_values(Seq::<Seq<char>>::empty()) == Ok::<_, super::writer::WriteFailure>(Seq::<u8>::empty()));
    assert(round_trips(values[0]));
    assert(spec_write_data(values[0]) == Ok::<_, super::writer::WriteFailure>(encoded(values[0])));
    assert(Seq::<u8>::empty() + encoded(values[0]) =~= encoded(values[0]));
    assert(spec_write_values(seq![values[0]]) == Ok::<_, super::writer::WriteFailure>(encoded(values[0])));
}

proof fn lemma_written_concat(a: Seq<Seq<char>>, b: Seq<Seq<char>>)
    requires
        all_round_trip(a + b),
    ensures
        written(a + b) == written(a) + written(b),
        all_round_trip(a),
        all_round_trip(b),
{
    lemma_all_round_trip_split(a, b);
    lemma_write_values_ok(a);
    lemma_write_values_ok(b);
    lemma_write_values_append(a, b);
}

/// Where bytes were written at a position, the data there holds them.
pub open spec fn holds_at(data: Seq<u8>, pos: int, bytes: Seq<u8>) -> bool {
    0 <= pos && pos + bytes.len() <= data.len() && data.subrange(pos, pos + bytes.len()) == bytes
}

proof fn lemma_holds_split(data: Seq<u8>, pos: int, a: Seq<u8>, b: Seq<u8>)
    requires
        holds_at(data, pos, a + b),
    ensures
        holds_at(data, pos, a),
        holds_at(data, pos + a.len(), b),
{
    assert(data.subrange(pos, pos + a.len()) =~= a) by {
        assert forall|i: int| 0 <= i < a.len() implies data.subrange(pos, pos + a.len())[i] == a[i] by {
            assert(data.subrange(pos, pos + (a + b).len())[i] == (a + b)[i]);
        }
    }
    assert(data.subrange(pos + a.len(), pos + a.len() + b.len()) =~= b) by {
        assert forall|i: int| 0 <= i < b.len() implies data.subrange(pos + a.len(), pos + a.len() + b.len())[i]
            == b[i] by {
            assert(data.subrange(pos, pos + (a + b).len())[a.len() + i] == (a + b)[a.len() + i]);
        }
    }
}

/// Fields written one after another read back, up to what follows them.
proof fn lemma_read_unknown_fields(data: Seq<u8>, pos: int, fields: Seq<Seq<char>>, read: Seq<Seq<char>>)
    requires
        all_round_trip(fields),
        forall|i: int| 0 <= i < fields.len() ==> !spec_is_record_name(#[trigger] fields[i]),
        sizes_decode(),
        holds_at(data, pos, written(fields)),
    ensures
        unknown_fields_at(data, pos, read) == unknown_fields_at(data, pos + written(fields).len(), read + fields),
    decreases fields.len(),
{
    if fields.len() == 0 {
        assert(read + fields =~= read);
        assert(written(fields) == Seq::<u8>::empty());
    } else {
        lemma_written_first(fields);
        lemma_holds_split(data, pos, encoded(fields[0]), written(fields.drop_first()));
        lemma_read_frame(data, pos, fields[0]);
        assert(!spec_is_record_name(fields[0]));
        assert forall|i: int| 0 <= i < fields.drop_first().len() implies !spec_is_record_name(
            #[trigger] fields.drop_first()[i]) by {
            assert(fields.drop_first()[i] == fields[i + 1]);
        }
        lemma_read_unknown_fields(data, pos + encoded(fields[0]).len(), fields.drop_first(), read.push(fields[0]));
        assert(read.push(fields[0]) + fields.drop_first() =~= read + fields);
    }
}

/// Values written one after another read back.
proof fn lemma_read_values(data: Seq<u8>, pos: int, values: Seq<Seq<char>>)
    requires
        all_round_trip(values),
        sizes_decode(),
        holds_at(data, pos, written(values)),
    ensures
        values_at(data, pos, values.len()) == Ok::<_, FormatFailure>((values, pos + written(values).len())),
    decreases values.len(),
{
    if values.len() == 0 {
        assert(written(values) == Seq::<u8>::empty());
        assert(values =~= Seq::<Seq<char>>::empty());
    } else {
        let last = values.last();
        assert(values =~= values.drop_last() + seq![last]);
        lemma_written_concat(values.drop_last(), seq![last]);
        lemma_written_first(seq![last]);
        assert(seq![last].drop_first() =~= Seq::<Seq<char>>::empty());
        assert(written(seq![last]) =~= encoded(last));
        lemma_holds_split(data, pos, written(values.drop_last()), encoded(last));
        lemma_read_values(data, pos, values.drop_last());
        assert(round_trips(last)) by {
            assert(all_round_trip(seq![last]));
            assert(seq![last][0] == last);
        }
        lemma_read_frame(data, pos + written(values.drop_last()).len(), last);
        assert(values.drop_last().push(last) =~= values);
    }
}

proof fn lemma_incomes_values_first(incomes: Seq<Seq<Seq<char>>>, index: nat)
    requires
        index < incomes.len(),
    ensures
        incomes_values(incomes, index) == seq![currency_income_name(index)] + incomes[index as int]
            + incomes_values(incomes, index + 1),
{
}

/// Foreign incomes written one after another read back.
proof fn lemma_read_incomes(
    data: Seq<u8>,
    pos: int,
    incomes: Seq<Seq<Seq<char>>>,
    index: nat,
    read: Seq<Seq<Seq<char>>>,
)
    requires
        index <= incomes.len(),
        forall|i: int| 0 <= i < incomes.len() ==> (#[trigger] incomes[i]).len() == CURRENCY_INCOME_FIELDS,
        all_round_trip(incomes_values(incomes, index)),
        sizes_decode(),
        holds_at(data, pos, written(incomes_values(incomes, index))),
    ensures
        incomes_at(data, pos, index, incomes.len(), read) == Ok::<_, FormatFailure>((
            read + incomes.subrange(index as int, incomes.len() as int),
            pos + written(incomes_values(incomes, index)).len(),
        )),
    decreases incomes.len() - index,
{
    if index >= incomes.len() {
        assert(incomes_values(incomes, index) == Seq::<Seq<char>>::empty());
        assert(written(incomes_values(incomes, index)) == Seq::<u8>::empty());
        assert(read + incomes.subrange(index as int, incomes.len() as int) =~= read);
    } else {
        let name = currency_income_name(index);
        let fields = incomes[index as int];
        let rest = incomes_values(incomes, index + 1);
        lemma_incomes_values_first(incomes, index);
        assert(seq![name] + fields + rest =~= seq![name] + (fields + rest));
        lemma_written_first(incomes_values(incomes, index));
        assert(incomes_values(incomes, index).drop_first() =~= fields + rest);
        lemma_written_concat(fields, rest);
        lemma_holds_split(data, pos, encoded(name), written(fields + rest));
        lemma_holds_split(data, pos + encoded(name).len(), written(fields), written(rest));
        assert(round_trips(name)) by {
            assert(incomes_values(incomes, index)[0] == name);
        }
        lemma_read_frame(data, pos, name);
        lemma_read_values(data, pos + encoded(name).len(), fields);
        lemma_read_incomes(data, pos + encoded(name).len() + written(fields).len(), incomes, index + 1, read.push(
            fields));
        assert(read.push(fields) + incomes.subrange(index + 1 as int, incomes.len() as int) =~= read + incomes.subrange(
            index as int,
            incomes.len() as int,
        ));
    }
}

proof fn lemma_records_values_first(records: Seq<RecordModel>)
    requires
        records.len() > 0,
    ensures
        records_values(records) == record_values(records[0]) + records_values(records.drop_first()),
    decreases records.len(),
{
    if records.len() == 1 {
        assert(records.drop_last() =~= Seq::<RecordModel>::empty());
        assert(records.drop_first() =~= Seq::<RecordModel>::empty());
        assert(record_values(records[0]) + Seq::<Seq<char>>::empty() =~= record_values(records[0]));
        assert(Seq::<Seq<char>>::empty() + record_values(records[0]) =~= record_values(records[0]));
    } else {
        lemma_records_values_first(records.drop_last());
        assert(records.drop_last().drop_first() =~= records.drop_first().drop_last());
        assert(records.drop_first().last() == records.last());
        assert(records.drop_last()[0] == records[0]);
        assert(record_values(records[0]) + records_values(records.drop_first().drop_last()) + record_values(
            records.last()) =~= record_values(records[0]) + (records_values(records.drop_first().drop_last())
            + record_values(records.last())));
    }
}

/// A foreign income record written at a position reads back, and reading goes on after it.
#[verifier::rlimit(30)]
proof fn lemma_read_foreign_income(data: Seq<u8>, pos: int, incomes: Seq<Seq<Seq<char>>>, read: Seq<RecordModel>)
    requires
        is_readable(RecordModel::ForeignIncome(incomes)),
        all_round_trip(record_values(RecordModel::ForeignIncome(incomes))),
        sizes_decode(),
        holds_at(data, pos, written(record_values(RecordModel::ForeignIncome(incomes)))),
    ensures
        records_at(data, pos, None, read) == records_at(data, pos + written(record_values(
            RecordModel::ForeignIncome(incomes))).len(), None, read.push(RecordModel::ForeignIncome(incomes))),
{
    reveal_strlit("@DeclForeign");
    let record = RecordModel::ForeignIncome(incomes);
    let name = foreign_income_name();
    let count = decimal(incomes.len());
    let body = incomes_values(incomes, 0);
    assert(record_values(record) =~= seq![name] + (seq![count] + body));
    lemma_written_first(record_values(record));
    assert(record_values(record).drop_first() =~= seq![count] + body);
    lemma_written_first(seq![count] + body);
    assert((seq![count] + body).drop_first() =~= body);
    assert((seq![count] + body)[0] == count);
    lemma_holds_split(data, pos, encoded(name), written(seq![count] + body));
    lemma_holds_split(data, pos + encoded(name).len(), encoded(count), written(body));
    assert(round_trips(name)) by {
        assert(record_values(record)[0] == name);
    }
    lemma_read_frame(data, pos, name);
    lemma_read_frame(data, pos + encoded(name).len(), count);
    lemma_parse_decimal(incomes.len());
    lemma_read_incomes(data, pos + encoded(name).len() + encoded(count).len(), incomes, 0, Seq::empty());
    assert(Seq::<Seq<Seq<char>>>::empty() + incomes.subrange(0, incomes.len() as int) =~= incomes);
    assert(spec_is_record_name(name));
    let p1 = pos + encoded(name).len();
    let p2 = p1 + encoded(count).len();
    let p3 = p2 + written(body).len();
    assert(written(record_values(record)).len() == p3 - pos);
    assert(foreign_income_at(data, p1) == Ok::<_, FormatFailure>((incomes, p3)));
    assert(records_at(data, p1, Some(name), read) == records_at(data, p3, None, read.push(record)));
    assert(data_at(data, pos) == Ok::<_, FormatFailure>((name, p1)));
}

/// A record of unknown structure written at a position reads back, and reading goes on after
/// it: up to the end of the data, or up to the next record, written after it.
#[verifier::rlimit(30)]
proof fn lemma_read_unknown(
    data: Seq<u8>,
    pos: int,
    name: Seq<char>,
    fields: Seq<Seq<char>>,
    next: Option<Seq<char>>,
    read: Seq<RecordModel>,
)
    requires
        is_readable(RecordModel::Unknown(name, fields)),
        all_round_trip(record_values(RecordModel::Unknown(name, fields))),
        sizes_decode(),
        holds_at(data, pos, written(record_values(RecordModel::Unknown(name, fields)))),
        match next {
            None => pos + written(record_values(RecordModel::Unknown(name, fields))).len() == data.len(),
            Some(next_name) => round_trips(next_name) && spec_is_record_name(next_name) && holds_at(data, pos
                + written(record_values(RecordModel::Unknown(name, fields))).len(), encoded(next_name)),
        },
    ensures
        records_at(data, pos, None, read) == records_at(data, pos + written(record_values(
            RecordModel::Unknown(name, fields))).len(), None, read.push(RecordModel::Unknown(name, fields))),
{
    let record = RecordModel::Unknown(name, fields);
    let after = pos + written(record_values(record)).len();
    assert(record_values(record) =~= seq![name] + fields);
    lemma_written_first(record_values(record));
    assert(record_values(record).drop_first() =~= fields);
    lemma_holds_split(data, pos, encoded(name), written(fields));
    assert(round_trips(name)) by {
        assert(record_values(record)[0] == name);
    }
    lemma_read_frame(data, pos, name);
    lemma_read_unknown_fields(data, pos + encoded(name).len(), fields, Seq::empty());
    assert(Seq::<Seq<char>>::empty() + fields =~= fields);
    let p1 = pos + encoded(name).len();
    assert(after == p1 + written(fields).len());
    assert(name != foreign_income_name());
    assert(spec_is_record_name(name));
    assert(data_at(data, pos) == Ok::<_, FormatFailure>((name, p1)));
    match next {
        None => {
            assert(eof_at(data, after) == Ok::<_, FormatFailure>(true));
            assert(unknown_fields_at(data, after, fields) == Ok::<_, FormatFailure>((fields, None::<Seq<char>>,
                after)));
            assert(records_at(data, p1, Some(name), read) == records_at(data, after, None, read.push(record)));
        },
        Some(next_name) => {
            lemma_read_frame(data, after, next_name);
            let p3 = after + encoded(next_name).len();
            assert(unknown_fields_at(data, after, fields) == Ok::<_, FormatFailure>((fields, Some(next_name), p3)));
            assert(records_at(data, p1, Some(name), read) == records_at(data, p3, Some(next_name), read.push(
                record)));
            assert(records_at(data, after, None, read.push(record)) == records_at(data, p3, Some(next_name),
                read.push(record)));
        },
    }
}

/// Records written one after another, up to the end of the data, read back.
proof fn lemma_read_records(data: Seq<u8>, pos: int, records: Seq<RecordModel>, read: Seq<RecordModel>)
    requires
        forall|i: int| 0 <= i < records.len() ==> is_readable(#[trigger] records[i]),
        all_round_trip(records_values(records)),
        sizes_decode(),
        holds_at(data, pos, written(records_values(records))),
        pos + written(records_values(records)).len() == data.len(),
    ensures
        records_at(data, pos, None, read) == Ok::<_, FormatFailure>(read + records),
    decreases records.len(),
{
    if records.len() == 0 {
        assert(records_values(records) =~= Seq::<Seq<char>>::empty());
        assert(spec_write_values(Seq::<Seq<char>>::empty()) == Ok::<_, super::writer::WriteFailure>(Seq::<u8>::empty()));
        assert(pos == data.len());
        assert(eof_at(data, pos) == Ok::<_, FormatFailure>(true));
        assert(read + records =~= read);
    } else {
        let record = records[0];
        let rest = records.drop_first();
        assert(is_readable(record));
        assert forall|i: int| 0 <= i < rest.len() implies is_readable(#[trigger] rest[i]) by {
            assert(rest[i] == records[i + 1]);
        }
        lemma_records_values_first(records);
        lemma_written_concat(record_values(record), records_values(rest));
        lemma_holds_split(data, pos, written(record_values(record)), written(records_values(rest)));
        let after = pos + written(record_values(record)).len();
        match record {
            RecordModel::ForeignIncome(incomes) => {
                lemma_read_foreign_income(data, pos, incomes, read);
            },
            RecordModel::Unknown(name, fields) => {
                if rest.len() == 0 {
                    lemma_read_unknown(data, pos, name, fields, None, read);
                } else {
                    let next = rest[0];
                    lemma_records_values_first(rest);
                    lemma_written_concat(record_values(next), records_values(rest.drop_first()));
                    lemma_holds_split(data, after, written(record_values(next)), written(records_values(
                        rest.drop_first())));
                    let next_name = record_values(next)[0];
                    lemma_written_first(record_values(next));
                    lemma_holds_split(data, after, encoded(next_name), written(record_values(next).drop_first()));
                    assert(is_readable(next));
                    assert(spec_is_record_name(next_name)) by {
                        reveal_strlit("@DeclForeign");
                    }
                    lemma_read_unknown(data, pos, name, fields, Some(next_name), read);
                }
            },
        }
        lemma_read_records(data, after, rest, read.push(record));
        assert(read.push(record) + rest =~= read + records);
    }
}

/// Reading what was written gives back the statement's year and records. This holds of a
/// statement with records, each of which reading can tell apart, read from a file named for its
/// year, where each text written (the header too) and each size decodes back to what was
/// encoded.
pub proof fn law_read_written_statement(path: Seq<char>, current_year: int, year: int, records: Seq<RecordModel>)
    requires
        records.len() > 0,
        forall|i: int| 0 <= i < records.len() ==> is_readable(#[trigger] records[i]),
        all_round_trip(records_values(records)),
        sizes_decode(),
        windows_1251_decoded(ascii_bytes(spec_header(year))) == Some(spec_header(year)),
        spec_extension_year(path) matches Some(short_year) && spec_statement_year(short_year, current_year) == year,
    ensures
        spec_write_statement(year, records) matches Ok(bytes) && spec_read_statement(path, bytes, current_year) == Ok::<
            _,
            FormatFailure,
        >((year, records)),
{
    lemma_write_values_ok(records_values(records));
    let header = spec_header(year);
    let body = written(records_values(records));
    let bytes = ascii_bytes(header) + body;
    assert(spec_write_statement(year, records) == Ok::<_, super::writer::WriteFailure>(bytes));
    assert(bytes.subrange(0, header.len() as int) =~= ascii_bytes(header));
    assert(raw_at(bytes, 0, header.len() as int) == Ok::<_, FormatFailure>((header, header.len() as int)));
    assert(holds_at(bytes, header.len() as int, body)) by {
        assert(bytes.subrange(header.len() as int, (header.len() + body.len()) as int) =~= body);
    }
    lemma_read_records(bytes, header.len() as int, records, Seq::empty());
    assert(Seq::<RecordModel>::empty() + records =~= records);
}

/// The data value at `pos`, where there is one, is written as writing writes it: its size with
/// four ASCII digits, then the bytes that its text encodes to.
pub open spec fn value_canonical(data: Seq<u8>, pos: int) -> bool {
    match data_at(data, pos) {
        Ok((value, next)) => {
            &&& 0 <= next - pos - 4 <= MAX_DATA_SIZE
            &&& data.subrange(pos, pos + 4) == ascii_bytes(zero_padded((next - pos - 4) as nat, 4))
            &&& windows_1251_encoded(value) == Some(data.subrange(pos + 4, next))
        },
        Err(_) => true,
    }
}

/// The `count` data values from `pos` on are written canonically.
pub open spec fn values_canonical(data: Seq<u8>, pos: int, count: nat) -> bool
    decreases count,
{
    if count == 0 {
        true
    } else {
        &&& values_canonical(data, pos, (count - 1) as nat)
        &&& match values_at(data, pos, (count - 1) as nat) {
            Ok((_, next)) => value_canonical(data, next),
            Err(_) => true,
        }
    }
}

/// `bytes` are at `pos`, and only zero bytes follow them.
pub open spec fn fills_to_end(data: Seq<u8>, pos: int, bytes: Seq<u8>) -> bool {
    &&& 0 <= pos
    &&& pos + bytes.len() <= data.len()
    &&& data.subrange(pos, pos + bytes.len()) == bytes
    &&& forall|i: int| pos + bytes.len() <= i < data.len() ==> data[i] == 0
}

proof fn lemma_subrange_concat(data: Seq<u8>, a: int, b: int, c: int)
    requires
        0 <= a <= b <= c <= data.len(),
    ensures
        data.subrange(a, b) + data.subrange(b, c) == data.subrange(a, c),
{
    assert(data.subrange(a, b) + data.subrange(b, c) =~= data.subrange(a, c));
}

/// A canonically written value is written back as its bytes.
proof fn lemma_value_rewritten(data: Seq<u8>, pos: int)
    requires
        0 <= pos,
        data_at(data, pos) is Ok,
        value_canonical(data, pos),
    ensures
        data_at(data, pos) matches Ok((value, next)) && pos + 4 <= next <= data.len() && spec_write_data(value)
            == Ok::<_, WriteFailure>(data.subrange(pos, next)),
{
    let (value, next) = data_at(data, pos)->Ok_0;
    let bytes = data.subrange(pos + 4, next);
    assert(frame(bytes) == data.subrange(pos, pos + 4) + bytes);
    lemma_subrange_concat(data, pos, pos + 4, next);
}

/// Canonically written values are written back as their bytes.
proof fn lemma_values_rewritten(data: Seq<u8>, pos: int, count: nat)
    requires
        0 <= pos <= data.len(),
        values_at(data, pos, count) is Ok,
        values_canonical(data, pos, count),
    ensures
        values_at(data, pos, count) matches Ok((values, next)) && pos <= next <= data.len() && spec_write_values(
            values,
        ) == Ok::<_, WriteFailure>(data.subrange(pos, next)),
    decreases count,
{
    if count == 0 {
        assert(data.subrange(pos, pos) =~= Seq::<u8>::empty());
    } else {
        lemma_values_rewritten(data, pos, (count - 1) as nat);
        let (values, mid) = values_at(data, pos, (count - 1) as nat)->Ok_0;
        lemma_value_rewritten(data, mid);
        let (value, next) = data_at(data, mid)->Ok_0;
        assert(values.push(value).drop_last() =~= values);
        lemma_subrange_concat(data, pos, mid, next);
    }
}

/// The foreign incomes from `pos` on, from the one numbered `index` up to `count`, are written
/// canonically.
pub open spec fn incomes_canonical(data: Seq<u8>, pos: int, index: nat, count: nat) -> bool
    decreases count - index,
{
    if index >= count {
        true
    } else {
        &&& value_canonical(data, pos)
        &&& match data_at(data, pos) {
            Ok((name, next)) => name != currency_income_name(index) || {
                &&& values_canonical(data, next, CURRENCY_INCOME_FIELDS as nat)
                &&& match values_at(data, next, CURRENCY_INCOME_FIELDS as nat) {
                    Ok((_, after)) => incomes_canonical(data, after, index + 1, count),
                    Err(_) => true,
                }
            },
            Err(_) => true,
        }
    }
}

/// The foreign income record from `pos` on is written canonically: its number of incomes too,
/// without a sign or leading zeros.
pub open spec fn foreign_income_canonical(data: Seq<u8>, pos: int) -> bool {
    &&& value_canonical(data, pos)
    &&& match data_at(data, pos) {
        Ok((text, next)) => match spec_parse_unsigned(text) {
            Some(count) => text == decimal(count as nat) && incomes_canonical(data, next, 0, count as nat),
            None => true,
        },
        Err(_) => true,
    }
}

proof fn lemma_write_single(value: Seq<char>)
    ensures
        spec_write_values(seq![value]) == (match spec_write_data(value) {
            Ok(bytes) => Ok::<_, WriteFailure>(bytes),
            Err(failure) => Err(failure),
        }),
{
    assert(seq![value].drop_last() =~= Seq::<Seq<char>>::empty());
    assert(seq![value].last() == value);
    assert(spec_write_values(Seq::<Seq<char>>::empty()) == Ok::<_, WriteFailure>(Seq::<u8>::empty()));
    if let Ok(bytes) = spec_write_data(value) {
        assert(Seq::<u8>::empty() + bytes =~= bytes);
    }
}

/// Canonically written foreign incomes are written back as their bytes.
proof fn lemma_incomes_rewritten(data: Seq<u8>, pos: int, index: nat, count: nat, read: Seq<Seq<Seq<char>>>)
    requires
        0 <= pos <= data.len(),
        read.len() == index,
        index <= count,
        incomes_at(data, pos, index, count, read) is Ok,
        incomes_canonical(data, pos, index, count),
    ensures
        incomes_at(data, pos, index, count, read) matches Ok((incomes, next)) && pos <= next <= data.len()
            && incomes.len() == count && incomes.subrange(0, index as int) == read && spec_write_values(
            incomes_values(incomes, index),
        ) == Ok::<_, WriteFailure>(data.subrange(pos, next)),
    decreases count - index,
{
    if index >= count {
        assert(read.subrange(0, index as int) =~= read);
        assert(incomes_values(read, index) == Seq::<Seq<char>>::empty());
        assert(data.subrange(pos, pos) =~= Seq::<u8>::empty());
    } else {
        lemma_value_rewritten(data, pos);
        let (name, p1) = data_at(data, pos)->Ok_0;
        lemma_values_rewritten(data, p1, CURRENCY_INCOME_FIELDS as nat);
        let (fields, p2) = values_at(data, p1, CURRENCY_INCOME_FIELDS as nat)->Ok_0;
        lemma_incomes_rewritten(data, p2, index + 1, count, read.push(fields));
        let (incomes, next) = incomes_at(data, p2, index + 1, count, read.push(fields))->Ok_0;
        assert(incomes_at(data, pos, index, count, read) == incomes_at(data, p2, index + 1, count, read.push(fields)));
        assert(incomes[index as int] == fields) by {
            assert(incomes.subrange(0, index + 1 as int)[index as int] == read.push(fields)[index as int]);
        }
        assert(incomes.subrange(0, index as int) =~= read) by {
            assert forall|i: int| 0 <= i < index implies incomes.subrange(0, index as int)[i] == read[i] by {
                assert(incomes.subrange(0, index + 1 as int)[i] == read.push(fields)[i]);
            }
        }
        lemma_incomes_values_first(incomes, index);
        let rest = incomes_values(incomes, index + 1);
        lemma_write_single(name);
        lemma_write_values_append(seq![name], fields);
        lemma_write_values_append(seq![name] + fields, rest);
        lemma_subrange_concat(data, pos, p1, p2);
        lemma_subrange_concat(data, pos, p2, next);
    }
}

/// A canonically written foreign income record is written back as its bytes, after its name.
proof fn lemma_foreign_income_rewritten(data: Seq<u8>, pos: int)
    requires
        0 <= pos <= data.len(),
        foreign_income_at(data, pos) is Ok,
        foreign_income_canonical(data, pos),
    ensures
        foreign_income_at(data, pos) matches Ok((incomes, next)) && pos <= next <= data.len() && spec_write_values(
            seq![decimal(incomes.len())] + incomes_values(incomes, 0),
        ) == Ok::<_, WriteFailure>(data.subrange(pos, next)),
{
    lemma_value_rewritten(data, pos);
    let (text, p1) = data_at(data, pos)->Ok_0;
    let count = spec_parse_unsigned(text)->0;
    lemma_incomes_rewritten(data, p1, 0, count as nat, Seq::empty());
    let (incomes, next) = incomes_at(data, p1, 0, count as nat, Seq::empty())->Ok_0;
    lemma_write_single(text);
    lemma_write_values_append(seq![text], incomes_values(incomes, 0));
    lemma_subrange_concat(data, pos, p1, next);
}

/// The fields of a record of unknown structure from `pos` on, and the name that ends them, are
/// written canonically.
pub open spec fn fields_canonical(data: Seq<u8>, pos: int) -> bool
    decreases data.len() - pos,
{
    match eof_at(data, pos) {
        Ok(false) => {
            &&& value_canonical(data, pos)
            &&& match data_at(data, pos) {
                Ok((value, next)) => if spec_is_record_name(value) {
                    true
                } else if pos < next <= data.len() {
                    fields_canonical(data, next)
                } else {
                    true
                },
                Err(_) => true,
            }
        },
        _ => true,
    }
}

/// The records from `pos` on are written canonically. `pending` is a record name read already.
pub open spec fn records_canonical(data: Seq<u8>, pos: int, pending: Option<Seq<char>>) -> bool
    decreases data.len() - pos, if pending is Some { 1int } else { 0int },
{
    if pos < 0 || pos > data.len() {
        true
    } else {
        match pending {
            None => match eof_at(data, pos) {
                Ok(false) => {
                    &&& value_canonical(data, pos)
                    &&& match data_at(data, pos) {
                        Ok((name, next)) => if spec_is_record_name(name) && pos < next {
                            records_canonical(data, next, Some(name))
                        } else {
                            true
                        },
                        Err(_) => true,
                    }
                },
                _ => true,
            },
            Some(name) => if name == foreign_income_name() {
                &&& foreign_income_canonical(data, pos)
                &&& match foreign_income_at(data, pos) {
                    Ok((_, next)) => if pos <= next <= data.len() {
                        records_canonical(data, next, None)
                    } else {
                        true
                    },
                    Err(_) => true,
                }
            } else {
                &&& fields_canonical(data, pos)
                &&& match unknown_fields_at(data, pos, Seq::empty()) {
                    Ok((_, next_name, next)) => if next <= data.len() && (pos < next || (pos == next
                        && next_name is None)) {
                        records_canonical(data, next, next_name)
                    } else {
                        true
                    },
                    Err(_) => true,
                }
            },
        }
    }
}

/// Canonically written fields are written back as their bytes: up to the name that ends them,
/// or up to zero bytes at the end.
proof fn lemma_fields_rewritten(data: Seq<u8>, pos: int, read: Seq<Seq<char>>)
    requires
        0 <= pos <= data.len(),
        unknown_fields_at(data, pos, read) is Ok,
        fields_canonical(data, pos),
    ensures
        unknown_fields_at(data, pos, read) matches Ok((fields, next_name, next)) && fields.len() >= read.len()
            && fields.subrange(0, read.len() as int) == read && match next_name {
            None => next == data.len() && (spec_write_values(fields.subrange(read.len() as int, fields.len() as int))
                matches Ok(bytes) && fills_to_end(data, pos, bytes)),
            Some(name) => pos < next <= data.len() && spec_is_record_name(name) && spec_write_values(
                fields.subrange(read.len() as int, fields.len() as int).push(name),
            ) == Ok::<_, WriteFailure>(data.subrange(pos, next)),
        },
    decreases data.len() - pos,
{
    assert(read.subrange(0, read.len() as int) =~= read);
    let empty = read.subrange(read.len() as int, read.len() as int);
    assert(empty =~= Seq::<Seq<char>>::empty());
    match eof_at(data, pos) {
        Ok(true) => {
            assert(spec_write_values(empty) == Ok::<_, WriteFailure>(Seq::<u8>::empty()));
            assert(data.subrange(pos, pos) =~= Seq::<u8>::empty());
        },
        Ok(false) => {
            lemma_value_rewritten(data, pos);
            let (value, next) = data_at(data, pos)->Ok_0;
            if spec_is_record_name(value) {
                assert(empty.push(value) =~= seq![value]);
                lemma_write_single(value);
            } else {
                lemma_fields_rewritten(data, next, read.push(value));
                let (fields, next_name, end) = unknown_fields_at(data, next, read.push(value))->Ok_0;
                assert(fields.subrange(0, read.len() as int) =~= read) by {
                    assert forall|i: int| 0 <= i < read.len() implies fields.subrange(0, read.len() as int)[i]
                        == read[i] by {
                        assert(fields.subrange(0, read.len() + 1 as int)[i] == read.push(value)[i]);
                    }
                }
                assert(fields[read.len() as int] == value) by {
                    assert(fields.subrange(0, read.len() + 1 as int)[read.len() as int] == read.push(value)[
                        read.len() as int]);
                }
                let new = fields.subrange(read.len() as int, fields.len() as int);
                let rest = fields.subrange(read.len() + 1 as int, fields.len() as int);
                assert(new =~= seq![value] + rest);
                lemma_write_single(value);
                match next_name {
                    None => {
                        lemma_write_values_append(seq![value], rest);
                        let tail = spec_write_values(rest)->Ok_0;
                        assert(data.subrange(pos, next) + tail =~= data.subrange(pos, next + tail.len())) by {
                            assert(data.subrange(next, next + tail.len()) == tail);
                        }
                    },
                    Some(name) => {
                        assert(new.push(name) =~= seq![value] + rest.push(name));
                        lemma_write_values_append(seq![value], rest.push(name));
                        lemma_subrange_concat(data, pos, next, end);
                    },
                }
            }
        },
        Err(_) => {},
    }
}

/// Where the bytes of the records from `pos` on start: before the pending name, if there is one.
pub open spec fn records_start(pos: int, pending: Option<Seq<char>>) -> int {
    match pending {
        None => pos,
        Some(name) => pos - spec_write_data(name)->Ok_0.len(),
    }
}

proof fn lemma_fills_concat(data: Seq<u8>, pos: int, a: Seq<u8>, b: Seq<u8>)
    requires
        0 <= pos,
        pos + a.len() <= data.len(),
        data.subrange(pos, pos + a.len()) == a,
        fills_to_end(data, pos + a.len(), b),
    ensures
        fills_to_end(data, pos, a + b),
{
    assert(data.subrange(pos, pos + a.len() + b.len()) =~= a + b) by {
        lemma_subrange_concat(data, pos, pos + a.len(), pos + a.len() + b.len());
    }
}

/// Records read after a record written at `start` are written as its bytes, then theirs.
proof fn lemma_prepend_record(
    data: Seq<u8>,
    start: int,
    read: Seq<RecordModel>,
    record: RecordModel,
    records: Seq<RecordModel>,
    record_bytes: Seq<u8>,
)
    requires
        records.len() >= read.len() + 1,
        records.subrange(0, read.len() + 1 as int) == read.push(record),
        spec_write_values(record_values(record)) == Ok::<_, WriteFailure>(record_bytes),
        0 <= start,
        start + record_bytes.len() <= data.len(),
        data.subrange(start, start + record_bytes.len()) == record_bytes,
        spec_write_values(records_values(records.subrange(read.len() + 1 as int, records.len() as int))) matches Ok(
            tail,
        ) && fills_to_end(data, start + record_bytes.len(), tail),
    ensures
        records.subrange(0, read.len() as int) == read,
        spec_write_values(records_values(records.subrange(read.len() as int, records.len() as int))) matches Ok(
            bytes,
        ) && fills_to_end(data, start, bytes),
{
    let tail = spec_write_values(records_values(records.subrange(read.len() + 1 as int, records.len() as int)))->Ok_0;
    assert(records.subrange(0, read.len() as int) =~= read) by {
        assert forall|i: int| 0 <= i < read.len() implies records.subrange(0, read.len() as int)[i] == read[i] by {
            assert(records.subrange(0, read.len() + 1 as int)[i] == read.push(record)[i]);
        }
    }
    let new = records.subrange(read.len() as int, records.len() as int);
    assert(records[read.len() as int] == record) by {
        assert(records.subrange(0, read.len() + 1 as int)[read.len() as int] == records[read.len() as int]);
        assert(read.push(record)[read.len() as int] == record);
    }
    assert(new[0] == record);
    assert(new.drop_first() =~= records.subrange(read.len() + 1 as int, records.len() as int));
    lemma_records_values_first(new);
    lemma_write_values_append(record_values(record), records_values(new.drop_first()));
    lemma_fills_concat(data, start, record_bytes, tail);
}

/// The bytes that a foreign income record read at `pos` is written as, after its name.
proof fn lemma_foreign_income_record(data: Seq<u8>, pos: int, head: Seq<u8>)
    requires
        0 <= pos <= data.len(),
        foreign_income_at(data, pos) is Ok,
        foreign_income_canonical(data, pos),
        spec_write_data(foreign_income_name()) == Ok::<_, WriteFailure>(head),
        head.len() <= pos,
        data.subrange(pos - head.len(), pos) == head,
    ensures
        foreign_income_at(data, pos) matches Ok((incomes, next)) && pos <= next <= data.len() && spec_write_values(
            record_values(RecordModel::ForeignIncome(incomes)),
        ) == Ok::<_, WriteFailure>(data.subrange(pos - head.len(), next)),
{
    lemma_foreign_income_rewritten(data, pos);
    let (incomes, next) = foreign_income_at(data, pos)->Ok_0;
    let body = seq![decimal(incomes.len())] + incomes_values(incomes, 0);
    assert(record_values(RecordModel::ForeignIncome(incomes)) =~= seq![foreign_income_name()] + body);
    lemma_write_single(foreign_income_name());
    lemma_write_values_append(seq![foreign_income_name()], body);
    lemma_subrange_concat(data, pos - head.len(), pos, next);
}

/// The bytes that a record of unknown structure read at `pos` is written as, after its name.
proof fn lemma_unknown_record(data: Seq<u8>, pos: int, name: Seq<char>, head: Seq<u8>)
    requires
        0 <= pos <= data.len(),
        unknown_fields_at(data, pos, Seq::empty()) is Ok,
        fields_canonical(data, pos),
        spec_write_data(name) == Ok::<_, WriteFailure>(head),
        head.len() <= pos,
        data.subrange(pos - head.len(), pos) == head,
    ensures
        unknown_fields_at(data, pos, Seq::empty()) matches Ok((fields, next_name, next)) && spec_write_values(fields)
            matches Ok(field_bytes) && spec_write_values(record_values(RecordModel::Unknown(name, fields))) == Ok::<
            _,
            WriteFailure,
        >(head + field_bytes) && pos + field_bytes.len() <= data.len() && data.subrange(pos - head.len(), pos
            + field_bytes.len()) == head + field_bytes && match next_name {
            None => next == data.len() && forall|i: int| pos + field_bytes.len() <= i < data.len() ==> data[i] == 0,
            Some(next_name) => pos < next <= data.len() && spec_is_record_name(next_name) && (spec_write_data(
                next_name,
            ) matches Ok(name_bytes) && pos + field_bytes.len() + name_bytes.len() == next && data.subrange(
                next - name_bytes.len(),
                next,
            ) == name_bytes),
        },
{
    lemma_fields_rewritten(data, pos, Seq::empty());
    let (fields, next_name, next) = unknown_fields_at(data, pos, Seq::empty())->Ok_0;
    assert(fields.subrange(0, fields.len() as int) =~= fields);
    let record = RecordModel::Unknown(name, fields);
    assert(record_values(record) =~= seq![name] + fields);
    lemma_write_single(name);
    lemma_write_values_append(seq![name], fields);
    let field_bytes = spec_write_values(fields)->Ok_0;
    match next_name {
        None => {
            lemma_subrange_concat(data, pos - head.len(), pos, pos + field_bytes.len());
        },
        Some(next_name) => {
            assert(fields.push(next_name).drop_last() =~= fields);
            let name_bytes = spec_write_data(next_name)->Ok_0;
            assert(field_bytes + name_bytes == data.subrange(pos, next));
            assert((field_bytes + name_bytes).len() == next - pos);
            assert(data.subrange(next - name_bytes.len(), next) =~= name_bytes) by {
                assert forall|i: int| 0 <= i < name_bytes.len() implies data.subrange(next - name_bytes.len(), next)[i]
                    == name_bytes[i] by {
                    assert(data.subrange(pos, next)[field_bytes.len() + i] == (field_bytes + name_bytes)[field_bytes.len() + i]);
                }
            }
            assert(data.subrange(pos, pos + field_bytes.len()) =~= field_bytes) by {
                assert forall|i: int| 0 <= i < field_bytes.len() implies data.subrange(pos, pos + field_bytes.len())[i]
                    == field_bytes[i] by {
                    assert(data.subrange(pos, next)[i] == (field_bytes + name_bytes)[i]);
                }
            }
            lemma_subrange_concat(data, pos - head.len(), pos, pos + field_bytes.len());
        },
    }
}

/// Canonically written records are written back as their bytes, up to zero bytes at the end.
#[verifier::rlimit(60)]
proof fn lemma_records_rewritten(data: Seq<u8>, pos: int, pending: Option<Seq<char>>, read: Seq<RecordModel>)
    requires
        records_at(data, pos, pending, read) is Ok,
        records_canonical(data, pos, pending),
        pending matches Some(name) ==> (spec_write_data(name) matches Ok(bytes) && bytes.len() <= pos
            && data.subrange(pos - bytes.len(), pos) == bytes),
    ensures
        records_at(data, pos, pending, read) matches Ok(records) && records.len() >= read.len() && records.subrange(
            0,
            read.len() as int,
        ) == read && (spec_write_values(records_values(records.subrange(read.len() as int, records.len() as int)))
            matches Ok(bytes) && fills_to_end(data, records_start(pos, pending), bytes)),
    decreases data.len() - pos, if pending is Some { 1int } else { 0int },
{
    assert(read.subrange(0, read.len() as int) =~= read);
    match pending {
        None => {
            match eof_at(data, pos) {
                Ok(true) => {
                    let empty = read.subrange(read.len() as int, read.len() as int);
                    assert(empty =~= Seq::<RecordModel>::empty());
                    assert(records_values(empty) =~= Seq::<Seq<char>>::empty());
                    assert(spec_write_values(Seq::<Seq<char>>::empty()) == Ok::<_, WriteFailure>(Seq::<u8>::empty()));
                    assert(data.subrange(pos, pos) =~= Seq::<u8>::empty());
                },
                _ => {
                    lemma_value_rewritten(data, pos);
                    let (name, next) = data_at(data, pos)->Ok_0;
                    lemma_records_rewritten(data, next, Some(name), read);
                },
            }
        },
        Some(name) => {
            let head = spec_write_data(name)->Ok_0;
            let start = pos - head.len();
            if name == foreign_income_name() {
                lemma_foreign_income_record(data, pos, head);
                let (incomes, next) = foreign_income_at(data, pos)->Ok_0;
                let record = RecordModel::ForeignIncome(incomes);
                lemma_records_rewritten(data, next, None, read.push(record));
                let records = records_at(data, next, None, read.push(record))->Ok_0;
                lemma_prepend_record(data, start, read, record, records, data.subrange(start, next));
            } else {
                lemma_unknown_record(data, pos, name, head);
                let (fields, next_name, next) = unknown_fields_at(data, pos, Seq::empty())->Ok_0;
                let record = RecordModel::Unknown(name, fields);
                let field_bytes = spec_write_values(fields)->Ok_0;
                lemma_records_rewritten(data, next, next_name, read.push(record));
                let records = records_at(data, next, next_name, read.push(record))->Ok_0;
                if next_name is None {
                    let tail = spec_write_values(records_values(records.subrange(read.len() + 1 as int, records.len() as int)))->Ok_0;
                    assert(tail.len() == 0);
                    assert(tail =~= Seq::<u8>::empty());
                    assert(data.subrange(pos + field_bytes.len(), pos + field_bytes.len()) =~= Seq::<u8>::empty());
                    assert(fills_to_end(data, pos + field_bytes.len(), tail));
                } else {
                    let name_bytes = spec_write_data(next_name->0)->Ok_0;
                    assert(records_start(next, next_name) == next - name_bytes.len());
                }
                lemma_prepend_record(data, start, read, record, records, head + field_bytes);
            }
        },
    }
}

/// Writing a statement that was read gives back the data it was read from, but for zero bytes at
/// its end. This holds where the data is written canonically, as writing writes it: the header in
/// ASCII, each size with four ASCII digits, each number of foreign incomes without a sign or
/// leading zeros, and each text in the bytes that it encodes to.
pub proof fn law_write_read_statement(path: Seq<char>, data: Seq<u8>, current_year: int, year: int, records: Seq<
    RecordModel,
>)
    requires
        spec_read_statement(path, data, current_year) == Ok::<_, FormatFailure>((year, records)),
        written_canonically(data, year),
    ensures
        spec_write_statement(year, records) matches Ok(bytes) && fills_to_end(data, 0, bytes),
{
    let header = spec_header(year);
    let next = header.len() as int;
    lemma_records_rewritten(data, next, None, Seq::empty());
    assert(records.subrange(0, records.len() as int) =~= records);
    let body = spec_write_values(records_values(records))->Ok_0;
    lemma_fills_concat(data, 0, ascii_bytes(header), body);
}

/// The data of a tax statement of `year` is written canonically: the header in ASCII, then
/// records whose numbers and texts are written as writing writes them.
pub open spec fn written_canonically(data: Seq<u8>, year: int) -> bool {
    let header = spec_header(year);
    &&& header.len() <= data.len()
    &&& data.subrange(0, header.len() as int) == ascii_bytes(header)
    &&& records_canonical(data, header.len() as int, None)
}

} // verus!
