pub mod declaration;
pub mod encoding;
pub mod foreign_income;
pub mod reader;
pub mod round_trip;
pub mod writer;

use vstd::prelude::*;

use crate::text;
use encoding::{decimal, digit_value, is_digit, push_signed_decimal, signed_decimal};
use crate::tax_statement;

pub use reader::{ForeignIncome, Record, TaxStatement, TaxStatementReader, UnknownRecord};

verus! {

/// A decoded value of a tax statement field.
pub trait Type: Sized {
    fn decode(data: &str) -> Self;
}

impl Type for String {
    fn decode(data: &str) -> (result: String)
        ensures
            result@ == data@,
    {
        data.to_owned()
    }
}

pub open spec fn spec_is_record_name(data: Seq<char>) -> bool {
    data.len() > 0 && data[0] == '@'
}

/// Record names start with `@`.
pub fn is_record_name(data: &str) -> (result: bool)
    ensures
        result == spec_is_record_name(data@),
{
    data.unicode_len() > 0 && data.get_char(0) == '@'
}

/// The last decimal digit of a year, with the year's sign, as Rust's `%` gives it.
pub open spec fn last_digit(year: int) -> int {
    if year >= 0 {
        year % 10
    } else {
        -((-year) % 10)
    }
}

pub open spec fn spec_extension(year: int) -> Seq<char> {
    ".dc"@ + signed_decimal(last_digit(year))
}

/// The file name extension of the tax statements of a year.
pub fn get_extension(year: i32) -> (result: String)
    ensures
        result@ == spec_extension(year as int),
{
    let mut extension = String::from_str(".dc");
    let digit: i64 = if year >= 0 {
        (year % 10) as i64
    } else {
        -((-(year as i64)) % 10)
    };
    push_signed_decimal(&mut extension, digit);
    extension
}

pub open spec fn spec_header(year: int) -> Seq<char> {
    "DLSG            Decl"@ + signed_decimal(year) + "0103FFFFFFFFFFFFFFFFFFFFFFFFFFFFFFFF"@
}

/// The header that tax statements of a year start with.
pub fn get_header(year: i32) -> (result: String)
    ensures
        result@ == spec_header(year as int),
{
    let mut header = String::from_str("DLSG            Decl");
    push_signed_decimal(&mut header, year as i64);
    header.append("0103FFFFFFFFFFFFFFFFFFFFFFFFFFFFFFFF");
    header
}

/// The last digit of the year that a file name gives: the name must end with `.dc` and an
/// ASCII digit.
pub open spec fn spec_extension_year(path: Seq<char>) -> Option<int> {
    let len = path.len();
    if len >= 4 && path.subrange(len - 4, len - 1) == ".dc"@ && is_digit(path[len - 1]) {
        Some(digit_value(path[len - 1]))
    } else {
        None
    }
}

/// Reads the last digit of a tax statement's year from its file name.
pub fn extension_year(path: &str) -> (result: Option<i32>)
    ensures
        match result {
            Some(year) => spec_extension_year(path@) == Some(year as int),
            None => spec_extension_year(path@) is None,
        },
{
    let len = path.unicode_len();
    if len < 4 {
        return None;
    }
    let suffix = text::substring(path, len - 4, len - 1);
    if !text::str_eq(suffix.as_str(), ".dc") {
        return None;
    }
    let c = path.get_char(len - 1);
    if '0' <= c && c <= '9' {
        Some((c as u32 - '0' as u32) as i32)
    } else {
        None
    }
}

/// The year that a last digit stands for, seen in `current_year`: the year in the current decade,
/// unless that is more than a year ahead, then the one in the decade before.
pub open spec fn spec_statement_year(short_year: int, current_year: int) -> int {
    let decade = current_year / 10;
    let current_short_year = current_year % 10;
    let decade = if short_year > current_short_year + 1 { decade - 1 } else { decade };
    decade * 10 + short_year
}

/// The year of a tax statement, from the last digit of it and the current year.
pub fn statement_year(short_year: i32, current_year: i32) -> (result: i32)
    requires
        0 <= short_year <= 255,
        crate::time::date::MIN_YEAR <= current_year <= crate::time::date::MAX_YEAR,
    ensures
        result == spec_statement_year(short_year as int, current_year as int),
{
    // Shift by a multiple of ten to divide a nonnegative number.
    let shifted: u64 = (current_year as i64 + 300000) as u64;
    let decade: i64 = (shifted / 10) as i64 - 30000;
    let current_short_year: i64 = (shifted % 10) as i64;
    assert(decade == current_year as int / 10 && current_short_year == current_year as int % 10) by {
        assert(shifted as int == current_year as int + 300000);
        assert((current_year as int + 300000) / 10 == current_year as int / 10 + 30000);
        assert((current_year as int + 300000) % 10 == current_year as int % 10);
    }
    let decade = if short_year as i64 > current_short_year + 1 { decade - 1 } else { decade };
    (decade * 10 + short_year as i64) as i32
}

/// The year of a statement is told right from its last digit when the statement is of one of
/// the eight years before the current one or of the current one, or of the next one unless that
/// one starts a decade.
pub proof fn law_statement_year_guess(year: int, current_year: int)
    requires
        current_year - 8 <= year <= current_year + 1,
        year == current_year + 1 ==> year % 10 != 0,
    ensures
        spec_statement_year(year % 10, current_year) == year,
{
    let decade = current_year / 10;
    let current_short = current_year % 10;
    let short = year % 10;
    let year_decade = year / 10;
    assert(current_year == decade * 10 + current_short);
    assert(year == year_decade * 10 + short);
    if short > current_short + 1 {
        assert(year_decade == decade - 1) by (nonlinear_arith)
            requires
                current_year == decade * 10 + current_short,
                year == year_decade * 10 + short,
                0 <= short < 10,
                0 <= current_short < 10,
                short > current_short + 1,
                current_year - 8 <= year <= current_year + 1,
        ;
    } else {
        assert(year_decade == decade) by (nonlinear_arith)
            requires
                current_year == decade * 10 + current_short,
                year == year_decade * 10 + short,
                0 <= short < 10,
                0 <= current_short < 10,
                short <= current_short + 1,
                current_year - 8 <= year <= current_year + 1,
                year == current_year + 1 ==> short != 0,
        ;
    }
}

/// The file name of a statement, ending in the extension of its year, gives back the last
/// digit of the year.
pub proof fn law_extension_gives_year(name: Seq<char>, year: int)
    requires
        year >= 0,
    ensures
        spec_extension_year(name + spec_extension(year)) == Some(year % 10),
{
    reveal_strlit(".dc");
    let digit = year % 10;
    super::tax_statement::encoding::lemma_decimal_len(digit as nat);
    let d = decimal(digit as nat);
    assert(d =~= seq![encoding::digit_char(digit)]);
    let path = name + spec_extension(year);
    let len = path.len();
    assert(path.subrange(len - 4, len - 1) =~= ".dc"@);
    assert(path[len - 1] == encoding::digit_char(digit));
}

} // verus!
