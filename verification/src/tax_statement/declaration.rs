use vstd::prelude::*;
use vstd::string::*;

use crate::text;
use super::encoding::{push_signed_decimal, signed_decimal, spec_parse_unsigned, parse_unsigned};
use super::last_digit;

verus! {

pub open spec fn spec_extension(year: int) -> Seq<char> {
    ".de"@ + signed_decimal(last_digit(year))
}

/// The file name extension of the tax declarations of a year.
pub fn get_extension(year: i32) -> (result: String)
    ensures
        result@ == spec_extension(year as int),
{
    let mut extension = String::from_str(".de");
    let digit: i64 = if year >= 0 {
        (year % 10) as i64
    } else {
        -((-(year as i64)) % 10)
    };
    push_signed_decimal(&mut extension, digit);
    extension
}

/// The number that a file name extension gives: `de` and a number up to 255.
pub open spec fn spec_extension_year(extension: Seq<char>) -> Option<int> {
    if extension.len() >= 2 && extension.subrange(0, 2) == "de"@ {
        match spec_parse_unsigned(extension.skip(2)) {
            Some(n) => if n <= 255 {
                Some(n)
            } else {
                None
            },
            None => None,
        }
    } else {
        None
    }
}

/// Reads the short year of a tax declaration from its file name extension (without the dot).
pub fn extension_year(extension: &str) -> (result: Option<i32>)
    ensures
        match spec_extension_year(extension@) {
            Some(year) => result == Some(year as i32),
            None => result is None,
        },
{
    if !text::starts_with(extension, "de") {
        proof {
            reveal_strlit("de");
        }
        return None;
    }
    proof {
        reveal_strlit("de");
    }
    let rest = text::substring(extension, 2, extension.unicode_len());
    assert(rest@ =~= extension@.skip(2));
    match parse_unsigned(rest.as_str()) {
        Some(n) => if n <= 255 {
            Some(n as i32)
        } else {
            None
        },
        None => None,
    }
}

/// The number whose binary digits are the decimal digits of `n`, if these are all 0 or 1.
pub open spec fn bits_of_decimal(n: nat) -> Option<nat>
    decreases n,
{
    if n == 0 {
        Some(0)
    } else if n % 10 > 1 {
        None
    } else {
        match bits_of_decimal(n / 10) {
            Some(bits) => Some(bits * 2 + n % 10),
            None => None,
        }
    }
}

/// The number whose decimal digits are the binary digits of `bits`.
pub open spec fn decimal_of_bits(bits: nat) -> nat
    decreases bits,
{
    if bits == 0 {
        0
    } else {
        decimal_of_bits(bits / 2) * 10 + bits % 2
    }
}

/// The flag of the foreign income section among a declaration's enabled sections.
pub const FOREIGN_INCOME_FLAG: u64 = 2;

/// The enabled sections with the foreign income one, written as a declaration writes them: a
/// bitmask whose binary digits are written as a decimal number. `None` where the value isn't
/// such a bitmask of eight bits.
pub open spec fn spec_enable_foreign_income(value: nat) -> Option<nat> {
    match bits_of_decimal(value) {
        None => None,
        Some(bits) => if bits > 255 {
            None
        } else if (bits / 2) % 2 == 1 {
            Some(value)
        } else {
            Some(decimal_of_bits(bits + FOREIGN_INCOME_FLAG as nat))
        },
    }
}

pub open spec fn two_pow(k: nat) -> nat
    decreases k,
{
    if k == 0 {
        1
    } else {
        2 * two_pow((k - 1) as nat)
    }
}

pub open spec fn ten_pow(k: nat) -> nat
    decreases k,
{
    if k == 0 {
        1
    } else {
        10 * ten_pow((k - 1) as nat)
    }
}

proof fn lemma_ten_pow_positive(k: nat)
    ensures
        ten_pow(k) >= 1,
    decreases k,
{
    if k > 0 {
        lemma_ten_pow_positive((k - 1) as nat);
    }
}

proof fn lemma_decimal_of_bits_bound(bits: nat, k: nat)
    requires
        bits < two_pow(k),
    ensures
        decimal_of_bits(bits) < ten_pow(k),
    decreases k,
{
    if bits > 0 {
        assert(k > 0);
        assert(two_pow(k) == 2 * two_pow((k - 1) as nat));
        assert(bits / 2 < two_pow((k - 1) as nat));
        lemma_decimal_of_bits_bound(bits / 2, (k - 1) as nat);
        assert(ten_pow(k) == 10 * ten_pow((k - 1) as nat));
        assert(decimal_of_bits(bits) == decimal_of_bits(bits / 2) * 10 + bits % 2);
    } else {
        lemma_ten_pow_positive(k);
    }
}

/// The binary digits of a decimal number, if they make a byte.
fn byte_of_decimal(n: u64) -> (result: Option<u64>)
    ensures
        result == (match bits_of_decimal(n as nat) {
            Some(bits) => if bits <= 255 {
                Some(bits as u64)
            } else {
                None
            },
            None => None,
        }),
    decreases n,
{
    if n == 0 {
        return Some(0);
    }
    let digit = n % 10;
    if digit > 1 {
        return None;
    }
    match byte_of_decimal(n / 10) {
        Some(high) => {
            let bits = high * 2 + digit;
            if bits <= 255 {
                Some(bits)
            } else {
                None
            }
        },
        None => None,
    }
}

/// The decimal number whose digits are the binary digits of a byte.
fn decimal_of_byte(bits: u64) -> (result: u64)
    requires
        bits < 256,
    ensures
        result == decimal_of_bits(bits as nat),
    decreases bits,
{
    if bits == 0 {
        return 0;
    }
    proof {
        reveal_with_fuel(two_pow, 9);
        reveal_with_fuel(ten_pow, 9);
        assert(two_pow(8) == 256);
        assert(ten_pow(8) == 100000000);
        lemma_decimal_of_bits_bound((bits / 2) as nat, 8);
    }
    decimal_of_byte(bits / 2) * 10 + bits % 2
}

/// Marks the foreign income section enabled in a declaration's bitmask of enabled sections,
/// written as decimal digits; `None` where the value isn't such a bitmask.
pub fn enable_foreign_income(value: u64) -> (result: Option<u64>)
    ensures
        match spec_enable_foreign_income(value as nat) {
            Some(enabled) => result == Some(enabled as u64) && enabled <= u64::MAX,
            None => result is None,
        },
{
    let bits = match byte_of_decimal(value) {
        Some(bits) => bits,
        None => return None,
    };
    if (bits / 2) % 2 == 1 {
        return Some(value);
    }
    let flagged = bits + FOREIGN_INCOME_FLAG;
    assert(flagged < 256);
    Some(decimal_of_byte(flagged))
}

proof fn lemma_bits_round_trip(bits: nat)
    ensures
        bits_of_decimal(decimal_of_bits(bits)) == Some(bits),
    decreases bits,
{
    if bits > 0 {
        lemma_bits_round_trip(bits / 2);
        let high = decimal_of_bits(bits / 2);
        let n = decimal_of_bits(bits);
        assert(n == high * 10 + bits % 2);
        assert(n % 10 == bits % 2 && n / 10 == high) by (nonlinear_arith)
            requires n == high * 10 + bits % 2, bits % 2 <= 1;
        assert(n != 0);
    }
}

/// Enabling the foreign income section a second time changes nothing.
pub proof fn law_enable_foreign_income_idempotent(value: nat)
    ensures
        spec_enable_foreign_income(value) matches Some(enabled) ==> spec_enable_foreign_income(enabled) == Some(
            enabled),
{
    if let Some(bits) = bits_of_decimal(value) {
        if bits <= 255 && (bits / 2) % 2 != 1 {
            let flagged = bits + FOREIGN_INCOME_FLAG as nat;
            lemma_bits_round_trip(flagged);
            assert((flagged / 2) % 2 == 1);
        }
    }
}

} // verus!
