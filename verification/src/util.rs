use vstd::prelude::*;

use crate::currency::Cash;
use crate::decimal::{self, Decimal, is_normalization_of, spec_round_half_up, spec_trunc_to, MAX_SCALE};
use crate::error::Error;

verus! {

/// Restrictions a decimal value may be subject to.
#[derive(Clone, Copy, Debug, PartialEq, Eq, Structural)]
pub enum DecimalRestrictions {
    No,
    Zero,
    NonZero,
    NegativeOrZero,
    PositiveOrZero,
    StrictlyPositive,
    StrictlyNegative,
}

pub open spec fn complies(value: Decimal, restrictions: DecimalRestrictions) -> bool {
    match restrictions {
        DecimalRestrictions::No => true,
        DecimalRestrictions::Zero => value.mantissa == 0,
        DecimalRestrictions::NonZero => value.mantissa != 0,
        DecimalRestrictions::NegativeOrZero => value.mantissa <= 0,
        DecimalRestrictions::PositiveOrZero => value.mantissa >= 0,
        DecimalRestrictions::StrictlyPositive => value.mantissa > 0,
        DecimalRestrictions::StrictlyNegative => value.mantissa < 0,
    }
}

/// How to drop extra fractional digits.
#[derive(Clone, Copy, Debug, PartialEq, Eq, Structural)]
pub enum RoundingMethod {
    /// To the nearest, halves away from zero.
    Round,
    /// Towards zero.
    Truncate,
}

/// `value` rounded to at most `points` fractional digits, with trailing zeros stripped.
pub open spec fn is_rounding_of(result: Decimal, value: Decimal, points: nat, method: RoundingMethod) -> bool {
    is_normalization_of(result, match method {
        RoundingMethod::Round => spec_round_half_up(value, points),
        RoundingMethod::Truncate => spec_trunc_to(value, points),
    })
}

/// The result of rounding `value` to `points` fractional digits (halves away from zero) and
/// stripping trailing zeros.
pub open spec fn spec_round(value: Decimal, points: nat) -> Decimal {
    choose|result: Decimal| is_rounding_of(result, value, points, RoundingMethod::Round)
}

pub fn parse_decimal(string: &str, restrictions: DecimalRestrictions) -> (result: Result<Decimal, Error>)
    ensures
        match decimal::rust_decimal_parse(string@) {
            None => result matches Err(Error::InvalidDecimal(text)) && text@ == string@,
            Some(value) => if complies(value, restrictions) {
                result == Ok::<Decimal, Error>(value)
            } else {
                result matches Err(Error::RestrictedDecimal(v)) && v == value
            },
        },
{
    match decimal::parse(string) {
        Some(value) => validate_decimal(value, restrictions),
        None => Err(Error::InvalidDecimal(string.to_owned())),
    }
}

pub fn validate_decimal(value: Decimal, restrictions: DecimalRestrictions) -> (result: Result<Decimal, Error>)
    ensures
        complies(value, restrictions) ==> result == Ok::<Decimal, Error>(value),
        !complies(value, restrictions) ==> (result matches Err(Error::RestrictedDecimal(v)) && v == value),
{
    let valid = match restrictions {
        DecimalRestrictions::No => true,
        DecimalRestrictions::Zero => value.is_zero(),
        DecimalRestrictions::NonZero => !value.is_zero(),
        DecimalRestrictions::NegativeOrZero => value.is_sign_negative() || value.is_zero(),
        DecimalRestrictions::PositiveOrZero => value.is_sign_positive() || value.is_zero(),
        DecimalRestrictions::StrictlyPositive => value.is_sign_positive() && !value.is_zero(),
        DecimalRestrictions::StrictlyNegative => value.is_sign_negative() && !value.is_zero(),
    };

    if !valid {
        return Err(Error::RestrictedDecimal(value));
    }

    Ok(value)
}

pub fn validate_named_decimal(name: &str, value: Decimal, restrictions: DecimalRestrictions) -> (result: Result<Decimal, Error>)
    ensures
        complies(value, restrictions) ==> result == Ok::<Decimal, Error>(value),
        !complies(value, restrictions) ==> (result matches Err(Error::InvalidNamedDecimal(n, v)) && n@ == name@
            && v == value),
{
    match validate_decimal(value, restrictions) {
        Ok(value) => Ok(value),
        Err(_) => Err(Error::InvalidNamedDecimal(name.to_owned(), value)),
    }
}

pub fn validate_named_cash(
    name: &str, currency: &str, value: Decimal, restrictions: DecimalRestrictions,
) -> (result: Result<Cash, Error>)
    ensures
        complies(value, restrictions) ==> (result matches Ok(cash) && cash.currency@ == currency@ && cash.amount == value),
        !complies(value, restrictions) ==> (result matches Err(Error::InvalidNamedDecimal(n, v)) && n@ == name@
            && v == value),
{
    let value = validate_named_decimal(name, value, restrictions)?;
    Ok(Cash::new(currency, value))
}

/// The number of fractional digits of a number (zero for zero).
pub fn decimal_precision(value: Decimal) -> (result: u32)
    requires
        value.wf(),
    ensures
        result == if value.mantissa == 0 { 0 } else { value.scale },
{
    value.fract().scale()
}

pub fn round(value: Decimal, points: u32) -> (result: Decimal)
    requires
        value.wf(),
    ensures
        is_rounding_of(result, value, points as nat, RoundingMethod::Round),
        result == spec_round(value, points as nat),
        result.wf(),
{
    let result = round_with(value, points, RoundingMethod::Round);
    proof {
        lemma_rounding_unique(result, value, points as nat, RoundingMethod::Round);
    }
    result
}

pub fn round_with(value: Decimal, points: u32, method: RoundingMethod) -> (result: Decimal)
    requires
        value.wf(),
    ensures
        is_rounding_of(result, value, points as nat, method),
        result.wf(),
{
    let mut round_value = match method {
        RoundingMethod::Round => value.round_half_up(points),
        RoundingMethod::Truncate => {
            let mut value = value;
            let scale = value.scale();

            if scale > points {
                value = value.with_scale(scale - points);
                value = value.trunc();
                value = value.with_scale(points);
            }

            value
        },
    };

    if round_value.is_zero() && round_value.is_sign_negative() {
        round_value = round_value.neg();
    }

    round_value.normalize()
}

/// A number has only one normalized form.
pub proof fn lemma_normalization_unique(y: Decimal, z: Decimal, x: Decimal)
    requires
        is_normalization_of(y, x),
        is_normalization_of(z, x),
    ensures
        y == z,
{
    if x.mantissa != 0 {
        if y.scale < z.scale {
            lemma_factor_of_ten(y.mantissa as int, z.mantissa as int, (z.scale - y.scale) as nat, (x.scale - z.scale) as nat);
        } else if z.scale < y.scale {
            lemma_factor_of_ten(z.mantissa as int, y.mantissa as int, (y.scale - z.scale) as nat, (x.scale - y.scale) as nat);
        } else {
            lemma_pow10_positive((x.scale - y.scale) as nat);
            assert(y.mantissa == z.mantissa) by (nonlinear_arith)
                requires
                    y.mantissa * decimal::pow10((x.scale - y.scale) as nat) == x.mantissa,
                    z.mantissa * decimal::pow10((x.scale - y.scale) as nat) == x.mantissa,
                    decimal::pow10((x.scale - y.scale) as nat) > 0;
        }
    }
}

/// The normalized form of a number.
pub open spec fn normalized(x: Decimal) -> Decimal {
    choose|y: Decimal| is_normalization_of(y, x)
}

/// A normalization of a number is its normalized form.
pub proof fn lemma_normalized(y: Decimal, x: Decimal)
    requires
        is_normalization_of(y, x),
    ensures
        normalized(x) == y,
{
    let z = normalized(x);
    assert(is_normalization_of(z, x));
    lemma_normalization_unique(y, z, x);
}

pub proof fn lemma_pow10_positive(n: nat)
    ensures
        decimal::pow10(n) > 0,
    decreases n,
{
    if n > 0 {
        lemma_pow10_positive((n - 1) as nat);
    }
}

pub proof fn lemma_pow10_add(a: nat, b: nat)
    ensures
        decimal::pow10(a + b) == decimal::pow10(a) * decimal::pow10(b),
    decreases a,
{
    if a > 0 {
        lemma_pow10_add((a - 1) as nat, b);
        assert(decimal::pow10(a + b) == 10 * decimal::pow10((a - 1 + b) as nat));
        assert(10 * (decimal::pow10((a - 1) as nat) * decimal::pow10(b)) == (10 * decimal::pow10((a - 1) as nat)) * decimal::pow10(b))
            by (nonlinear_arith);
    }
}

/// If `lo * 10^k * 10^rest == hi * 10^rest` with `k > 0`, then `hi` is a multiple of ten.
proof fn lemma_factor_of_ten(lo: int, hi: int, k: nat, rest: nat)
    requires
        k > 0,
        lo * decimal::pow10(k + rest) == hi * decimal::pow10(rest),
    ensures
        hi % 10 == 0,
{
    lemma_pow10_add(k, rest);
    lemma_pow10_positive(rest);
    let p = decimal::pow10((k - 1) as nat);
    assert(decimal::pow10(k) == 10 * p);
    let r = decimal::pow10(rest);
    assert(hi == (lo * p) * 10) by (nonlinear_arith)
        requires
            lo * (10 * p * r) == hi * r,
            r > 0;
    vstd::arithmetic::div_mod::lemma_mod_multiples_basic(lo * p, 10);
}

/// Rounding gives one result.
pub proof fn lemma_rounding_unique(result: Decimal, value: Decimal, points: nat, method: RoundingMethod)
    requires
        is_rounding_of(result, value, points, method),
    ensures
        method == RoundingMethod::Round ==> result == spec_round(value, points),
{
    if method == RoundingMethod::Round {
        let other = spec_round(value, points);
        assert(is_rounding_of(other, value, points, method));
        lemma_normalization_unique(result, other, spec_round_half_up(value, points));
    }
}

/// Normalizing a number is rounding it at the largest possible precision.
pub proof fn lemma_normalization_is_rounding(value: Decimal)
    requires
        value.wf(),
    ensures
        forall|result: Decimal| is_normalization_of(result, value) ==> result == spec_round(value, MAX_SCALE as nat),
{
    assert(spec_round_half_up(value, MAX_SCALE as nat) == value);
    assert forall|result: Decimal| is_normalization_of(result, value) implies result == spec_round(value, MAX_SCALE as nat) by {
        let other = spec_round(value, MAX_SCALE as nat);
        assert(is_rounding_of(result, value, MAX_SCALE as nat, RoundingMethod::Round));
        lemma_normalization_unique(result, other, value);
    }
}

} // verus!
