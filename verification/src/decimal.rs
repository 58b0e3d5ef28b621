use vstd::prelude::*;

verus! {

/// The largest magnitude of a decimal's mantissa (96 bits).
pub const MAX_MANTISSA: i128 = 79228162514264337593543950335;
/// The largest number of fractional digits a decimal can have.
pub const MAX_SCALE: u32 = 28;

pub open spec fn pow10(n: nat) -> int
    decreases n,
{
    if n == 0 { 1 } else { 10 * pow10((n - 1) as nat) }
}

pub open spec fn abs(x: int) -> int {
    if x < 0 { -x } else { x }
}

/// A decimal number `mantissa / 10^scale`.
#[derive(Clone, Copy, Debug, PartialEq, Eq, Structural)]
pub struct Decimal {
    pub mantissa: i128,
    pub scale: u32,
}

/// `x` rounded to `dp` fractional digits, halves away from zero.
pub open spec fn spec_round_half_up(x: Decimal, dp: nat) -> Decimal {
    if x.scale <= dp {
        x
    } else {
        let p = pow10((x.scale - dp) as nat);
        let a = abs(x.mantissa as int);
        let q = a / p + if (a % p) * 2 >= p { 1int } else { 0int };
        Decimal { mantissa: (if x.mantissa < 0 { -q } else { q }) as i128, scale: dp as u32 }
    }
}

/// The integral part of `x` (rounded towards zero).
pub open spec fn spec_trunc(x: Decimal) -> Decimal {
    let q = abs(x.mantissa as int) / pow10(x.scale as nat);
    Decimal { mantissa: (if x.mantissa < 0 { -q } else { q }) as i128, scale: 0 }
}

/// `x` with its fractional digits beyond `dp` dropped (rounded towards zero).
pub open spec fn spec_trunc_to(x: Decimal, dp: nat) -> Decimal {
    if x.scale <= dp {
        x
    } else {
        let q = abs(x.mantissa as int) / pow10((x.scale - dp) as nat);
        Decimal { mantissa: (if x.mantissa < 0 { -q } else { q }) as i128, scale: dp as u32 }
    }
}

/// The fractional part of `x` as `rust_decimal` computes it: `x - trunc(x)`, which keeps the
/// scale of `x` unless `x` is zero.
pub open spec fn spec_fract(x: Decimal) -> Decimal {
    let r = abs(x.mantissa as int) % pow10(x.scale as nat);
    Decimal {
        mantissa: (if x.mantissa < 0 { -r } else { r }) as i128,
        scale: if x.mantissa == 0 { 0 } else { x.scale },
    }
}

/// `y` is `x` with the trailing zeros of its fractional part stripped.
pub open spec fn is_normalization_of(y: Decimal, x: Decimal) -> bool {
    if x.mantissa == 0 {
        y == (Decimal { mantissa: 0, scale: 0 })
    } else {
        &&& y.scale <= x.scale
        &&& y.mantissa * pow10((x.scale - y.scale) as nat) == x.mantissa
        &&& (y.scale == 0 || y.mantissa % 10 != 0)
    }
}

/// The mantissa of `x` when it is written with `scale` fractional digits.
pub open spec fn scaled_to(x: Decimal, scale: nat) -> int {
    x.mantissa * pow10((scale - x.scale) as nat)
}

pub open spec fn max_scale(a: Decimal, b: Decimal) -> nat {
    if a.scale >= b.scale { a.scale as nat } else { b.scale as nat }
}

/// Both operands are small enough for `rust_decimal` to add or subtract them exactly, keeping the
/// larger scale.
pub open spec fn exact_sum_range(a: Decimal, b: Decimal) -> bool {
    &&& a.mantissa != 0 && b.mantissa != 0
    &&& abs(a.mantissa as int) < 0x1_0000_0000_0000_0000
    &&& abs(b.mantissa as int) < 0x1_0000_0000_0000_0000
    &&& abs(a.scale - b.scale) <= 19
}

/// What is known of `rust_decimal`'s checked sum of `a` and `b` besides its name.
pub open spec fn sum_facts(a: Decimal, b: Decimal, result: Option<Decimal>) -> bool {
    &&& result matches Some(sum) ==> sum.wf()
    &&& a.mantissa == 0 ==> result == Some(b)
    &&& a.mantissa != 0 && b.mantissa == 0 ==> result == Some(a)
    &&& a.mantissa >= 0 && b.mantissa >= 0 && result is Some ==> result->0.mantissa >= 0
    &&& abs(a.mantissa as int) < 0x8000_0000_0000_0000_0000_0000 && abs(b.mantissa as int)
        < 0x8000_0000_0000_0000_0000_0000 ==> result is Some
    &&& exact_sum_range(a, b) && abs(scaled_to(a, max_scale(a, b)) + scaled_to(b, max_scale(a, b)))
        <= MAX_MANTISSA ==> result == Some(Decimal {
            mantissa: (scaled_to(a, max_scale(a, b)) + scaled_to(b, max_scale(a, b))) as i128,
            scale: max_scale(a, b) as u32,
        })
}

/// What is known of `rust_decimal`'s checked difference of `a` and `b` besides its name.
pub open spec fn difference_facts(a: Decimal, b: Decimal, result: Option<Decimal>) -> bool {
    &&& result matches Some(difference) ==> difference.wf()
    &&& a.mantissa == 0 ==> result == Some(b.spec_neg())
    &&& a.mantissa != 0 && b.mantissa == 0 ==> result == Some(a)
    &&& a == b ==> result == Some(Decimal { mantissa: 0, scale: a.scale })
    &&& !a.spec_less(b) && result is Some ==> result->0.mantissa >= 0
    &&& abs(a.mantissa as int) < 0x8000_0000_0000_0000_0000_0000 && abs(b.mantissa as int)
        < 0x8000_0000_0000_0000_0000_0000 ==> result is Some
    &&& exact_sum_range(a, b) && abs(scaled_to(a, max_scale(a, b)) - scaled_to(b, max_scale(a, b)))
        <= MAX_MANTISSA ==> result == Some(Decimal {
            mantissa: (scaled_to(a, max_scale(a, b)) - scaled_to(b, max_scale(a, b))) as i128,
            scale: max_scale(a, b) as u32,
        })
}

/// What is known of `rust_decimal`'s checked product of `a` and `b` besides its name.
pub open spec fn product_facts(a: Decimal, b: Decimal, result: Option<Decimal>) -> bool {
    &&& result matches Some(product) ==> product.wf()
    &&& a.mantissa == 0 || b.mantissa == 0 ==> result == Some(Decimal { mantissa: 0, scale: 0 })
    &&& abs(a.mantissa as int) * abs(b.mantissa as int) <= MAX_MANTISSA ==> result is Some
    &&& abs(a.mantissa as int) < 0x1_0000_0000 && abs(b.mantissa as int) < 0x1_0000_0000
        && a.scale + b.scale <= MAX_SCALE && a.mantissa != 0 && b.mantissa != 0
        ==> result == Some(Decimal {
            mantissa: (a.mantissa * b.mantissa) as i128,
            scale: (a.scale + b.scale) as u32,
        })
}

/// What is known of `rust_decimal`'s checked quotient of `a` and `b` besides its name.
pub open spec fn quotient_facts(a: Decimal, b: Decimal, result: Option<Decimal>) -> bool {
    &&& result matches Some(quotient) ==> quotient.wf()
    &&& b.mantissa == 0 ==> result is None
    &&& a.mantissa == 0 && b.mantissa != 0 ==> result == Some(Decimal { mantissa: 0, scale: 0 })
    &&& a.mantissa != 0 && b.scale == 0 && 0 < abs(b.mantissa as int) < 0x1_0000_0000 && (a.mantissa as int)
        % (b.mantissa as int) == 0 ==> result == Some(Decimal {
            mantissa: ((a.mantissa as int) / (b.mantissa as int)) as i128,
            scale: a.scale,
        })
}

/// `rust_decimal`'s checked sums and quotients of valid numbers have, for all operands, the
/// properties that the trusted contracts of their calls state.
pub open spec fn sums_and_quotients_obey_facts() -> bool {
    &&& forall|a: Decimal, b: Decimal| #![trigger rust_decimal_checked_add(a, b)] a.wf() && b.wf() ==> sum_facts(
        a,
        b,
        rust_decimal_checked_add(a, b),
    )
    &&& forall|a: Decimal, b: Decimal| #![trigger rust_decimal_checked_div(a, b)] a.wf() && b.wf() ==> quotient_facts(
        a,
        b,
        rust_decimal_checked_div(a, b),
    )
}

/// What `rust_decimal::Decimal::checked_add` gives.
pub uninterp spec fn rust_decimal_checked_add(a: Decimal, b: Decimal) -> Option<Decimal>;

/// What `rust_decimal::Decimal::checked_sub` gives.
pub uninterp spec fn rust_decimal_checked_sub(a: Decimal, b: Decimal) -> Option<Decimal>;

/// What `rust_decimal::Decimal::checked_mul` gives.
pub uninterp spec fn rust_decimal_checked_mul(a: Decimal, b: Decimal) -> Option<Decimal>;

/// What `rust_decimal::Decimal::checked_div` gives.
pub uninterp spec fn rust_decimal_checked_div(a: Decimal, b: Decimal) -> Option<Decimal>;

/// What `<rust_decimal::Decimal as FromStr>::from_str` gives.
pub uninterp spec fn rust_decimal_parse(text: Seq<char>) -> Option<Decimal>;

impl Decimal {
    pub open spec fn wf(self) -> bool {
        -MAX_MANTISSA <= self.mantissa <= MAX_MANTISSA && self.scale <= MAX_SCALE
    }

    /// `self < other` as numbers.
    pub open spec fn spec_less(self, other: Decimal) -> bool {
        self.mantissa * pow10(other.scale as nat) < other.mantissa * pow10(self.scale as nat)
    }

    /// `self == other` as numbers (the scales may differ).
    pub open spec fn spec_same_value(self, other: Decimal) -> bool {
        self.mantissa * pow10(other.scale as nat) == other.mantissa * pow10(self.scale as nat)
    }

    pub open spec fn spec_zero() -> Decimal {
        Decimal { mantissa: 0, scale: 0 }
    }

    pub open spec fn spec_is_zero(self) -> bool {
        self.mantissa == 0
    }

    pub open spec fn spec_is_negative(self) -> bool {
        self.mantissa < 0
    }

    pub open spec fn spec_neg(self) -> Decimal {
        Decimal { mantissa: -self.mantissa as i128, scale: self.scale }
    }

    pub open spec fn spec_min(self, other: Decimal) -> Decimal {
        if other.spec_less(self) { other } else { self }
    }

    pub open spec fn spec_max(self, other: Decimal) -> Decimal {
        if other.spec_less(self) { self } else { other }
    }

    pub fn zero() -> (result: Decimal)
        ensures
            result == (Decimal { mantissa: 0, scale: 0 }),
            result.wf(),
    {
        Decimal { mantissa: 0, scale: 0 }
    }

    /// `mantissa / 10^scale`.
    pub fn new(mantissa: i64, scale: u32) -> (result: Decimal)
        requires
            scale <= MAX_SCALE,
        ensures
            result == (Decimal { mantissa: mantissa as i128, scale }),
            result.wf(),
    {
        Decimal { mantissa: mantissa as i128, scale }
    }

    /// An integer as a decimal.
    pub fn from_int(value: i64) -> (result: Decimal)
        ensures
            result == (Decimal { mantissa: value as i128, scale: 0 }),
            result.wf(),
    {
        Decimal { mantissa: value as i128, scale: 0 }
    }

    pub fn is_zero(&self) -> (result: bool)
        ensures
            result == self.spec_is_zero(),
    {
        self.mantissa == 0
    }

    pub fn is_sign_negative(&self) -> (result: bool)
        ensures
            result == self.spec_is_negative(),
    {
        self.mantissa < 0
    }

    pub fn is_sign_positive(&self) -> (result: bool)
        ensures
            result == !self.spec_is_negative(),
    {
        self.mantissa >= 0
    }

    pub fn scale(&self) -> (result: u32)
        ensures
            result == self.scale,
    {
        self.scale
    }

    pub fn neg(&self) -> (result: Decimal)
        requires
            self.wf(),
        ensures
            result == self.spec_neg(),
            result.wf(),
    {
        Decimal { mantissa: -self.mantissa, scale: self.scale }
    }

    /// Keeps the mantissa and gives it another scale.
    pub fn with_scale(&self, scale: u32) -> (result: Decimal)
        requires
            scale <= MAX_SCALE,
            self.wf(),
        ensures
            result == (Decimal { mantissa: self.mantissa, scale }),
            result.wf(),
    {
        Decimal { mantissa: self.mantissa, scale }
    }

    /// Numeric comparison, by `rust_decimal`.
    pub fn less_than(&self, other: &Decimal) -> (result: bool)
        requires
            self.wf(),
            other.wf(),
        ensures
            result == self.spec_less(*other),
    {
        less_with_rust_decimal(*self, *other)
    }

    pub fn less_or_equal(&self, other: &Decimal) -> (result: bool)
        requires
            self.wf(),
            other.wf(),
        ensures
            result == !other.spec_less(*self),
    {
        !less_with_rust_decimal(*other, *self)
    }

    /// Numeric equality (`1.0` equals `1.00`), by `rust_decimal`.
    pub fn same_value(&self, other: &Decimal) -> (result: bool)
        requires
            self.wf(),
            other.wf(),
        ensures
            result == self.spec_same_value(*other),
    {
        equal_with_rust_decimal(*self, *other)
    }

    /// The smaller of two numbers (the first one if they are equal).
    pub fn min(self, other: Decimal) -> (result: Decimal)
        requires
            self.wf(),
            other.wf(),
        ensures
            result == self.spec_min(other),
            result.wf(),
    {
        if other.less_than(&self) { other } else { self }
    }

    /// The larger of two numbers (the second one if they are equal).
    pub fn max(self, other: Decimal) -> (result: Decimal)
        requires
            self.wf(),
            other.wf(),
        ensures
            result == self.spec_max(other),
            result.wf(),
    {
        if other.less_than(&self) { self } else { other }
    }

    pub fn checked_add(self, other: Decimal) -> (result: Option<Decimal>)
        requires
            self.wf(),
            other.wf(),
        ensures
            result == rust_decimal_checked_add(self, other),
            sum_facts(self, other, result),
    {
        checked_add_with_rust_decimal(self, other)
    }

    pub fn checked_sub(self, other: Decimal) -> (result: Option<Decimal>)
        requires
            self.wf(),
            other.wf(),
        ensures
            result == rust_decimal_checked_sub(self, other),
            difference_facts(self, other, result),
    {
        checked_sub_with_rust_decimal(self, other)
    }

    pub fn checked_mul(self, other: Decimal) -> (result: Option<Decimal>)
        requires
            self.wf(),
            other.wf(),
        ensures
            result == rust_decimal_checked_mul(self, other),
            product_facts(self, other, result),
    {
        checked_mul_with_rust_decimal(self, other)
    }

    pub fn checked_div(self, other: Decimal) -> (result: Option<Decimal>)
        requires
            self.wf(),
            other.wf(),
        ensures
            result == rust_decimal_checked_div(self, other),
            quotient_facts(self, other, result),
    {
        checked_div_with_rust_decimal(self, other)
    }

    /// `self + other`; the sum must be representable.
    pub fn plus(self, other: Decimal) -> (result: Decimal)
        requires
            self.wf(),
            other.wf(),
            rust_decimal_checked_add(self, other) is Some,
        ensures
            Some(result) == rust_decimal_checked_add(self, other),
            sum_facts(self, other, Some(result)),
            result.wf(),
    {
        match checked_add_with_rust_decimal(self, other) {
            Some(sum) => sum,
            None => self,
        }
    }

    /// `self - other`; the difference must be representable.
    pub fn minus(self, other: Decimal) -> (result: Decimal)
        requires
            self.wf(),
            other.wf(),
            rust_decimal_checked_sub(self, other) is Some,
        ensures
            Some(result) == rust_decimal_checked_sub(self, other),
            difference_facts(self, other, Some(result)),
            result.wf(),
    {
        match checked_sub_with_rust_decimal(self, other) {
            Some(difference) => difference,
            None => self,
        }
    }

    /// `self * other`; the product must be representable.
    pub fn times(self, other: Decimal) -> (result: Decimal)
        requires
            self.wf(),
            other.wf(),
            rust_decimal_checked_mul(self, other) is Some,
        ensures
            Some(result) == rust_decimal_checked_mul(self, other),
            product_facts(self, other, Some(result)),
            result.wf(),
    {
        match checked_mul_with_rust_decimal(self, other) {
            Some(product) => product,
            None => self,
        }
    }

    /// `self / other`; the divisor must not be zero and the quotient must be representable.
    pub fn divided_by(self, other: Decimal) -> (result: Decimal)
        requires
            self.wf(),
            other.wf(),
            rust_decimal_checked_div(self, other) is Some,
        ensures
            Some(result) == rust_decimal_checked_div(self, other),
            quotient_facts(self, other, Some(result)),
            result.wf(),
    {
        match checked_div_with_rust_decimal(self, other) {
            Some(quotient) => quotient,
            None => self,
        }
    }

    /// Rounds to `dp` fractional digits, halves away from zero.
    pub fn round_half_up(&self, dp: u32) -> (result: Decimal)
        requires
            self.wf(),
        ensures
            result == spec_round_half_up(*self, dp as nat),
            result.wf(),
    {
        round_dp_with_rust_decimal(*self, dp)
    }

    /// The integral part (rounded towards zero).
    pub fn trunc(&self) -> (result: Decimal)
        requires
            self.wf(),
        ensures
            result == spec_trunc(*self),
            result.wf(),
    {
        trunc_with_rust_decimal(*self)
    }

    /// The fractional part.
    pub fn fract(&self) -> (result: Decimal)
        requires
            self.wf(),
        ensures
            result == spec_fract(*self),
            result.wf(),
    {
        fract_with_rust_decimal(*self)
    }

    /// The same number with the trailing zeros of its fractional part stripped.
    pub fn normalize(&self) -> (result: Decimal)
        requires
            self.wf(),
        ensures
            is_normalization_of(result, *self),
            result.wf(),
    {
        normalize_with_rust_decimal(*self)
    }
}

/// Calls `<rust_decimal::Decimal as PartialOrd>::lt`: numeric comparison of the two values.
#[verifier::external_body]
fn less_with_rust_decimal(a: Decimal, b: Decimal) -> (result: bool)
    requires
        a.wf(),
        b.wf(),
    ensures
        result == a.spec_less(b),
{
    rust_decimal::Decimal::from_i128_with_scale(a.mantissa, a.scale)
        < rust_decimal::Decimal::from_i128_with_scale(b.mantissa, b.scale)
}

/// Calls `<rust_decimal::Decimal as PartialEq>::eq`: numeric equality of the two values.
#[verifier::external_body]
fn equal_with_rust_decimal(a: Decimal, b: Decimal) -> (result: bool)
    requires
        a.wf(),
        b.wf(),
    ensures
        result == a.spec_same_value(b),
{
    rust_decimal::Decimal::from_i128_with_scale(a.mantissa, a.scale)
        == rust_decimal::Decimal::from_i128_with_scale(b.mantissa, b.scale)
}

/// Calls `rust_decimal::Decimal::checked_add`. Claims: the result is named; adding zero gives
/// the other operand; the sum of nonnegative numbers is nonnegative; operands below 2^95 in magnitude can't overflow; nonzero operands below
/// 2^64 whose scales differ by at most 19 are added exactly at the larger scale when the exact
/// sum fits in 96 bits.
#[verifier::external_body]
fn checked_add_with_rust_decimal(a: Decimal, b: Decimal) -> (result: Option<Decimal>)
    requires
        a.wf(),
        b.wf(),
    ensures
        result == rust_decimal_checked_add(a, b),
        sum_facts(a, b, result),
{
    rust_decimal::Decimal::from_i128_with_scale(a.mantissa, a.scale)
        .checked_add(rust_decimal::Decimal::from_i128_with_scale(b.mantissa, b.scale))
        .map(|sum| Decimal { mantissa: sum.mantissa(), scale: sum.scale() })
}

/// Calls `rust_decimal::Decimal::checked_sub`. Claims: the result is named; subtracting from zero
/// gives the negated second operand (at its scale), subtracting zero from a nonzero number gives
/// that number; a number minus itself
/// is zero at its scale; a difference is nonnegative unless the first operand is the smaller one;
/// operands below 2^95
/// in magnitude can't overflow; nonzero operands below 2^64 whose scales differ by at most 19
/// are subtracted exactly at the larger scale when the exact difference fits in 96 bits.
#[verifier::external_body]
fn checked_sub_with_rust_decimal(a: Decimal, b: Decimal) -> (result: Option<Decimal>)
    requires
        a.wf(),
        b.wf(),
    ensures
        result == rust_decimal_checked_sub(a, b),
        difference_facts(a, b, result),
{
    rust_decimal::Decimal::from_i128_with_scale(a.mantissa, a.scale)
        .checked_sub(rust_decimal::Decimal::from_i128_with_scale(b.mantissa, b.scale))
        .map(|difference| Decimal { mantissa: difference.mantissa(), scale: difference.scale() })
}

/// Calls `rust_decimal::Decimal::checked_mul`. Claims: the result is named; a zero operand gives
/// zero; a product of mantissas below 2^96 can't overflow; operands below 2^32 whose scales add
/// up to at most 28 are multiplied exactly.
#[verifier::external_body]
fn checked_mul_with_rust_decimal(a: Decimal, b: Decimal) -> (result: Option<Decimal>)
    requires
        a.wf(),
        b.wf(),
    ensures
        result == rust_decimal_checked_mul(a, b),
        product_facts(a, b, result),
{
    rust_decimal::Decimal::from_i128_with_scale(a.mantissa, a.scale)
        .checked_mul(rust_decimal::Decimal::from_i128_with_scale(b.mantissa, b.scale))
        .map(|product| Decimal { mantissa: product.mantissa(), scale: product.scale() })
}

/// Calls `rust_decimal::Decimal::checked_div`. Claims: the result is named; division by zero
/// gives nothing; zero divided gives zero; a division by an integer below 2^32 in magnitude that
/// leaves no remainder gives the exact quotient at the dividend's scale.
#[verifier::external_body]
fn checked_div_with_rust_decimal(a: Decimal, b: Decimal) -> (result: Option<Decimal>)
    requires
        a.wf(),
        b.wf(),
    ensures
        result == rust_decimal_checked_div(a, b),
        quotient_facts(a, b, result),
{
    rust_decimal::Decimal::from_i128_with_scale(a.mantissa, a.scale)
        .checked_div(rust_decimal::Decimal::from_i128_with_scale(b.mantissa, b.scale))
        .map(|quotient| Decimal { mantissa: quotient.mantissa(), scale: quotient.scale() })
}

/// Calls `rust_decimal::Decimal::round_dp_with_strategy` with `RoundHalfUp`: numbers with at
/// most `dp` fractional digits are kept; others get `dp` digits, halves rounded away from zero.
#[verifier::external_body]
fn round_dp_with_rust_decimal(x: Decimal, dp: u32) -> (result: Decimal)
    requires
        x.wf(),
    ensures
        result == spec_round_half_up(x, dp as nat),
        result.wf(),
{
    let rounded = rust_decimal::Decimal::from_i128_with_scale(x.mantissa, x.scale)
        .round_dp_with_strategy(dp, rust_decimal::RoundingStrategy::MidpointAwayFromZero);
    Decimal { mantissa: rounded.mantissa(), scale: rounded.scale() }
}

/// Calls `rust_decimal::Decimal::trunc`: the integral part, rounded towards zero, at scale 0.
#[verifier::external_body]
fn trunc_with_rust_decimal(x: Decimal) -> (result: Decimal)
    requires
        x.wf(),
    ensures
        result == spec_trunc(x),
        result.wf(),
{
    let truncated = rust_decimal::Decimal::from_i128_with_scale(x.mantissa, x.scale).trunc();
    Decimal { mantissa: truncated.mantissa(), scale: truncated.scale() }
}

/// Calls `rust_decimal::Decimal::fract`: `x - trunc(x)`, which keeps the scale of a nonzero `x`.
#[verifier::external_body]
fn fract_with_rust_decimal(x: Decimal) -> (result: Decimal)
    requires
        x.wf(),
    ensures
        result == spec_fract(x),
        result.wf(),
{
    let fraction = rust_decimal::Decimal::from_i128_with_scale(x.mantissa, x.scale).fract();
    Decimal { mantissa: fraction.mantissa(), scale: fraction.scale() }
}

/// Calls `rust_decimal::Decimal::normalize`: strips trailing zeros of the fractional part.
#[verifier::external_body]
fn normalize_with_rust_decimal(x: Decimal) -> (result: Decimal)
    requires
        x.wf(),
    ensures
        is_normalization_of(result, x),
        result.wf(),
{
    let normalized = rust_decimal::Decimal::from_i128_with_scale(x.mantissa, x.scale).normalize();
    Decimal { mantissa: normalized.mantissa(), scale: normalized.scale() }
}

/// Calls `<rust_decimal::Decimal as FromStr>::from_str`. Claims only that the outcome is a
/// function of the text and that a parsed number is a valid decimal.
#[verifier::external_body]
fn parse_with_rust_decimal(text: &str) -> (result: Option<Decimal>)
    ensures
        result == rust_decimal_parse(text@),
        result matches Some(value) ==> value.wf(),
{
    match <rust_decimal::Decimal as std::str::FromStr>::from_str(text) {
        Ok(value) => Some(Decimal { mantissa: value.mantissa(), scale: value.scale() }),
        Err(_) => None,
    }
}

/// Parses a decimal number.
pub fn parse(text: &str) -> (result: Option<Decimal>)
    ensures
        result == rust_decimal_parse(text@),
        result matches Some(value) ==> value.wf(),
{
    parse_with_rust_decimal(text)
}

} // verus!
