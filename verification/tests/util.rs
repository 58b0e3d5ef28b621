use investments::decimal::{self, Decimal};
use investments::util::{decimal_precision, round, round_with, RoundingMethod};

fn dec(text: &str) -> Decimal {
    decimal::parse(text).unwrap()
}

fn assert_same(actual: Decimal, expected: Decimal) {
    assert!(actual.same_value(&expected), "{:?} != {:?}", actual, expected);
}

#[test]
fn precision_of_decimals() {
    let cases = [
        (321, 0, 0), (321, 1, 1), (321, 2, 2), (321, 3, 3), (321, 4, 4),
        (3210, 0, 0), (3210, 1, 1), (3210, 2, 2), (3210, 3, 3), (3210, 4, 4), (3210, 5, 5),
    ];
    for (num, scale, precision) in cases {
        assert_eq!(decimal_precision(Decimal::new(num, scale)), precision, "{}e-{}", num, scale);
    }
}

#[test]
fn rounding() {
    let cases = [
        ("-1.5", "-2"), ("-1.4", "-1"), ("-1", "-1"), ("-0.5", "-1"), ("-0.4", "0"), ("0", "0"), ("-0", "0"),
        ("0.4", "0"), ("0.5", "1"), ("1", "1"), ("1.4", "1"), ("1.5", "2"),
    ];
    for (value, expected) in cases {
        assert_same(round(dec(value), 0), dec(expected));
    }
}

#[test]
fn truncate_rounding() {
    let cases = [
        ("-1.6", "-1"), ("-1.4", "-1"), ("-1", "-1"), ("-0.6", "0"), ("-0.4", "0"), ("0", "0"), ("-0", "0"),
        ("0.4", "0"), ("0.6", "0"), ("1", "1"), ("1.4", "1"), ("1.6", "1"),
    ];
    for (value, expected) in cases {
        assert_same(round_with(dec(value), 0, RoundingMethod::Truncate), dec(expected));
    }
}

#[test]
fn rounding_to_money_precision() {
    assert_same(round(dec("12.345"), 2), dec("12.35"));
    assert_same(round(dec("-12.345"), 2), dec("-12.35"));
    assert_same(round(dec("12.344"), 2), dec("12.34"));
}

#[test]
fn zero_operands_and_exact_quotients() {
    let zero_cents = Decimal::new(0, 2);
    let difference = zero_cents.checked_sub(Decimal::zero()).unwrap();
    assert_eq!((difference.mantissa, difference.scale), (0, 0));
    let difference = Decimal::new(5, 1).checked_sub(zero_cents).unwrap();
    assert_eq!((difference.mantissa, difference.scale), (5, 1));
    let quotient = Decimal::new(900000, 2).checked_div(Decimal::from_int(100)).unwrap();
    assert_eq!((quotient.mantissa, quotient.scale), (9000, 2));
    let quotient = zero_cents.checked_div(Decimal::from_int(7)).unwrap();
    assert_eq!((quotient.mantissa, quotient.scale), (0, 0));
}
