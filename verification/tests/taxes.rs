use investments::decimal::{self, Decimal};
use investments::error::Error;
use investments::localities::Jurisdiction;
use investments::taxes::long_term_ownership::{calculate_ownership_years, LtoDeductionCalculator};
use investments::taxes::{validate_tax_exemptions, FixedTaxRate, IncomeType, ProgressiveTaxRate, TaxExemption};
use investments::time::Date;

fn dec(text: &str) -> Decimal {
    decimal::parse(text).unwrap()
}

fn assert_same(actual: Decimal, expected: Decimal) {
    assert!(actual.same_value(&expected), "{:?} != {:?}", actual, expected);
}

#[test]
fn fixed_tax_rate() {
    let cases = [
        ("0", "0"),
        ("1", "0"),
        ("10", "1"),
        ("100", "13"),
        ("100.00", "13"),
        ("103.80", "13"),
        ("103.81", "14"),
        ("103.85", "14"),
        ("10000000", "1300000"),
        ("-10000000", "0"),
    ];
    for (income, expected) in cases {
        let calc = FixedTaxRate::new(dec("0.13"), Jurisdiction::Russia.tax_precision());
        let tax = calc.tax(IncomeType::Trading, dec(income));
        assert_same(tax, dec(expected));
    }
}

#[test]
fn progressive_tax_rate() {
    let cases: [(&str, &[&str], &[&str]); 12] = [
        ("0", &["0"], &["0"]),
        ("0", &["1"], &["0"]),
        ("0", &["10"], &["1"]),
        ("0", &["100"], &["13"]),
        ("0", &["5000000"], &["650000"]),
        ("0", &["4999900", "100"], &["649987", "13"]),
        ("0", &["5000000", "100"], &["650000", "15"]),
        ("0", &["5000100"], &["650015"]),
        ("0", &["2500000", "2500100"], &["325000", "325015"]),
        ("1000000", &["1500000", "2500100"], &["195000", "325015"]),
        ("10000000", &["1000000"], &["150000"]),
        ("-9000000", &["-9000000", "5000000", "100"], &["0", "650000", "15"]),
    ];
    for (initial_income, incomes, expected) in cases {
        let rates = vec![(dec("0"), dec("0.13")), (dec("5000000"), dec("0.15"))];
        let mut calc = ProgressiveTaxRate::new(dec(initial_income), rates, Jurisdiction::Russia.tax_precision());
        assert_eq!(incomes.len(), expected.len());
        for (income, expected) in incomes.iter().zip(expected.iter()) {
            let tax = calc.tax(IncomeType::Trading, dec(income));
            assert_same(tax, dec(expected));
        }
    }
}

#[test]
fn ownership_years_calculation() {
    let cases = [
        ((2014, 3, 19), (2014, 3, 19), 0),
        ((2014, 3, 19), (2015, 3, 19), 1),
        ((2014, 3, 19), (2016, 3, 19), 2),
        ((2014, 3, 19), (2017, 3, 19), 3),
        ((2014, 3, 19), (2017, 3, 18), 2),
        ((2014, 3, 19), (2017, 3, 20), 3),
        ((2020, 2, 29), (2020, 2, 29), 0),
        ((2020, 2, 29), (2020, 3, 1), 0),
        ((2020, 2, 29), (2021, 2, 27), 0),
        ((2020, 2, 29), (2021, 2, 28), 1),
        ((2020, 2, 29), (2021, 3, 1), 1),
        ((2020, 2, 29), (2024, 2, 28), 3),
        ((2020, 2, 29), (2024, 2, 29), 4),
        ((2020, 2, 29), (2024, 3, 1), 4),
    ];
    for ((by, bm, bd), (sy, sm, sd), years) in cases {
        let buy = Date::from_ymd(by, bm, bd);
        let sell = Date::from_ymd(sy, sm, sd);
        assert_eq!(calculate_ownership_years(buy, sell), years, "{:?} - {:?}", buy, sell);
    }
}

fn check_deduction(calculator: LtoDeductionCalculator, deduction: Decimal, limit: Decimal, loss: Decimal) {
    let result = calculator.calculate();
    assert_same(result.deduction, deduction);
    assert_same(result.limit, limit);
    assert_same(result.loss, loss);
}

#[test]
fn deduction_amount_calculation() {
    for with_out_of_limit in [false, true] {
        let out_of_limit = if with_out_of_limit { dec("400000") } else { dec("0") };

        {
            let mut calculator = LtoDeductionCalculator::new();
            if with_out_of_limit {
                calculator.add(out_of_limit, 3, true);
            }
            check_deduction(calculator, out_of_limit, out_of_limit, dec("0"));
        }

        {
            let mut calculator = LtoDeductionCalculator::new();
            calculator.add(dec("13000000"), 4, false);
            if with_out_of_limit {
                calculator.add(out_of_limit, 3, true);
            }
            check_deduction(calculator, dec("12000000").plus(out_of_limit), dec("12000000").plus(out_of_limit),
                dec("1000000"));
        }

        {
            let mut calculator = LtoDeductionCalculator::new();
            calculator.add(dec("2000000"), 3, false);
            calculator.add(dec("500000"), 3, false);
            calculator.add(dec("2000000"), 4, false);
            calculator.add(dec("1500000"), 4, false);
            calculator.add(dec("4000000"), 5, false);
            if with_out_of_limit {
                calculator.add(out_of_limit, 3, true);
            }
            check_deduction(calculator, dec("10000000").plus(out_of_limit), dec("12450000").plus(out_of_limit),
                dec("0"));
        }
    }
}

#[test]
fn tax_exemptions_validation() {
    assert!(validate_tax_exemptions(Jurisdiction::Usa, &[]).is_ok());
    assert!(validate_tax_exemptions(Jurisdiction::Russia, &[TaxExemption::TaxFree]).is_ok());
    assert!(matches!(
        validate_tax_exemptions(Jurisdiction::Russia, &[TaxExemption::TaxFree, TaxExemption::LongTermOwnership]),
        Err(Error::TooManyTaxExemptions)));
    assert!(matches!(validate_tax_exemptions(Jurisdiction::Usa, &[TaxExemption::LongTermOwnership]),
        Err(Error::UnsupportedTaxExemptions)));
}
