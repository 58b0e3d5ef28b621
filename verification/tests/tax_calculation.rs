use investments::currency::Cash;
use investments::decimal::{self, Decimal};
use investments::error::Error;
use investments::localities::{Country, Jurisdiction};
use investments::taxes::long_term_ownership::{is_applicable, is_deductible, NetLtoDeductionCalculator};
use investments::taxes::{
    IncomeType, LtoDeductibleProfit, NetTaxCalculator, TaxExemption, TaxCalculator, TaxPaymentDay, TaxPaymentDaySpec, TaxRemapping,
    TaxRemappingConfig,
};
use investments::time::Date;
use investments::trades::{calculate_price, convert_price, price_volume};
use investments::year_map::YearMap;

fn dec(text: &str) -> Decimal {
    decimal::parse(text).unwrap()
}

fn assert_same(actual: Decimal, expected: &str) {
    assert!(actual.same_value(&dec(expected)), "{:?} != {}", actual, expected);
}

fn date(year: i32, month: u32, day: u32) -> Date {
    Date::from_ymd(year, month, day)
}

fn russia() -> Country {
    Country {
        jurisdiction: Jurisdiction::Russia,
        currency: "RUB".to_owned(),
        tax_rates: vec![
            (0, vec![(dec("0"), dec("0.13"))]),
            (2021, vec![(dec("0"), dec("0.13")), (dec("5000000"), dec("0.15"))]),
        ],
    }
}

fn rub(amount: &str) -> Cash {
    Cash::new("RUB", dec(amount))
}

#[test]
fn tax_payment_days() {
    let russia = TaxPaymentDay::new(Jurisdiction::Russia, TaxPaymentDaySpec::default());
    assert_eq!(russia.get(date(2020, 5, 10), false), (2020, date(2021, 3, 15)));
    assert_eq!(russia.get(date(2020, 5, 10), true), (2020, date(2021, 1, 1)));

    let usa = TaxPaymentDay::new(Jurisdiction::Usa, TaxPaymentDaySpec::Day { month: 4, day: 15 });
    assert_eq!(usa.get(date(2020, 5, 10), true), (2020, date(2021, 4, 15)));

    let on_close = TaxPaymentDay::new(Jurisdiction::Russia, TaxPaymentDaySpec::OnClose(date(2022, 6, 1)));
    assert_eq!(on_close.get(date(2020, 5, 10), true), (2022, date(2022, 6, 1)));
    assert_eq!(on_close.get(date(2020, 5, 10), false), (2020, date(2021, 3, 15)));
    assert_eq!(on_close.get_for(2021, false), date(2022, 3, 15));
}

#[test]
fn tax_remapping() {
    let mut remapping = TaxRemapping::new();
    remapping.add(date(2020, 1, 10), "Dividend", date(2020, 2, 1)).unwrap();
    assert!(matches!(remapping.add(date(2020, 1, 10), "Dividend", date(2020, 3, 1)),
        Err(Error::DuplicatedTaxRemapping(_, _))));
    assert!(matches!(remapping.ensure_all_mapped(), Err(Error::UnmappedTaxRemapping(_, _))));
    assert_eq!(remapping.map(date(2020, 1, 10), "Other"), date(2020, 1, 10));
    // A duplicated rule replaces the previous one, as inserting into a map does.
    assert_eq!(remapping.map(date(2020, 1, 10), "Dividend"), date(2020, 3, 1));
    assert!(remapping.ensure_all_mapped().is_ok());

    let configs = vec![
        TaxRemappingConfig { date: date(2020, 1, 10), description: "A".to_owned(), to_date: date(2020, 2, 1) },
        TaxRemappingConfig { date: date(2020, 1, 10), description: "A".to_owned(), to_date: date(2020, 3, 1) },
    ];
    assert!(TaxRemapping::from_config(&configs).is_err());
    assert!(TaxRemapping::from_config(&configs[..1]).is_ok());

    // The error names the first config that repeats an earlier one.
    let config = |day: u32, description: &str| TaxRemappingConfig {
        date: date(2020, 1, day), description: description.to_owned(), to_date: date(2020, 2, 1),
    };
    let configs = vec![config(1, "A"), config(2, "B"), config(2, "B"), config(1, "A")];
    assert!(matches!(TaxRemapping::from_config(&configs),
        Err(Error::DuplicatedTaxRemapping(d, s)) if d == date(2020, 1, 2) && s == "B"));
}

#[test]
fn income_taxation() {
    let mut calculator = TaxCalculator::new(russia());

    let tax = calculator.tax_income(IncomeType::Dividends, 2020, rub("1000"), None);
    assert_same(tax.expected.amount, "130");
    assert_same(tax.to_pay.amount, "130");
    assert_same(tax.paid.amount, "0");

    let tax = calculator.tax_income(IncomeType::Dividends, 2020, rub("1000"), Some(rub("100")));
    assert_same(tax.expected.amount, "130");
    assert_same(tax.to_pay.amount, "30");
    assert_same(tax.deduction.amount, "100");

    // The progressive scale of 2021 on.
    let tax = calculator.tax_income(IncomeType::Trading, 2021, rub("5000100"), None);
    assert_same(tax.expected.amount, "650015");
}

#[test]
fn tax_agent_income_taxation() {
    let mut calculator = TaxCalculator::new(russia());
    let tax = calculator.tax_agent_income(IncomeType::Dividends, 2020, rub("1000"), rub("130")).unwrap();
    assert_same(tax.to_pay.amount, "0");
    assert_same(tax.paid.amount, "130");

    assert!(matches!(
        calculator.tax_agent_income(IncomeType::Dividends, 2020, rub("1000"), Cash::new("USD", dec("1"))),
        Err(Error::UnexpectedTaxCurrency(c)) if c == "USD"));
    assert!(matches!(
        calculator.tax_agent_income(IncomeType::Dividends, 2020, rub("1000"), rub("13.5")),
        Err(Error::UnexpectedWithheldTax(_, _))));

    // The withheld tax is taken rounded to the tax precision.
    let mut calculator = TaxCalculator::new(russia());
    let tax = calculator.tax_agent_income(IncomeType::Dividends, 2020, rub("1000"), rub("200.00")).unwrap();
    assert_same(tax.expected.amount, "200");
    assert_eq!(tax.expected.amount.scale(), 0);
    assert_eq!(tax.paid.amount.scale(), 0);
}

#[test]
fn dry_run_is_fresh() {
    let mut used = TaxCalculator::new(russia());
    used.tax_income(IncomeType::Trading, 2021, rub("6000000"), None);
    let dry = used.tax_deductible_income_dry_run(IncomeType::Trading, 2021, rub("1000"), rub("400"));
    let mut fresh = TaxCalculator::new(russia());
    let real = fresh.tax_deductible_income(IncomeType::Trading, 2021, rub("1000"), rub("400"));
    assert!(dry.expected.amount.same_value(&real.expected.amount));
    assert!(dry.to_pay.amount.same_value(&real.to_pay.amount));
    assert!(dry.deduction.amount.same_value(&real.deduction.amount));
    assert_same(dry.to_pay.amount, "52");
}

#[test]
fn tax_exemption_applicability() {
    assert!(TaxExemption::TaxFree.is_applicable());
    assert!(!TaxExemption::LongTermOwnership.is_applicable());
}

#[test]
fn price_conversion() {
    let volume = price_volume(&Cash::new("USD", dec("10.5")), dec("3")).unwrap();
    assert_same(volume.amount, "31.5");
    assert_eq!(volume.currency, "USD");
    let price = convert_price(&Cash::new("USD", dec("10.5")), dec("3"), dec("2362.5123"), "RUB").unwrap().unwrap();
    assert_same(price.amount, "787.504");
    assert_eq!(price.currency, "RUB");

    // A price that no precision gives back names the quantity, the price and the currency.
    let tiny = Cash::new("USD", dec("0.000000000000000000001"));
    let many = dec("1000000000000000000000");
    let error = convert_price(&tiny, many, dec("1"), "RUB").unwrap().unwrap_err();
    match error {
        Error::UnableToConvertPrice(quantity, price, currency, cause) => {
            assert_same(quantity, "1000000000000000000000");
            assert_same(price.amount, "0.000000000000000000001");
            assert_eq!(price.currency, "USD");
            assert_eq!(currency, "RUB");
            assert!(matches!(*cause, Error::UnableToCalculatePrice(_, _)));
        },
        other => panic!("{other:?}"),
    }
}

#[test]
fn deductible_income_taxation() {
    let mut calculator = TaxCalculator::new(russia());
    let tax = calculator.tax_deductible_income(IncomeType::Trading, 2020, rub("1000"), rub("400"));
    assert_same(tax.expected.amount, "130");
    assert_same(tax.to_pay.amount, "52");
    assert_same(tax.deduction.amount, "78");
}

#[test]
fn net_taxes() {
    let country = russia();
    let payment_day = TaxPaymentDay::new(Jurisdiction::Russia, TaxPaymentDaySpec::default());
    let mut net = NetTaxCalculator::new(country, payment_day);
    net.add_profit(date(2020, 3, 1), rub("1000"), rub("1000"), &[], false);
    net.add_profit(date(2020, 6, 1), rub("500.004"), rub("500.004"), &[], false);
    net.add_profit(date(2021, 6, 1), rub("100"), rub("100"), &[], false);

    let mut calculator = TaxCalculator::new(russia());
    let taxes = net.calculate(&mut calculator);
    assert_eq!(taxes.len(), 2);
    let tax_2020 = &taxes[&2020];
    assert_eq!(tax_2020.tax_payment_date, date(2021, 1, 1));
    assert_same(tax_2020.tax_to_pay.amount, "195");
    assert_same(taxes[&2021].tax_to_pay.amount, "13");
}

#[test]
fn net_taxes_with_long_term_ownership() {
    let payment_day = TaxPaymentDay::new(Jurisdiction::Russia, TaxPaymentDaySpec::default());
    let mut net = NetTaxCalculator::new(russia(), payment_day);
    let deductible = [LtoDeductibleProfit { profit: dec("1000"), years: 3 }];
    net.add_profit(date(2020, 3, 1), rub("1000"), rub("1000"), &deductible, false);

    let mut calculator = TaxCalculator::new(russia());
    let taxes = net.calculate(&mut calculator);
    let tax = &taxes[&2020];
    assert_same(tax.lto_deduction.amount, "1000");
    assert_same(tax.tax_to_pay.amount, "0");
    assert_same(tax.tax_deduction.amount, "130");
}

#[test]
fn net_long_term_ownership_deductions() {
    let mut calculator = NetLtoDeductionCalculator::new();
    calculator.add_profit(2020, dec("13000000"), 4, false);
    calculator.add_applied_deduction(2020, dec("12500000"), dec("0"));
    let deductions = calculator.calculate();
    let deduction = &deductions[&2020];
    assert_same(deduction.applied_above_limit, "500000");
    assert_same(deduction.loss, "0");
}

#[test]
fn net_long_term_ownership_years_apart() {
    // Calls about different years, interleaved, give what each year's calls alone give.
    let mut mixed = NetLtoDeductionCalculator::new();
    mixed.add_profit(2020, dec("13000000"), 4, false);
    mixed.add_profit(2021, dec("1000000"), 3, false);
    mixed.add_applied_deduction(2020, dec("12000000"), dec("0"));
    mixed.add_profit(2020, dec("1000000"), 3, true);
    mixed.add_applied_deduction(2021, dec("10000000"), dec("100"));
    mixed.add_applied_deduction(2020, dec("500000"), dec("0"));

    let mut first = NetLtoDeductionCalculator::new();
    first.add_profit(2020, dec("13000000"), 4, false);
    first.add_applied_deduction(2020, dec("12000000"), dec("0"));
    first.add_profit(2020, dec("1000000"), 3, true);
    first.add_applied_deduction(2020, dec("500000"), dec("0"));

    let mut second = NetLtoDeductionCalculator::new();
    second.add_profit(2021, dec("1000000"), 3, false);
    second.add_applied_deduction(2021, dec("10000000"), dec("100"));

    let mixed = mixed.calculate();
    let first = first.calculate();
    let second = second.calculate();
    assert_eq!(mixed.len(), 2);
    assert!(mixed[&2020].applied_above_limit.same_value(&first[&2020].applied_above_limit));
    assert!(mixed[&2021].applied_above_limit.same_value(&second[&2021].applied_above_limit));
    assert!(mixed[&2021].loss.same_value(&second[&2021].loss));
    assert_same(mixed[&2020].applied_above_limit, "0");
    assert_same(mixed[&2021].applied_above_limit, "1000000");
}

#[test]
fn long_term_ownership_applicability() {
    let russian = vec!["RU0009029540".to_owned()];
    let foreign = vec!["US0378331005".to_owned()];
    let mixed = vec!["RU0009029540".to_owned(), "US0378331005".to_owned()];

    assert_eq!(is_applicable(&foreign, date(2023, 12, 31)), Some(true));
    assert_eq!(is_applicable(&russian, date(2024, 1, 1)), Some(true));
    assert_eq!(is_applicable(&foreign, date(2024, 1, 1)), Some(false));
    assert_eq!(is_applicable(&mixed, date(2024, 1, 1)), None);
    assert_eq!(is_applicable(&vec![], date(2024, 1, 1)), None);

    assert_eq!(is_deductible(&russian, date(2014, 3, 19), date(2017, 3, 19)), Some(3));
    assert_eq!(is_deductible(&russian, date(2014, 3, 19), date(2017, 3, 18)), None);
    assert_eq!(is_deductible(&russian, date(2013, 12, 31), date(2020, 1, 1)), None);
    assert_eq!(is_deductible(&foreign, date(2015, 1, 1), date(2024, 1, 1)), None);
}

#[test]
fn price_calculation() {
    let price = calculate_price(dec("3"), &Cash::new("USD", dec("10"))).unwrap();
    assert_eq!(price.currency, "USD");
    assert_same(price.amount, "3.3");
    let price = calculate_price(dec("4"), &Cash::new("USD", dec("10"))).unwrap();
    assert_same(price.amount, "2.5");
    let price = calculate_price(dec("2"), &Cash::new("USD", dec("10.02"))).unwrap();
    assert_same(price.amount, "5.01");
}

#[test]
fn year_maps() {
    let mut map: YearMap<u32> = YearMap::new();
    assert!(!map.contains_key(2020));
    map.insert(2020, 1);
    map.insert(2019, 2);
    map.insert(2020, 3);
    assert_eq!(map.get(2020), Some(&3));
    assert_eq!(map.get(2019), Some(&2));
    assert_eq!(map.get(2018), None);
    assert_eq!(map.years(), vec![2019, 2020]);
}

#[test]
fn tax_payment_day_parsing() {
    let close = date(2025, 6, 1);
    assert_eq!(TaxPaymentDaySpec::parse("on-close", close).unwrap(), TaxPaymentDaySpec::OnClose(close));
    assert_eq!(TaxPaymentDaySpec::parse("15.03", close).unwrap(), TaxPaymentDaySpec::Day { month: 3, day: 15 });
    assert_eq!(TaxPaymentDaySpec::parse("1.1", close).unwrap(), TaxPaymentDaySpec::Day { month: 1, day: 1 });
    assert_eq!(TaxPaymentDaySpec::parse("28.02", close).unwrap(), TaxPaymentDaySpec::Day { month: 2, day: 28 });
    for invalid in ["29.02", "31.04", "0.1", "15", "15.03.2020", ".03", "15.", "+15.03", "a.b", "15.13"] {
        assert!(matches!(TaxPaymentDaySpec::parse(invalid, close), Err(Error::InvalidTaxPaymentDay(t)) if t == invalid),
            "{invalid}");
    }
}

#[test]
fn tax_exemption_names() {
    assert_eq!(TaxExemption::from_name("long-term-ownership"), Some(TaxExemption::LongTermOwnership));
    assert_eq!(TaxExemption::from_name("tax-free"), Some(TaxExemption::TaxFree));
    assert_eq!(TaxExemption::from_name("free"), None);
}
