use vstd::prelude::*;

use crate::currency::Cash;
use crate::decimal::{self, Decimal};
use crate::error::Error;
use crate::localities::Country;
use crate::year_map::YearMap;
use super::{IncomeType, round_tax, spec_round_tax};
use super::rates::{TaxRate, TaxRateModel};

verus! {

/// A tax on some income.
#[derive(Debug)]
pub struct Tax {
    pub expected: Cash,
    pub paid: Cash,
    pub to_pay: Cash,
    /// The amount by which the tax was reduced: by deductions for trading income, by the tax
    /// already withheld for dividends.
    pub deduction: Cash,
}

/// The amounts of a tax: expected, paid, to pay and the deduction.
pub struct TaxAmounts {
    pub expected: Decimal,
    pub paid: Decimal,
    pub to_pay: Decimal,
    pub deduction: Decimal,
}

impl TaxAmounts {
    pub open spec fn wf(self) -> bool {
        self.expected.wf() && self.paid.wf() && self.to_pay.wf() && self.deduction.wf()
    }
}

impl Tax {
    /// The tax's amounts, all in `currency`.
    pub open spec fn is(&self, amounts: TaxAmounts, currency: Seq<char>) -> bool {
        &&& self.expected.amount == amounts.expected && self.expected.currency@ == currency
        &&& self.paid.amount == amounts.paid && self.paid.currency@ == currency
        &&& self.to_pay.amount == amounts.to_pay && self.to_pay.currency@ == currency
        &&& self.deduction.amount == amounts.deduction && self.deduction.currency@ == currency
        &&& amounts.wf()
    }
}

/// The tax on `income` with a calculator in state `rate`, taking the withheld tax `paid_tax` into
/// account, and the state of the calculator afterwards. `None` on overflow.
pub open spec fn spec_calculate(
    precision: u32, rate: TaxRateModel, income: Decimal, paid_tax: Option<Decimal>,
) -> Option<(TaxAmounts, TaxRateModel)> {
    match rate.spec_tax(income) {
        None => None,
        Some((expected, next)) => {
            let to_pay_and_paid = match paid_tax {
                Some(paid) => match decimal::rust_decimal_checked_sub(expected, spec_round_tax(paid, precision as nat)) {
                    Some(left) => Some((Decimal::spec_zero().spec_max(left), paid)),
                    None => None,
                },
                None => Some((expected, Decimal::spec_zero())),
            };
            match to_pay_and_paid {
                None => None,
                Some((to_pay, paid)) => match decimal::rust_decimal_checked_sub(expected, to_pay) {
                    None => None,
                    Some(deduction) => Some((TaxAmounts { expected, paid, to_pay, deduction }, next)),
                },
            }
        },
    }
}

/// Calculates taxes, keeping the tax base of each year.
pub struct TaxCalculator {
    pub country: Country,
    pub years: YearMap<TaxRate>,
}

/// The tax precision of a calculator.
pub open spec fn precision_of(calculator: &TaxCalculator) -> u32 {
    calculator.country.jurisdiction.spec_tax_precision()
}

impl TaxCalculator {
    pub open spec fn wf(&self) -> bool {
        &&& self.country.wf()
        &&& self.years.wf()
        &&& forall|year: i32| #[trigger] self.years@.contains_key(year) ==> self.years@[year].wf()
    }

    /// The state of the calculator of a year (a fresh one if the year hasn't been taxed yet).
    pub open spec fn year_rate(&self, year: i32) -> TaxRateModel {
        if self.years@.contains_key(year) {
            self.years@[year]@
        } else {
            TaxRateModel::Progressive(self.country.scale(year), precision_of(self), Decimal::spec_zero())
        }
    }

    /// The states of the calculators of all years.
    pub open spec fn rates(&self) -> Map<i32, TaxRateModel> {
        self.years@.map_values(|rate: TaxRate| rate@)
    }

    pub fn new(country: Country) -> (result: TaxCalculator)
        requires
            country.wf(),
        ensures
            result.country == country,
            result.years@ == Map::<i32, TaxRate>::empty(),
            result.wf(),
    {
        TaxCalculator { country, years: YearMap::new() }
    }

    /// The calculator of a year.
    fn year(&self, year: i32) -> (result: TaxRate)
        requires
            self.wf(),
        ensures
            result@ == self.year_rate(year),
            result.wf(),
    {
        match self.years.get(year) {
            Some(rate) => rate.duplicate(),
            None => self.country.tax_rate(year),
        }
    }

    /// Taxes income of a year. Modifies the year's tax base, so it must be called only for income
    /// that won't be decreased later by deductions or loss balancing.
    pub fn tax_income(
        &mut self, income_type: IncomeType, year: i32, income: Cash, paid_tax: Option<Cash>,
    ) -> (result: Tax)
        requires
            old(self).wf(),
            income.amount.wf(),
            income.currency@ == old(self).country.currency@,
            paid_tax matches Some(paid) ==> paid.amount.wf() && paid.amount.mantissa >= 0
                && paid.currency@ == old(self).country.currency@,
            spec_calculate(precision_of(old(self)), old(self).year_rate(year), income.amount,
                match paid_tax { Some(paid) => Some(paid.amount), None => None }) is Some,
        ensures
            final(self).wf(),
            final(self).country == old(self).country,
            ({
                let (amounts, next) = spec_calculate(precision_of(old(self)), old(self).year_rate(year), income.amount,
                    match paid_tax { Some(paid) => Some(paid.amount), None => None })->0;
                &&& result.is(amounts, old(self).country.currency@)
                &&& final(self).rates() == old(self).rates().insert(year, next)
            }),
    {
        let mut rate = self.year(year);
        let paid = match &paid_tax {
            Some(paid) => Some(paid.amount),
            None => None,
        };
        let tax = calculate(&self.country, &mut rate, income_type, income.amount, paid);
        self.years.insert(year, rate);
        proof {
            assert(self.rates() =~= old(self).rates().insert(year, self.years@[year]@));
        }
        tax
    }

    /// Taxes income (dividends) for which a tax agent has withheld `paid_tax`. The withheld tax
    /// is trusted unless it is less than the tax at the lowest rate or more than the expected tax:
    /// then it is taken as the whole tax.
    pub fn tax_agent_income(
        &mut self, income_type: IncomeType, year: i32, income: Cash, paid_tax: Cash,
    ) -> (result: Result<Tax, Error>)
        requires
            old(self).wf(),
            income.amount.wf(),
            paid_tax.amount.wf(),
            paid_tax.amount.mantissa >= 0,
            income.currency@ == old(self).country.currency@,
            spec_calculate(precision_of(old(self)), old(self).year_rate(year), income.amount,
                Some(spec_round_tax(paid_tax.amount, precision_of(old(self)) as nat))) is Some,
            TaxRateModel::Fixed(old(self).country.scale(year)[0].1, precision_of(old(self))).spec_tax(income.amount) is Some,
        ensures
            final(self).wf(),
            final(self).country == old(self).country,
            paid_tax.currency@ != old(self).country.currency@ ==> (result matches Err(Error::UnexpectedTaxCurrency(c))
                && c@ == paid_tax.currency@) && final(self).rates() == old(self).rates(),
            paid_tax.currency@ == old(self).country.currency@ && !paid_tax.amount.spec_same_value(
                spec_round_tax(paid_tax.amount, precision_of(old(self)) as nat)) ==> (result matches Err(
                Error::UnexpectedWithheldTax(a, b)) && a == paid_tax.amount && b == spec_round_tax(paid_tax.amount,
                precision_of(old(self)) as nat)) && final(self).rates() == old(self).rates(),
            paid_tax.currency@ == old(self).country.currency@ && paid_tax.amount.spec_same_value(
                spec_round_tax(paid_tax.amount, precision_of(old(self)) as nat)) ==> ({
                let paid = spec_round_tax(paid_tax.amount, precision_of(old(self)) as nat);
                let (amounts, next) = spec_calculate(precision_of(old(self)), old(self).year_rate(year), income.amount,
                    Some(paid))->0;
                let (lowest, _) = TaxRateModel::Fixed(old(self).country.scale(year)[0].1, precision_of(old(self)))
                    .spec_tax(income.amount)->0;
                let trusted = !paid.spec_less(lowest) && !amounts.expected.spec_less(paid);
                &&& final(self).rates() == old(self).rates().insert(year, next)
                &&& result matches Ok(tax) && if trusted {
                    tax.is(amounts, old(self).country.currency@)
                } else {
                    tax.is(TaxAmounts {
                        expected: paid,
                        paid: paid,
                        to_pay: Decimal::spec_zero(),
                        deduction: paid,
                    }, old(self).country.currency@)
                }
            }),
    {
        if !(paid_tax.currency == self.country.currency) {
            return Err(Error::UnexpectedTaxCurrency(paid_tax.currency));
        }

        let rounded = round_tax(paid_tax.amount, self.country.jurisdiction.tax_precision());
        if !paid_tax.amount.same_value(&rounded) {
            return Err(Error::UnexpectedWithheldTax(paid_tax.amount, rounded));
        }

        proof {
            crate::util::lemma_pow10_positive(rounded.scale as nat);
            crate::util::lemma_pow10_positive(paid_tax.amount.scale as nat);
            let p = crate::decimal::pow10(rounded.scale as nat);
            let q = crate::decimal::pow10(paid_tax.amount.scale as nat);
            assert(rounded.mantissa >= 0) by (nonlinear_arith)
                requires
                    paid_tax.amount.mantissa * p == rounded.mantissa * q,
                    paid_tax.amount.mantissa >= 0,
                    p > 0,
                    q > 0;
        }
        let paid_amount = rounded;
        let income_amount = income.amount;
        let currency = self.country.currency.clone();
        let tax = self.tax_income(income_type, year, income, Some(Cash { currency: paid_tax.currency, amount: rounded }));

        let mut lowest_rate = self.country.tax_agent_rate(year);
        let lowest_tax = lowest_rate.tax(income_type, income_amount);

        if paid_amount.less_than(&lowest_tax) || tax.expected.amount.less_than(&paid_amount) {
            return Ok(Tax {
                expected: Cash::new(currency.as_str(), paid_amount),
                paid: Cash::new(currency.as_str(), paid_amount),
                deduction: Cash::new(currency.as_str(), paid_amount),
                to_pay: Cash::zero(currency.as_str()),
            });
        }

        Ok(tax)
    }
}

/// The tax on income of which only `taxable` is taxed, for a calculator in state `rate`: the
/// expected tax is the one on the whole income, the deduction is what the reduction saves. `None`
/// on overflow, or where the taxable part is taxed more than the whole income.
pub open spec fn spec_deductible_tax(
    precision: u32, rate: TaxRateModel, income: Decimal, taxable: Decimal,
) -> Option<(TaxAmounts, TaxRateModel)> {
    match (spec_calculate(precision, rate, income, None), spec_calculate(precision, rate, taxable, None)) {
        (Some((full, _)), Some((taxed, next))) => if full.expected.spec_less(taxed.expected) {
            None
        } else {
            match decimal::rust_decimal_checked_sub(full.expected, taxed.to_pay) {
                None => None,
                Some(deduction) => Some((TaxAmounts {
                    expected: full.expected,
                    paid: taxed.paid,
                    to_pay: taxed.to_pay,
                    deduction,
                }, next)),
            }
        },
        _ => None,
    }
}

impl TaxCalculator {
    /// Taxes income of which only `taxable_income` is taxable. Modifies the year's tax base, so it
    /// must be called only for income that won't be decreased later by deductions or loss
    /// balancing.
    pub fn tax_deductible_income(
        &mut self, income_type: IncomeType, year: i32, income: Cash, taxable_income: Cash,
    ) -> (result: Tax)
        requires
            old(self).wf(),
            income.amount.wf(),
            taxable_income.amount.wf(),
            income.currency@ == old(self).country.currency@,
            taxable_income.currency@ == old(self).country.currency@,
            spec_deductible_tax(precision_of(old(self)), old(self).year_rate(year), income.amount,
                taxable_income.amount) is Some,
        ensures
            final(self).wf(),
            final(self).country == old(self).country,
            ({
                let (amounts, next) = spec_deductible_tax(precision_of(old(self)), old(self).year_rate(year),
                    income.amount, taxable_income.amount)->0;
                &&& result.is(amounts, old(self).country.currency@)
                &&& final(self).rates() == old(self).rates().insert(year, next)
            }),
    {
        let mut calc = self.year(year);
        let mut dry_run_calc = calc.duplicate();

        let full = calculate(&self.country, &mut dry_run_calc, income_type, income.amount, None);
        let taxed = calculate(&self.country, &mut calc, income_type, taxable_income.amount, None);
        self.years.insert(year, calc);
        proof {
            assert(self.rates() =~= old(self).rates().insert(year, self.years@[year]@));
        }

        let deduction = self.country.cash(full.expected.amount.minus(taxed.to_pay.amount));
        Tax {
            expected: full.expected,
            paid: taxed.paid,
            deduction,
            to_pay: taxed.to_pay,
        }
    }

    /// The tax on income of which only `taxable_income` is taxable, as if nothing had been taxed
    /// in the year yet. Intended for intermediate calculations.
    pub fn tax_deductible_income_dry_run(
        &self, income_type: IncomeType, year: i32, income: Cash, taxable_income: Cash,
    ) -> (result: Tax)
        requires
            self.wf(),
            income.amount.wf(),
            taxable_income.amount.wf(),
            income.currency@ == self.country.currency@,
            taxable_income.currency@ == self.country.currency@,
            spec_deductible_tax(precision_of(self), TaxRateModel::Progressive(self.country.scale(year), precision_of(self),
                Decimal::spec_zero()), income.amount, taxable_income.amount) is Some,
        ensures
            ({
                let (amounts, _) = spec_deductible_tax(precision_of(self), TaxRateModel::Progressive(
                    self.country.scale(year), precision_of(self), Decimal::spec_zero()), income.amount,
                    taxable_income.amount)->0;
                result.is(amounts, self.country.currency@)
            }),
    {
        let mut full_calc = self.country.tax_rate(year);
        let mut real_calc = full_calc.duplicate();

        let full = calculate(&self.country, &mut full_calc, income_type, income.amount, None);
        let taxed = calculate(&self.country, &mut real_calc, income_type, taxable_income.amount, None);

        let deduction = self.country.cash(full.expected.amount.minus(taxed.to_pay.amount));
        Tax {
            expected: full.expected,
            paid: taxed.paid,
            deduction,
            to_pay: taxed.to_pay,
        }
    }
}

/// Withheld tax is credited, never refunded: the tax left to pay is the expected tax less the
/// withheld tax (rounded to the tax precision) where that is positive, and nothing otherwise; so
/// it is never negative.
pub proof fn law_withheld_tax_not_refunded(precision: u32, rate: TaxRateModel, income: Decimal, paid: Decimal)
    ensures
        spec_calculate(precision, rate, income, Some(paid)) matches Some((amounts, next)) ==> {
            &&& rate.spec_tax(income) == Some((amounts.expected, next))
            &&& decimal::rust_decimal_checked_sub(amounts.expected, amounts.to_pay) == Some(amounts.deduction)
            &&& amounts.paid == paid
            &&& amounts.to_pay.mantissa >= 0
            &&& decimal::rust_decimal_checked_sub(amounts.expected, spec_round_tax(paid, precision as nat)) matches Some(
                left)
            &&& left.mantissa <= 0 ==> amounts.to_pay.mantissa == 0
            &&& left.mantissa > 0 ==> amounts.to_pay == left
        },
{
    if let Some((amounts, _)) = spec_calculate(precision, rate, income, Some(paid)) {
        let left = decimal::rust_decimal_checked_sub(amounts.expected, spec_round_tax(paid, precision as nat))->0;
        crate::util::lemma_pow10_positive(left.scale as nat);
        assert(decimal::pow10(0) == 1);
    }
}

/// A dry run taxes income as a fresh calculator of the same country would tax it, whatever the
/// calculator has taxed before.
pub proof fn law_dry_run_is_fresh(calc: TaxCalculator, fresh: TaxCalculator, year: i32, income: Decimal, taxable: Decimal)
    requires
        calc.wf(),
        fresh.wf(),
        fresh.country == calc.country,
        fresh.years@ == Map::<i32, TaxRate>::empty(),
    ensures
        spec_deductible_tax(precision_of(&calc), TaxRateModel::Progressive(calc.country.scale(year), precision_of(&calc),
            Decimal::spec_zero()), income, taxable) == spec_deductible_tax(precision_of(&fresh), fresh.year_rate(year),
            income, taxable),
{
}

/// Taxes `income` with the calculator `rate`, taking the withheld tax into account.
fn calculate(
    country: &Country, rate: &mut TaxRate, income_type: IncomeType, income: Decimal, paid_tax: Option<Decimal>,
) -> (result: Tax)
    requires
        country.wf(),
        old(rate).wf(),
        income.wf(),
        paid_tax matches Some(paid) ==> paid.wf() && paid.mantissa >= 0,
        spec_calculate(country.jurisdiction.spec_tax_precision(), old(rate)@, income, paid_tax) is Some,
    ensures
        final(rate).wf(),
        ({
            let (amounts, next) = spec_calculate(country.jurisdiction.spec_tax_precision(), old(rate)@, income, paid_tax)->0;
            &&& result.is(amounts, country.currency@)
            &&& final(rate)@ == next
        }),
{
    let expected = rate.tax(income_type, income);

    let (paid, to_pay) = match paid_tax {
        Some(paid) => {
            let left = expected.minus(round_tax(paid, country.jurisdiction.tax_precision()));
            (paid, Decimal::zero().max(left))
        },
        None => (Decimal::zero(), expected),
    };

    Tax {
        expected: country.cash(expected),
        paid: country.cash(paid),
        deduction: country.cash(expected.minus(to_pay)),
        to_pay: country.cash(to_pay),
    }
}

/// Taxes `income` with the calculator `rate`, taking the withheld tax into account; gives nothing
/// where a computation overflows.
fn checked_calculate(
    country: &Country, rate: &mut TaxRate, income_type: IncomeType, income: Decimal, paid_tax: Option<Decimal>,
) -> (result: Option<Tax>)
    requires
        country.wf(),
        old(rate).wf(),
        income.wf(),
        paid_tax matches Some(paid) ==> paid.wf() && paid.mantissa >= 0,
    ensures
        final(rate).wf(),
        match spec_calculate(country.jurisdiction.spec_tax_precision(), old(rate)@, income, paid_tax) {
            None => result is None,
            Some((amounts, next)) => result matches Some(tax) && tax.is(amounts, country.currency@) && final(rate)@
                == next,
        },
{
    let expected = match rate.checked_tax(income_type, income) {
        Some(expected) => expected,
        None => return None,
    };
    let (paid, to_pay) = match paid_tax {
        Some(paid) => {
            let left = match expected.checked_sub(round_tax(paid, country.jurisdiction.tax_precision())) {
                Some(left) => left,
                None => return None,
            };
            (paid, Decimal::zero().max(left))
        },
        None => (Decimal::zero(), expected),
    };
    let deduction = match expected.checked_sub(to_pay) {
        Some(deduction) => deduction,
        None => return None,
    };
    Some(Tax {
        expected: country.cash(expected),
        paid: country.cash(paid),
        deduction: country.cash(deduction),
        to_pay: country.cash(to_pay),
    })
}

/// The tax on income of which only `taxable` is taxable, for a calculator in state `rate`, and
/// the calculator that has taxed the taxable part; nothing where `spec_deductible_tax` gives none.
fn checked_deductible_tax(
    country: &Country, rate: &TaxRate, income_type: IncomeType, income: Decimal, taxable: Decimal,
) -> (result: Option<(Tax, TaxRate)>)
    requires
        country.wf(),
        rate.wf(),
        income.wf(),
        taxable.wf(),
    ensures
        match spec_deductible_tax(country.jurisdiction.spec_tax_precision(), rate@, income, taxable) {
            None => result is None,
            Some((amounts, next)) => result matches Some((tax, calc)) && tax.is(amounts, country.currency@)
                && calc@ == next && calc.wf(),
        },
{
    let mut full_calc = rate.duplicate();
    let mut real_calc = rate.duplicate();
    let full = match checked_calculate(country, &mut full_calc, income_type, income, None) {
        Some(full) => full,
        None => return None,
    };
    let taxed = match checked_calculate(country, &mut real_calc, income_type, taxable, None) {
        Some(taxed) => taxed,
        None => return None,
    };
    if full.expected.amount.less_than(&taxed.expected.amount) {
        return None;
    }
    let deduction = match full.expected.amount.checked_sub(taxed.to_pay.amount) {
        Some(deduction) => deduction,
        None => return None,
    };
    Some((Tax {
        expected: full.expected,
        paid: taxed.paid,
        deduction: country.cash(deduction),
        to_pay: taxed.to_pay,
    }, real_calc))
}

impl TaxCalculator {
    /// Taxes income of which only `taxable_income` is taxable, where the computation doesn't
    /// overflow and the taxable part isn't taxed more than the whole income; otherwise gives
    /// nothing and keeps the calculator as it was.
    pub fn checked_tax_deductible_income(
        &mut self, income_type: IncomeType, year: i32, income: Cash, taxable_income: Cash,
    ) -> (result: Option<Tax>)
        requires
            old(self).wf(),
            income.amount.wf(),
            taxable_income.amount.wf(),
        ensures
            final(self).wf(),
            final(self).country == old(self).country,
            match spec_deductible_tax(precision_of(old(self)), old(self).year_rate(year), income.amount,
                taxable_income.amount) {
                None => result is None && final(self).rates() == old(self).rates(),
                Some((amounts, next)) => result matches Some(tax) && tax.is(amounts, old(self).country.currency@)
                    && final(self).rates() == old(self).rates().insert(year, next),
            },
    {
        let calc = self.year(year);
        match checked_deductible_tax(&self.country, &calc, income_type, income.amount, taxable_income.amount) {
            None => None,
            Some((tax, next)) => {
                self.years.insert(year, next);
                proof {
                    assert(self.rates() =~= old(self).rates().insert(year, self.years@[year]@));
                }
                Some(tax)
            },
        }
    }

    /// The tax on income of which only `taxable_income` is taxable, as if nothing had been taxed
    /// in the year yet; nothing where the computation overflows or the taxable part would be
    /// taxed more than the whole income.
    pub fn checked_tax_deductible_income_dry_run(
        &self, income_type: IncomeType, year: i32, income: Cash, taxable_income: Cash,
    ) -> (result: Option<Tax>)
        requires
            self.wf(),
            income.amount.wf(),
            taxable_income.amount.wf(),
        ensures
            match spec_deductible_tax(precision_of(self), TaxRateModel::Progressive(self.country.scale(year),
                precision_of(self), Decimal::spec_zero()), income.amount, taxable_income.amount) {
                None => result is None,
                Some((amounts, _)) => result matches Some(tax) && tax.is(amounts, self.country.currency@),
            },
    {
        let rate = self.country.tax_rate(year);
        match checked_deductible_tax(&self.country, &rate, income_type, income.amount, taxable_income.amount) {
            None => None,
            Some((tax, _)) => Some(tax),
        }
    }
}

} // verus!
