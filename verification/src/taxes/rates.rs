use vstd::prelude::*;

use crate::currency;
use crate::decimal::{self, Decimal};
use super::{IncomeType, round_tax, spec_round_tax};

verus! {

/// A flat tax rate.
#[derive(Clone, Copy, Debug)]
pub struct FixedTaxRate {
    pub rate: Decimal,
    pub precision: u32,
}

/// The tax for `income` at a flat `rate`: nothing for a loss, otherwise the income rounded to
/// money precision times the rate, rounded as taxes are. `None` where the product overflows.
pub open spec fn spec_fixed_tax(rate: Decimal, precision: u32, income: Decimal) -> Option<Decimal> {
    if income.mantissa < 0 {
        Some(Decimal::spec_zero())
    } else {
        match decimal::rust_decimal_checked_mul(currency::spec_round(income), rate) {
            Some(tax) => Some(spec_round_tax(tax, precision as nat)),
            None => None,
        }
    }
}

impl FixedTaxRate {
    pub open spec fn wf(self) -> bool {
        self.rate.wf()
    }

    pub fn new(rate: Decimal, precision: u32) -> (result: FixedTaxRate)
        ensures
            result == (FixedTaxRate { rate, precision }),
    {
        FixedTaxRate { rate, precision }
    }

    /// The tax for `income`, or nothing when the computation overflows.
    pub fn checked_tax(&self, _income_type: IncomeType, income: Decimal) -> (result: Option<Decimal>)
        requires
            self.wf(),
            income.wf(),
        ensures
            result == spec_fixed_tax(self.rate, self.precision, income),
            result matches Some(tax) ==> tax.wf(),
    {
        if income.is_sign_negative() {
            return Some(Decimal::zero());
        }
        match currency::round(income).checked_mul(self.rate) {
            Some(tax) => Some(round_tax(tax, self.precision)),
            None => None,
        }
    }

    pub fn tax(&self, income_type: IncomeType, income: Decimal) -> (result: Decimal)
        requires
            self.wf(),
            income.wf(),
            spec_fixed_tax(self.rate, self.precision, income) is Some,
        ensures
            Some(result) == spec_fixed_tax(self.rate, self.precision, income),
            result.wf(),
    {
        match self.checked_tax(income_type, income) {
            Some(tax) => tax,
            None => Decimal::zero(),
        }
    }
}

/// Progressive tax rates: `rates[i].1` applies to the part of the tax base from `rates[i].0`
/// up to the next threshold.
#[derive(Clone, Debug)]
pub struct ProgressiveTaxRate {
    pub rates: Vec<(Decimal, Decimal)>,
    pub precision: u32,
    /// The income taxed so far.
    pub tax_base: Decimal,
}

/// Thresholds increase, the first one applies to any nonnegative tax base, and all numbers are
/// valid.
pub open spec fn valid_rates(rates: Seq<(Decimal, Decimal)>) -> bool {
    &&& rates.len() > 0
    &&& rates[0].0.mantissa <= 0
    &&& forall|i: int| 0 <= i < rates.len() ==> (#[trigger] rates[i]).0.wf() && rates[i].1.wf()
    &&& forall|i: int, j: int| 0 <= i < j < rates.len() ==> (#[trigger] rates[i].0).spec_less(#[trigger] rates[j].0)
}

/// The index of the rate that applies to `base`, searching from `i` on.
pub open spec fn bracket_from(rates: Seq<(Decimal, Decimal)>, base: Decimal, i: nat) -> nat
    decreases rates.len() - i,
{
    if i + 1 < rates.len() && !base.spec_less(rates[i + 1int].0) {
        bracket_from(rates, base, i + 1)
    } else {
        i
    }
}

/// Taxes `income` bracket by bracket, starting in bracket `i` with tax base `base` and `tax`
/// accumulated so far. Gives the total tax and the new tax base, or `None` on overflow.
pub open spec fn progressive_steps(
    rates: Seq<(Decimal, Decimal)>, precision: u32, i: nat, income: Decimal, base: Decimal, tax: Decimal,
) -> Option<(Decimal, Decimal)>
    decreases rates.len() - i,
{
    if income.mantissa <= 0 || i >= rates.len() {
        Some((tax, base))
    } else {
        let rate = rates[i as int].1;
        let gap = if i + 1 < rates.len() { decimal::rust_decimal_checked_sub(rates[i + 1int].0, base) } else { None };
        let advance = i + 1 < rates.len() && gap is Some && !income.spec_less(gap->0);
        let current = if advance { gap->0 } else { income };
        if i + 1 < rates.len() && gap is None {
            None
        } else {
            match (
                decimal::rust_decimal_checked_sub(income, current),
                decimal::rust_decimal_checked_add(base, current),
                decimal::rust_decimal_checked_mul(current, rate),
            ) {
                (Some(rest), Some(new_base), Some(current_tax)) => {
                    match decimal::rust_decimal_checked_add(tax, spec_round_tax(current_tax, precision as nat)) {
                        Some(new_tax) => if advance {
                            progressive_steps(rates, precision, i + 1, rest, new_base, new_tax)
                        } else {
                            Some((new_tax, new_base))
                        },
                        None => None,
                    }
                },
                _ => None,
            }
        }
    }
}

/// The tax for `income` and the new tax base, or `None` on overflow.
pub open spec fn spec_progressive_tax(
    rates: Seq<(Decimal, Decimal)>, precision: u32, base: Decimal, income: Decimal,
) -> Option<(Decimal, Decimal)> {
    progressive_steps(
        rates, precision, bracket_from(rates, base, 0), currency::spec_round(income), base, Decimal::spec_zero())
}

proof fn lemma_bracket_bound(rates: Seq<(Decimal, Decimal)>, base: Decimal, i: nat)
    requires
        i < rates.len(),
    ensures
        i <= bracket_from(rates, base, i) < rates.len(),
    decreases rates.len() - i,
{
    if i + 1 < rates.len() && !base.spec_less(rates[i + 1int].0) {
        lemma_bracket_bound(rates, base, i + 1);
    }
}

impl ProgressiveTaxRate {
    pub open spec fn wf(self) -> bool {
        &&& valid_rates(self.rates@)
        &&& self.tax_base.wf()
    }

    pub open spec fn spec_tax(self, income: Decimal) -> Option<(Decimal, Decimal)> {
        spec_progressive_tax(self.rates@, self.precision, self.tax_base, income)
    }

    /// A calculator that has already taxed `income` (a loss counts as nothing).
    pub fn new(income: Decimal, rates: Vec<(Decimal, Decimal)>, precision: u32) -> (result: ProgressiveTaxRate)
        requires
            income.wf(),
            valid_rates(rates@),
        ensures
            result.rates@ == rates@,
            result.precision == precision,
            result.tax_base == Decimal::spec_zero().spec_max(income),
            result.wf(),
    {
        ProgressiveTaxRate {
            rates,
            precision,
            tax_base: Decimal::zero().max(income),
        }
    }

    /// Taxes `income` on top of the income taxed so far. On overflow gives nothing and keeps the
    /// tax base.
    pub fn checked_tax(&mut self, _income_type: IncomeType, amount: Decimal) -> (result: Option<Decimal>)
        requires
            old(self).wf(),
            amount.wf(),
        ensures
            final(self).wf(),
            final(self).rates == old(self).rates,
            final(self).precision == old(self).precision,
            result matches Some(tax) ==> tax.wf(),
            match old(self).spec_tax(amount) {
                Some((tax, base)) => result == Some(tax) && final(self).tax_base == base,
                None => result is None && final(self).tax_base == old(self).tax_base,
            },
    {
        let ghost total = self.spec_tax(amount);
        let mut income = currency::round(amount);
        let rates_len = self.rates.len();

        let mut i: usize = 0;
        while i + 1 < rates_len && !self.tax_base.less_than(&self.rates[i + 1].0)
            invariant
                valid_rates(self.rates@),
                rates_len == self.rates@.len(),
                i < rates_len,
                self.tax_base.wf(),
                bracket_from(self.rates@, self.tax_base, i as nat) == bracket_from(self.rates@, self.tax_base, 0),
            decreases rates_len - i,
        {
            i = i + 1;
        }
        proof {
            lemma_bracket_bound(self.rates@, self.tax_base, 0);
        }

        let mut base = self.tax_base;
        let mut tax = Decimal::zero();

        while income.is_sign_positive() && !income.is_zero()
            invariant
                valid_rates(self.rates@),
                rates_len == self.rates@.len(),
                i < rates_len,
                income.wf(),
                base.wf(),
                tax.wf(),
                self.rates == old(self).rates,
                self.precision == old(self).precision,
                self.tax_base == old(self).tax_base,
                old(self).wf(),
                total == old(self).spec_tax(amount),
                progressive_steps(self.rates@, self.precision, i as nat, income, base, tax) == total,
            decreases (rates_len - i) * 2 + if income.mantissa > 0 { 1int } else { 0int },
        {
            let rate = self.rates[i].1;
            let mut advance = false;
            let mut current = income;
            if i + 1 < rates_len {
                match self.rates[i + 1].0.checked_sub(base) {
                    Some(gap) => {
                        if !income.less_than(&gap) {
                            advance = true;
                            current = gap;
                        }
                    },
                    None => {
                        assert(total is None);
                        return None;
                    },
                }
            }

            let rest = match income.checked_sub(current) {
                Some(rest) => rest,
                None => return None,
            };
            let new_base = match base.checked_add(current) {
                Some(new_base) => new_base,
                None => return None,
            };
            let current_tax = match current.checked_mul(rate) {
                Some(current_tax) => current_tax,
                None => return None,
            };
            let new_tax = match tax.checked_add(round_tax(current_tax, self.precision)) {
                Some(new_tax) => new_tax,
                None => return None,
            };

            income = rest;
            base = new_base;
            tax = new_tax;
            if advance {
                i = i + 1;
            }
        }

        self.tax_base = base;
        Some(tax)
    }
}

impl ProgressiveTaxRate {
    /// Taxes `income` on top of the income taxed so far.
    pub fn tax(&mut self, income_type: IncomeType, income: Decimal) -> (result: Decimal)
        requires
            old(self).wf(),
            income.wf(),
            old(self).spec_tax(income) is Some,
        ensures
            final(self).wf(),
            final(self).rates == old(self).rates,
            final(self).precision == old(self).precision,
            old(self).spec_tax(income) == Some((result, final(self).tax_base)),
    {
        match self.checked_tax(income_type, income) {
            Some(tax) => tax,
            None => Decimal::zero(),
        }
    }
}

/// A tax rate of either kind.
#[derive(Debug)]
pub enum TaxRate {
    Fixed(FixedTaxRate),
    Progressive(ProgressiveTaxRate),
}

/// The state of a tax rate calculator.
pub enum TaxRateModel {
    /// A flat rate and the tax precision.
    Fixed(Decimal, u32),
    /// The scale, the tax precision and the income taxed so far.
    Progressive(Seq<(Decimal, Decimal)>, u32, Decimal),
}

impl TaxRateModel {
    pub open spec fn wf(self) -> bool {
        match self {
            TaxRateModel::Fixed(rate, _) => rate.wf(),
            TaxRateModel::Progressive(rates, _, base) => valid_rates(rates) && base.wf(),
        }
    }

    /// The tax for `income` and the state of the calculator afterwards, or `None` on overflow.
    pub open spec fn spec_tax(self, income: Decimal) -> Option<(Decimal, TaxRateModel)> {
        match self {
            TaxRateModel::Fixed(rate, precision) => match spec_fixed_tax(rate, precision, income) {
                Some(tax) => Some((tax, self)),
                None => None,
            },
            TaxRateModel::Progressive(rates, precision, base) => match spec_progressive_tax(rates, precision, base, income) {
                Some((tax, new_base)) => Some((tax, TaxRateModel::Progressive(rates, precision, new_base))),
                None => None,
            },
        }
    }
}

impl TaxRate {
    pub open spec fn view(&self) -> TaxRateModel {
        match self {
            TaxRate::Fixed(rate) => TaxRateModel::Fixed(rate.rate, rate.precision),
            TaxRate::Progressive(rate) => TaxRateModel::Progressive(rate.rates@, rate.precision, rate.tax_base),
        }
    }

    pub open spec fn wf(&self) -> bool {
        self@.wf()
    }

    /// Taxes `income`; on overflow gives nothing and keeps the state.
    pub fn checked_tax(&mut self, income_type: IncomeType, income: Decimal) -> (result: Option<Decimal>)
        requires
            old(self).wf(),
            income.wf(),
        ensures
            final(self).wf(),
            result matches Some(tax) ==> tax.wf(),
            match old(self)@.spec_tax(income) {
                Some((tax, state)) => result == Some(tax) && final(self)@ == state,
                None => result is None && final(self)@ == old(self)@,
            },
    {
        match self {
            TaxRate::Fixed(rate) => rate.checked_tax(income_type, income),
            TaxRate::Progressive(rate) => rate.checked_tax(income_type, income),
        }
    }

    pub fn tax(&mut self, income_type: IncomeType, income: Decimal) -> (result: Decimal)
        requires
            old(self).wf(),
            income.wf(),
            old(self)@.spec_tax(income) is Some,
        ensures
            final(self).wf(),
            result.wf(),
            old(self)@.spec_tax(income) == Some((result, final(self)@)),
    {
        match self.checked_tax(income_type, income) {
            Some(tax) => tax,
            None => Decimal::zero(),
        }
    }
}

/// A copy of a tax scale.
pub fn copy_rates(rates: &Vec<(Decimal, Decimal)>) -> (result: Vec<(Decimal, Decimal)>)
    ensures
        result@ == rates@,
{
    let mut result: Vec<(Decimal, Decimal)> = Vec::new();
    let mut i: usize = 0;
    while i < rates.len()
        invariant
            i <= rates@.len(),
            result@ == rates@.subrange(0, i as int),
        decreases rates.len() - i,
    {
        result.push(rates[i]);
        i = i + 1;
        assert(result@ =~= rates@.subrange(0, i as int));
    }
    assert(rates@.subrange(0, i as int) =~= rates@);
    result
}

impl TaxRate {
    /// A copy of the calculator in its current state.
    pub fn duplicate(&self) -> (result: TaxRate)
        ensures
            result@ == self@,
    {
        match self {
            TaxRate::Fixed(rate) => TaxRate::Fixed(*rate),
            TaxRate::Progressive(rate) => TaxRate::Progressive(ProgressiveTaxRate {
                rates: copy_rates(&rate.rates),
                precision: rate.precision,
                tax_base: rate.tax_base,
            }),
        }
    }
}

} // verus!
