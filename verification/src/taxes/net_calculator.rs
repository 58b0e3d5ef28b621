use vstd::prelude::*;

use std::collections::BTreeMap;

use crate::currency::{self, Cash};
use crate::decimal::{self, Decimal};
use crate::localities::Country;
use crate::time::Date;
use crate::year_map::YearMap;
use super::IncomeType;
use super::calculator::{precision_of, spec_calculate, spec_deductible_tax, TaxCalculator};
use super::long_term_ownership::{LtoDeductibleProfit, LtoDeductionCalculator};
use super::payment_day::{spec_payment_date, spec_tax_year, TaxPaymentDay, TaxPaymentDaySpec};
use super::rates::TaxRateModel;

verus! {

/// The tax on the trading profit of a tax year.
#[derive(Debug)]
pub struct NetTax {
    pub tax_payment_date: Date,
    pub tax_deduction: Cash,
    pub tax_to_pay: Cash,

    pub lto_deduction: Cash,
    pub lto_loss: Cash,
}

/// The trading profit of a tax year.
#[derive(Clone, Copy, Debug)]
pub struct NetProfit {
    pub tax_payment_date: Date,
    pub total: Decimal,
    pub taxable: Decimal,
    pub lto: LtoDeductionCalculator,
}

/// The amounts of a year's net tax: tax deduction and tax to pay, long-term ownership deduction
/// and loss.
pub struct NetTaxAmounts {
    pub tax_deduction: Decimal,
    pub tax_to_pay: Decimal,
    pub lto_deduction: Decimal,
    pub lto_loss: Decimal,
}

impl NetProfit {
    pub open spec fn wf(self) -> bool {
        self.total.wf() && self.taxable.wf() && self.lto.wf() && self.tax_payment_date.wf()
    }
}

/// The long-term ownership calculator after adding `profits`, or `None` on overflow.
pub open spec fn add_lto_profits(
    calc: LtoDeductionCalculator, profits: Seq<LtoDeductibleProfit>, out_of_limit: bool,
) -> Option<LtoDeductionCalculator>
    decreases profits.len(),
{
    if profits.len() == 0 {
        Some(calc)
    } else {
        match add_lto_profits(calc, profits.drop_last(), out_of_limit) {
            None => None,
            Some(calc) => calc.spec_add(profits.last().profit, profits.last().years, out_of_limit),
        }
    }
}

/// A year's profit after adding a trade's profit (rounded to money precision), or `None` on
/// overflow.
pub open spec fn spec_add_profit(
    profit: NetProfit, total: Decimal, taxable: Decimal, lto: Seq<LtoDeductibleProfit>, emulated_trade: bool,
) -> Option<NetProfit> {
    match (
        decimal::rust_decimal_checked_add(profit.total, currency::spec_round(total)),
        decimal::rust_decimal_checked_add(profit.taxable, currency::spec_round(taxable)),
        add_lto_profits(profit.lto, lto, emulated_trade),
    ) {
        (Some(total), Some(taxable), Some(lto)) => Some(NetProfit { total, taxable, lto, ..profit }),
        _ => None,
    }
}

/// The net tax of a year's profit for a tax calculator in state `rate`, and the calculator's
/// state afterwards; `None` on overflow.
pub open spec fn spec_net_tax(precision: u32, rate: TaxRateModel, profit: NetProfit) -> Option<(NetTaxAmounts, TaxRateModel)> {
    match profit.lto.spec_calculate() {
        None => None,
        Some(lto) => match decimal::rust_decimal_checked_sub(profit.taxable, lto.deduction) {
            None => None,
            Some(taxable) => match spec_deductible_tax(precision, rate, profit.total, taxable) {
                None => None,
                Some((tax, next)) => Some((NetTaxAmounts {
                    tax_deduction: tax.deduction,
                    tax_to_pay: tax.to_pay,
                    lto_deduction: lto.deduction,
                    lto_loss: lto.loss,
                }, next)),
            },
        },
    }
}

/// The tax to pay on a year's profit is the tax on its taxable part less the long-term ownership
/// deduction, taxed as plain income of a calculator in the same state; the total profit only
/// sets what is deducted. So two profits that differ only in their totals have the same tax to
/// pay.
pub proof fn law_net_tax_on_taxable_profit(precision: u32, rate: TaxRateModel, profit: NetProfit, other: NetProfit)
    ensures
        spec_net_tax(precision, rate, profit) matches Some((amounts, _)) ==> ({
            let lto = profit.lto.spec_calculate()->0;
            let taxable = decimal::rust_decimal_checked_sub(profit.taxable, lto.deduction)->0;
            &&& spec_calculate(precision, rate, taxable, None) matches Some((taxed, _))
            &&& amounts.tax_to_pay == taxed.to_pay
            &&& spec_calculate(precision, rate, profit.total, None) matches Some((full, _))
            &&& decimal::rust_decimal_checked_sub(full.expected, amounts.tax_to_pay) == Some(amounts.tax_deduction)
            &&& amounts.lto_deduction == lto.deduction
            &&& amounts.lto_loss == lto.loss
        }),
        other.taxable == profit.taxable && other.lto == profit.lto ==> (spec_net_tax(precision, rate, profit) matches Some(
            (amounts, _)) ==> (spec_net_tax(precision, rate, other) matches Some((other_amounts, _))
            ==> amounts.tax_to_pay == other_amounts.tax_to_pay)),
{
}

/// The state of the tax calculator after taxing a year's profit.
pub open spec fn net_tax_state(precision: u32, rate: TaxRateModel, profit: NetProfit) -> TaxRateModel {
    let (_, next) = spec_net_tax(precision, rate, profit)->0;
    next
}

impl NetTax {
    pub open spec fn is(&self, date: Date, amounts: NetTaxAmounts, currency: Seq<char>) -> bool {
        &&& self.tax_payment_date == date
        &&& self.tax_deduction.amount == amounts.tax_deduction && self.tax_deduction.currency@ == currency
        &&& self.tax_to_pay.amount == amounts.tax_to_pay && self.tax_to_pay.currency@ == currency
        &&& self.lto_deduction.amount == amounts.lto_deduction && self.lto_deduction.currency@ == currency
        &&& self.lto_loss.amount == amounts.lto_loss && self.lto_loss.currency@ == currency
    }
}

/// Collects trading profits by tax year to calculate the taxes on them.
pub struct NetTaxCalculator {
    pub country: Country,
    pub tax_payment_day: TaxPaymentDay,
    pub profit: YearMap<NetProfit>,
}

impl NetTaxCalculator {
    pub open spec fn wf(&self) -> bool {
        &&& self.country.wf()
        &&& self.tax_payment_day.spec.wf()
        &&& self.profit.wf()
        &&& forall|year: i32| #[trigger] self.profit@.contains_key(year) ==> self.profit@[year].wf()
    }

    /// The profit of a year (nothing if no trade has been seen in it).
    pub open spec fn year_profit(&self, tax_year: i32) -> NetProfit {
        if self.profit@.contains_key(tax_year) {
            self.profit@[tax_year]
        } else {
            NetProfit {
                tax_payment_date: spec_payment_date(self.tax_payment_day.jurisdiction, self.tax_payment_day.spec,
                    tax_year as int, true),
                total: Decimal::spec_zero(),
                taxable: Decimal::spec_zero(),
                lto: LtoDeductionCalculator {
                    profit: Decimal::spec_zero(),
                    weighted_profit: Decimal::spec_zero(),
                    out_of_limit: Decimal::spec_zero(),
                },
            }
        }
    }

    pub fn new(country: Country, tax_payment_day: TaxPaymentDay) -> (result: NetTaxCalculator)
        requires
            country.wf(),
            tax_payment_day.spec.wf(),
        ensures
            result.country == country,
            result.tax_payment_day == tax_payment_day,
            result.profit@ == Map::<i32, NetProfit>::empty(),
            result.wf(),
    {
        NetTaxCalculator { country, tax_payment_day, profit: YearMap::new() }
    }

    /// Adds the profit of a trade made on `date`, where the sums don't overflow; otherwise gives
    /// `false` and keeps the calculator as it was.
    pub fn checked_add_profit(
        &mut self, date: Date, total: Cash, taxable: Cash, lto_deductible: &[LtoDeductibleProfit], emulated_trade: bool,
    ) -> (result: bool)
        requires
            old(self).wf(),
            date.wf(),
            date.year < crate::time::date::MAX_YEAR,
            old(self).tax_payment_day.spec matches TaxPaymentDaySpec::OnClose(close_date) ==> date.spec_not_after(
                close_date) && close_date.year < crate::time::date::MAX_YEAR,
            total.amount.wf(),
            taxable.amount.wf(),
            forall|i: int| 0 <= i < lto_deductible@.len() ==> (#[trigger] lto_deductible@[i]).profit.wf()
                && lto_deductible@[i].profit.mantissa >= 0 && lto_deductible@[i].years >= 3,
        ensures
            final(self).wf(),
            final(self).country == old(self).country,
            final(self).tax_payment_day == old(self).tax_payment_day,
            ({
                let year = spec_tax_year(old(self).tax_payment_day.spec, date, true) as i32;
                match spec_add_profit(old(self).year_profit(year), total.amount, taxable.amount, lto_deductible@,
                    emulated_trade) {
                    Some(profit) => result && final(self).profit@ == old(self).profit@.insert(year, profit),
                    None => !result && final(self).profit@ == old(self).profit@,
                }
            }),
    {
        let (tax_year, tax_payment_date) = self.tax_payment_day.get(date, true);

        let mut net_profit = match self.profit.get(tax_year) {
            Some(profit) => *profit,
            None => NetProfit {
                tax_payment_date,
                total: Decimal::zero(),
                taxable: Decimal::zero(),
                lto: LtoDeductionCalculator::new(),
            },
        };

        net_profit.total = match net_profit.total.checked_add(currency::round(total.amount)) {
            Some(sum) => sum,
            None => return false,
        };
        net_profit.taxable = match net_profit.taxable.checked_add(currency::round(taxable.amount)) {
            Some(sum) => sum,
            None => return false,
        };

        let ghost start = net_profit;
        let mut i: usize = 0;
        while i < lto_deductible.len()
            invariant
                net_profit.total == start.total,
                net_profit.taxable == start.taxable,
                net_profit.tax_payment_date == start.tax_payment_date,
                i <= lto_deductible@.len(),
                net_profit.lto.wf(),
                forall|k: int| 0 <= k < lto_deductible@.len() ==> (#[trigger] lto_deductible@[k]).profit.wf()
                    && lto_deductible@[k].profit.mantissa >= 0 && lto_deductible@[k].years >= 3,
                add_lto_profits(start.lto, lto_deductible@.subrange(0, i as int), emulated_trade) == Some(net_profit.lto),
                self.wf(),
                *self == *old(self),
                tax_year == spec_tax_year(old(self).tax_payment_day.spec, date, true) as i32,
                start.lto == old(self).year_profit(tax_year).lto,
            decreases lto_deductible.len() - i,
        {
            proof {
                assert(lto_deductible@.subrange(0, i + 1).drop_last() =~= lto_deductible@.subrange(0, i as int));
            }
            let deductible = lto_deductible[i];
            if !net_profit.lto.checked_add(deductible.profit, deductible.years, emulated_trade) {
                proof {
                    if add_lto_profits(start.lto, lto_deductible@, emulated_trade) is Some {
                        lemma_add_lto_prefix(start.lto, lto_deductible@, emulated_trade, i as int + 1);
                    }
                }
                return false;
            }
            i = i + 1;
        }
        assert(lto_deductible@.subrange(0, i as int) =~= lto_deductible@);

        self.profit.insert(tax_year, net_profit);
        true
    }

    /// Adds the profit of a trade made on `date`: all of it, the taxable part and the parts that
    /// qualify for the long-term ownership deduction.
    pub fn add_profit(
        &mut self, date: Date, total: Cash, taxable: Cash, lto_deductible: &[LtoDeductibleProfit], emulated_trade: bool,
    )
        requires
            old(self).wf(),
            date.wf(),
            date.year < crate::time::date::MAX_YEAR,
            old(self).tax_payment_day.spec matches TaxPaymentDaySpec::OnClose(close_date) ==> date.spec_not_after(
                close_date) && close_date.year < crate::time::date::MAX_YEAR,
            total.amount.wf(),
            taxable.amount.wf(),
            forall|i: int| 0 <= i < lto_deductible@.len() ==> (#[trigger] lto_deductible@[i]).profit.wf()
                && lto_deductible@[i].profit.mantissa >= 0 && lto_deductible@[i].years >= 3,
            spec_add_profit(old(self).year_profit(spec_tax_year(old(self).tax_payment_day.spec, date, true) as i32),
                total.amount, taxable.amount, lto_deductible@, emulated_trade) is Some,
        ensures
            final(self).wf(),
            final(self).country == old(self).country,
            final(self).tax_payment_day == old(self).tax_payment_day,
            ({
                let year = spec_tax_year(old(self).tax_payment_day.spec, date, true) as i32;
                final(self).profit@ == old(self).profit@.insert(year, spec_add_profit(old(self).year_profit(year),
                    total.amount, taxable.amount, lto_deductible@, emulated_trade)->0)
            }),
    {
        self.checked_add_profit(date, total, taxable, lto_deductible, emulated_trade);
    }

    /// The taxes by tax year. The tax calculator keeps the tax bases of the years.
    pub fn calculate(self, calculator: &mut TaxCalculator) -> (result: BTreeMap<i32, NetTax>)
        requires
            self.wf(),
            old(calculator).wf(),
            self.country.currency@ == old(calculator).country.currency@,
            forall|year: i32| #[trigger] self.profit@.contains_key(year) ==> spec_net_tax(precision_of(old(calculator)),
                old(calculator).year_rate(year), self.profit@[year]) is Some,
        ensures
            final(calculator).wf(),
            forall|year: i32| #[trigger] result@.contains_key(year) <==> self.profit@.contains_key(year),
            forall|year: i32| #[trigger] result@.contains_key(year) ==> ({
                let (amounts, _) = spec_net_tax(precision_of(old(calculator)), old(calculator).year_rate(year),
                    self.profit@[year])->0;
                result@[year].is(self.profit@[year].tax_payment_date, amounts, self.country.currency@)
            }),
            final(calculator).rates() == old(calculator).rates().union_prefer_right(Map::new(
                |year: i32| self.profit@.contains_key(year),
                |year: i32| net_tax_state(precision_of(old(calculator)), old(calculator).year_rate(year),
                    self.profit@[year]),
            )),
    {
        broadcast use vstd::std_specs::btree::group_btree_axioms;
        let ghost next = Map::new(
            |year: i32| self.profit@.contains_key(year),
            |year: i32| net_tax_state(precision_of(old(calculator)), old(calculator).year_rate(year),
                self.profit@[year]),
        );
        let mut taxes: BTreeMap<i32, NetTax> = BTreeMap::new();
        let years = self.profit.years();
        let mut i: usize = 0;

        assert(old(calculator).rates().union_prefer_right(next.restrict(years@.subrange(0, 0).to_set()))
            =~= old(calculator).rates());

        while i < years.len()
            invariant
                self.wf(),
                forall|year: i32| #[trigger] self.profit@.contains_key(year) ==> spec_net_tax(
                    precision_of(old(calculator)), old(calculator).year_rate(year), self.profit@[year]) is Some,
                self.country.currency@ == old(calculator).country.currency@,
                forall|year: i32| self.profit@.contains_key(year) <==> years@.contains(year),
                years@.no_duplicates(),
                i <= years@.len(),
                calculator.wf(),
                calculator.country == old(calculator).country,
                next == Map::new(
                    |year: i32| self.profit@.contains_key(year),
                    |year: i32| net_tax_state(precision_of(old(calculator)), old(calculator).year_rate(year),
                        self.profit@[year]),
                ),
                calculator.rates() == old(calculator).rates().union_prefer_right(next.restrict(
                    years@.subrange(0, i as int).to_set())),
                forall|year: i32| #[trigger] taxes@.contains_key(year) <==> years@.subrange(0, i as int).contains(year),
                forall|year: i32| #[trigger] taxes@.contains_key(year) ==> ({
                    let (amounts, _) = spec_net_tax(precision_of(old(calculator)), old(calculator).year_rate(year),
                        self.profit@[year])->0;
                    taxes@[year].is(self.profit@[year].tax_payment_date, amounts, self.country.currency@)
                }),
            decreases years.len() - i,
        {
            let year = years[i];
            assert(years@.contains(year));
            let ghost done = years@.subrange(0, i as int);
            assert(!done.contains(year)) by {
                if done.contains(year) {
                    let k = choose|k: int| 0 <= k < done.len() && done[k] == year;
                    assert(years@[k] == years@[i as int]);
                }
            }
            assert(calculator.year_rate(year) == old(calculator).year_rate(year)) by {
                assert(calculator.rates().contains_key(year) == old(calculator).rates().contains_key(year));
                if old(calculator).rates().contains_key(year) {
                    assert(calculator.rates()[year] == old(calculator).rates()[year]);
                }
            }

            let profit = match self.profit.get(year) {
                Some(profit) => *profit,
                None => {
                    assert(false);
                    return taxes;
                },
            };

            let lto = profit.lto.calculate();
            let lto_deduction = self.country.cash(lto.deduction);
            let lto_loss = self.country.cash(lto.loss);
            let taxable = profit.taxable.minus(lto.deduction);

            let tax = calculator.tax_deductible_income(
                IncomeType::Trading, year, self.country.cash(profit.total), self.country.cash(taxable));

            taxes.insert(year, NetTax {
                tax_payment_date: profit.tax_payment_date,
                tax_deduction: tax.deduction,
                tax_to_pay: tax.to_pay,
                lto_deduction,
                lto_loss,
            });

            proof {
                let done_next = years@.subrange(0, i + 1);
                assert(done_next =~= done.push(year));
                done.lemma_push_to_set_commute(year);
                assert(done_next.to_set() =~= done.to_set().insert(year));
                assert(calculator.rates() =~= old(calculator).rates().union_prefer_right(next.restrict(done_next.to_set())));
                assert forall|y: i32| #[trigger] taxes@.contains_key(y) <==> done_next.contains(y) by {
                    if done.contains(y) {
                        let k = choose|k: int| 0 <= k < done.len() && done[k] == y;
                        assert(done_next[k] == y);
                    }
                    if done_next.contains(y) && y != year {
                        let k = choose|k: int| 0 <= k < done_next.len() && done_next[k] == y;
                        assert(k != i as int);
                        assert(done[k] == y);
                    }
                    if y == year {
                        assert(done_next[i as int] == y);
                    }
                }
            }
            i = i + 1;
        }

        proof {
            assert(years@.subrange(0, i as int) =~= years@);
            assert(next.restrict(years@.to_set()) =~= next) by {
                assert forall|y: i32| #[trigger] next.contains_key(y) <==> years@.to_set().contains(y) by {}
            }
        }
        taxes
    }
}

proof fn lemma_add_lto_prefix(calc: LtoDeductionCalculator, profits: Seq<LtoDeductibleProfit>, out_of_limit: bool, n: int)
    requires
        0 <= n <= profits.len(),
        add_lto_profits(calc, profits, out_of_limit) is Some,
    ensures
        add_lto_profits(calc, profits.subrange(0, n), out_of_limit) is Some,
    decreases profits.len() - n,
{
    if n < profits.len() {
        lemma_add_lto_prefix(calc, profits, out_of_limit, n + 1);
        assert(profits.subrange(0, n + 1).drop_last() =~= profits.subrange(0, n));
    } else {
        assert(profits.subrange(0, n) =~= profits);
    }
}

} // verus!
