use vstd::prelude::*;

use crate::currency::Cash;
use crate::decimal::Decimal;
use crate::taxes::rates::{copy_rates, valid_rates, FixedTaxRate, ProgressiveTaxRate, TaxRate, TaxRateModel};

verus! {

/// A tax jurisdiction.
#[derive(Clone, Copy, Debug, PartialEq, Eq, Structural, Hash)]
pub enum Jurisdiction {
    Russia,
    Usa,
}

impl Jurisdiction {
    pub open spec fn spec_tax_precision(self) -> u32 {
        match self {
            Jurisdiction::Russia => 0,
            Jurisdiction::Usa => 2,
        }
    }

    pub open spec fn spec_currency(self) -> Seq<char> {
        match self {
            Jurisdiction::Russia => "RUB"@,
            Jurisdiction::Usa => "USD"@,
        }
    }

    /// The number of fractional digits that taxes are rounded to.
    pub fn tax_precision(&self) -> (result: u32)
        ensures
            result == self.spec_tax_precision(),
    {
        match self {
            Jurisdiction::Russia => 0,
            Jurisdiction::Usa => 2,
        }
    }

    /// The currency that taxes are paid in.
    pub fn currency(&self) -> (result: &'static str)
        ensures
            result@ == self.spec_currency(),
    {
        match self {
            Jurisdiction::Russia => "RUB",
            Jurisdiction::Usa => "USD",
        }
    }
}

/// A country whose taxes are paid: its jurisdiction, currency and tax scales.
#[derive(Debug)]
pub struct Country {
    pub jurisdiction: Jurisdiction,
    pub currency: String,
    /// Tax scales (see `ProgressiveTaxRate`) by the first tax year they apply to, in increasing
    /// order of years.
    pub tax_rates: Vec<(i32, Vec<(Decimal, Decimal)>)>,
}

/// The index of the scale that applies to `year`, searching from `i` on.
pub open spec fn scale_from(rates: Seq<(i32, Vec<(Decimal, Decimal)>)>, year: i32, i: nat) -> nat
    decreases rates.len() - i,
{
    if i + 1 < rates.len() && rates[i + 1int].0 <= year {
        scale_from(rates, year, i + 1)
    } else {
        i
    }
}

proof fn lemma_scale_bound(rates: Seq<(i32, Vec<(Decimal, Decimal)>)>, year: i32, i: nat)
    requires
        i < rates.len(),
    ensures
        i <= scale_from(rates, year, i) < rates.len(),
    decreases rates.len() - i,
{
    if i + 1 < rates.len() && rates[i + 1int].0 <= year {
        lemma_scale_bound(rates, year, i + 1);
    }
}

impl Country {
    pub open spec fn wf(&self) -> bool {
        &&& self.currency@ == self.jurisdiction.spec_currency()
        &&& self.tax_rates@.len() > 0
        &&& forall|i: int| 0 <= i < self.tax_rates@.len() ==> valid_rates((#[trigger] self.tax_rates@[i]).1@)
    }

    /// The tax scale for a year.
    pub open spec fn scale(&self, year: i32) -> Seq<(Decimal, Decimal)> {
        self.tax_rates@[scale_from(self.tax_rates@, year, 0) as int].1@
    }

    fn scale_index(&self, year: i32) -> (result: usize)
        requires
            self.wf(),
        ensures
            result == scale_from(self.tax_rates@, year, 0),
            result < self.tax_rates@.len(),
    {
        let len = self.tax_rates.len();
        let mut i: usize = 0;
        while i + 1 < len && self.tax_rates[i + 1].0 <= year
            invariant
                len == self.tax_rates@.len(),
                i < len,
                scale_from(self.tax_rates@, year, i as nat) == scale_from(self.tax_rates@, year, 0),
            decreases self.tax_rates.len() - i,
        {
            i = i + 1;
        }
        proof {
            lemma_scale_bound(self.tax_rates@, year, 0);
        }
        i
    }

    /// A fresh calculator of the tax for a year.
    pub fn tax_rate(&self, year: i32) -> (result: TaxRate)
        requires
            self.wf(),
        ensures
            result@ == TaxRateModel::Progressive(self.scale(year), self.jurisdiction.spec_tax_precision(),
                Decimal::spec_zero()),
            result.wf(),
    {
        let i = self.scale_index(year);
        let rates = copy_rates(&self.tax_rates[i].1);
        TaxRate::Progressive(ProgressiveTaxRate::new(Decimal::zero(), rates, self.jurisdiction.tax_precision()))
    }

    /// The rate that tax agents withhold for a year: the lowest rate of the year's scale.
    pub fn tax_agent_rate(&self, year: i32) -> (result: TaxRate)
        requires
            self.wf(),
        ensures
            result@ == TaxRateModel::Fixed(self.scale(year)[0].1, self.jurisdiction.spec_tax_precision()),
            result.wf(),
    {
        let i = self.scale_index(year);
        TaxRate::Fixed(FixedTaxRate::new(self.tax_rates[i].1[0].1, self.jurisdiction.tax_precision()))
    }

    /// An amount in the country's currency.
    pub fn cash(&self, amount: Decimal) -> (result: Cash)
        ensures
            result.currency@ == self.currency@,
            result.amount == amount,
    {
        Cash::new(self.currency.as_str(), amount)
    }
}

} // verus!
