use vstd::prelude::*;
use vstd::string::*;

use crate::currency;
use crate::decimal::{self, Decimal};
use crate::time::Date;
use crate::year_map::YearMap;
use std::collections::BTreeMap;

verus! {

/// Profit from selling securities that qualify for the long-term ownership deduction.
#[derive(Clone, Copy, Debug)]
pub struct LtoDeductibleProfit {
    pub profit: Decimal,
    pub years: u32,
}

/// Accumulates deductible profits to calculate the long-term ownership deduction.
#[derive(Clone, Copy, Debug)]
pub struct LtoDeductionCalculator {
    pub profit: Decimal,
    pub weighted_profit: Decimal,
    pub out_of_limit: Decimal,
}

/// The result of applying the long-term ownership deduction.
#[derive(Clone, Copy, Debug, PartialEq, Eq, Structural)]
pub struct LtoDeduction {
    pub deduction: Decimal,
    pub limit: Decimal,
    pub loss: Decimal,
}

/// The deduction limit per year of ownership.
pub open spec fn yearly_limit() -> Decimal {
    Decimal { mantissa: 3_000_000, scale: 0 }
}

impl LtoDeductionCalculator {
    pub open spec fn wf(self) -> bool {
        self.profit.wf() && self.weighted_profit.wf() && self.out_of_limit.wf()
    }

    /// The calculator after `add`, or `None` on overflow.
    pub open spec fn spec_add(self, profit: Decimal, years: u32, out_of_limit: bool) -> Option<LtoDeductionCalculator> {
        if out_of_limit {
            match decimal::rust_decimal_checked_add(self.out_of_limit, profit) {
                Some(total) => Some(LtoDeductionCalculator { out_of_limit: total, ..self }),
                None => None,
            }
        } else {
            match (
                decimal::rust_decimal_checked_add(self.profit, profit),
                decimal::rust_decimal_checked_mul(profit, Decimal { mantissa: years as i128, scale: 0 }),
            ) {
                (Some(total), Some(weighted)) => match decimal::rust_decimal_checked_add(self.weighted_profit, weighted) {
                    Some(total_weighted) => Some(LtoDeductionCalculator {
                        profit: total,
                        weighted_profit: total_weighted,
                        ..self
                    }),
                    None => None,
                },
                _ => None,
            }
        }
    }

    /// The deduction for the accumulated profits, or `None` on overflow. Profits that are out of
    /// limit are deducted fully; the limit for the others is 3,000,000 per year of ownership,
    /// weighted by profit.
    pub open spec fn spec_calculate(self) -> Option<LtoDeduction> {
        let ool = self.out_of_limit;
        if self.profit.mantissa == 0 {
            match decimal::rust_decimal_checked_sub(ool, ool) {
                Some(loss) => Some(LtoDeduction { deduction: ool, limit: ool, loss }),
                None => None,
            }
        } else {
            match decimal::rust_decimal_checked_div(self.weighted_profit, self.profit) {
                None => None,
                Some(years) => match decimal::rust_decimal_checked_mul(years, yearly_limit()) {
                    None => None,
                    Some(raw_limit) => {
                        let limit = currency::spec_round(raw_limit);
                        match (
                            decimal::rust_decimal_checked_add(ool, self.profit),
                            decimal::rust_decimal_checked_add(ool, limit),
                            decimal::rust_decimal_checked_add(ool, self.profit.spec_min(limit)),
                        ) {
                            (Some(total_profit), Some(total_limit), Some(total_deduction)) =>
                                match decimal::rust_decimal_checked_sub(total_profit, total_deduction) {
                                    Some(loss) => Some(LtoDeduction {
                                        deduction: total_deduction,
                                        limit: total_limit,
                                        loss,
                                    }),
                                    None => None,
                                },
                            _ => None,
                        }
                    },
                },
            }
        }
    }

    pub fn new() -> (result: LtoDeductionCalculator)
        ensures
            result.profit == Decimal::spec_zero(),
            result.weighted_profit == Decimal::spec_zero(),
            result.out_of_limit == Decimal::spec_zero(),
            result.wf(),
    {
        LtoDeductionCalculator {
            profit: Decimal::zero(),
            weighted_profit: Decimal::zero(),
            out_of_limit: Decimal::zero(),
        }
    }

    /// Adds a profit of securities owned for `years` years. On overflow gives `false` and keeps
    /// the calculator as it was.
    pub fn checked_add(&mut self, profit: Decimal, years: u32, out_of_limit: bool) -> (result: bool)
        requires
            old(self).wf(),
            profit.wf(),
        ensures
            final(self).wf(),
            match old(self).spec_add(profit, years, out_of_limit) {
                Some(calculator) => result && *final(self) == calculator,
                None => !result && *final(self) == *old(self),
            },
    {
        if out_of_limit {
            match self.out_of_limit.checked_add(profit) {
                Some(total) => {
                    self.out_of_limit = total;
                    true
                },
                None => false,
            }
        } else {
            let total = match self.profit.checked_add(profit) {
                Some(total) => total,
                None => return false,
            };
            let weighted = match profit.checked_mul(Decimal::from_int(years as i64)) {
                Some(weighted) => weighted,
                None => return false,
            };
            let total_weighted = match self.weighted_profit.checked_add(weighted) {
                Some(total_weighted) => total_weighted,
                None => return false,
            };
            self.profit = total;
            self.weighted_profit = total_weighted;
            true
        }
    }

    /// Adds a nonnegative profit of securities owned for at least three years.
    pub fn add(&mut self, profit: Decimal, years: u32, out_of_limit: bool)
        requires
            old(self).wf(),
            profit.wf(),
            profit.mantissa >= 0,
            years >= 3,
            old(self).spec_add(profit, years, out_of_limit) is Some,
        ensures
            Some(*final(self)) == old(self).spec_add(profit, years, out_of_limit),
            final(self).wf(),
    {
        let _ = self.checked_add(profit, years, out_of_limit);
    }

    /// The deduction, or `None` on overflow.
    pub fn checked_calculate(self) -> (result: Option<LtoDeduction>)
        requires
            self.wf(),
        ensures
            result == self.spec_calculate(),
            result matches Some(deduction) ==> deduction.wf(),
            self.out_of_limit.mantissa == 0 || self.profit.mantissa == 0 ==> (result matches Some(deduction)
                ==> deduction.loss.mantissa >= 0 && !deduction.limit.spec_less(deduction.deduction)),
    {
        let mut total_profit = self.out_of_limit;
        let mut total_limit = self.out_of_limit;
        let mut total_deduction = self.out_of_limit;

        if !self.profit.is_zero() {
            let years = match self.weighted_profit.checked_div(self.profit) {
                Some(years) => years,
                None => return None,
            };
            let raw_limit = match years.checked_mul(Decimal::from_int(3_000_000)) {
                Some(raw_limit) => raw_limit,
                None => return None,
            };
            let limit = currency::round(raw_limit);

            total_profit = match total_profit.checked_add(self.profit) {
                Some(value) => value,
                None => return None,
            };
            total_limit = match total_limit.checked_add(limit) {
                Some(value) => value,
                None => return None,
            };
            total_deduction = match total_deduction.checked_add(self.profit.min(limit)) {
                Some(value) => value,
                None => return None,
            };
        }

        match total_profit.checked_sub(total_deduction) {
            Some(loss) => Some(LtoDeduction { deduction: total_deduction, limit: total_limit, loss }),
            None => None,
        }
    }

    pub fn calculate(self) -> (result: LtoDeduction)
        requires
            self.wf(),
            self.spec_calculate() is Some,
        ensures
            Some(result) == self.spec_calculate(),
            result.wf(),
            self.out_of_limit.mantissa == 0 || self.profit.mantissa == 0 ==> result.loss.mantissa >= 0
                && !result.limit.spec_less(result.deduction),
    {
        match self.checked_calculate() {
            Some(deduction) => deduction,
            None => LtoDeduction { deduction: self.out_of_limit, limit: self.out_of_limit, loss: self.out_of_limit },
        }
    }
}

impl LtoDeduction {
    pub open spec fn wf(self) -> bool {
        self.deduction.wf() && self.limit.wf() && self.loss.wf()
    }
}

/// Whole years of ownership between the buy and the sell date. An anniversary that falls on a
/// day the sell month doesn't have (February 29) counts on the month's last day.
pub open spec fn spec_ownership_years(buy: Date, sell: Date) -> int {
    let years = sell.year - buy.year;
    if sell.month > buy.month {
        years
    } else if sell.month < buy.month {
        years - 1
    } else if sell.day < buy.day && (sell.spec_succ() matches Some(next) && next.month == sell.month) {
        years - 1
    } else {
        years
    }
}

pub fn calculate_ownership_years(buy_date: Date, sell_date: Date) -> (result: u32)
    requires
        buy_date.wf(),
        sell_date.wf(),
        buy_date.spec_not_after(sell_date),
        sell_date.spec_succ() is Some,
    ensures
        result == spec_ownership_years(buy_date, sell_date),
{
    let mut years = sell_date.year() - buy_date.year();

    let buy_month = buy_date.month();
    let sell_month = sell_date.month();

    if sell_month > buy_month {
    } else if sell_month < buy_month {
        years -= 1;
    } else {
        let next_month = match sell_date.succ_opt() {
            Some(next) => next.month(),
            None => sell_month,
        };
        if sell_date.day() < buy_date.day() && next_month == sell_month {
            years -= 1;
        }
    }

    years as u32
}

/// The texts of ISIN codes.
pub open spec fn isin_codes(isins: Seq<String>) -> Seq<Seq<char>> {
    isins.map_values(|code: String| code@)
}

/// Whether an ISIN names a security of a Russian issuer (its country prefix is `RU`).
pub open spec fn is_russian_isin(isin: Seq<char>) -> bool {
    isin.len() >= 2 && isin[0] == 'R' && isin[1] == 'U'
}

/// Whether the long-term ownership deduction applies to a security with the given ISINs sold on
/// `sell_date`: always before 2024, afterwards only for Russian securities. `None` when it can't
/// be decided (no ISINs, or ISINs of both kinds).
pub open spec fn spec_is_applicable(isins: Seq<Seq<char>>, sell_date: Date) -> Option<bool> {
    if sell_date.year < 2024 {
        Some(true)
    } else if isins.len() == 0 {
        None
    } else if forall|i: int| 0 <= i < isins.len() ==> is_russian_isin(#[trigger] isins[i]) {
        Some(true)
    } else if forall|i: int| 0 <= i < isins.len() ==> !is_russian_isin(#[trigger] isins[i]) {
        Some(false)
    } else {
        None
    }
}

pub fn is_russian(isin: &String) -> (result: bool)
    ensures
        result == is_russian_isin(isin@),
{
    let code = isin.as_str();
    code.unicode_len() >= 2 && code.get_char(0) == 'R' && code.get_char(1) == 'U'
}

pub fn is_applicable(isin: &Vec<String>, sell_date: Date) -> (result: Option<bool>)
    ensures
        result == spec_is_applicable(isin_codes(isin@), sell_date),
{
    let ghost codes = isin_codes(isin@);
    if sell_date.year() < 2024 {
        return Some(true);
    }

    let mut result: Option<bool> = None;
    let mut i: usize = 0;

    while i < isin.len()
        invariant
            codes == isin_codes(isin@),
            sell_date.year >= 2024,
            i <= isin.len(),
            i == 0 ==> result is None,
            result == Some(true) ==> forall|j: int| 0 <= j < i ==> is_russian_isin(#[trigger] codes[j]),
            result == Some(false) ==> forall|j: int| 0 <= j < i ==> !is_russian_isin(#[trigger] codes[j]),
            i > 0 ==> result is Some,
        decreases isin.len() - i,
    {
        let applicable = is_russian(&isin[i]);
        assert(codes[i as int] == isin@[i as int]@);
        if let Some(prev) = result {
            if prev != applicable {
                assert(is_russian_isin(codes[0]) == prev);
                assert(is_russian_isin(codes[i as int]) == applicable);
                assert(!(forall|j: int| 0 <= j < codes.len() ==> is_russian_isin(#[trigger] codes[j])));
                assert(!(forall|j: int| 0 <= j < codes.len() ==> !is_russian_isin(#[trigger] codes[j])));
                return None;
            }
        }
        result = Some(applicable);
        i = i + 1;
    }

    assert(codes.len() == isin@.len());
    if i > 0 {
        if result == Some(false) {
            assert(!is_russian_isin(codes[0]));
            assert(spec_is_applicable(codes, sell_date) == Some(false));
        } else {
            assert(result == Some(true));
            assert(spec_is_applicable(codes, sell_date) == Some(true));
        }
    } else {
        assert(spec_is_applicable(codes, sell_date) is None);
    }
    result
}

pub open spec fn lto_start_date() -> Date {
    Date { year: 2014, month: 1, day: 1 }
}

/// The years of ownership when a security bought on `buy_date` and sold on `sell_date` qualifies
/// for the long-term ownership deduction: the deduction must apply, the security must have been
/// bought in 2014 or later and owned for three years at least.
pub open spec fn spec_is_deductible(isins: Seq<Seq<char>>, buy_date: Date, sell_date: Date) -> Option<u32> {
    if spec_is_applicable(isins, sell_date) != Some(true) {
        None
    } else if buy_date.spec_before(lto_start_date()) {
        None
    } else if spec_ownership_years(buy_date, sell_date) >= 3 {
        Some(spec_ownership_years(buy_date, sell_date) as u32)
    } else {
        None
    }
}

pub fn is_deductible(isin: &Vec<String>, buy_date: Date, sell_date: Date) -> (result: Option<u32>)
    requires
        buy_date.wf(),
        sell_date.wf(),
        buy_date.spec_not_after(sell_date),
        sell_date.spec_succ() is Some,
    ensures
        result == spec_is_deductible(isin_codes(isin@), buy_date, sell_date),
{
    let applicable = match is_applicable(isin, sell_date) {
        Some(applicable) => applicable,
        None => false,
    };
    if !applicable {
        return None;
    }

    if buy_date.before(&Date::from_ymd(2014, 1, 1)) {
        return None;
    }

    let years = calculate_ownership_years(buy_date, sell_date);
    if years >= 3 {
        Some(years)
    } else {
        None
    }
}

/// The deduction applied by tax agents for a tax year beyond what the year's profits allow.
#[derive(Clone, Copy, Debug, PartialEq, Eq, Structural)]
pub struct NetLtoDeduction {
    pub applied_above_limit: Decimal,
    pub loss: Decimal,
}

/// What is known of a tax year: its profits and the deduction and loss that tax agents applied.
#[derive(Clone, Copy, Debug)]
pub struct TaxYearLto {
    pub calc: LtoDeductionCalculator,
    pub applied_deduction: Decimal,
    pub applied_loss: Decimal,
}

impl TaxYearLto {
    pub open spec fn spec_new() -> TaxYearLto {
        TaxYearLto {
            calc: LtoDeductionCalculator {
                profit: Decimal::spec_zero(),
                weighted_profit: Decimal::spec_zero(),
                out_of_limit: Decimal::spec_zero(),
            },
            applied_deduction: Decimal::spec_zero(),
            applied_loss: Decimal::spec_zero(),
        }
    }

    pub open spec fn wf(self) -> bool {
        self.calc.wf() && self.applied_deduction.wf() && self.applied_loss.wf()
    }

    /// How much of the applied deduction exceeds the year's limit, or `None` on overflow.
    pub open spec fn spec_net(self) -> Option<NetLtoDeduction> {
        match self.calc.spec_calculate() {
            None => None,
            Some(deduction) => match decimal::rust_decimal_checked_sub(self.applied_deduction, deduction.limit) {
                None => None,
                Some(above) => Some(NetLtoDeduction {
                    applied_above_limit: Decimal::spec_zero().spec_max(above),
                    loss: self.applied_loss,
                }),
            },
        }
    }
}

/// A call that changes what a net long-term ownership deduction calculator knows of a tax year:
/// a profit (with the years of ownership and whether it is out of the limit), or a deduction and
/// a loss that a tax agent applied.
pub enum LtoEvent {
    Profit(i32, Decimal, u32, bool),
    AppliedDeduction(i32, Decimal, Decimal),
}

pub open spec fn event_year(event: LtoEvent) -> i32 {
    match event {
        LtoEvent::Profit(year, _, _, _) => year,
        LtoEvent::AppliedDeduction(year, _, _) => year,
    }
}

/// What an event makes of its tax year's state.
pub open spec fn apply_event(state: TaxYearLto, event: LtoEvent) -> TaxYearLto {
    match event {
        LtoEvent::Profit(_, profit, years, out_of_limit) => TaxYearLto {
            calc: state.calc.spec_add(profit, years, out_of_limit)->0,
            ..state
        },
        LtoEvent::AppliedDeduction(_, deduction, loss) => TaxYearLto {
            applied_deduction: decimal::rust_decimal_checked_add(state.applied_deduction, deduction)->0,
            applied_loss: decimal::rust_decimal_checked_add(state.applied_loss, loss)->0,
            ..state
        },
    }
}

/// The state of a tax year among the known ones (a fresh one if nothing is known of it).
pub open spec fn known_year(years: Map<i32, TaxYearLto>, year: i32) -> TaxYearLto {
    if years.contains_key(year) { years[year] } else { TaxYearLto::spec_new() }
}

/// The known tax years after an event.
pub open spec fn lto_step(years: Map<i32, TaxYearLto>, event: LtoEvent) -> Map<i32, TaxYearLto> {
    years.insert(event_year(event), apply_event(known_year(years, event_year(event)), event))
}

/// The known tax years after the events, from none.
pub open spec fn lto_history(events: Seq<LtoEvent>) -> Map<i32, TaxYearLto>
    decreases events.len(),
{
    if events.len() == 0 {
        Map::empty()
    } else {
        lto_step(lto_history(events.drop_last()), events.last())
    }
}

/// The state that the events of `year` alone make of a fresh tax year.
pub open spec fn year_history(events: Seq<LtoEvent>, year: i32) -> TaxYearLto
    decreases events.len(),
{
    if events.len() == 0 {
        TaxYearLto::spec_new()
    } else if event_year(events.last()) == year {
        apply_event(year_history(events.drop_last(), year), events.last())
    } else {
        year_history(events.drop_last(), year)
    }
}

/// Tax years don't mix: after any calls, a tax year is known if a call was about it, and its
/// state is what the calls about it alone, in their order, make of a fresh year. Its calculator
/// has been fed that year's profits, and the applied deductions and losses of that year have been
/// added up.
pub proof fn law_lto_years_apart(events: Seq<LtoEvent>, year: i32)
    ensures
        lto_history(events).contains_key(year) <==> exists|i: int| 0 <= i < events.len() && event_year(
            #[trigger] events[i],
        ) == year,
        known_year(lto_history(events), year) == year_history(events, year),
    decreases events.len(),
{
    if events.len() > 0 {
        let rest = events.drop_last();
        law_lto_years_apart(rest, year);
        if exists|i: int| 0 <= i < rest.len() && event_year(#[trigger] rest[i]) == year {
            let i = choose|i: int| 0 <= i < rest.len() && event_year(#[trigger] rest[i]) == year;
            assert(events[i] == rest[i]);
        }
        if exists|i: int| 0 <= i < events.len() && event_year(#[trigger] events[i]) == year {
            let i = choose|i: int| 0 <= i < events.len() && event_year(#[trigger] events[i]) == year;
            if i < rest.len() {
                assert(rest[i] == events[i]);
            }
        }
    }
}

/// The calculator that adding `profits` (each with its years of ownership and whether it is out
/// of the limit) in their order makes of a fresh one, as `LtoDeductionCalculator::new` gives it.
pub open spec fn fed_calculator(profits: Seq<(Decimal, u32, bool)>) -> LtoDeductionCalculator
    decreases profits.len(),
{
    if profits.len() == 0 {
        TaxYearLto::spec_new().calc
    } else {
        let (profit, years, out_of_limit) = profits.last();
        fed_calculator(profits.drop_last()).spec_add(profit, years, out_of_limit)->0
    }
}

/// The profits that the events add to `year`, in their order.
pub open spec fn year_profits(events: Seq<LtoEvent>, year: i32) -> Seq<(Decimal, u32, bool)>
    decreases events.len(),
{
    if events.len() == 0 {
        Seq::empty()
    } else {
        let before = year_profits(events.drop_last(), year);
        match events.last() {
            LtoEvent::Profit(y, profit, years, out_of_limit) => if y == year {
                before.push((profit, years, out_of_limit))
            } else {
                before
            },
            LtoEvent::AppliedDeduction(_, _, _) => before,
        }
    }
}

/// After any calls, the calculator of a tax year is a fresh long-term ownership deduction
/// calculator to which that year's profits were added in their order: the limit that its
/// applied deduction is measured against is that calculator's.
pub proof fn law_lto_year_calculator(events: Seq<LtoEvent>, year: i32)
    ensures
        known_year(lto_history(events), year).calc == fed_calculator(year_profits(events, year)),
{
    law_lto_years_apart(events, year);
    lemma_year_history_calculator(events, year);
}

proof fn lemma_year_history_calculator(events: Seq<LtoEvent>, year: i32)
    ensures
        year_history(events, year).calc == fed_calculator(year_profits(events, year)),
    decreases events.len(),
{
    if events.len() > 0 {
        lemma_year_history_calculator(events.drop_last(), year);
        let profits = year_profits(events.drop_last(), year);
        match events.last() {
            LtoEvent::Profit(y, profit, years, out_of_limit) => if y == year {
                assert(profits.push((profit, years, out_of_limit)).drop_last() =~= profits);
            },
            LtoEvent::AppliedDeduction(_, _, _) => {},
        }
    }
}

/// Calculates the result of applying the long-term ownership deduction separately by different tax
/// agents.
pub struct NetLtoDeductionCalculator {
    pub tax_years: YearMap<TaxYearLto>,
}

impl NetLtoDeductionCalculator {
    pub open spec fn wf(&self) -> bool {
        &&& self.tax_years.wf()
        &&& forall|year: i32| #[trigger] self.tax_years@.contains_key(year) ==> self.tax_years@[year].wf()
    }

    /// The state of a tax year (a fresh one if nothing is known of it).
    pub open spec fn year_state(&self, year: i32) -> TaxYearLto {
        if self.tax_years@.contains_key(year) { self.tax_years@[year] } else { TaxYearLto::spec_new() }
    }

    pub fn new() -> (result: NetLtoDeductionCalculator)
        ensures
            result.tax_years@ == Map::<i32, TaxYearLto>::empty(),
            result.wf(),
    {
        NetLtoDeductionCalculator { tax_years: YearMap::new() }
    }

    fn tax_year(&self, year: i32) -> (result: TaxYearLto)
        requires
            self.wf(),
        ensures
            result == self.year_state(year),
            result.wf(),
    {
        match self.tax_years.get(year) {
            Some(stat) => *stat,
            None => TaxYearLto {
                calc: LtoDeductionCalculator::new(),
                applied_deduction: Decimal::zero(),
                applied_loss: Decimal::zero(),
            },
        }
    }

    /// Adds a profit of securities owned for `years` years to a tax year, where the sums don't
    /// overflow; otherwise gives `false` and keeps the calculator as it was.
    pub fn checked_add_profit(&mut self, tax_year: i32, profit: Decimal, years: u32, out_of_limit: bool) -> (result: bool)
        requires
            old(self).wf(),
            profit.wf(),
            profit.mantissa >= 0,
            years >= 3,
        ensures
            final(self).wf(),
            result == old(self).year_state(tax_year).calc.spec_add(profit, years, out_of_limit) is Some,
            result ==> final(self).tax_years@ == lto_step(old(self).tax_years@, LtoEvent::Profit(tax_year, profit,
                years, out_of_limit)),
            !result ==> final(self).tax_years@ == old(self).tax_years@,
    {
        let mut stat = self.tax_year(tax_year);
        if !stat.calc.checked_add(profit, years, out_of_limit) {
            return false;
        }
        self.tax_years.insert(tax_year, stat);
        true
    }

    /// Adds a deduction and a loss that a tax agent applied to a tax year, where the sums don't
    /// overflow; otherwise gives `false` and keeps the calculator as it was.
    pub fn checked_add_applied_deduction(&mut self, tax_year: i32, deduction: Decimal, loss: Decimal) -> (result: bool)
        requires
            old(self).wf(),
            deduction.wf(),
            loss.wf(),
            deduction.mantissa >= 0,
            loss.mantissa >= 0,
        ensures
            final(self).wf(),
            result == (decimal::rust_decimal_checked_add(old(self).year_state(tax_year).applied_deduction, deduction)
                is Some && decimal::rust_decimal_checked_add(old(self).year_state(tax_year).applied_loss, loss) is Some),
            result ==> final(self).tax_years@ == lto_step(old(self).tax_years@, LtoEvent::AppliedDeduction(tax_year,
                deduction, loss)),
            !result ==> final(self).tax_years@ == old(self).tax_years@,
    {
        let mut stat = self.tax_year(tax_year);
        let applied_deduction = match stat.applied_deduction.checked_add(deduction) {
            Some(total) => total,
            None => return false,
        };
        let applied_loss = match stat.applied_loss.checked_add(loss) {
            Some(total) => total,
            None => return false,
        };
        stat.applied_deduction = applied_deduction;
        stat.applied_loss = applied_loss;
        self.tax_years.insert(tax_year, stat);
        true
    }

    pub fn add_profit(&mut self, tax_year: i32, profit: Decimal, years: u32, out_of_limit: bool)
        requires
            old(self).wf(),
            profit.wf(),
            profit.mantissa >= 0,
            years >= 3,
            old(self).year_state(tax_year).calc.spec_add(profit, years, out_of_limit) is Some,
        ensures
            final(self).wf(),
            final(self).tax_years@ == lto_step(old(self).tax_years@, LtoEvent::Profit(tax_year, profit, years,
                out_of_limit)),
    {
        let mut stat = self.tax_year(tax_year);
        stat.calc.add(profit, years, out_of_limit);
        self.tax_years.insert(tax_year, stat);
    }

    pub fn add_applied_deduction(&mut self, tax_year: i32, deduction: Decimal, loss: Decimal)
        requires
            old(self).wf(),
            deduction.wf(),
            loss.wf(),
            deduction.mantissa >= 0,
            loss.mantissa >= 0,
            decimal::rust_decimal_checked_add(old(self).year_state(tax_year).applied_deduction, deduction) is Some,
            decimal::rust_decimal_checked_add(old(self).year_state(tax_year).applied_loss, loss) is Some,
        ensures
            final(self).wf(),
            final(self).tax_years@ == lto_step(old(self).tax_years@, LtoEvent::AppliedDeduction(tax_year, deduction,
                loss)),
    {
        let mut stat = self.tax_year(tax_year);
        stat.applied_deduction = stat.applied_deduction.plus(deduction);
        stat.applied_loss = stat.applied_loss.plus(loss);
        self.tax_years.insert(tax_year, stat);
    }

    /// Per tax year: the deduction applied above the year's limit and the applied loss.
    pub fn calculate(self) -> (result: BTreeMap<i32, NetLtoDeduction>)
        requires
            self.wf(),
            forall|year: i32| #[trigger] self.tax_years@.contains_key(year) ==> self.tax_years@[year].spec_net() is Some,
        ensures
            forall|year: i32| #[trigger] result@.contains_key(year) <==> self.tax_years@.contains_key(year),
            forall|year: i32| #[trigger] result@.contains_key(year) ==> Some(result@[year]) == self.tax_years@[year].spec_net(),
    {
        broadcast use vstd::std_specs::btree::group_btree_axioms;
        let mut tax_years: BTreeMap<i32, NetLtoDeduction> = BTreeMap::new();
        let years = self.tax_years.years();
        let mut i: usize = 0;

        while i < years.len()
            invariant
                self.wf(),
                forall|year: i32| #[trigger] self.tax_years@.contains_key(year) ==> self.tax_years@[year].spec_net() is Some,
                forall|year: i32| self.tax_years@.contains_key(year) <==> years@.contains(year),
                years@.no_duplicates(),
                i <= years@.len(),
                forall|year: i32| #[trigger] tax_years@.contains_key(year) <==> years@.subrange(0, i as int).contains(year),
                forall|year: i32| #[trigger] tax_years@.contains_key(year) ==> Some(tax_years@[year])
                    == self.tax_years@[year].spec_net(),
            decreases years.len() - i,
        {
            let year = years[i];
            assert(years@.contains(year));
            let stat = self.tax_year(year);
            let limit = stat.calc.calculate().limit;
            let applied_above_limit = Decimal::zero().max(stat.applied_deduction.minus(limit));
            tax_years.insert(year, NetLtoDeduction { applied_above_limit, loss: stat.applied_loss });
            assert forall|y: i32| #[trigger] tax_years@.contains_key(y) <==> years@.subrange(0, i + 1).contains(y) by {
                if years@.subrange(0, i as int).contains(y) {
                    let k = choose|k: int| 0 <= k < i && #[trigger] years@.subrange(0, i as int)[k] == y;
                    assert(years@.subrange(0, i + 1)[k] == y);
                }
                if years@.subrange(0, i + 1).contains(y) && y != year {
                    let k = choose|k: int| 0 <= k < i + 1 && #[trigger] years@.subrange(0, i + 1)[k] == y;
                    assert(k != i as int);
                    assert(years@.subrange(0, i as int)[k] == y);
                }
                if y == year {
                    assert(years@.subrange(0, i + 1)[i as int] == y);
                }
            }
            i = i + 1;
        }
        assert(years@.subrange(0, i as int) =~= years@);
        tax_years
    }
}

} // verus!
