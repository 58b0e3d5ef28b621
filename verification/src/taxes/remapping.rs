use vstd::prelude::*;

use crate::error::Error;
use crate::text::str_eq;
use crate::time::Date;

verus! {

/// A configured remapping of a tax to another date.
#[derive(Debug)]
pub struct TaxRemappingConfig {
    pub date: Date,
    pub description: String,
    pub to_date: Date,
}

/// A remapping rule: taxes on `date` with `description` are moved to `to_date`.
#[derive(Debug)]
pub struct TaxRemappingRule {
    pub date: Date,
    pub description: String,
    pub to_date: Date,
    /// Whether the rule has been applied to a tax.
    pub mapped: bool,
}

/// The model of a rule: its key (date and description), target date and whether it's applied.
pub type RuleModel = (Date, Seq<char>, Date, bool);

/// Tax remapping rules, at most one per date and description.
#[derive(Debug)]
pub struct TaxRemapping {
    pub rules: Vec<TaxRemappingRule>,
}

pub open spec fn rule_model(rule: TaxRemappingRule) -> RuleModel {
    (rule.date, rule.description@, rule.to_date, rule.mapped)
}

/// Whether rule `i` matches `date` and `description`.
pub open spec fn rule_matches(rules: Seq<RuleModel>, i: int, date: Date, description: Seq<char>) -> bool {
    rules[i].0 == date && rules[i].1 == description
}

pub open spec fn has_rule(rules: Seq<RuleModel>, date: Date, description: Seq<char>) -> bool {
    exists|i: int| 0 <= i < rules.len() && #[trigger] rule_matches(rules, i, date, description)
}

/// Whether configs `i` and `j` have the same date and description.
pub open spec fn same_key(configs: Seq<TaxRemappingConfig>, i: int, j: int) -> bool {
    configs[i].date == configs[j].date && configs[i].description@ == configs[j].description@
}

/// Whether config `j` has the date and description of an earlier one.
pub open spec fn repeats_key(configs: Seq<TaxRemappingConfig>, j: int) -> bool {
    exists|i: int| 0 <= i < j && #[trigger] same_key(configs, i, j)
}

/// Config `j` is the first one to repeat an earlier one's date and description.
pub open spec fn is_first_repeat(configs: Seq<TaxRemappingConfig>, j: int) -> bool {
    &&& 0 <= j < configs.len()
    &&& repeats_key(configs, j)
    &&& forall|k: int| 0 <= k < j ==> !#[trigger] repeats_key(configs, k)
}

impl TaxRemapping {
    pub open spec fn view(&self) -> Seq<RuleModel> {
        self.rules@.map_values(|rule: TaxRemappingRule| rule_model(rule))
    }

    /// No two rules have the same date and description.
    pub open spec fn wf(&self) -> bool {
        forall|i: int, j: int| 0 <= i < j < self@.len() ==> !(#[trigger] self@[i].0 == #[trigger] self@[j].0 && self@[i].1
            == self@[j].1)
    }

    pub fn new() -> (result: TaxRemapping)
        ensures
            result@ == Seq::<RuleModel>::empty(),
            result.wf(),
    {
        TaxRemapping { rules: Vec::new() }
    }

    /// The index of the rule for `date` and `description`, if there is one.
    fn find(&self, date: Date, description: &str) -> (result: Option<usize>)
        requires
            self.wf(),
        ensures
            match result {
                Some(i) => i < self@.len() && rule_matches(self@, i as int, date, description@),
                None => !has_rule(self@, date, description@),
            },
    {
        let mut i: usize = 0;
        while i < self.rules.len()
            invariant
                i <= self.rules@.len(),
                forall|j: int| 0 <= j < i ==> !#[trigger] rule_matches(self@, j, date, description@),
            decreases self.rules.len() - i,
        {
            let rule = &self.rules[i];
            assert(self@[i as int] == rule_model(self.rules@[i as int]));
            if rule.date == date && str_eq(rule.description.as_str(), description) {
                return Some(i);
            }
            i = i + 1;
        }
        None
    }

    pub fn from_config(configs: &[TaxRemappingConfig]) -> (result: Result<TaxRemapping, Error>)
        ensures
            result is Ok <==> forall|j: int| 0 <= j < configs@.len() ==> !#[trigger] repeats_key(configs@, j),
            result matches Ok(remapping) ==> remapping.wf() && remapping@.len() == configs@.len()
                && forall|i: int| 0 <= i < configs@.len() ==> #[trigger] remapping@[i] == (
                    configs@[i].date, configs@[i].description@, configs@[i].to_date, false),
            result matches Err(error) ==> exists|j: int| #[trigger] is_first_repeat(configs@, j) && (
                error matches Error::DuplicatedTaxRemapping(date, description) && date == configs@[j].date
                    && description@ == configs@[j].description@),
    {
        let mut remapping = TaxRemapping::new();
        let mut i: usize = 0;

        while i < configs.len()
            invariant
                i <= configs@.len(),
                remapping.wf(),
                remapping@.len() == i,
                forall|k: int| 0 <= k < i ==> #[trigger] remapping@[k] == (
                    configs@[k].date, configs@[k].description@, configs@[k].to_date, false),
                forall|k: int| 0 <= k < i ==> !#[trigger] repeats_key(configs@, k),
            decreases configs.len() - i,
        {
            let config = &configs[i];
            let ghost before = remapping@;
            match remapping.add(config.date, config.description.as_str(), config.to_date) {
                Ok(()) => {
                    assert(!repeats_key(configs@, i as int)) by {
                        if repeats_key(configs@, i as int) {
                            let k = choose|k: int| 0 <= k < i && #[trigger] same_key(configs@, k, i as int);
                            assert(before[k] == (configs@[k].date, configs@[k].description@, configs@[k].to_date, false));
                            assert(rule_matches(before, k, config.date, config.description@));
                        }
                    }
                },
                Err(e) => {
                    proof {
                        let k = choose|k: int| 0 <= k < before.len() && #[trigger] rule_matches(before, k, config.date, config.description@);
                        assert(before[k] == (configs@[k].date, configs@[k].description@, configs@[k].to_date, false));
                        assert(configs@[i as int].date == config.date);
                        assert(same_key(configs@, k, i as int));
                        assert(is_first_repeat(configs@, i as int));
                    }
                    return Err(e);
                },
            }
            i = i + 1;
        }

        Ok(remapping)
    }

    /// Adds a rule. A second rule for the same date and description replaces the first one and
    /// is reported as an error.
    pub fn add(&mut self, date: Date, description: &str, to_date: Date) -> (result: Result<(), Error>)
        requires
            old(self).wf(),
        ensures
            final(self).wf(),
            !has_rule(old(self)@, date, description@) ==> result is Ok
                && final(self)@ == old(self)@.push((date, description@, to_date, false)),
            has_rule(old(self)@, date, description@) ==> (result matches Err(Error::DuplicatedTaxRemapping(d, s))
                && d == date && s@ == description@) && exists|i: int| 0 <= i < old(self)@.len()
                && #[trigger] rule_matches(old(self)@, i, date, description@)
                && final(self)@ == old(self)@.update(i, (date, description@, to_date, false)),
    {
        let rule = TaxRemappingRule { date, description: description.to_owned(), to_date, mapped: false };
        match self.find(date, description) {
            Some(i) => {
                self.rules.set(i, rule);
                assert(self@ =~= old(self)@.update(i as int, (date, description@, to_date, false)));
                assert forall|a: int, b: int| 0 <= a < b < self@.len() implies !(#[trigger] self@[a].0
                    == #[trigger] self@[b].0 && self@[a].1 == self@[b].1) by {
                    if a != i as int && b != i as int {
                        assert(self@[a] == old(self)@[a] && self@[b] == old(self)@[b]);
                    } else if a == i as int {
                        assert(self@[b] == old(self)@[b]);
                        assert(old(self)@[a].0 == old(self)@[a].0);
                    } else {
                        assert(self@[a] == old(self)@[a]);
                    }
                }
                Err(Error::DuplicatedTaxRemapping(date, description.to_owned()))
            },
            None => {
                self.rules.push(rule);
                assert(self@ =~= old(self)@.push((date, description@, to_date, false)));
                assert forall|i: int, j: int| 0 <= i < j < self@.len() implies !(#[trigger] self@[i].0
                    == #[trigger] self@[j].0 && self@[i].1 == self@[j].1) by {
                    if j == old(self)@.len() {
                        assert(!rule_matches(old(self)@, i, date, description@));
                    }
                }
                Ok(())
            },
        }
    }

    /// The date that a tax on `date` with `description` is moved to; marks the rule as applied.
    pub fn map(&mut self, date: Date, description: &str) -> (result: Date)
        requires
            old(self).wf(),
        ensures
            final(self).wf(),
            !has_rule(old(self)@, date, description@) ==> result == date && final(self)@ == old(self)@,
            has_rule(old(self)@, date, description@) ==> exists|i: int| 0 <= i < old(self)@.len()
                && #[trigger] rule_matches(old(self)@, i, date, description@) && result == old(self)@[i].2
                && final(self)@ == old(self)@.update(i, (old(self)@[i].0, old(self)@[i].1, old(self)@[i].2, true)),
    {
        match self.find(date, description) {
            Some(i) => {
                let to_date = self.rules[i].to_date;
                let mut rule = self.rules.remove(i);
                rule.mapped = true;
                self.rules.insert(i, rule);
                assert(self@ =~= old(self)@.update(i as int, (old(self)@[i as int].0, old(self)@[i as int].1, to_date, true)));
                to_date
            },
            None => date,
        }
    }

    /// Fails if some rule hasn't been applied to any tax, naming one such rule.
    pub fn ensure_all_mapped(&self) -> (result: Result<(), Error>)
        ensures
            result is Ok <==> forall|i: int| 0 <= i < self@.len() ==> (#[trigger] self@[i]).3,
            result matches Err(e) ==> (e matches Error::UnmappedTaxRemapping(d, s) && exists|i: int| 0 <= i
                < self@.len() && !(#[trigger] self@[i]).3 && self@[i].0 == d && self@[i].1 == s@),
    {
        let mut i: usize = 0;
        while i < self.rules.len()
            invariant
                i <= self.rules@.len(),
                forall|j: int| 0 <= j < i ==> (#[trigger] self@[j]).3,
            decreases self.rules.len() - i,
        {
            let rule = &self.rules[i];
            assert(self@[i as int] == rule_model(self.rules@[i as int]));
            if !rule.mapped {
                return Err(Error::UnmappedTaxRemapping(rule.date, rule.description.clone()));
            }
            i = i + 1;
        }
        Ok(())
    }
}

} // verus!
