use vstd::prelude::*;

use crate::decimal::Decimal;
use crate::error::Error;
use crate::tax_statement::encoding::{parse_unsigned, spec_parse_unsigned};
use crate::text;

verus! {

/// The monthly interest rates of a kind of deposit, by year: each year's rates are those of its
/// months from January on.
#[derive(Debug)]
pub struct DepositStatistics {
    pub name: String,
    pub currency: &'static str,
    pub duration: u32,
    pub interest_rates: Vec<(i32, Vec<Decimal>)>,
}

/// The years and their rates.
pub open spec fn rates_model(rates: Seq<(i32, Vec<Decimal>)>) -> Seq<(int, Seq<Decimal>)> {
    rates.map_values(|entry: (i32, Vec<Decimal>)| (entry.0 as int, entry.1@))
}

/// The years follow each other, each with some rates, and none is the last `i32`.
pub open spec fn consecutive_years(rates: Seq<(int, Seq<Decimal>)>) -> bool {
    &&& forall|k: int| 1 <= k < rates.len() ==> #[trigger] rates[k].0 == rates[k - 1].0 + 1
    &&& forall|k: int| 0 <= k < rates.len() ==> (#[trigger] rates[k]).1.len() > 0 && rates[k].0 < i32::MAX
}

/// Why rates can't be added: they don't follow the last ones (which are given), or there are
/// no rates of the months before.
pub enum RatesFailure {
    NotFollowing(int, nat),
    NoPreviousRates,
}

/// The rates after adding a month's rate, or why it can't be added: a month's rate follows the
/// previous month's, and January's rate follows December's of the year before.
pub open spec fn spec_add_rate(rates: Seq<(int, Seq<Decimal>)>, year: int, month: int, interest: Decimal) -> Result<
    Seq<(int, Seq<Decimal>)>,
    RatesFailure,
> {
    if exists|k: int| 0 <= k < rates.len() && rates[k].0 == year {
        let k = choose|k: int| 0 <= k < rates.len() && rates[k].0 == year;
        if month != rates[k].1.len() + 1 {
            Err(RatesFailure::NotFollowing(rates.last().0, rates.last().1.len()))
        } else {
            Ok(rates.update(k, (year, rates[k].1.push(interest))))
        }
    } else if rates.len() > 0 {
        if year != rates.last().0 + 1 || rates.last().1.len() != 12 || month != 1 {
            Err(RatesFailure::NotFollowing(rates.last().0, rates.last().1.len()))
        } else {
            Ok(rates.push((year, seq![interest])))
        }
    } else if month != 1 {
        Err(RatesFailure::NoPreviousRates)
    } else {
        Ok(seq![(year, seq![interest])])
    }
}

pub open spec fn is_rates_failure(error: Error, failure: RatesFailure, year: int, month: int) -> bool {
    match failure {
        RatesFailure::NotFollowing(last_year, last_month) => error == Error::UnexpectedInterestRates(
            year as i32,
            month as u32,
            last_year as i32,
            last_month as u32,
        ),
        RatesFailure::NoPreviousRates => error == Error::MissingPreviousInterestRates(year as i32, month as u32),
    }
}

impl DepositStatistics {
    /// The years follow each other, and every year but the last has the rates of all twelve
    /// months.
    pub open spec fn wf(&self) -> bool {
        &&& consecutive_years(rates_model(self.interest_rates@))
        &&& full_years(rates_model(self.interest_rates@))
    }

    pub fn new(name: &str, currency: &'static str, duration: u32) -> (result: DepositStatistics)
        ensures
            result.name@ == name@,
            result.currency == currency,
            result.duration == duration,
            result.interest_rates@.len() == 0,
            result.wf(),
    {
        DepositStatistics { name: name.to_owned(), currency, duration, interest_rates: Vec::new() }
    }

    /// Adds the interest rate of a month (from 1 to 12).
    pub fn add(&mut self, year: i32, month: u32, interest: Decimal) -> (result: Result<(), Error>)
        requires
            old(self).wf(),
            year < i32::MAX,
            1 <= month <= 12,
        ensures
            final(self).wf(),
            final(self).name == old(self).name,
            final(self).currency == old(self).currency,
            final(self).duration == old(self).duration,
            match spec_add_rate(rates_model(old(self).interest_rates@), year as int, month as int, interest) {
                Ok(rates) => result is Ok && rates_model(final(self).interest_rates@) == rates,
                Err(failure) => result matches Err(e) && is_rates_failure(e, failure, year as int, month as int)
                    && final(self).interest_rates@ == old(self).interest_rates@,
            },
    {
        let ghost model = rates_model(self.interest_rates@);
        proof {
            law_deposit_years_full(model, year as int, month as int, interest);
        }
        let len = self.interest_rates.len();
        if let Some(k) = find_year(&self.interest_rates, year) {
            proof {
                lemma_unique_year(model, k as int, year as int);
            }
            let last = len - 1;
            let (last_year, last_months) = (self.interest_rates[last].0, self.interest_rates[last].1.len());
            let months = self.interest_rates[k].1.len();
            if month == 0 || month as usize - 1 != months {
                return Err(Error::UnexpectedInterestRates(year, month, last_year, last_months as u32));
            }
            let mut entry = self.interest_rates.remove(k);
            entry.1.push(interest);
            self.interest_rates.insert(k, entry);
            proof {
                assert(rates_model(self.interest_rates@) =~= model.update(k as int, (year as int,
                    model[k as int].1.push(interest))));
            }
            return Ok(());
        }

        if len > 0 {
            let (last_year, last_months) = (self.interest_rates[len - 1].0, self.interest_rates[len - 1].1.len());
            if year as i64 != last_year as i64 + 1 || last_months != 12 || month != 1 {
                return Err(Error::UnexpectedInterestRates(year, month, last_year, last_months as u32));
            }
        } else if month != 1 {
            return Err(Error::MissingPreviousInterestRates(year, month));
        }

        let mut rates: Vec<Decimal> = Vec::new();
        rates.push(interest);
        self.interest_rates.push((year, rates));
        proof {
            assert(rates_model(self.interest_rates@) =~= model.push((year as int, seq![interest])));
        }
        Ok(())
    }
}

fn find_year(rates: &Vec<(i32, Vec<Decimal>)>, year: i32) -> (result: Option<usize>)
    ensures
        match result {
            Some(k) => k < rates@.len() && rates_model(rates@)[k as int].0 == year,
            None => !(exists|j: int| 0 <= j < rates@.len() && rates_model(rates@)[j].0 == year),
        },
{
    let ghost model = rates_model(rates@);
    let mut k: usize = 0;
    while k < rates.len()
        invariant
            model == rates_model(rates@),
            k <= rates@.len(),
            forall|j: int| 0 <= j < k ==> model[j].0 != year,
        decreases rates.len() - k,
    {
        if rates[k].0 == year {
            return Some(k);
        }
        k = k + 1;
    }
    None
}

/// Each year is there once at most.
proof fn lemma_unique_year(rates: Seq<(int, Seq<Decimal>)>, k: int, year: int)
    requires
        consecutive_years(rates),
        0 <= k < rates.len(),
        rates[k].0 == year,
    ensures
        (choose|j: int| 0 <= j < rates.len() && rates[j].0 == year) == k,
        forall|j: int| 0 <= j < rates.len() ==> (#[trigger] rates[j]).0 == rates[0].0 + j,
{
    lemma_years_offsets(rates, rates.len() as int);
}

proof fn lemma_years_offsets(rates: Seq<(int, Seq<Decimal>)>, n: int)
    requires
        consecutive_years(rates),
        0 <= n <= rates.len(),
    ensures
        forall|j: int| 0 <= j < n ==> (#[trigger] rates[j]).0 == rates[0].0 + j,
    decreases n,
{
    if n > 0 {
        lemma_years_offsets(rates, n - 1);
        if n - 1 >= 1 {
            assert(rates[n - 1].0 == rates[n - 2].0 + 1);
        }
    }
}

/// Removes the footnote marks (`*`) at the end of a column title.
pub open spec fn spec_trim_column_title(title: Seq<char>) -> Seq<char>
    decreases title.len(),
{
    if title.len() > 0 && title.last() == '*' {
        spec_trim_column_title(title.drop_last())
    } else {
        title
    }
}

/// Every year but the last has the rates of all twelve months, and none has more.
pub open spec fn full_years(rates: Seq<(int, Seq<Decimal>)>) -> bool {
    &&& forall|k: int| 0 <= k < rates.len() - 1 ==> (#[trigger] rates[k]).1.len() == 12
    &&& forall|k: int| 0 <= k < rates.len() ==> (#[trigger] rates[k]).1.len() <= 12
}

/// Adding the rate of a month (from 1 to 12) keeps every year but the last full: rates are only
/// ever added to the last year, and a year begins only after a full one. Statistics begin with
/// no rates, so this holds of all that adding rates builds.
pub proof fn law_deposit_years_full(rates: Seq<(int, Seq<Decimal>)>, year: int, month: int, interest: Decimal)
    requires
        consecutive_years(rates),
        full_years(rates),
        1 <= month <= 12,
    ensures
        spec_add_rate(rates, year, month, interest) matches Ok(next) ==> full_years(next),
{
    if exists|k: int| 0 <= k < rates.len() && rates[k].0 == year {
        let k = choose|k: int| 0 <= k < rates.len() && rates[k].0 == year;
        if month == rates[k].1.len() + 1 {
            assert(k == rates.len() - 1) by {
                if k < rates.len() - 1 {
                    assert(rates[k].1.len() == 12);
                }
            }
            let next = rates.update(k, (year, rates[k].1.push(interest)));
            assert forall|j: int| 0 <= j < next.len() - 1 implies (#[trigger] next[j]).1.len() == 12 by {
                assert(next[j] == rates[j]);
            }
            assert forall|j: int| 0 <= j < next.len() implies (#[trigger] next[j]).1.len() <= 12 by {
                if j != k {
                    assert(next[j] == rates[j]);
                }
            }
        }
    } else if rates.len() > 0 {
        if year == rates.last().0 + 1 && rates.last().1.len() == 12 && month == 1 {
            let next = rates.push((year, seq![interest]));
            assert forall|j: int| 0 <= j < next.len() - 1 implies (#[trigger] next[j]).1.len() == 12 by {
                assert(next[j] == rates[j]);
                if j < rates.len() - 1 {
                    assert(rates[j].1.len() == 12);
                }
            }
            assert forall|j: int| 0 <= j < next.len() implies (#[trigger] next[j]).1.len() <= 12 by {
                if j < rates.len() {
                    assert(next[j] == rates[j]);
                }
            }
        }
    }
}

/// Trimming a trimmed title changes nothing.
pub proof fn law_trim_column_title_idempotent(title: Seq<char>)
    ensures
        spec_trim_column_title(spec_trim_column_title(title)) == spec_trim_column_title(title),
        spec_trim_column_title(title).len() == 0 || spec_trim_column_title(title).last() != '*',
    decreases title.len(),
{
    if title.len() > 0 && title.last() == '*' {
        law_trim_column_title_idempotent(title.drop_last());
    }
}

/// A column title without the footnote marks at its end.
pub fn trim_column_title(title: &str) -> (result: String)
    ensures
        result@ == spec_trim_column_title(title@),
{
    let mut end = title.unicode_len();
    assert(title@.subrange(0, end as int) =~= title@);
    while end > 0 && title.get_char(end - 1) == '*'
        invariant
            end <= title@.len(),
            spec_trim_column_title(title@) == spec_trim_column_title(title@.subrange(0, end as int)),
        decreases end,
    {
        assert(title@.subrange(0, end as int).drop_last() =~= title@.subrange(0, end - 1));
        end = end - 1;
    }
    assert(title@.subrange(0, end as int) =~= title@.subrange(0, end as int));
    text::substring(title, 0, end)
}

/// The number of a month named in Russian.
pub open spec fn month_number(name: Seq<char>) -> Option<u32> {
    if name == "Январь"@ {
        Some(1)
    } else if name == "Февраль"@ {
        Some(2)
    } else if name == "Март"@ {
        Some(3)
    } else if name == "Апрель"@ {
        Some(4)
    } else if name == "Май"@ {
        Some(5)
    } else if name == "Июнь"@ {
        Some(6)
    } else if name == "Июль"@ {
        Some(7)
    } else if name == "Август"@ {
        Some(8)
    } else if name == "Сентябрь"@ {
        Some(9)
    } else if name == "Октябрь"@ {
        Some(10)
    } else if name == "Ноябрь"@ {
        Some(11)
    } else if name == "Декабрь"@ {
        Some(12)
    } else {
        None
    }
}

/// The Russian names of the months of the year, from January to December.
pub open spec fn calendar_month_names() -> Seq<Seq<char>> {
    seq![
        "Январь"@, "Февраль"@, "Март"@, "Апрель"@, "Май"@, "Июнь"@, "Июль"@, "Август"@, "Сентябрь"@,
        "Октябрь"@, "Ноябрь"@, "Декабрь"@,
    ]
}

/// A month's name gives the month's number in the calendar, and nothing else gives a number:
/// the name at the `k`-th place of the calendar gives `k`.
pub proof fn law_month_names_in_calendar_order(name: Seq<char>)
    ensures
        forall|k: int| 1 <= k <= 12 ==> month_number(#[trigger] calendar_month_names()[k - 1]) == Some(k as u32),
        month_number(name) matches Some(k) ==> 1 <= k <= 12 && name == calendar_month_names()[k - 1],
{
    reveal_strlit("Январь");
    reveal_strlit("Февраль");
    reveal_strlit("Март");
    reveal_strlit("Апрель");
    reveal_strlit("Май");
    reveal_strlit("Июнь");
    reveal_strlit("Июль");
    reveal_strlit("Август");
    reveal_strlit("Сентябрь");
    reveal_strlit("Октябрь");
    reveal_strlit("Ноябрь");
    reveal_strlit("Декабрь");
    let names = calendar_month_names();
    assert forall|k: int| 1 <= k <= 12 implies month_number(#[trigger] names[k - 1]) == Some(k as u32) by {
        if k == 1 {
        } else if k == 2 {
            assert(names[0].len() != names[1].len());
        } else if k == 3 {
            assert(names[0].len() != names[2].len());
            assert(names[1].len() != names[2].len());
        } else if k == 4 {
            assert(names[0][0] != names[3][0]);
            assert(names[1].len() != names[3].len());
            assert(names[2].len() != names[3].len());
        } else if k == 5 {
            assert(names[0].len() != names[4].len());
            assert(names[1].len() != names[4].len());
            assert(names[2].len() != names[4].len());
            assert(names[3].len() != names[4].len());
        } else if k == 6 {
            assert(names[0].len() != names[5].len());
            assert(names[1].len() != names[5].len());
            assert(names[2][0] != names[5][0]);
            assert(names[3].len() != names[5].len());
            assert(names[4].len() != names[5].len());
        } else if k == 7 {
            assert(names[0].len() != names[6].len());
            assert(names[1].len() != names[6].len());
            assert(names[2][0] != names[6][0]);
            assert(names[3].len() != names[6].len());
            assert(names[4].len() != names[6].len());
            assert(names[5][2] != names[6][2]);
        } else if k == 8 {
            assert(names[0][0] != names[7][0]);
            assert(names[1].len() != names[7].len());
            assert(names[2].len() != names[7].len());
            assert(names[3][1] != names[7][1]);
            assert(names[4].len() != names[7].len());
            assert(names[5].len() != names[7].len());
            assert(names[6].len() != names[7].len());
        } else if k == 9 {
            assert(names[0].len() != names[8].len());
            assert(names[1].len() != names[8].len());
            assert(names[2].len() != names[8].len());
            assert(names[3].len() != names[8].len());
            assert(names[4].len() != names[8].len());
            assert(names[5].len() != names[8].len());
            assert(names[6].len() != names[8].len());
            assert(names[7].len() != names[8].len());
        } else if k == 10 {
            assert(names[0].len() != names[9].len());
            assert(names[1][0] != names[9][0]);
            assert(names[2].len() != names[9].len());
            assert(names[3].len() != names[9].len());
            assert(names[4].len() != names[9].len());
            assert(names[5].len() != names[9].len());
            assert(names[6].len() != names[9].len());
            assert(names[7].len() != names[9].len());
            assert(names[8].len() != names[9].len());
        } else if k == 11 {
            assert(names[0][0] != names[10][0]);
            assert(names[1].len() != names[10].len());
            assert(names[2].len() != names[10].len());
            assert(names[3][0] != names[10][0]);
            assert(names[4].len() != names[10].len());
            assert(names[5].len() != names[10].len());
            assert(names[6].len() != names[10].len());
            assert(names[7][0] != names[10][0]);
            assert(names[8].len() != names[10].len());
            assert(names[9].len() != names[10].len());
        } else {
            assert(names[0].len() != names[11].len());
            assert(names[1][0] != names[11][0]);
            assert(names[2].len() != names[11].len());
            assert(names[3].len() != names[11].len());
            assert(names[4].len() != names[11].len());
            assert(names[5].len() != names[11].len());
            assert(names[6].len() != names[11].len());
            assert(names[7].len() != names[11].len());
            assert(names[8].len() != names[11].len());
            assert(names[9][0] != names[11][0]);
            assert(names[10].len() != names[11].len());
        }
    }
}

fn month_by_name(name: &str) -> (result: Option<u32>)
    ensures
        result == month_number(name@),
{
    if text::str_eq(name, "Январь") {
        Some(1)
    } else if text::str_eq(name, "Февраль") {
        Some(2)
    } else if text::str_eq(name, "Март") {
        Some(3)
    } else if text::str_eq(name, "Апрель") {
        Some(4)
    } else if text::str_eq(name, "Май") {
        Some(5)
    } else if text::str_eq(name, "Июнь") {
        Some(6)
    } else if text::str_eq(name, "Июль") {
        Some(7)
    } else if text::str_eq(name, "Август") {
        Some(8)
    } else if text::str_eq(name, "Сентябрь") {
        Some(9)
    } else if text::str_eq(name, "Октябрь") {
        Some(10)
    } else if text::str_eq(name, "Ноябрь") {
        Some(11)
    } else if text::str_eq(name, "Декабрь") {
        Some(12)
    } else {
        None
    }
}

/// A signed number as `str::parse::<i32>` reads it: an optional sign, then ASCII digits.
pub open spec fn spec_parse_i32(text: Seq<char>) -> Option<int> {
    if text.len() > 0 && text[0] == '-' {
        match spec_parse_unsigned(text.drop_first()) {
            Some(n) => if text.drop_first().len() > 0 && text.drop_first()[0] != '+' && n <= 0x8000_0000 {
                Some(-n)
            } else {
                None
            },
            None => None,
        }
    } else {
        match spec_parse_unsigned(text) {
            Some(n) => if n <= 0x7fff_ffff {
                Some(n)
            } else {
                None
            },
            None => None,
        }
    }
}

/// Parses a signed number as `str::parse::<i32>` does.
pub fn parse_i32(text: &str) -> (result: Option<i32>)
    ensures
        match spec_parse_i32(text@) {
            Some(n) => result == Some(n as i32),
            None => result is None,
        },
{
    let len = text.unicode_len();
    if len > 0 && text.get_char(0) == '-' {
        let rest = text::substring(text, 1, len);
        assert(rest@ =~= text@.drop_first());
        if rest.unicode_len() == 0 || rest.get_char(0) == '+' {
            return None;
        }
        match parse_unsigned(rest.as_str()) {
            Some(n) => if n <= 0x8000_0000 {
                Some((-(n as i64)) as i32)
            } else {
                None
            },
            None => None,
        }
    } else {
        match parse_unsigned(text) {
            Some(n) => if n <= 0x7fff_ffff {
                Some(n as i32)
            } else {
                None
            },
            None => None,
        }
    }
}

/// A month and a year written as the month's Russian name, a space and the year.
pub open spec fn spec_parse_date(name: Seq<char>) -> Option<(i32, u32)> {
    let parts = text::split(name, " "@);
    if parts.len() != 2 {
        None
    } else {
        match (spec_parse_i32(parts[1]), month_number(parts[0])) {
            (Some(year), Some(month)) => Some((year as i32, month)),
            _ => None,
        }
    }
}

/// Reads the year and the month of a table row's name: the month's Russian name, a space and
/// the year.
pub fn parse_date(name: &str) -> (result: Option<(i32, u32)>)
    ensures
        result == spec_parse_date(name@),
{
    proof {
        reveal_strlit(" ");
    }
    let parts = text::split_str(name, " ");
    if parts.len() != 2 {
        return None;
    }
    assert(parts@.map_values(|piece: String| piece@)[0] == parts@[0]@);
    assert(parts@.map_values(|piece: String| piece@)[1] == parts@[1]@);
    let year = match parse_i32(parts[1].as_str()) {
        Some(year) => year,
        None => return None,
    };
    let month = match month_by_name(parts[0].as_str()) {
        Some(month) => month,
        None => return None,
    };
    Some((year, month))
}

} // verus!
