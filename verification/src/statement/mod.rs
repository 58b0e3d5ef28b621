pub mod ib;

use vstd::prelude::*;

use crate::currency::Cash;
use crate::error::Error;
use crate::time::Date;

verus! {

/// A deposit to or a withdrawal from the account.
#[derive(Debug)]
pub struct Transaction {
    pub date: Date,
    pub amount: Cash,
}

impl Transaction {
    pub fn new(date: Date, amount: Cash) -> (result: Transaction)
        ensures
            result.date == date,
            result.amount == amount,
    {
        Transaction { date, amount }
    }
}

/// A broker statement: the period it covers and the deposits made.
#[derive(Debug)]
pub struct Statement {
    pub period: (Date, Date),
    pub deposits: Vec<Transaction>,
}

/// Collects a statement's data as it is read.
#[derive(Debug)]
pub struct StatementBuilder {
    pub period: Option<(Date, Date)>,
    pub deposits: Vec<Transaction>,
}

impl StatementBuilder {
    pub fn new() -> (result: StatementBuilder)
        ensures
            result.period is None,
            result.deposits@.len() == 0,
    {
        StatementBuilder { period: None, deposits: Vec::new() }
    }

    /// Sets the period; it may be set once.
    pub fn set_period(&mut self, period: (Date, Date)) -> (result: Result<(), Error>)
        ensures
            final(self).deposits == old(self).deposits,
            old(self).period is None ==> result is Ok && final(self).period == Some(period),
            old(self).period is Some ==> (result matches Err(Error::DuplicateStatementValue(name))
                && name@ == "period"@) && final(self).period == old(self).period,
    {
        set_option("period", &mut self.period, period)
    }

    /// The statement, if its period is known.
    pub fn get(self) -> (result: Result<Statement, Error>)
        ensures
            self.period matches Some(period) ==> (result matches Ok(statement) && statement.period == period
                && statement.deposits == self.deposits),
            self.period is None ==> result matches Err(Error::MissingStatementPeriod),
    {
        match self.period {
            Some(period) => Ok(Statement { period, deposits: self.deposits }),
            None => Err(Error::MissingStatementPeriod),
        }
    }
}

/// Sets a value that may be set only once.
pub fn set_option<T>(name: &str, option: &mut Option<T>, value: T) -> (result: Result<(), Error>)
    ensures
        *old(option) is None ==> result is Ok && *final(option) == Some(value),
        *old(option) is Some ==> (result matches Err(Error::DuplicateStatementValue(n)) && n@ == name@)
            && *final(option) == *old(option),
{
    if option.is_some() {
        return Err(Error::DuplicateStatementValue(name.to_owned()));
    }
    *option = Some(value);
    Ok(())
}

} // verus!
