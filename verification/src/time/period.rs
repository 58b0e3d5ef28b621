use vstd::prelude::*;

use crate::error::Error;
use super::date::Date;
use super::parsing::days_since;

verus! {

/// A closed range of dates.
#[derive(Clone, Copy, Debug, PartialEq, Eq, Structural)]
pub struct Period {
    pub first: Date,
    pub last: Date,
}

pub open spec fn min_date(a: Date, b: Date) -> Date {
    if a.spec_not_after(b) { a } else { b }
}

pub open spec fn max_date(a: Date, b: Date) -> Date {
    if a.spec_not_after(b) { b } else { a }
}

impl Period {
    pub open spec fn wf(self) -> bool {
        self.first.wf() && self.last.wf() && self.first.spec_not_after(self.last)
    }

    pub open spec fn spec_contains(self, date: Date) -> bool {
        self.first.spec_not_after(date) && date.spec_not_after(self.last)
    }

    /// The number of days in the period.
    pub open spec fn spec_days(self) -> int {
        self.last.number() - self.first.number() + 1
    }

    /// The overlap of two periods, if they have common days.
    pub open spec fn spec_intersection(self, other: Period) -> Option<Period> {
        let (earlier, later) = if self.first.spec_not_after(other.first) { (self, other) } else { (other, self) };
        if earlier.last.spec_before(later.first) {
            None
        } else {
            Some(Period { first: later.first, last: min_date(earlier.last, later.last) })
        }
    }

    /// The union of two periods, if they overlap or one follows the other directly.
    pub open spec fn spec_union(self, other: Period) -> Option<Period> {
        let (earlier, later) = if self.first.spec_not_after(other.first) { (self, other) } else { (other, self) };
        if earlier.last.spec_succ()->0.spec_before(later.first) {
            None
        } else {
            Some(Period { first: earlier.first, last: max_date(earlier.last, later.last) })
        }
    }

    pub fn new(first: Date, last: Date) -> (result: Result<Period, Error>)
        ensures
            !last.spec_before(first) ==> result == Ok::<Period, Error>(Period { first, last }),
            last.spec_before(first) ==> (result matches Err(Error::InvalidPeriod(f, l)) && f == first && l == last),
    {
        if last.before(&first) {
            return Err(Error::InvalidPeriod(first, last));
        }
        Ok(Period { first, last })
    }

    /// Extends the period by `other`, which must start right after it.
    pub fn join(self, other: Period) -> (result: Result<Period, Error>)
        requires
            self.wf(),
            self.last.spec_succ() is Some,
        ensures
            other.first == self.last.spec_succ()->0 ==> result == Ok::<Period, Error>(
                Period { first: self.first, last: other.last }),
            other.first != self.last.spec_succ()->0 ==> (result matches Err(Error::NonContinuousPeriods(a, b))
                && a == self && b == other),
    {
        if other.first_date() != self.next_date() {
            return Err(Error::NonContinuousPeriods(self, other));
        }
        Ok(Period { first: self.first, last: other.last })
    }

    /// The day before the period.
    pub fn prev_date(&self) -> (result: Date)
        requires
            self.wf(),
            self.first.spec_pred() is Some,
        ensures
            Some(result) == self.first.spec_pred(),
    {
        match self.first.pred_opt() {
            Some(date) => date,
            None => self.first,
        }
    }

    pub fn first_date(&self) -> (result: Date)
        ensures
            result == self.first,
    {
        self.first
    }

    pub fn last_date(&self) -> (result: Date)
        ensures
            result == self.last,
    {
        self.last
    }

    /// The day after the period.
    pub fn next_date(&self) -> (result: Date)
        requires
            self.wf(),
            self.last.spec_succ() is Some,
        ensures
            Some(result) == self.last.spec_succ(),
    {
        match self.last.succ_opt() {
            Some(date) => date,
            None => self.last,
        }
    }

    pub fn contains(&self, date: Date) -> (result: bool)
        ensures
            result == self.spec_contains(date),
    {
        self.first.not_after(&date) && date.not_after(&self.last)
    }

    pub fn contains_period(&self, other: Period) -> (result: bool)
        ensures
            result == (self.first.spec_not_after(other.first) && other.last.spec_not_after(self.last)),
    {
        self.first.not_after(&other.first) && other.last.not_after(&self.last)
    }

    pub fn try_intersect(&self, other: Period) -> (result: Option<Period>)
        ensures
            result == self.spec_intersection(other),
    {
        let (earlier, later) = if self.first.not_after(&other.first) { (*self, other) } else { (other, *self) };
        if earlier.last.before(&later.first) {
            return None;
        }
        let last = if earlier.last.not_after(&later.last) { earlier.last } else { later.last };
        Some(Period { first: later.first, last })
    }

    pub fn try_union(&self, other: Period) -> (result: Option<Period>)
        requires
            self.wf(),
            other.wf(),
            self.last.spec_succ() is Some,
            other.last.spec_succ() is Some,
        ensures
            result == self.spec_union(other),
    {
        let (earlier, later) = if self.first.not_after(&other.first) { (*self, other) } else { (other, *self) };
        if earlier.next_date().before(&later.first) {
            return None;
        }
        let last = if earlier.last.not_after(&later.last) { later.last } else { earlier.last };
        Some(Period { first: earlier.first, last })
    }

    /// The number of days in the period.
    pub fn days(&self) -> (result: i64)
        requires
            self.wf(),
        ensures
            result == self.spec_days(),
    {
        proof {
            self.first.lemma_number_order(self.last);
        }
        days_since(self.last, self.first) + 1
    }
}

/// The union of two periods doesn't depend on their order.
pub proof fn law_union_symmetric(a: Period, b: Period)
    requires
        a.wf(),
        b.wf(),
        a.last.spec_succ() is Some,
        b.last.spec_succ() is Some,
    ensures
        a.spec_union(b) == b.spec_union(a),
{
    a.last.lemma_succ_after();
    b.last.lemma_succ_after();
}

/// The union of two periods, when there is one, covers both of them.
pub proof fn law_union_covers(a: Period, b: Period)
    requires
        a.wf(),
        b.wf(),
        a.last.spec_succ() is Some,
        b.last.spec_succ() is Some,
        a.spec_union(b) is Some,
    ensures
        a.spec_union(b)->0.wf(),
        forall|d: Date| a.spec_contains(d) || b.spec_contains(d) ==> #[trigger] a.spec_union(b)->0.spec_contains(d),
{
}

/// The intersection of two periods holds exactly the days that both of them hold.
pub proof fn law_intersection_is_common_part(a: Period, b: Period)
    requires
        a.wf(),
        b.wf(),
    ensures
        a.spec_intersection(b) is None ==> forall|d: Date| !(a.spec_contains(d) && #[trigger] b.spec_contains(d)),
        a.spec_intersection(b) matches Some(p) ==> p.wf() && forall|d: Date|
            (a.spec_contains(d) && b.spec_contains(d)) <==> #[trigger] p.spec_contains(d),
{
}

/// Joining a period with the one that follows it gives a period as long as both together.
pub proof fn law_join_days(a: Period, b: Period)
    requires
        a.wf(),
        b.wf(),
        a.last.spec_succ() == Some(b.first),
    ensures
        (Period { first: a.first, last: b.last }).wf(),
        (Period { first: a.first, last: b.last }).spec_days() == a.spec_days() + b.spec_days(),
{
    a.last.lemma_succ_after();
    a.last.lemma_succ_number();
}

/// The period from `start` up to `end` inclusive, as a start date and the day after the end; an
/// error where it is empty.
pub fn parse_period(start: Date, end: Date) -> (result: Result<(Date, Date), Error>)
    requires
        start.wf(),
        end.wf(),
        end.spec_succ() is Some,
    ensures
        ({
            let next = end.spec_succ()->0;
            &&& start.spec_before(next) ==> result == Ok::<(Date, Date), Error>((start, next))
            &&& !start.spec_before(next) ==> (result matches Err(Error::InvalidPeriod(f, l)) && f == start && l
                == next)
        }),
{
    let next = match end.succ_opt() {
        Some(next) => next,
        None => end,
    };
    if !start.before(&next) {
        return Err(Error::InvalidPeriod(start, next));
    }
    Ok((start, next))
}

} // verus!
