//! The pool-wide aggregate: total principal due and enough bookkeeping to
//! answer "how much interest is due right now" in constant time, without
//! rescanning every loan.
//!
//! The structure is a checkpoint and a delta: interest settled up to
//! `last_update_time`, plus a rate-weighted principal sum from which the
//! accrual since the checkpoint is a closed-form function of the elapsed
//! time.  Every loan event first settles the accrual up to the event's
//! time, then adjusts the running sums by the event's delta — the same
//! "settle, then adjust" routine the read-only queries use, so the two
//! paths cannot diverge.

use vstd::prelude::*;

use crate::error::ContractError;
use crate::finance::{elapsed, Percent, Timestamp, INTEREST_DENOM};

verus! {

#[derive(Clone, Copy, Debug, PartialEq, Eq, Structural)]
pub struct Total {
    /// The sum of `principal_due` over all live loans.
    pub total_principal_due: u128,
    /// Interest accrued and unpaid up to `last_update_time`.
    pub settled_interest: u128,
    /// The sum of `principal_due * rate units` over all live loans.
    pub rate_weighted_principal: u128,
    /// When `settled_interest` was last brought up to date.
    pub last_update_time: Timestamp,
}

impl Total {
    /// Interest due at `now`: the settled part plus the closed-form accrual
    /// of the rate-weighted sum since the checkpoint.
    pub open spec fn spec_interest_due_by_now(&self, now: Timestamp) -> int {
        self.settled_interest + self.rate_weighted_principal * elapsed(
            self.last_update_time,
            now,
        ) / (INTEREST_DENOM as int)
    }

    /// Whether settling the accrual at `now` stays within the machine's
    /// range.
    pub open spec fn settle_fits(&self, now: Timestamp) -> bool {
        &&& self.rate_weighted_principal * elapsed(self.last_update_time, now) <= u128::MAX
        &&& self.spec_interest_due_by_now(now) <= u128::MAX
    }

    /// The checkpoint a settlement moves to: never backwards.
    pub open spec fn spec_settled_to(&self, now: Timestamp) -> Timestamp {
        if now >= self.last_update_time {
            now
        } else {
            self.last_update_time
        }
    }

    pub fn new() -> (r: Total)
        ensures
            r.total_principal_due == 0,
            r.settled_interest == 0,
            r.rate_weighted_principal == 0,
            r.last_update_time == 0,
    {
        Total {
            total_principal_due: 0,
            settled_interest: 0,
            rate_weighted_principal: 0,
            last_update_time: 0,
        }
    }

    pub fn total_principal_due(&self) -> (r: u128)
        ensures
            r == self.total_principal_due,
    {
        self.total_principal_due
    }

    /// The pool's accrued-but-unpaid interest at `now`, in constant time.
    pub fn total_interest_due_by_now(&self, now: Timestamp) -> (r: Result<u128, ContractError>)
        ensures
            (match r {
                Ok(v) => self.settle_fits(now) && v == self.spec_interest_due_by_now(now),
                Err(e) => e == ContractError::Overflow && !self.settle_fits(now),
            }),
    {
        let dt: u64 = if now >= self.last_update_time {
            now - self.last_update_time
        } else {
            0
        };
        match self.rate_weighted_principal.checked_mul(dt as u128) {
            Some(product) => match self.settled_interest.checked_add(product / INTEREST_DENOM) {
                Some(v) => Ok(v),
                None => Err(ContractError::Overflow),
            },
            None => Err(ContractError::Overflow),
        }
    }

    /// Registers a newly opened loan of `amount` at `rate`: settles the
    /// accrual up to `now`, then raises the running sums.  On any overflow
    /// nothing changes and the fatal error is handed back.
    pub fn borrow(&mut self, now: Timestamp, amount: u128, rate: Percent) -> (r: Result<
        (),
        ContractError,
    >)
        ensures
            (match r {
                Ok(()) => {
                    &&& old(self).settle_fits(now)
                    &&& old(self).total_principal_due + amount <= u128::MAX
                    &&& old(self).rate_weighted_principal + amount * rate.units <= u128::MAX
                    &&& final(self).total_principal_due == old(self).total_principal_due + amount
                    &&& final(self).settled_interest == old(self).spec_interest_due_by_now(now)
                    &&& final(self).rate_weighted_principal == old(self).rate_weighted_principal
                        + amount * rate.units
                    &&& final(self).last_update_time == old(self).spec_settled_to(now)
                },
                Err(e) => {
                    &&& e == ContractError::Overflow
                    &&& *final(self) == *old(self)
                    &&& !(old(self).settle_fits(now) && old(self).total_principal_due + amount
                        <= u128::MAX && old(self).rate_weighted_principal + amount * rate.units
                        <= u128::MAX)
                },
            }),
    {
        let settled = match self.total_interest_due_by_now(now) {
            Ok(v) => v,
            Err(e) => { return Err(e) },
        };
        let new_principal = match self.total_principal_due.checked_add(amount) {
            Some(v) => v,
            None => { return Err(ContractError::Overflow) },
        };
        let weighted = match amount.checked_mul(rate.units() as u128) {
            Some(v) => v,
            None => { return Err(ContractError::Overflow) },
        };
        let new_weighted = match self.rate_weighted_principal.checked_add(weighted) {
            Some(v) => v,
            None => { return Err(ContractError::Overflow) },
        };
        let checkpoint = if now >= self.last_update_time {
            now
        } else {
            self.last_update_time
        };
        self.total_principal_due = new_principal;
        self.settled_interest = settled;
        self.rate_weighted_principal = new_weighted;
        self.last_update_time = checkpoint;
        Ok(())
    }

    /// Removes a repayment's contribution: settles the accrual up to `now`,
    /// subtracts the paid interest from the settled pot, and lowers the
    /// running sums by the principal delta at the loan's locked rate.
    ///
    /// The settled pot saturates at zero: per-loan and aggregate rounding
    /// settle at different checkpoints, so a paid interest a fraction above
    /// the aggregate's own account must never underflow it — repeated
    /// zero-interest repayments in particular are harmless.  A principal
    /// delta the running sums cannot absorb means the aggregate and the
    /// loan records have diverged, a fatal error.
    pub fn repay(&mut self, now: Timestamp, interest_paid: u128, principal_paid: u128,
        rate: Percent) -> (r: Result<(), ContractError>)
        ensures
            (match r {
                Ok(()) => {
                    &&& old(self).settle_fits(now)
                    &&& principal_paid <= old(self).total_principal_due
                    &&& principal_paid * rate.units <= old(self).rate_weighted_principal
                    &&& final(self).total_principal_due == old(self).total_principal_due
                        - principal_paid
                    &&& final(self).settled_interest == (if interest_paid <= old(
                        self,
                    ).spec_interest_due_by_now(now) {
                        old(self).spec_interest_due_by_now(now) - interest_paid
                    } else {
                        0
                    })
                    &&& final(self).rate_weighted_principal == old(self).rate_weighted_principal
                        - principal_paid * rate.units
                    &&& final(self).last_update_time == old(self).spec_settled_to(now)
                },
                Err(e) => {
                    &&& *final(self) == *old(self)
                    &&& (if !old(self).settle_fits(now) {
                        e == ContractError::Overflow
                    } else {
                        e == ContractError::BrokenInvariant && (principal_paid > old(
                            self,
                        ).total_principal_due || principal_paid * rate.units > old(
                            self,
                        ).rate_weighted_principal)
                    })
                },
            }),
    {
        let settled = match self.total_interest_due_by_now(now) {
            Ok(v) => v,
            Err(e) => { return Err(e) },
        };
        if principal_paid > self.total_principal_due {
            return Err(ContractError::BrokenInvariant);
        }
        let weighted = match principal_paid.checked_mul(rate.units() as u128) {
            Some(v) => v,
            None => { return Err(ContractError::BrokenInvariant) },
        };
        if weighted > self.rate_weighted_principal {
            return Err(ContractError::BrokenInvariant);
        }
        let new_settled = if interest_paid <= settled {
            settled - interest_paid
        } else {
            0
        };
        let checkpoint = if now >= self.last_update_time {
            now
        } else {
            self.last_update_time
        };
        self.total_principal_due = self.total_principal_due - principal_paid;
        self.settled_interest = new_settled;
        self.rate_weighted_principal = self.rate_weighted_principal - weighted;
        self.last_update_time = checkpoint;
        Ok(())
    }
}

/// Opening a loan moves value from bank to debt without changing the
/// pool's total value, so it leaves the share price untouched.
///
/// `before` is the aggregate before the loan opens and `after` the one
/// `borrow` leaves behind; the bank balance drops by exactly the lent
/// amount.
pub proof fn lemma_open_preserves_value(before: Total, after: Total, now: Timestamp,
    amount: u128, balance: u128)
    requires
        amount <= balance,
        after.total_principal_due == before.total_principal_due + amount,
        after.settled_interest == before.spec_interest_due_by_now(now),
        after.last_update_time == before.spec_settled_to(now),
    ensures
        (balance - amount) + after.total_principal_due + after.spec_interest_due_by_now(now)
            == balance + before.total_principal_due + before.spec_interest_due_by_now(now),
{
    assert(elapsed(after.last_update_time, now) == 0);
    assert(after.rate_weighted_principal * 0 == 0) by (nonlinear_arith);
    assert(after.spec_interest_due_by_now(now) == after.settled_interest);
}

/// A repayment moves value from debt to bank without changing the pool's
/// total value, so it leaves the share price untouched.
///
/// `before` is the aggregate before the repayment and `after` the one its
/// `repay` leaves behind; the bank balance grows by exactly what was paid.
/// The one hypothesis is that the paid interest does not exceed what the
/// aggregate itself has accrued — where per-loan rounding pays a fraction
/// more, the settled pot floors at zero and the pool value rises by that
/// fraction instead of falling.
pub proof fn lemma_repay_preserves_value(before: Total, after: Total, now: Timestamp,
    interest_paid: u128, principal_paid: u128, rate: Percent, balance: u128)
    requires
        interest_paid <= before.spec_interest_due_by_now(now),
        principal_paid <= before.total_principal_due,
        after.total_principal_due == before.total_principal_due - principal_paid,
        after.settled_interest == before.spec_interest_due_by_now(now) - interest_paid,
        after.last_update_time == before.spec_settled_to(now),
    ensures
        balance + interest_paid + principal_paid + after.total_principal_due
            + after.spec_interest_due_by_now(now) == balance + before.total_principal_due
            + before.spec_interest_due_by_now(now),
{
    assert(elapsed(after.last_update_time, now) == 0);
    assert(after.rate_weighted_principal * 0 == 0) by (nonlinear_arith);
    assert(after.spec_interest_due_by_now(now) == after.settled_interest);
}

/// Interest due by now never decreases as time moves forward over an
/// unchanged loan set.
pub proof fn lemma_interest_monotone(total: Total, t1: Timestamp, t2: Timestamp)
    requires
        t1 <= t2,
    ensures
        total.spec_interest_due_by_now(t1) <= total.spec_interest_due_by_now(t2),
{
    let rws = total.rate_weighted_principal as int;
    let d1 = elapsed(total.last_update_time, t1);
    let d2 = elapsed(total.last_update_time, t2);
    assert(rws * d1 <= rws * d2) by (nonlinear_arith)
        requires
            rws >= 0,
            0 <= d1 <= d2,
    ;
    vstd::arithmetic::div_mod::lemma_div_is_ordered(rws * d1, rws * d2, INTEREST_DENOM as int);
}

} // verus!
