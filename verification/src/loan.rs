//! The per-borrower loan record and its settlement arithmetic.
//!
//! A loan accrues simple interest continuously from the `interest_paid`
//! watermark at the rate locked in at origination; nothing is compounded
//! and nothing runs in the background.  A repayment settles interest first,
//! then principal, and returns whatever exceeds the debt.

use vstd::prelude::*;

use crate::error::ContractError;
use crate::finance::{elapsed, interest_for, Percent, Timestamp, INTEREST_DENOM};

verus! {

/// The state of one open loan.  The record exists only while
/// `principal_due` is positive.
#[derive(Clone, Copy, Debug, PartialEq, Eq, Structural)]
pub struct LoanData {
    pub principal_due: u128,
    pub annual_interest_rate: Percent,
    pub interest_paid: Timestamp,
}

/// How one repayment splits: what settled interest, what settled principal,
/// and what exceeded the debt and goes back to the payer.
#[derive(Clone, Copy, Debug, PartialEq, Eq, Structural)]
pub struct RepayShares {
    pub interest: u128,
    pub principal: u128,
    pub excess: u128,
}

impl LoanData {
    /// Interest accrued and not yet paid at `now`.
    pub open spec fn spec_interest_due(&self, now: Timestamp) -> int {
        interest_for(
            self.principal_due as int,
            self.annual_interest_rate.units as int,
            elapsed(self.interest_paid, now),
        )
    }

    /// The product whose overflow is the only failure of the accrual math.
    pub open spec fn interest_fits(&self, now: Timestamp) -> bool {
        &&& self.principal_due * self.annual_interest_rate.units <= u128::MAX
        &&& self.principal_due * self.annual_interest_rate.units * elapsed(
            self.interest_paid,
            now,
        ) <= u128::MAX
    }

    /// Interest accrued since `interest_paid`, computed on demand with a
    /// single rounding point; a full year at rate `r` on principal `p`
    /// yields exactly `p * r / 1000` rounded down.
    pub fn interest_due(&self, now: Timestamp) -> (r: Result<u128, ContractError>)
        ensures
            (match r {
                Ok(v) => self.interest_fits(now) && v == self.spec_interest_due(now),
                Err(e) => e == ContractError::Overflow && !self.interest_fits(now),
            }),
    {
        let dt: u64 = if now >= self.interest_paid {
            now - self.interest_paid
        } else {
            0
        };
        match crate::finance::mul3_div(
            self.principal_due,
            self.annual_interest_rate.units as u128,
            dt as u128,
            INTEREST_DENOM,
        ) {
            Some(v) => Ok(v),
            None => Err(ContractError::Overflow),
        }
    }
}

/// The watermark a repayment advances to: `now` on a full interest
/// settlement, never backwards.
pub open spec fn spec_watermark(loan: LoanData, now: Timestamp) -> Timestamp {
    if now >= loan.interest_paid {
        now
    } else {
        loan.interest_paid
    }
}

/// How far the watermark moves when `amount` covers only part of the
/// accrued interest: the shortest span whose accrued interest reaches the
/// payment, so the pool retains the whole payment and the fraction below
/// one span unit is the borrower's, never charged twice.
pub open spec fn spec_partial_dt(loan: LoanData, amount: u128) -> int {
    (amount * INTEREST_DENOM - 1) / (loan.principal_due * loan.annual_interest_rate.units) + 1
}

/// The interest a repayment of `amount` at `now` settles: everything owed,
/// or — below that — the whole payment.
pub open spec fn spec_repay_interest(loan: LoanData, now: Timestamp, amount: u128) -> int {
    if amount >= loan.spec_interest_due(now) {
        loan.spec_interest_due(now)
    } else {
        amount as int
    }
}

/// The principal a repayment of `amount` at `now` settles.
pub open spec fn spec_repay_principal(loan: LoanData, now: Timestamp, amount: u128) -> int {
    if amount >= loan.spec_interest_due(now) {
        if amount - loan.spec_interest_due(now) < loan.principal_due {
            amount - loan.spec_interest_due(now)
        } else {
            loan.principal_due as int
        }
    } else {
        0
    }
}

/// What a repayment hands back as beyond the debt.
pub open spec fn spec_repay_excess(loan: LoanData, now: Timestamp, amount: u128) -> int {
    amount - spec_repay_interest(loan, now, amount) - spec_repay_principal(loan, now, amount)
}

/// Whether a repayment of `amount` at `now` closes the loan: interest and
/// principal both reach zero.
pub open spec fn spec_repay_closes(loan: LoanData, now: Timestamp, amount: u128) -> bool {
    amount > 0 && amount >= loan.spec_interest_due(now) && amount - loan.spec_interest_due(now)
        >= loan.principal_due
}

/// The record a non-closing repayment leaves behind.
pub open spec fn spec_repaid_loan(loan: LoanData, now: Timestamp, amount: u128) -> LoanData {
    if amount == 0 {
        loan
    } else if amount >= loan.spec_interest_due(now) {
        LoanData {
            principal_due: (loan.principal_due - spec_repay_principal(loan, now, amount)) as u128,
            annual_interest_rate: loan.annual_interest_rate,
            interest_paid: spec_watermark(loan, now),
        }
    } else {
        LoanData {
            principal_due: loan.principal_due,
            annual_interest_rate: loan.annual_interest_rate,
            interest_paid: (loan.interest_paid + spec_partial_dt(loan, amount)) as Timestamp,
        }
    }
}

/// Settles a repayment of `amount` against `loan` at `now`: interest first,
/// then principal; the rest is excess.  Returns the surviving record
/// (`None` when the loan closes) and the split of the payment.
///
/// A zero amount is a valid no-op: it changes nothing and never errs.  A
/// payment below the accrued interest is retained in full — nothing below
/// what is owed ever comes back — and the watermark advances by the
/// shortest span whose accrued interest covers the payment, so the
/// fraction below one unit favors the borrower and is never charged
/// twice.
pub fn repay(loan: &LoanData, now: Timestamp, amount: u128) -> (r: Result<
    (Option<LoanData>, RepayShares),
    ContractError,
>)
    ensures
        (match r {
            Ok((new_loan, shares)) => {
                &&& shares.interest == spec_repay_interest(*loan, now, amount)
                &&& shares.principal == spec_repay_principal(*loan, now, amount)
                &&& shares.excess == spec_repay_excess(*loan, now, amount)
                &&& shares.interest + shares.principal + shares.excess == amount
                &&& shares.excess == (if amount >= loan.spec_interest_due(now)
                    + loan.principal_due {
                    amount - loan.spec_interest_due(now) - loan.principal_due
                } else {
                    0
                })
                &&& shares.principal <= loan.principal_due
                &&& shares.interest <= loan.spec_interest_due(now) || amount == 0
                &&& new_loan == (if spec_repay_closes(*loan, now, amount) {
                    None::<LoanData>
                } else {
                    Some(spec_repaid_loan(*loan, now, amount))
                })
                &&& (amount == 0 ==> new_loan == Some(*loan) && shares.interest == 0
                    && shares.principal == 0 && shares.excess == 0)
                &&& (amount > 0 ==> loan.interest_fits(now))
                &&& (match new_loan {
                    Some(l) => loan.principal_due > 0 ==> l.principal_due > 0,
                    None => true,
                })
            },
            Err(e) => e == ContractError::Overflow && !loan.interest_fits(now) && amount > 0,
        }),
{
    if amount == 0 {
        proof {
            let p = loan.principal_due as int;
            let u = loan.annual_interest_rate.units as int;
            let dt = elapsed(loan.interest_paid, now);
            assert(p * u * dt >= 0) by (nonlinear_arith)
                requires
                    p >= 0,
                    u >= 0,
                    dt >= 0,
            ;
            vstd::arithmetic::div_mod::lemma_div_pos_is_pos(p * u * dt, INTEREST_DENOM as int);
        }
        return Ok((Some(*loan), RepayShares { interest: 0, principal: 0, excess: 0 }));
    }
    let due = match loan.interest_due(now) {
        Ok(v) => v,
        Err(e) => { return Err(e) },
    };
    if amount >= due {
        let remainder = amount - due;
        let principal_payment = if remainder < loan.principal_due {
            remainder
        } else {
            loan.principal_due
        };
        let excess = remainder - principal_payment;
        let shares = RepayShares { interest: due, principal: principal_payment, excess };
        if principal_payment == loan.principal_due {
            Ok((None, shares))
        } else {
            let watermark = if now >= loan.interest_paid {
                now
            } else {
                loan.interest_paid
            };
            Ok(
                (
                    Some(
                        LoanData {
                            principal_due: loan.principal_due - principal_payment,
                            annual_interest_rate: loan.annual_interest_rate,
                            interest_paid: watermark,
                        },
                    ),
                    shares,
                ),
            )
        }
    } else {
        // 0 < amount < due, so principal * rate > 0 and now > interest_paid.
        let pr = loan.principal_due * (loan.annual_interest_rate.units as u128);
        proof {
            lemma_partial_payment_bounds(*loan, now, amount);
        }
        let dt_paid_wide: u128 = (amount * INTEREST_DENOM - 1) / pr + 1;
        let dt_paid: u64 = dt_paid_wide as u64;
        Ok(
            (
                Some(
                    LoanData {
                        principal_due: loan.principal_due,
                        annual_interest_rate: loan.annual_interest_rate,
                        interest_paid: loan.interest_paid + dt_paid,
                    },
                ),
                RepayShares { interest: amount, principal: 0, excess: 0 },
            ),
        )
    }
}

/// The arithmetic facts behind a partial interest payment: the products
/// stay within the machine's range and the paid-for span is positive and
/// no longer than the elapsed one.
proof fn lemma_partial_payment_bounds(loan: LoanData, now: Timestamp, amount: u128)
    requires
        loan.interest_fits(now),
        0 < amount < loan.spec_interest_due(now),
    ensures
        loan.principal_due * loan.annual_interest_rate.units > 0,
        now > loan.interest_paid,
        1 <= amount * INTEREST_DENOM <= u128::MAX,
        0 < spec_partial_dt(loan, amount) <= elapsed(loan.interest_paid, now),
        spec_partial_dt(loan, amount) <= u128::MAX,
{
    let p = loan.principal_due as int;
    let u = loan.annual_interest_rate.units as int;
    let pr = p * u;
    let dt = elapsed(loan.interest_paid, now);
    let d = INTEREST_DENOM as int;
    let due = pr * dt / d;

    assert(pr >= 0) by (nonlinear_arith)
        requires
            pr == p * u,
            p >= 0,
            u >= 0,
    ;
    if pr == 0 || dt == 0 {
        assert(pr * dt == 0) by (nonlinear_arith)
            requires
                pr == 0 || dt == 0,
        ;
        assert(due == 0);
        assert(false);
    }
    assert(pr * dt > 0) by (nonlinear_arith)
        requires
            pr > 0,
            dt > 0,
    ;
    // due * d <= pr * dt, by the fundamental division equation.
    vstd::arithmetic::div_mod::lemma_fundamental_div_mod(pr * dt, d);
    vstd::arithmetic::div_mod::lemma_mod_pos_bound(pr * dt, d);
    assert(due * d <= pr * dt) by (nonlinear_arith)
        requires
            pr * dt == d * due + (pr * dt) % d,
            (pr * dt) % d >= 0,
    ;
    // amount <= due - 1, hence amount * d <= pr * dt - d <= u128::MAX.
    assert(amount * d <= (due - 1) * d) by (nonlinear_arith)
        requires
            amount <= due - 1,
            d > 0,
    ;
    assert((due - 1) * d == due * d - d);
    assert(amount * d >= 1 * d) by (nonlinear_arith)
        requires
            amount >= 1,
            d > 0,
    ;
    // The shortest covering span stays within the elapsed one:
    // amount * d - 1 < pr * dt, so its floor quotient is below dt.
    let dtp = spec_partial_dt(loan, amount);
    vstd::arithmetic::div_mod::lemma_multiply_divide_lt(amount * d - 1, pr, dt);
    vstd::arithmetic::div_mod::lemma_div_pos_is_pos(amount * d - 1, pr);
    assert((amount * d - 1) / pr < dt);
    assert(dtp <= dt);
    assert(dtp > 0);
}

} // verus!
