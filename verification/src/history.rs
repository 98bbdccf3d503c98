//! The share-price law over whole pool histories.
//!
//! A history is a sequence of events — time passing, deposits, loan
//! openings, repayments — each transforming the pool state exactly as the
//! corresponding operation's contract guarantees: `LoanOpened` and
//! `LoanRepaid` carry the aggregate updates `try_open_loan` and
//! `try_repay_loan` ensure, and `Deposited` mints shares the way
//! `Deposits::deposit` does at the price `calculate_price` hands out, and
//! `Withdrawn` burns shares for the value `withdraw_lpn` sizes them at.
//! Reward traffic never touches the settlement pool.  Over any such
//! history the share price, compared as the exact ratio of pool value to
//! shares outstanding, never decreases: every conversion rounds down, in
//! the pool's favor.

use vstd::prelude::*;

use crate::deposit::spec_deposit_shares;
use crate::finance::{elapsed, Percent, Price, Timestamp};
use crate::total::Total;

verus! {

/// The pool state the price law tracks: the bank balance, the loan
/// aggregate, the shares outstanding, and the current time.
#[derive(Clone, Copy, Debug, PartialEq, Eq, Structural)]
pub struct PoolState {
    pub balance: u128,
    pub total: Total,
    pub shares: u128,
    pub now: Timestamp,
}

/// One step of pool history, as the price law sees it.
#[derive(Clone, Copy, Debug, PartialEq, Eq, Structural)]
pub enum PoolEvent {
    /// The clock moves forward; interest accrues lazily.
    TimePasses { now: Timestamp },
    /// A lender pays `amount` in and is minted shares at the current
    /// price.
    Deposited { amount: u128 },
    /// A loan of `amount` at `rate` opens: funds leave the bank and debt
    /// of the same size appears.
    LoanOpened { amount: u128, rate: Percent },
    /// A repayment settles `interest` and `principal` of a loan carrying
    /// `rate`: the funds return to the bank and the debt shrinks.
    LoanRepaid { interest: u128, principal: u128, rate: Percent },
    /// A lender burns `amount_nlpn` shares and is paid their worth at the
    /// current price out of the bank.
    Withdrawn { amount_nlpn: u128 },
}

/// The pool's total value: bank balance plus principal due plus interest
/// due by now.
pub open spec fn spec_value(s: PoolState) -> int {
    s.balance + s.total.total_principal_due + s.total.spec_interest_due_by_now(s.now)
}

/// The share price of `b` is at least that of `a`, compared as exact
/// ratios of pool value over shares outstanding.
pub open spec fn price_ge(b: PoolState, a: PoolState) -> bool {
    spec_value(b) * a.shares >= spec_value(a) * b.shares
}

/// A state the law ranges over: shares exist, the pool holds value, and
/// the accrual stays within the machine's range.
pub open spec fn state_ok(s: PoolState) -> bool {
    &&& s.shares > 0
    &&& spec_value(s) > 0
    &&& s.total.settle_fits(s.now)
    &&& spec_value(s) <= u128::MAX
}

/// What one event does to the state — the same field updates the
/// operations' contracts guarantee — or nothing, where the event's side
/// conditions fail.
pub open spec fn step(s: PoolState, e: PoolEvent) -> Option<PoolState> {
    match e {
        PoolEvent::TimePasses { now } => if now >= s.now {
            Some(PoolState { now, ..s })
        } else {
            None
        },
        PoolEvent::Deposited { amount } => {
            let minted = spec_deposit_shares(
                amount,
                Price { amount: s.shares, amount_quote: spec_value(s) as u128 },
            );
            if s.balance + amount <= u128::MAX && s.shares + minted <= u128::MAX {
                Some(
                    PoolState {
                        balance: (s.balance + amount) as u128,
                        shares: (s.shares + minted) as u128,
                        ..s
                    },
                )
            } else {
                None
            }
        },
        PoolEvent::LoanOpened { amount, rate } => if amount <= s.balance
            && s.total.total_principal_due + amount <= u128::MAX
            && s.total.rate_weighted_principal + amount * rate.units <= u128::MAX {
            Some(
                PoolState {
                    balance: (s.balance - amount) as u128,
                    total: Total {
                        total_principal_due: (s.total.total_principal_due + amount) as u128,
                        settled_interest: s.total.spec_interest_due_by_now(s.now) as u128,
                        rate_weighted_principal: (s.total.rate_weighted_principal + amount
                            * rate.units) as u128,
                        last_update_time: s.total.spec_settled_to(s.now),
                    },
                    ..s
                },
            )
        } else {
            None
        },
        PoolEvent::Withdrawn { amount_nlpn } => {
            let redeemed = crate::finance::spec_price_total(
                amount_nlpn as int,
                Price { amount: s.shares, amount_quote: spec_value(s) as u128 },
            );
            if amount_nlpn <= s.shares && redeemed <= s.balance {
                Some(
                    PoolState {
                        balance: (s.balance - redeemed) as u128,
                        shares: (s.shares - amount_nlpn) as u128,
                        ..s
                    },
                )
            } else {
                None
            }
        },
        PoolEvent::LoanRepaid { interest, principal, rate } => if principal
            <= s.total.total_principal_due && principal * rate.units
            <= s.total.rate_weighted_principal && s.balance + interest + principal
            <= u128::MAX {
            Some(
                PoolState {
                    balance: (s.balance + interest + principal) as u128,
                    total: Total {
                        total_principal_due: (s.total.total_principal_due - principal) as u128,
                        settled_interest: (if interest <= s.total.spec_interest_due_by_now(
                            s.now,
                        ) {
                            (s.total.spec_interest_due_by_now(s.now) - interest) as u128
                        } else {
                            0u128
                        }),
                        rate_weighted_principal: (s.total.rate_weighted_principal - principal
                            * rate.units) as u128,
                        last_update_time: s.total.spec_settled_to(s.now),
                    },
                    ..s
                },
            )
        } else {
            None
        },
    }
}

/// Running a whole history from `s`.
pub open spec fn run(s: PoolState, events: Seq<PoolEvent>) -> Option<PoolState>
    decreases events.len(),
{
    if events.len() == 0 {
        Some(s)
    } else {
        match step(s, events[0]) {
            Some(next) => run(next, events.drop_first()),
            None => None,
        }
    }
}

/// Whether every state the history passes through is one the law ranges
/// over.
pub open spec fn ok_run(s: PoolState, events: Seq<PoolEvent>) -> bool
    decreases events.len(),
{
    state_ok(s) && (events.len() == 0 || (match step(s, events[0]) {
        Some(next) => ok_run(next, events.drop_first()),
        None => false,
    }))
}

/// The pool's value is never negative.
proof fn lemma_value_nonneg(s: PoolState)
    ensures
        spec_value(s) >= 0,
        s.total.spec_interest_due_by_now(s.now) >= 0,
{
    let rws = s.total.rate_weighted_principal as int;
    let dt = elapsed(s.total.last_update_time, s.now);
    assert(rws * dt >= 0) by (nonlinear_arith)
        requires
            rws >= 0,
            dt >= 0,
    ;
    vstd::arithmetic::div_mod::lemma_div_pos_is_pos(
        rws * dt,
        crate::finance::INTEREST_DENOM as int,
    );
}

/// The price order is transitive over states with positive value and
/// shares in the middle.
proof fn lemma_price_ge_transitive(c: PoolState, b: PoolState, a: PoolState)
    requires
        price_ge(c, b),
        price_ge(b, a),
        spec_value(b) > 0,
        b.shares > 0,
        spec_value(a) >= 0,
        spec_value(c) >= 0,
    ensures
        price_ge(c, a),
{
    let va = spec_value(a);
    let vb = spec_value(b);
    let vc = spec_value(c);
    let ha = a.shares as int;
    let hb = b.shares as int;
    let hc = c.shares as int;
    assert(vc * ha >= va * hc) by (nonlinear_arith)
        requires
            vc * hb >= vb * hc,
            vb * ha >= va * hb,
            vb > 0,
            hb > 0,
            va >= 0,
            vc >= 0,
            ha >= 0,
            hc >= 0,
    ;
}

/// One event never lowers the price.
proof fn lemma_step_price_nondecreasing(s: PoolState, e: PoolEvent, next: PoolState)
    requires
        state_ok(s),
        step(s, e) == Some(next),
    ensures
        price_ge(next, s),
    {
    lemma_value_nonneg(s);
    lemma_value_nonneg(next);
    match e {
        PoolEvent::TimePasses { now } => {
            crate::total::lemma_interest_monotone(s.total, s.now, now);
            assert(spec_value(next) * s.shares >= spec_value(s) * next.shares)
                by (nonlinear_arith)
                requires
                    spec_value(next) >= spec_value(s),
                    next.shares == s.shares,
                    s.shares >= 0,
            ;
        },
        PoolEvent::Deposited { amount } => {
            let value = spec_value(s) as u128;
            crate::lpp::lemma_price_nondecreasing_deposit(value, s.shares, amount);
            let minted = spec_deposit_shares(
                amount,
                Price { amount: s.shares, amount_quote: value },
            );
            vstd::arithmetic::div_mod::lemma_div_pos_is_pos(
                amount * s.shares,
                spec_value(s),
            );
            assert(amount * s.shares >= 0) by (nonlinear_arith);
            assert(spec_value(next) == spec_value(s) + amount);
            assert((value + amount) * s.shares >= value * ((s.shares + minted) as u128));
        },
        PoolEvent::LoanOpened { amount, rate } => {
            crate::total::lemma_open_preserves_value(
                s.total,
                next.total,
                s.now,
                amount,
                s.balance,
            );
            assert(next.total.spec_interest_due_by_now(next.now)
                == next.total.settled_interest) by {
                assert(elapsed(next.total.last_update_time, next.now) == 0);
                assert(next.total.rate_weighted_principal * 0 == 0) by (nonlinear_arith);
            }
            assert(spec_value(next) == spec_value(s));
            assert(spec_value(next) * s.shares >= spec_value(s) * next.shares)
                by (nonlinear_arith)
                requires
                    spec_value(next) == spec_value(s),
                    next.shares == s.shares,
            ;
        },
        PoolEvent::Withdrawn { amount_nlpn } => {
            let v = spec_value(s);
            let h = s.shares as int;
            let redeemed = crate::finance::spec_price_total(
                amount_nlpn as int,
                Price { amount: s.shares, amount_quote: v as u128 },
            );
            assert(redeemed == amount_nlpn * v / h);
            vstd::arithmetic::div_mod::lemma_fundamental_div_mod(amount_nlpn * v, h);
            vstd::arithmetic::div_mod::lemma_mod_pos_bound(amount_nlpn * v, h);
            assert(amount_nlpn * v >= 0) by (nonlinear_arith)
                requires
                    v >= 0,
            ;
            vstd::arithmetic::div_mod::lemma_div_pos_is_pos(amount_nlpn * v, h);
            // redeemed * h <= amount_nlpn * v: the payout is the floor of
            // the shares' exact worth.
            assert(redeemed * h <= amount_nlpn * v) by (nonlinear_arith)
                requires
                    amount_nlpn * v == h * redeemed + (amount_nlpn * v) % h,
                    (amount_nlpn * v) % h >= 0,
            ;
            assert(spec_value(next) == v - redeemed);
            assert((v - redeemed) * h >= v * (h - amount_nlpn)) by (nonlinear_arith)
                requires
                    redeemed * h <= amount_nlpn * v,
            ;
        },
        PoolEvent::LoanRepaid { interest, principal, rate } => {
            assert(next.total.spec_interest_due_by_now(next.now)
                == next.total.settled_interest) by {
                assert(elapsed(next.total.last_update_time, next.now) == 0);
                assert(next.total.rate_weighted_principal * 0 == 0) by (nonlinear_arith);
            }
            if interest <= s.total.spec_interest_due_by_now(s.now) {
                crate::total::lemma_repay_preserves_value(
                    s.total,
                    next.total,
                    s.now,
                    interest,
                    principal,
                    rate,
                    s.balance,
                );
                assert(spec_value(next) == spec_value(s));
            } else {
                // The aggregate's settled pot floors at zero: the pool
                // keeps the fraction and its value can only rise.
                assert(spec_value(next) >= spec_value(s));
            }
            assert(spec_value(next) * s.shares >= spec_value(s) * next.shares)
                by (nonlinear_arith)
                requires
                    spec_value(next) >= spec_value(s),
                    next.shares == s.shares,
                    s.shares >= 0,
            ;
        },
    }
}

/// Share price is non-decreasing across any history of deposits, loan
/// openings, repayments and passing time: at the end of the run the exact
/// price ratio is at least the one at the start.
pub proof fn lemma_price_nondecreasing_over_history(s: PoolState, events: Seq<PoolEvent>)
    requires
        ok_run(s, events),
    ensures
        (match run(s, events) {
            Some(last) => price_ge(last, s),
            None => false,
        }),
    decreases events.len(),
{
    lemma_value_nonneg(s);
    if events.len() == 0 {
    } else {
        let next = step(s, events[0])->Some_0;
        lemma_step_price_nondecreasing(s, events[0], next);
        lemma_price_nondecreasing_over_history(next, events.drop_first());
        let last = run(next, events.drop_first())->Some_0;
        lemma_value_nonneg(last);
        lemma_price_ge_transitive(last, next, s);
    }
}

} // verus!
