//! The liquidity-pool facade: configuration, the loan book, and the
//! aggregate, composed behind one surface that the rest of the system
//! calls.
//!
//! The central invariant, kept by every operation: the aggregate's total
//! principal equals the sum of the live loans' principal, and its
//! rate-weighted sum equals the sum of their principal-times-rate
//! products.  Compound operations settle the aggregate at the event's time
//! first and adjust it by the event's delta second, so the per-loan and
//! the aggregate accrual never diverge.

use vstd::prelude::*;

use crate::borrow::InterestRate;
use crate::config::Config;
use crate::error::ContractError;
use crate::finance::{Coin, Percent, Price, Timestamp};
use crate::loan::{
    spec_repaid_loan, spec_repay_closes, spec_repay_excess, spec_repay_interest,
    spec_repay_principal, LoanData,
};
use crate::msg::LppBalanceResponse;
use crate::total::Total;

verus! {

/// The current price of one pool share, as the facade computes it.
#[derive(Clone, Copy, Debug, PartialEq, Eq, Structural)]
pub struct NTokenPrice {
    price: Price,
}

impl NTokenPrice {
    pub closed spec fn spec_price(&self) -> Price {
        self.price
    }

    /// A computed price is never below the one-to-one starting price.
    pub open spec fn valid(&self) -> bool {
        0 < self.spec_price().amount <= self.spec_price().amount_quote
    }

    pub fn get(&self) -> (r: Price)
        ensures
            r == self.spec_price(),
    {
        self.price
    }

    /// A price assembled directly from its two amounts, for callers that
    /// need one outside a pool's own computation.
    pub fn mock(nlpn: u128, lpn: u128) -> (r: NTokenPrice)
        requires
            0 < nlpn <= lpn,
        ensures
            r.spec_price() == (Price { amount: nlpn, amount_quote: lpn }),
            r.valid(),
    {
        NTokenPrice { price: Price { amount: nlpn, amount_quote: lpn } }
    }
}

/// One keyed entry of the loan book.
#[derive(Clone, Debug, PartialEq, Eq)]
pub struct LoanEntry {
    pub addr: String,
    pub data: LoanData,
}

/// The sum of principal over a loan-book slice.
pub open spec fn sum_principal(s: Seq<LoanEntry>) -> int
    decreases s.len(),
{
    if s.len() == 0 {
        0
    } else {
        sum_principal(s.drop_last()) + s.last().data.principal_due
    }
}

/// The sum of principal-times-rate-units over a loan-book slice.
pub open spec fn sum_weighted(s: Seq<LoanEntry>) -> int
    decreases s.len(),
{
    if s.len() == 0 {
        0
    } else {
        sum_weighted(s.drop_last()) + s.last().data.principal_due
            * s.last().data.annual_interest_rate.units
    }
}

/// The loan stored for address `a`, when one is.
pub open spec fn loan_of(s: Seq<LoanEntry>, a: Seq<char>) -> Option<LoanData>
    decreases s.len(),
{
    if s.len() == 0 {
        None
    } else if s.last().addr@ == a {
        Some(s.last().data)
    } else {
        loan_of(s.drop_last(), a)
    }
}

pub open spec fn unique_loans(s: Seq<LoanEntry>) -> bool {
    forall|i: int, j: int| 0 <= i < j < s.len() ==> s[i].addr@ != s[j].addr@
}

/// The weighted contribution of one entry, never negative.
proof fn lemma_weight_nonneg(e: LoanEntry)
    ensures
        e.data.principal_due * e.data.annual_interest_rate.units >= 0,
{
    assert(e.data.principal_due * e.data.annual_interest_rate.units >= 0) by (nonlinear_arith);
}

proof fn lemma_loan_of_found(s: Seq<LoanEntry>, i: int, a: Seq<char>)
    requires
        unique_loans(s),
        0 <= i < s.len(),
        s[i].addr@ == a,
    ensures
        loan_of(s, a) == Some(s[i].data),
    decreases s.len(),
{
    if i < s.len() - 1 {
        assert(s.drop_last()[i] == s[i]);
        lemma_loan_of_found(s.drop_last(), i, a);
    }
}

proof fn lemma_loan_of_absent(s: Seq<LoanEntry>, a: Seq<char>)
    requires
        forall|j: int| 0 <= j < s.len() ==> s[j].addr@ != a,
    ensures
        loan_of(s, a) is None,
    decreases s.len(),
{
    if s.len() > 0 {
        assert(forall|j: int|
            0 <= j < s.drop_last().len() ==> s.drop_last()[j] == s[j]);
        lemma_loan_of_absent(s.drop_last(), a);
    }
}

/// Both sums dominate any single entry's contribution.
proof fn lemma_sums_lower(s: Seq<LoanEntry>, i: int)
    requires
        0 <= i < s.len(),
    ensures
        sum_principal(s) >= s[i].data.principal_due,
        sum_weighted(s) >= s[i].data.principal_due * s[i].data.annual_interest_rate.units,
        sum_principal(s) - s[i].data.principal_due >= 0,
        sum_weighted(s) - s[i].data.principal_due * s[i].data.annual_interest_rate.units >= 0,
    decreases s.len(),
{
    lemma_weight_nonneg(s.last());
    if i == s.len() - 1 {
        lemma_sums_nonneg(s.drop_last());
    } else {
        assert(s.drop_last()[i] == s[i]);
        lemma_sums_lower(s.drop_last(), i);
    }
}

proof fn lemma_sums_nonneg(s: Seq<LoanEntry>)
    ensures
        sum_principal(s) >= 0,
        sum_weighted(s) >= 0,
    decreases s.len(),
{
    if s.len() > 0 {
        lemma_weight_nonneg(s.last());
        lemma_sums_nonneg(s.drop_last());
    }
}

/// Appending a loan under a fresh address adds exactly that record.
proof fn lemma_loan_push(s: Seq<LoanEntry>, e: LoanEntry)
    requires
        unique_loans(s),
        forall|j: int| 0 <= j < s.len() ==> s[j].addr@ != e.addr@,
    ensures
        unique_loans(s.push(e)),
        loan_of(s.push(e), e.addr@) == Some(e.data),
        forall|a: Seq<char>| a != e.addr@ ==> loan_of(s.push(e), a) == loan_of(s, a),
        sum_principal(s.push(e)) == sum_principal(s) + e.data.principal_due,
        sum_weighted(s.push(e)) == sum_weighted(s) + e.data.principal_due
            * e.data.annual_interest_rate.units,
{
    let t = s.push(e);
    assert(t.drop_last() =~= s);
    assert(forall|k: int| 0 <= k < s.len() ==> t[k] == s[k]);
}

/// Replacing the loan at `i` by one whose address occurs nowhere else.
proof fn lemma_loan_replace(s: Seq<LoanEntry>, i: int, e: LoanEntry)
    requires
        unique_loans(s),
        0 <= i < s.len(),
        forall|j: int| 0 <= j < s.len() && j != i ==> s[j].addr@ != e.addr@,
    ensures
        unique_loans(s.update(i, e)),
        loan_of(s.update(i, e), e.addr@) == Some(e.data),
        s[i].addr@ != e.addr@ ==> loan_of(s.update(i, e), s[i].addr@) is None,
        forall|a: Seq<char>|
            a != e.addr@ && a != s[i].addr@ ==> loan_of(s.update(i, e), a) == loan_of(s, a),
        sum_principal(s.update(i, e)) == sum_principal(s) - s[i].data.principal_due
            + e.data.principal_due,
        sum_weighted(s.update(i, e)) == sum_weighted(s) - s[i].data.principal_due
            * s[i].data.annual_interest_rate.units + e.data.principal_due
            * e.data.annual_interest_rate.units,
    decreases s.len(),
{
    let t = s.update(i, e);
    assert(unique_loans(t)) by {
        assert(forall|k: int| 0 <= k < s.len() && k != i ==> t[k].addr@ == s[k].addr@);
        assert(t[i] == e);
    }
    lemma_loan_of_found(t, i, e.addr@);
    if s[i].addr@ != e.addr@ {
        assert(forall|j: int| 0 <= j < t.len() ==> t[j].addr@ != s[i].addr@);
        lemma_loan_of_absent(t, s[i].addr@);
    }
    if i == s.len() - 1 {
        assert(t.drop_last() =~= s.drop_last());
        assert forall|a: Seq<char>| a != e.addr@ && a != s[i].addr@ implies loan_of(t, a)
            == loan_of(s, a) by {
            assert(t.last() == e);
            assert(s.last() == s[i]);
            assert(loan_of(t, a) == loan_of(t.drop_last(), a));
            assert(loan_of(s, a) == loan_of(s.drop_last(), a));
        }
    } else {
        assert(t.drop_last() =~= s.drop_last().update(i, e));
        assert(s.drop_last()[i] == s[i]);
        assert(forall|j: int|
            0 <= j < s.drop_last().len() && j != i ==> s.drop_last()[j] == s[j]);
        lemma_loan_replace(s.drop_last(), i, e);
        assert(t.last() == s.last());
        assert forall|a: Seq<char>| a != e.addr@ && a != s[i].addr@ implies loan_of(t, a)
            == loan_of(s, a) by {
            if s.last().addr@ == a {
            } else {
                assert(loan_of(t, a) == loan_of(t.drop_last(), a));
                assert(loan_of(t.drop_last(), a) == loan_of(s.drop_last(), a));
            }
        }
    }
}

/// Dropping the last loan removes exactly its address's record.
proof fn lemma_loan_pop(s: Seq<LoanEntry>)
    requires
        unique_loans(s),
        s.len() > 0,
    ensures
        unique_loans(s.drop_last()),
        loan_of(s.drop_last(), s.last().addr@) is None,
        forall|a: Seq<char>| a != s.last().addr@ ==> loan_of(s.drop_last(), a) == loan_of(s, a),
        sum_principal(s.drop_last()) == sum_principal(s) - s.last().data.principal_due,
        sum_weighted(s.drop_last()) == sum_weighted(s) - s.last().data.principal_due
            * s.last().data.annual_interest_rate.units,
{
    assert(forall|j: int| 0 <= j < s.drop_last().len() ==> s.drop_last()[j] == s[j]);
    lemma_loan_of_absent(s.drop_last(), s.last().addr@);
}

/// The pool: configuration, the loan book, and the aggregate, mutated in
/// lockstep.
#[derive(Clone, Debug, PartialEq, Eq)]
pub struct LiquidityPool {
    config: Config,
    total: Total,
    loans: Vec<LoanEntry>,
}

impl LiquidityPool {
    pub closed spec fn spec_config(&self) -> Config {
        self.config
    }

    pub closed spec fn spec_total(&self) -> Total {
        self.total
    }

    pub closed spec fn spec_loans(&self) -> Seq<LoanEntry> {
        self.loans@
    }

    /// The loan open for address `a`, when one is.
    pub open spec fn spec_loan_of(&self, a: Seq<char>) -> Option<LoanData> {
        loan_of(self.spec_loans(), a)
    }

    /// The central invariant: the aggregate's sums equal the loan book's,
    /// every live loan has positive principal, and the configuration is
    /// well formed.
    pub open spec fn wf(&self) -> bool {
        &&& self.spec_config().wf()
        &&& unique_loans(self.spec_loans())
        &&& self.spec_total().total_principal_due == sum_principal(self.spec_loans())
        &&& self.spec_total().rate_weighted_principal == sum_weighted(self.spec_loans())
        &&& forall|i: int|
            0 <= i < self.spec_loans().len() ==> (#[trigger] self.spec_loans()[i]).data
                .principal_due > 0
    }

    /// A fresh pool under `config`: no loans, nothing due.
    pub fn store(config: Config) -> (r: LiquidityPool)
        requires
            config.wf(),
        ensures
            r.wf(),
            r.spec_config() == config,
            r.spec_total() == (Total {
                total_principal_due: 0,
                settled_interest: 0,
                rate_weighted_principal: 0,
                last_update_time: 0,
            }),
            r.spec_loans().len() == 0,
    {
        LiquidityPool { config, total: Total::new(), loans: Vec::new() }
    }

    pub fn config(&self) -> (r: &Config)
        ensures
            *r == self.spec_config(),
    {
        &self.config
    }

    pub fn total(&self) -> (r: &Total)
        ensures
            *r == self.spec_total(),
    {
        &self.total
    }

    /// Replaces the registered loan code.
    pub fn update_lease_code(&mut self, lease_code: u64)
        requires
            old(self).wf(),
        ensures
            final(self).wf(),
            final(self).spec_config().spec_lease_code_id() == lease_code,
            final(self).spec_config().spec_lpn_ticker() == old(
                self,
            ).spec_config().spec_lpn_ticker(),
            final(self).spec_config().spec_borrow_rate() == old(
                self,
            ).spec_config().spec_borrow_rate(),
            final(self).spec_total() == old(self).spec_total(),
            final(self).spec_loans() == old(self).spec_loans(),
    {
        self.config.update_lease_code(lease_code);
    }

    /// Replaces the borrow-rate curve.  Open loans keep their locked rates.
    pub fn update_borrow_rate(&mut self, borrow_rate: InterestRate)
        requires
            old(self).wf(),
            borrow_rate.valid(),
        ensures
            final(self).wf(),
            final(self).spec_config().spec_borrow_rate() == borrow_rate,
            final(self).spec_config().spec_lpn_ticker() == old(
                self,
            ).spec_config().spec_lpn_ticker(),
            final(self).spec_config().spec_lease_code_id() == old(
                self,
            ).spec_config().spec_lease_code_id(),
            final(self).spec_total() == old(self).spec_total(),
            final(self).spec_loans() == old(self).spec_loans(),
    {
        self.config.update_borrow_rate(borrow_rate);
    }

    /// The cross-contract identity check against the configured loan code.
    pub fn validate_lease_addr(&self, lease_code_id: u64) -> (r: Result<(), ContractError>)
        ensures
            (match r {
                Ok(()) => lease_code_id == self.spec_config().spec_lease_code_id(),
                Err(e) => e == ContractError::InvalidLeaseCode && lease_code_id
                    != self.spec_config().spec_lease_code_id(),
            }),
    {
        self.config.validate_lease_code(lease_code_id)
    }

    /// The pool's total value: bank balance plus principal due plus
    /// interest due by `now`.
    pub open spec fn spec_total_lpn(&self, balance: u128, now: Timestamp) -> int {
        balance + self.spec_total().total_principal_due
            + self.spec_total().spec_interest_due_by_now(now)
    }

    /// Whether that value fits the machine's range.
    pub open spec fn total_lpn_fits(&self, balance: u128, now: Timestamp) -> bool {
        &&& self.spec_total().settle_fits(now)
        &&& self.spec_total_lpn(balance, now) <= u128::MAX
    }

    /// Total value locked, from the caller-supplied bank balance and time.
    pub fn total_lpn(&self, balance: u128, now: Timestamp) -> (r: Result<u128, ContractError>)
        ensures
            (match r {
                Ok(v) => self.total_lpn_fits(balance, now) && v == self.spec_total_lpn(
                    balance,
                    now,
                ),
                Err(e) => e == ContractError::Overflow && !self.total_lpn_fits(balance, now),
            }),
    {
        let interest = match self.total.total_interest_due_by_now(now) {
            Ok(v) => v,
            Err(e) => { return Err(e) },
        };
        let with_principal = match balance.checked_add(self.total.total_principal_due()) {
            Some(v) => v,
            None => { return Err(ContractError::Overflow) },
        };
        match with_principal.checked_add(interest) {
            Some(v) => Ok(v),
            None => Err(ContractError::Overflow),
        }
    }

    /// The balance sheet: bank balance, principal due, interest due, and
    /// shares outstanding, each in its denomination.
    pub fn query_lpp_balance(&self, balance: u128, now: Timestamp, balance_nlpn: u128) -> (r:
        Result<LppBalanceResponse, ContractError>)
        ensures
            (match r {
                Ok(resp) => {
                    &&& self.spec_total().settle_fits(now)
                    &&& resp.balance.amount == balance
                    &&& resp.total_principal_due.amount == self.spec_total().total_principal_due
                    &&& resp.total_interest_due.amount == self.spec_total(
                    ).spec_interest_due_by_now(now)
                    &&& resp.balance.ticker@ == self.spec_config().spec_lpn_ticker()
                    &&& resp.total_principal_due.ticker@ == self.spec_config().spec_lpn_ticker()
                    &&& resp.total_interest_due.ticker@ == self.spec_config().spec_lpn_ticker()
                    &&& resp.balance_nlpn == balance_nlpn
                },
                Err(e) => e == ContractError::Overflow && !self.spec_total().settle_fits(now),
            }),
    {
        let interest = match self.total.total_interest_due_by_now(now) {
            Ok(v) => v,
            Err(e) => { return Err(e) },
        };
        Ok(
            LppBalanceResponse {
                balance: Coin { ticker: self.config.lpn_ticker().clone(), amount: balance },
                total_principal_due: Coin {
                    ticker: self.config.lpn_ticker().clone(),
                    amount: self.total.total_principal_due(),
                },
                total_interest_due: Coin {
                    ticker: self.config.lpn_ticker().clone(),
                    amount: interest,
                },
                balance_nlpn,
            },
        )
    }

    /// The current share price: total value (minus funds just received and
    /// not yet priced) over shares outstanding, or the one-to-one starting
    /// price while no shares exist.
    ///
    /// A price below the starting one means the pool lost value — a broken
    /// invariant, never silently passed on.
    pub fn calculate_price(&self, balance: u128, now: Timestamp, balance_nlpn: u128,
        received: u128) -> (r: Result<NTokenPrice, ContractError>)
        ensures
            (match r {
                Ok(p) => {
                    &&& p.valid()
                    &&& (if balance_nlpn == 0 {
                        p.spec_price() == (Price { amount: 1, amount_quote: 1 })
                    } else {
                        &&& self.total_lpn_fits(balance, now)
                        &&& p.spec_price() == (Price {
                            amount: balance_nlpn,
                            amount_quote: (self.spec_total_lpn(balance, now) - received) as u128,
                        })
                        &&& received <= self.spec_total_lpn(balance, now)
                    })
                },
                Err(e) => (if balance_nlpn == 0 {
                    false
                } else if !self.total_lpn_fits(balance, now) {
                    e == ContractError::Overflow
                } else {
                    e == ContractError::BrokenInvariant && (received > self.spec_total_lpn(
                        balance,
                        now,
                    ) || self.spec_total_lpn(balance, now) - received < balance_nlpn)
                }),
            }),
    {
        if balance_nlpn == 0 {
            return Ok(NTokenPrice { price: Config::initial_derivative_price() });
        }
        let total = match self.total_lpn(balance, now) {
            Ok(v) => v,
            Err(e) => { return Err(e) },
        };
        if received > total {
            return Err(ContractError::BrokenInvariant);
        }
        let quote_amount = total - received;
        if quote_amount < balance_nlpn {
            return Err(ContractError::BrokenInvariant);
        }
        Ok(NTokenPrice { price: Price { amount: balance_nlpn, amount_quote: quote_amount } })
    }

    /// The settlement-currency value the redemption of `amount_nlpn`
    /// shares is sized at: one for one while no shares exist, else the
    /// shares' worth at the exact current price.
    pub open spec fn spec_withdraw_amount(&self, balance: u128, now: Timestamp,
        balance_nlpn: u128, amount_nlpn: u128) -> int {
        if balance_nlpn == 0 {
            amount_nlpn as int
        } else {
            amount_nlpn * self.spec_total_lpn(balance, now) / (balance_nlpn as int)
        }
    }

    /// Sizes a share redemption: the settlement-currency value of
    /// `amount_nlpn` shares at the current price.  It fails with
    /// no-liquidity exactly when the bank balance cannot cover that value,
    /// with a fatal error when the accrual or the conversion overflows or
    /// the price has fallen below the starting one, and succeeds
    /// otherwise.
    #[verifier::rlimit(50)]
    pub fn withdraw_lpn(&self, balance: u128, now: Timestamp, balance_nlpn: u128,
        amount_nlpn: u128) -> (r: Result<u128, ContractError>)
        ensures
            (match r {
                Ok(v) => {
                    &&& v == self.spec_withdraw_amount(balance, now, balance_nlpn, amount_nlpn)
                    &&& v <= balance
                    &&& (balance_nlpn > 0 ==> self.total_lpn_fits(balance, now)
                        && self.spec_total_lpn(balance, now) >= balance_nlpn && amount_nlpn
                        * self.spec_total_lpn(balance, now) <= u128::MAX)
                },
                Err(e) => (if balance_nlpn == 0 {
                    e == ContractError::NoLiquidity && balance < amount_nlpn
                } else if !self.total_lpn_fits(balance, now) {
                    e == ContractError::Overflow
                } else if self.spec_total_lpn(balance, now) < balance_nlpn {
                    e == ContractError::BrokenInvariant
                } else if amount_nlpn * self.spec_total_lpn(balance, now) > u128::MAX {
                    e == ContractError::Overflow
                } else {
                    e == ContractError::NoLiquidity && balance < self.spec_withdraw_amount(
                        balance,
                        now,
                        balance_nlpn,
                        amount_nlpn,
                    )
                }),
            }),
    {
        let price = match self.calculate_price(balance, now, balance_nlpn, 0) {
            Ok(p) => p,
            Err(e) => { return Err(e) },
        };
        let p = price.get();
        let amount_lpn = match crate::finance::price_total(amount_nlpn, &p) {
            Some(v) => v,
            None => { return Err(ContractError::Overflow) },
        };
        proof {
            if balance_nlpn == 0 {
                assert(p == (Price { amount: 1u128, amount_quote: 1u128 }));
                assert(amount_lpn == amount_nlpn * 1 / 1);
                assert(amount_nlpn * 1 == amount_nlpn) by (nonlinear_arith);
                vstd::arithmetic::div_mod::lemma_div_by_multiple(amount_nlpn as int, 1);
            } else {
                assert(p.amount_quote == self.spec_total_lpn(balance, now));
                assert(amount_lpn == amount_nlpn * (self.spec_total_lpn(balance, now) as int)
                    / (balance_nlpn as int));
            }
        }
        if balance < amount_lpn {
            return Err(ContractError::NoLiquidity);
        }
        Ok(amount_lpn)
    }

    /// The pool's liability were `quote` lent out now: principal due, the
    /// quote itself, and interest due by `now`.
    pub open spec fn spec_quote_liability(&self, quote: u128, now: Timestamp) -> int {
        self.spec_total().total_principal_due + quote + self.spec_total().spec_interest_due_by_now(
            now,
        )
    }

    /// The annual rate the curve quotes for `quote` out of `balance` at
    /// `now`.
    pub open spec fn spec_quote_rate(&self, quote: u128, balance: u128, now: Timestamp) -> int {
        self.spec_config().spec_borrow_rate().spec_rate(
            self.spec_quote_liability(quote, now),
            balance - quote,
        )
    }

    /// Whether the quote computation stays within the machine's range.
    pub open spec fn quote_fits(&self, quote: u128, balance: u128, now: Timestamp) -> bool {
        &&& self.spec_total().settle_fits(now)
        &&& self.spec_total().total_principal_due + quote <= u128::MAX
        &&& self.spec_quote_liability(quote, now) <= u128::MAX
        &&& self.spec_quote_liability(quote, now) + (balance - quote) <= u128::MAX
        &&& self.spec_quote_liability(quote, now) * crate::finance::PERMILLE_UNITS <= u128::MAX
    }

    /// A rate quote for a hypothetical loan of `quote`.  `None` is the
    /// normal no-liquidity outcome: the quote exceeds the pool's balance.
    pub fn query_quote(&self, balance: u128, quote: u128, now: Timestamp) -> (r: Result<
        Option<Percent>,
        ContractError,
    >)
        requires
            self.wf(),
        ensures
            (match r {
                Ok(opt) => (match opt {
                    Some(p) => quote <= balance && self.quote_fits(quote, balance, now)
                        && p.units == self.spec_quote_rate(quote, balance, now),
                    None => quote > balance,
                }),
                Err(e) => e == ContractError::Overflow && quote <= balance && !self.quote_fits(
                    quote,
                    balance,
                    now,
                ),
            }),
    {
        if quote > balance {
            return Ok(None);
        }
        let interest = match self.total.total_interest_due_by_now(now) {
            Ok(v) => v,
            Err(e) => { return Err(e) },
        };
        let with_quote = match self.total.total_principal_due().checked_add(quote) {
            Some(v) => v,
            None => { return Err(ContractError::Overflow) },
        };
        let liability = match with_quote.checked_add(interest) {
            Some(v) => v,
            None => { return Err(ContractError::Overflow) },
        };
        match self.config.borrow_rate().calculate(liability, balance - quote) {
            Ok(rate) => Ok(Some(rate)),
            Err(e) => Err(e),
        }
    }

    fn find_loan(&self, addr: &String) -> (r: Option<usize>)
        ensures
            (match r {
                Some(i) => i < self.spec_loans().len() && self.spec_loans()[i as int].addr@
                    == addr@,
                None => forall|j: int|
                    0 <= j < self.spec_loans().len() ==> self.spec_loans()[j].addr@ != addr@,
            }),
    {
        let mut k: usize = 0;
        while k < self.loans.len()
            invariant
                k <= self.loans@.len(),
                forall|j: int| 0 <= j < k ==> self.loans@[j].addr@ != addr@,
            decreases self.loans@.len() - k,
        {
            if self.loans[k].addr == *addr {
                return Some(k);
            }
            k = k + 1;
        }
        None
    }

    /// Whether the whole open operation stays within the machine's range.
    pub open spec fn open_fits(&self, amount: u128, balance: u128, now: Timestamp) -> bool {
        &&& self.quote_fits(amount, balance, now)
        &&& self.spec_total().rate_weighted_principal + amount * self.spec_quote_rate(
            amount,
            balance,
            now,
        ) <= u128::MAX
    }

    /// Opens a loan: quotes the rate for `amount` out of `balance`,
    /// registers the loan with `interest_paid` at `now`, and raises the
    /// aggregate by the same delta.  Returns the locked annual rate.
    ///
    /// All-or-nothing: a zero amount, a missing quote, an already open
    /// loan, or an overflow leaves the pool untouched.
    pub fn try_open_loan(&mut self, now: Timestamp, lease_addr: &String, amount: u128,
        balance: u128) -> (r: Result<Percent, ContractError>)
        requires
            old(self).wf(),
        ensures
            (match r {
                Ok(p) => {
                    &&& final(self).wf()
                    &&& amount > 0 && amount <= balance
                    &&& old(self).spec_loan_of(lease_addr@) is None
                    &&& old(self).open_fits(amount, balance, now)
                    &&& p.units == old(self).spec_quote_rate(amount, balance, now)
                    &&& final(self).spec_loan_of(lease_addr@) == Some(LoanData {
                        principal_due: amount,
                        annual_interest_rate: p,
                        interest_paid: now,
                    })
                    &&& forall|a: Seq<char>|
                        a != lease_addr@ ==> final(self).spec_loan_of(a) == old(self).spec_loan_of(
                            a,
                        )
                    &&& final(self).spec_total() == (Total {
                        total_principal_due: (old(self).spec_total().total_principal_due
                            + amount) as u128,
                        settled_interest: old(self).spec_total().spec_interest_due_by_now(
                            now,
                        ) as u128,
                        rate_weighted_principal: (old(self).spec_total().rate_weighted_principal
                            + amount * p.units) as u128,
                        last_update_time: old(self).spec_total().spec_settled_to(now),
                    })
                    &&& final(self).spec_config() == old(self).spec_config()
                },
                Err(e) => {
                    &&& *final(self) == *old(self)
                    &&& (if amount == 0 {
                        e == ContractError::ZeroLoanAmount
                    } else if old(self).spec_loan_of(lease_addr@) is Some {
                        e == ContractError::LoanExists
                    } else if amount > balance {
                        e == ContractError::NoLiquidity
                    } else {
                        e == ContractError::Overflow && !old(self).open_fits(amount, balance, now)
                    })
                },
            }),
    {
        if amount == 0 {
            return Err(ContractError::ZeroLoanAmount);
        }
        match self.find_loan(lease_addr) {
            Some(i) => {
                proof {
                    lemma_loan_of_found(self.spec_loans(), i as int, lease_addr@);
                }
                return Err(ContractError::LoanExists);
            },
            None => {
                proof {
                    lemma_loan_of_absent(self.spec_loans(), lease_addr@);
                }
            },
        }
        let rate = match self.query_quote(balance, amount, now) {
            Ok(Some(rate)) => rate,
            Ok(None) => { return Err(ContractError::NoLiquidity) },
            Err(e) => { return Err(e) },
        };
        match self.total.borrow(now, amount, rate) {
            Ok(()) => {},
            Err(e) => { return Err(e) },
        }
        let entry = LoanEntry {
            addr: lease_addr.clone(),
            data: LoanData { principal_due: amount, annual_interest_rate: rate,
                interest_paid: now },
        };
        proof {
            lemma_loan_push(self.spec_loans(), entry);
        }
        self.loans.push(entry);
        Ok(rate)
    }

    /// Settles a repayment: splits it interest-first against the
    /// borrower's loan, removes the same contribution from the aggregate,
    /// updates or closes the loan record, and returns only what exceeds
    /// principal plus accrued interest as excess — everything up to the
    /// debt is retained.
    ///
    /// All-or-nothing: a missing loan or an overflow leaves the pool
    /// untouched.  A zero amount is a valid no-op that changes no balance
    /// and no rate.
    pub fn try_repay_loan(&mut self, now: Timestamp, lease_addr: &String, repay_amount: u128) -> (r:
        Result<u128, ContractError>)
        requires
            old(self).wf(),
        ensures
            (match r {
                Ok(excess) => (match old(self).spec_loan_of(lease_addr@) {
                    Some(loan) => {
                        &&& final(self).wf()
                        &&& excess == spec_repay_excess(loan, now, repay_amount)
                        &&& excess == (if repay_amount >= loan.spec_interest_due(now)
                            + loan.principal_due {
                            repay_amount - loan.spec_interest_due(now) - loan.principal_due
                        } else {
                            0
                        })
                        &&& final(self).spec_loan_of(lease_addr@) == (if spec_repay_closes(
                            loan,
                            now,
                            repay_amount,
                        ) {
                            None::<LoanData>
                        } else {
                            Some(spec_repaid_loan(loan, now, repay_amount))
                        })
                        &&& forall|a: Seq<char>|
                            a != lease_addr@ ==> final(self).spec_loan_of(a) == old(
                                self,
                            ).spec_loan_of(a)
                        &&& final(self).spec_total() == (Total {
                            total_principal_due: (old(self).spec_total().total_principal_due
                                - spec_repay_principal(loan, now, repay_amount)) as u128,
                            settled_interest: (if spec_repay_interest(loan, now, repay_amount)
                                <= old(self).spec_total().spec_interest_due_by_now(now) {
                                (old(self).spec_total().spec_interest_due_by_now(now)
                                    - spec_repay_interest(loan, now, repay_amount)) as u128
                            } else {
                                0 as u128
                            }),
                            rate_weighted_principal: (old(
                                self,
                            ).spec_total().rate_weighted_principal - spec_repay_principal(
                                loan,
                                now,
                                repay_amount,
                            ) * loan.annual_interest_rate.units) as u128,
                            last_update_time: old(self).spec_total().spec_settled_to(now),
                        })
                        &&& final(self).spec_config() == old(self).spec_config()
                        &&& (repay_amount == 0 ==> final(self).spec_loan_of(lease_addr@)
                            == Some(loan) && excess == 0)
                    },
                    None => false,
                }),
                Err(e) => {
                    &&& *final(self) == *old(self)
                    &&& (match old(self).spec_loan_of(lease_addr@) {
                        Some(loan) => e == ContractError::Overflow && ((repay_amount > 0
                            && !loan.interest_fits(now)) || !old(self).spec_total().settle_fits(
                            now,
                        )),
                        None => e == ContractError::NoLoan,
                    })
                },
            }),
    {
        let i = match self.find_loan(lease_addr) {
            Some(i) => i,
            None => {
                proof {
                    lemma_loan_of_absent(self.spec_loans(), lease_addr@);
                }
                return Err(ContractError::NoLoan);
            },
        };
        proof {
            lemma_loan_of_found(self.spec_loans(), i as int, lease_addr@);
            lemma_sums_lower(self.spec_loans(), i as int);
        }
        let d = self.loans[i].data;
        let (new_loan, shares) = match crate::loan::repay(&d, now, repay_amount) {
            Ok(v) => v,
            Err(e) => { return Err(e) },
        };
        proof {
            assert(shares.principal * d.annual_interest_rate.units <= d.principal_due
                * d.annual_interest_rate.units) by (nonlinear_arith)
                requires
                    shares.principal <= d.principal_due,
                    d.annual_interest_rate.units >= 0,
            ;
        }
        match self.total.repay(now, shares.interest, shares.principal, d.annual_interest_rate) {
            Ok(()) => {},
            Err(e) => { return Err(e) },
        }
        match new_loan {
            Some(l) => {
                let entry = LoanEntry { addr: self.loans[i].addr.clone(), data: l };
                proof {
                    lemma_loan_replace(self.spec_loans(), i as int, entry);
                    assert((d.principal_due - shares.principal) * d.annual_interest_rate.units
                        == d.principal_due * d.annual_interest_rate.units - shares.principal
                        * d.annual_interest_rate.units) by (nonlinear_arith);
                }
                self.loans.set(i, entry);
            },
            None => {
                proof {
                    let s = self.spec_loans();
                    lemma_loan_pop(s);
                    if i as int != s.len() - 1 {
                        assert(forall|j: int|
                            0 <= j < s.drop_last().len() && j != i as int ==> s.drop_last()[j]
                                == s[j]);
                        lemma_loan_replace(s.drop_last(), i as int, s.last());
                        assert(s.update(i as int, s.last()).drop_last() =~= s.drop_last().update(
                            i as int,
                            s.last(),
                        ));
                    } else {
                        assert(s.update(i as int, s.last()).drop_last() =~= s.drop_last());
                    }
                }
                let _ = self.loans.swap_remove(i);
            },
        }
        Ok(shares.excess)
    }

    /// While the loan set does not change, the pool's total value — and
    /// with it the share price over a fixed share count — never decreases
    /// as time moves forward.
    pub proof fn lemma_price_nondecreasing_in_time(&self, balance: u128, t1: Timestamp,
        t2: Timestamp)
        requires
            t1 <= t2,
        ensures
            self.spec_total_lpn(balance, t1) <= self.spec_total_lpn(balance, t2),
    {
        crate::total::lemma_interest_monotone(self.spec_total(), t1, t2);
    }

    /// One borrower's loan state, or none — a missing loan is a normal
    /// answer, not an error.
    pub fn query_loan(&self, lease_addr: &String) -> (r: Option<LoanData>)
        requires
            self.wf(),
        ensures
            r == self.spec_loan_of(lease_addr@),
    {
        match self.find_loan(lease_addr) {
            Some(i) => {
                proof {
                    lemma_loan_of_found(self.spec_loans(), i as int, lease_addr@);
                }
                Some(self.loans[i].data)
            },
            None => {
                proof {
                    lemma_loan_of_absent(self.spec_loans(), lease_addr@);
                }
                None
            },
        }
    }
}

/// A deposit never lowers the share price.
///
/// With `shares` shares outstanding and a pool value of `value`, a deposit
/// of `amount` mints `amount * shares / value` shares, rounded down — so
/// the price after, `(value + amount) / (shares + minted)`, is at least
/// the price before, `value / shares`, compared as exact ratios.
pub proof fn lemma_price_nondecreasing_deposit(value: u128, shares: u128, amount: u128)
    requires
        value > 0,
        shares > 0,
    ensures
        ({
            let minted = crate::deposit::spec_deposit_shares(
                amount,
                Price { amount: shares, amount_quote: value },
            );
            (value + amount) * shares >= value * (shares + minted)
        }),
{
    let minted = crate::deposit::spec_deposit_shares(
        amount,
        Price { amount: shares, amount_quote: value },
    );
    assert(minted == amount * shares / (value as int));
    vstd::arithmetic::div_mod::lemma_fundamental_div_mod(amount * shares, value as int);
    vstd::arithmetic::div_mod::lemma_mod_pos_bound(amount * shares, value as int);
    assert(amount * shares >= 0) by (nonlinear_arith);
    assert(value * minted <= amount * shares) by (nonlinear_arith)
        requires
            amount * shares == (value as int) * minted + (amount * shares) % (value as int),
            (amount * shares) % (value as int) >= 0,
    ;
    assert((value + amount) * shares == value * shares + amount * shares) by (nonlinear_arith);
    assert(value * (shares + minted) == value * shares + value * minted) by (nonlinear_arith);
}

/// Redeeming what a deposit just minted returns the deposit up to
/// rounding.
///
/// When no interest or reward accrues between the two calls, a deposit of
/// `amount` mints `minted = amount * shares / value` shares, and burning
/// them at the price after — `(value + amount) / (shares + minted)` —
/// yields at most `amount` back, and falls short of it by less than one
/// share's price plus one: the shortfall times the shares outstanding
/// stays below the pool's value plus those shares.
pub proof fn lemma_deposit_withdraw_roundtrip(value: u128, shares: u128, amount: u128)
    requires
        value > 0,
        shares > 0,
        value + amount <= u128::MAX,
        shares + crate::deposit::spec_deposit_shares(
            amount,
            Price { amount: shares, amount_quote: value },
        ) <= u128::MAX,
    ensures
        ({
            let minted = crate::deposit::spec_deposit_shares(
                amount,
                Price { amount: shares, amount_quote: value },
            );
            crate::finance::spec_price_total(
                minted,
                Price {
                    amount: (shares + minted) as u128,
                    amount_quote: (value + amount) as u128,
                },
            ) <= amount
        }),
        ({
            let minted = crate::deposit::spec_deposit_shares(
                amount,
                Price { amount: shares, amount_quote: value },
            );
            let withdrawn = crate::finance::spec_price_total(
                minted,
                Price {
                    amount: (shares + minted) as u128,
                    amount_quote: (value + amount) as u128,
                },
            );
            (amount - withdrawn) * (shares + minted) < value + shares + minted
        }),
{
    let minted = crate::deposit::spec_deposit_shares(
        amount,
        Price { amount: shares, amount_quote: value },
    );
    vstd::arithmetic::div_mod::lemma_fundamental_div_mod(amount * shares, value as int);
    vstd::arithmetic::div_mod::lemma_mod_pos_bound(amount * shares, value as int);
    assert(amount * shares >= 0) by (nonlinear_arith);
    assert(value * minted <= amount * shares) by (nonlinear_arith)
        requires
            amount * shares == (value as int) * minted + (amount * shares) % (value as int),
            (amount * shares) % (value as int) >= 0,
    ;
    vstd::arithmetic::div_mod::lemma_div_pos_is_pos(amount * shares, value as int);
    // minted * (value + amount) <= amount * (shares + minted), so the floor
    // of their quotient by (shares + minted) is at most amount.
    assert(minted * ((value + amount) as int) <= amount * ((shares + minted) as int))
        by (nonlinear_arith)
        requires
            value * minted <= amount * shares,
            minted >= 0,
            amount >= 0,
    ;
    vstd::arithmetic::div_mod::lemma_div_is_ordered(
        minted * ((value + amount) as int),
        amount * ((shares + minted) as int),
        (shares + minted) as int,
    );
    vstd::arithmetic::div_mod::lemma_div_by_multiple(amount as int, (shares + minted) as int);
    assert(amount * ((shares + minted) as int) / ((shares + minted) as int) == amount);
    // The shortfall: with x*S == V*m + r1 and m*(V+x) == (S+m)*w + r2,
    // (x - w)*(S + m) == r1 + r2 < V + S + m.
    let v = value as int;
    let s = shares as int;
    let x = amount as int;
    let m = minted;
    let w = crate::finance::spec_price_total(
        m,
        Price { amount: (shares + minted) as u128, amount_quote: (value + amount) as u128 },
    );
    let r1 = (x * s) % v;
    let r2 = (m * (v + x)) % (s + m);
    assert(w == m * (v + x) / (s + m));
    vstd::arithmetic::div_mod::lemma_fundamental_div_mod(m * (v + x), s + m);
    vstd::arithmetic::div_mod::lemma_mod_pos_bound(m * (v + x), s + m);
    assert(m * (v + x) >= 0) by (nonlinear_arith)
        requires
            m >= 0,
            v >= 0,
            x >= 0,
    ;
    assert((x - w) * (s + m) == r1 + r2) by (nonlinear_arith)
        requires
            x * s == v * m + r1,
            m * (v + x) == (s + m) * w + r2,
    ;
    assert(r1 + r2 < v + s + m);
}

} // verus!
