//! Lender deposits and the reward-per-share accumulator.
//!
//! Each lender holds pool shares; a global accumulator distributes a
//! secondary reward currency over whoever holds shares at distribution
//! time.  Every deposit, withdrawal and claim first settles the lender's
//! pending reward against the accumulator at the lender's old share count,
//! so shares added after a distribution take none of it and shares present
//! before one always take their part, regardless of when the lender next
//! touches the pool.
//!
//! Reward fractions are kept in fixed-point units of `REWARD_SCALE`, so a
//! distribution that does not divide evenly is not lost between
//! checkpoints.

use vstd::prelude::*;

use crate::error::ContractError;
use crate::finance::{Coin, Price};
use crate::msg::BankMsg;

verus! {

/// Fixed-point scale of the reward accumulator.
pub const REWARD_SCALE: u128 = 1_000_000_000_000_000_000;

/// One lender's record: a share balance, the accumulator value it was last
/// settled against, and the reward settled so far, in scaled units.
#[derive(Clone, Copy, Debug, PartialEq, Eq, Structural)]
pub struct DepositData {
    pub deposited_nlpn: u128,
    pub reward_per_token: u128,
    pub pending_rewards: u128,
}

/// The record of a lender that never touched the pool.
pub open spec fn default_deposit() -> DepositData {
    DepositData { deposited_nlpn: 0, reward_per_token: 0, pending_rewards: 0 }
}

/// A lender's reward at accumulator value `g_rpt`, in scaled units: what
/// was settled before plus the accumulator's growth since, times the
/// shares held over that growth.
pub open spec fn spec_reward(d: DepositData, g_rpt: u128) -> int {
    d.pending_rewards + (g_rpt - d.reward_per_token) * d.deposited_nlpn
}

/// The shares a deposit of `amount` mints at `price`, rounded down.
pub open spec fn spec_deposit_shares(amount: u128, price: Price) -> int {
    amount * price.amount / (price.amount_quote as int)
}

/// A settled reward is never negative while the checkpoint trails the
/// accumulator.
proof fn lemma_reward_nonneg(d: DepositData, g_rpt: u128)
    requires
        d.reward_per_token <= g_rpt,
    ensures
        spec_reward(d, g_rpt) >= 0,
{
    assert((g_rpt - d.reward_per_token) * d.deposited_nlpn >= 0) by (nonlinear_arith)
        requires
            g_rpt - d.reward_per_token >= 0,
            d.deposited_nlpn >= 0,
    ;
}

/// One keyed entry of the deposit registry.
#[derive(Clone, Debug, PartialEq, Eq)]
pub struct DepositEntry {
    pub addr: String,
    pub data: DepositData,
}

/// The pool-wide share and reward bookkeeping.
#[derive(Clone, Copy, Debug, PartialEq, Eq, Structural)]
pub struct DepositsGlobals {
    /// The sum of all lenders' shares.
    pub balance_nlpn: u128,
    /// Reward funds received and not yet paid out.
    pub balance_nls: u128,
    /// The reward-per-share accumulator, in scaled units.
    pub reward_per_token: u128,
}

/// The sum of shares over a registry slice.
pub open spec fn sum_shares(s: Seq<DepositEntry>) -> int
    decreases s.len(),
{
    if s.len() == 0 {
        0
    } else {
        sum_shares(s.drop_last()) + s.last().data.deposited_nlpn
    }
}

/// The rewards owed across a registry slice at accumulator value `g_rpt`,
/// in scaled units.
pub open spec fn sum_rewards(s: Seq<DepositEntry>, g_rpt: u128) -> int
    decreases s.len(),
{
    if s.len() == 0 {
        0
    } else {
        sum_rewards(s.drop_last(), g_rpt) + spec_reward(s.last().data, g_rpt)
    }
}

/// Whether no lender's checkpoint is ahead of the accumulator.
pub open spec fn checkpoints_bounded(s: Seq<DepositEntry>, g_rpt: u128) -> bool {
    forall|i: int| 0 <= i < s.len() ==> (#[trigger] s[i]).data.reward_per_token <= g_rpt
}

/// The owed rewards are never negative.
proof fn lemma_sum_rewards_nonneg(s: Seq<DepositEntry>, g_rpt: u128)
    requires
        checkpoints_bounded(s, g_rpt),
    ensures
        sum_rewards(s, g_rpt) >= 0,
    decreases s.len(),
{
    if s.len() > 0 {
        lemma_reward_nonneg(s.last().data, g_rpt);
        assert(forall|j: int|
            0 <= j < s.drop_last().len() ==> s.drop_last()[j] == s[j]);
        lemma_sum_rewards_nonneg(s.drop_last(), g_rpt);
    }
}

/// No single lender is owed more than the whole owed sum.
proof fn lemma_sum_rewards_lower(s: Seq<DepositEntry>, i: int, g_rpt: u128)
    requires
        checkpoints_bounded(s, g_rpt),
        0 <= i < s.len(),
    ensures
        sum_rewards(s, g_rpt) >= spec_reward(s[i].data, g_rpt),
    decreases s.len(),
{
    assert(forall|j: int| 0 <= j < s.drop_last().len() ==> s.drop_last()[j] == s[j]);
    if i == s.len() - 1 {
        lemma_sum_rewards_nonneg(s.drop_last(), g_rpt);
    } else {
        lemma_reward_nonneg(s.last().data, g_rpt);
        lemma_sum_rewards_lower(s.drop_last(), i, g_rpt);
    }
}

/// Raising the accumulator from `g0` to `g1` raises the owed sum by the
/// growth times the shares outstanding.
proof fn lemma_sum_rewards_shift(s: Seq<DepositEntry>, g0: u128, g1: u128)
    ensures
        sum_rewards(s, g1) == sum_rewards(s, g0) + (g1 - g0) * sum_shares(s),
    decreases s.len(),
{
    if s.len() == 0 {
        assert((g1 - g0) * 0 == 0) by (nonlinear_arith);
    } else {
        lemma_sum_rewards_shift(s.drop_last(), g0, g1);
        let d = s.last().data;
        assert((g1 - d.reward_per_token) * d.deposited_nlpn == (g0 - d.reward_per_token)
            * d.deposited_nlpn + (g1 - g0) * d.deposited_nlpn) by (nonlinear_arith);
        assert((g1 - g0) * (sum_shares(s.drop_last()) + d.deposited_nlpn) == (g1 - g0)
            * sum_shares(s.drop_last()) + (g1 - g0) * d.deposited_nlpn) by (nonlinear_arith);
    }
}

/// The record stored for address `a`, or the default when none is.
pub open spec fn data_of(s: Seq<DepositEntry>, a: Seq<char>) -> DepositData
    decreases s.len(),
{
    if s.len() == 0 {
        default_deposit()
    } else if s.last().addr@ == a {
        s.last().data
    } else {
        data_of(s.drop_last(), a)
    }
}

pub open spec fn has_addr(s: Seq<DepositEntry>, a: Seq<char>) -> bool {
    exists|i: int| 0 <= i < s.len() && s[i].addr@ == a
}

pub open spec fn unique_addrs(s: Seq<DepositEntry>) -> bool {
    forall|i: int, j: int| 0 <= i < j < s.len() ==> s[i].addr@ != s[j].addr@
}

/// The stored record of the entry at a known index is what `data_of`
/// denotes.
proof fn lemma_data_of_found(s: Seq<DepositEntry>, i: int, a: Seq<char>)
    requires
        unique_addrs(s),
        0 <= i < s.len(),
        s[i].addr@ == a,
    ensures
        data_of(s, a) == s[i].data,
        has_addr(s, a),
    decreases s.len(),
{
    if i == s.len() - 1 {
    } else {
        assert(s.drop_last()[i] == s[i]);
        lemma_data_of_found(s.drop_last(), i, a);
    }
}

/// Where no entry matches, `data_of` denotes the default record.
proof fn lemma_data_of_absent(s: Seq<DepositEntry>, a: Seq<char>)
    requires
        forall|j: int| 0 <= j < s.len() ==> s[j].addr@ != a,
    ensures
        data_of(s, a) == default_deposit(),
        !has_addr(s, a),
    decreases s.len(),
{
    if s.len() > 0 {
        assert(forall|j: int|
            0 <= j < s.drop_last().len() ==> s.drop_last()[j] == s[j]);
        lemma_data_of_absent(s.drop_last(), a);
    }
}

/// Replacing the entry at `i` by one whose address occurs nowhere else
/// rewrites the new address's record, erases the old one's (unless they
/// coincide), leaves every other address alone, and shifts the share sum
/// by the entries' difference.
proof fn lemma_replace(s: Seq<DepositEntry>, i: int, e: DepositEntry, g_rpt: u128)
    requires
        unique_addrs(s),
        0 <= i < s.len(),
        forall|j: int| 0 <= j < s.len() && j != i ==> s[j].addr@ != e.addr@,
    ensures
        unique_addrs(s.update(i, e)),
        data_of(s.update(i, e), e.addr@) == e.data,
        has_addr(s.update(i, e), e.addr@),
        s[i].addr@ != e.addr@ ==> data_of(s.update(i, e), s[i].addr@) == default_deposit(),
        forall|a: Seq<char>|
            a != e.addr@ && a != s[i].addr@ ==> data_of(s.update(i, e), a) == data_of(s, a),
        sum_shares(s.update(i, e)) == sum_shares(s) - s[i].data.deposited_nlpn
            + e.data.deposited_nlpn,
        sum_rewards(s.update(i, e), g_rpt) == sum_rewards(s, g_rpt) - spec_reward(
            s[i].data,
            g_rpt,
        ) + spec_reward(e.data, g_rpt),
    decreases s.len(),
{
    let t = s.update(i, e);
    assert(unique_addrs(t)) by {
        assert(forall|k: int| 0 <= k < s.len() && k != i ==> t[k].addr@ == s[k].addr@);
        assert(t[i] == e);
    }
    lemma_data_of_found(t, i, e.addr@);
    if s[i].addr@ != e.addr@ {
        assert(forall|j: int| 0 <= j < t.len() ==> t[j].addr@ != s[i].addr@);
        lemma_data_of_absent(t, s[i].addr@);
    }
    if i == s.len() - 1 {
        assert(t.drop_last() =~= s.drop_last());
        assert forall|a: Seq<char>| a != e.addr@ && a != s[i].addr@ implies data_of(t, a)
            == data_of(s, a) by {
            assert(t.last() == e);
            assert(s.last() == s[i]);
            assert(data_of(t, a) == data_of(t.drop_last(), a));
            assert(data_of(s, a) == data_of(s.drop_last(), a));
        }
    } else {
        assert(t.drop_last() =~= s.drop_last().update(i, e));
        assert(s.drop_last()[i] == s[i]);
        assert(forall|j: int|
            0 <= j < s.drop_last().len() && j != i ==> s.drop_last()[j] == s[j]);
        lemma_replace(s.drop_last(), i, e, g_rpt);
        assert(t.last() == s.last());
        assert forall|a: Seq<char>| a != e.addr@ && a != s[i].addr@ implies data_of(t, a)
            == data_of(s, a) by {
            if s.last().addr@ == a {
            } else {
                assert(data_of(t, a) == data_of(t.drop_last(), a));
                assert(data_of(t.drop_last(), a) == data_of(s.drop_last(), a));
            }
        }
    }
}

/// The share sum is never negative.
proof fn lemma_sum_nonneg(s: Seq<DepositEntry>)
    ensures
        sum_shares(s) >= 0,
    decreases s.len(),
{
    if s.len() > 0 {
        lemma_sum_nonneg(s.drop_last());
    }
}

/// No single lender holds more shares than the sum.
proof fn lemma_sum_lower(s: Seq<DepositEntry>, i: int)
    requires
        0 <= i < s.len(),
    ensures
        sum_shares(s) >= s[i].data.deposited_nlpn,
    decreases s.len(),
{
    if i == s.len() - 1 {
        lemma_sum_nonneg(s.drop_last());
    } else {
        assert(s.drop_last()[i] == s[i]);
        lemma_sum_lower(s.drop_last(), i);
    }
}

/// Appending an entry under a fresh address adds exactly that record.
proof fn lemma_push(s: Seq<DepositEntry>, e: DepositEntry, g_rpt: u128)
    requires
        unique_addrs(s),
        forall|j: int| 0 <= j < s.len() ==> s[j].addr@ != e.addr@,
    ensures
        unique_addrs(s.push(e)),
        data_of(s.push(e), e.addr@) == e.data,
        has_addr(s.push(e), e.addr@),
        forall|a: Seq<char>| a != e.addr@ ==> data_of(s.push(e), a) == data_of(s, a),
        sum_shares(s.push(e)) == sum_shares(s) + e.data.deposited_nlpn,
        sum_rewards(s.push(e), g_rpt) == sum_rewards(s, g_rpt) + spec_reward(e.data, g_rpt),
{
    let t = s.push(e);
    assert(t.drop_last() =~= s);
    assert(forall|k: int| 0 <= k < s.len() ==> t[k] == s[k]);
    assert(t[s.len() as int] == e);
}

/// Dropping the last entry removes exactly its address's record.
proof fn lemma_pop(s: Seq<DepositEntry>, g_rpt: u128)
    requires
        unique_addrs(s),
        s.len() > 0,
    ensures
        unique_addrs(s.drop_last()),
        data_of(s.drop_last(), s.last().addr@) == default_deposit(),
        forall|a: Seq<char>| a != s.last().addr@ ==> data_of(s.drop_last(), a) == data_of(s, a),
        sum_shares(s.drop_last()) == sum_shares(s) - s.last().data.deposited_nlpn,
        sum_rewards(s.drop_last(), g_rpt) == sum_rewards(s, g_rpt) - spec_reward(
            s.last().data,
            g_rpt,
        ),
{
    assert(forall|j: int| 0 <= j < s.drop_last().len() ==> s.drop_last()[j] == s[j]);
    lemma_data_of_absent(s.drop_last(), s.last().addr@);
}

/// Reward fairness.
///
/// Two lenders who deposit equal shares before a distribution receive
/// equal rewards from it: a record settled at accumulator value `g0`
/// accrues exactly `(g1 - g0) * shares` scaled units as the accumulator
/// grows to `g1`, a function of the shares and the growth alone.  A lender
/// who deposits only after the distribution — whose checkpoint is already
/// `g1` — receives none of it.
pub proof fn lemma_reward_fairness(shares: u128, pending: u128, g0: u128, g1: u128)
    requires
        g0 <= g1,
    ensures
        spec_reward(
            DepositData {
                deposited_nlpn: shares,
                reward_per_token: g0,
                pending_rewards: pending,
            },
            g1,
        ) == pending + (g1 - g0) * shares,
        spec_reward(
            DepositData { deposited_nlpn: shares, reward_per_token: g1, pending_rewards: 0 },
            g1,
        ) == 0,
{
    assert((g1 - g1) * shares == 0) by (nonlinear_arith);
}

/// The deposit registry: every lender's record plus the globals, mutated
/// in lockstep.
#[derive(Clone, Debug, PartialEq, Eq)]
pub struct Deposits {
    entries: Vec<DepositEntry>,
    globals: DepositsGlobals,
    nls_ticker: String,
}

impl Deposits {
    pub closed spec fn spec_entries(&self) -> Seq<DepositEntry> {
        self.entries@
    }

    pub closed spec fn spec_globals(&self) -> DepositsGlobals {
        self.globals
    }

    pub closed spec fn spec_nls_ticker(&self) -> Seq<char> {
        self.nls_ticker@
    }

    /// The record held for address `a`; the default record when none is.
    pub open spec fn spec_data_of(&self, a: Seq<char>) -> DepositData {
        data_of(self.spec_entries(), a)
    }

    pub open spec fn spec_contains(&self, a: Seq<char>) -> bool {
        has_addr(self.spec_entries(), a)
    }

    /// Well-formedness: addresses are unique, every record holds at least
    /// one share, the global share balance is the sum of all lenders'
    /// shares, no lender's checkpoint is ahead of the accumulator, and the
    /// reward pot is solvent — it covers every reward owed.
    pub open spec fn wf(&self) -> bool {
        &&& unique_addrs(self.spec_entries())
        &&& forall|i: int|
            0 <= i < self.spec_entries().len() ==> (#[trigger] self.spec_entries()[i]).data
                .deposited_nlpn > 0
        &&& self.spec_globals().balance_nlpn == sum_shares(self.spec_entries())
        &&& checkpoints_bounded(self.spec_entries(), self.spec_globals().reward_per_token)
        &&& self.spec_globals().balance_nls * REWARD_SCALE >= sum_rewards(
            self.spec_entries(),
            self.spec_globals().reward_per_token,
        )
    }

    pub fn new(nls_ticker: String) -> (r: Deposits)
        ensures
            r.wf(),
            r.spec_entries().len() == 0,
            r.spec_globals() == (DepositsGlobals {
                balance_nlpn: 0,
                balance_nls: 0,
                reward_per_token: 0,
            }),
            r.spec_nls_ticker() == nls_ticker@,
    {
        Deposits {
            entries: Vec::new(),
            globals: DepositsGlobals { balance_nlpn: 0, balance_nls: 0, reward_per_token: 0 },
            nls_ticker,
        }
    }

    fn find_index(&self, addr: &String) -> (r: Option<usize>)
        ensures
            (match r {
                Some(i) => i < self.spec_entries().len() && self.spec_entries()[i as int].addr@
                    == addr@,
                None => forall|j: int|
                    0 <= j < self.spec_entries().len() ==> self.spec_entries()[j].addr@ != addr@,
            }),
    {
        let mut k: usize = 0;
        while k < self.entries.len()
            invariant
                k <= self.entries@.len(),
                forall|j: int| 0 <= j < k ==> self.entries@[j].addr@ != addr@,
            decreases self.entries@.len() - k,
        {
            if self.entries[k].addr == *addr {
                return Some(k);
            }
            k = k + 1;
        }
        None
    }

    /// The reward currency's ticker.
    pub fn nls_ticker(&self) -> (r: &String)
        ensures
            r@ == self.spec_nls_ticker(),
    {
        &self.nls_ticker
    }

    /// The sum of all lenders' shares.
    pub fn balance_nlpn(&self) -> (r: u128)
        ensures
            r == self.spec_globals().balance_nlpn,
    {
        self.globals.balance_nlpn
    }

    /// Reward funds received and not yet paid out.
    pub fn balance_nls(&self) -> (r: u128)
        ensures
            r == self.spec_globals().balance_nls,
    {
        self.globals.balance_nls
    }

    /// One lender's share balance; none when the lender never deposited.
    pub fn query_balance_nlpn(&self, addr: &String) -> (r: Option<u128>)
        requires
            self.wf(),
        ensures
            (match r {
                Some(b) => self.spec_contains(addr@) && b == self.spec_data_of(
                    addr@,
                ).deposited_nlpn,
                None => !self.spec_contains(addr@),
            }),
    {
        match self.find_index(addr) {
            Some(i) => {
                proof {
                    lemma_data_of_found(self.spec_entries(), i as int, addr@);
                }
                Some(self.entries[i].data.deposited_nlpn)
            },
            None => {
                proof {
                    lemma_data_of_absent(self.spec_entries(), addr@);
                }
                None
            },
        }
    }

    /// A lender's record settled against the current accumulator: the
    /// growth since the lender's checkpoint, at the lender's old share
    /// count, moves into the settled pot and the checkpoint catches up.
    fn settled(d: &DepositData, g_rpt: u128) -> (r: Result<DepositData, ContractError>)
        requires
            d.reward_per_token <= g_rpt,
        ensures
            (match r {
                Ok(n) => spec_reward(*d, g_rpt) <= u128::MAX && n == (DepositData {
                    deposited_nlpn: d.deposited_nlpn,
                    reward_per_token: g_rpt,
                    pending_rewards: spec_reward(*d, g_rpt) as u128,
                }),
                Err(e) => e == ContractError::Overflow && spec_reward(*d, g_rpt) > u128::MAX,
            }),
    {
        let growth = g_rpt - d.reward_per_token;
        match growth.checked_mul(d.deposited_nlpn) {
            Some(part) => match d.pending_rewards.checked_add(part) {
                Some(pending) => Ok(
                    DepositData {
                        deposited_nlpn: d.deposited_nlpn,
                        reward_per_token: g_rpt,
                        pending_rewards: pending,
                    },
                ),
                None => Err(ContractError::Overflow),
            },
            None => Err(ContractError::Overflow),
        }
    }

    /// Credits a lender with the shares `amount_lpn` buys at `price`.
    ///
    /// The lender's pending reward is settled against the accumulator at
    /// the old share count first — order matters: the new shares must not
    /// take part in distributions that preceded them.  A deposit of
    /// nothing, or of too little to mint a single share, is rejected: no
    /// zero-share record is ever created.
    pub fn deposit(&mut self, addr: &String, amount_lpn: u128, price: &Price) -> (r: Result<
        (),
        ContractError,
    >)
        requires
            old(self).wf(),
            price.amount > 0,
            price.amount_quote > 0,
        ensures
            (match r {
                Ok(()) => {
                    let minted = spec_deposit_shares(amount_lpn, *price);
                    let g = old(self).spec_globals();
                    let d = old(self).spec_data_of(addr@);
                    &&& final(self).wf()
                    &&& final(self).spec_data_of(addr@) == (DepositData {
                        deposited_nlpn: (d.deposited_nlpn + minted) as u128,
                        reward_per_token: g.reward_per_token,
                        pending_rewards: spec_reward(d, g.reward_per_token) as u128,
                    })
                    &&& forall|a: Seq<char>|
                        a != addr@ ==> final(self).spec_data_of(a) == old(self).spec_data_of(a)
                    &&& final(self).spec_globals() == (DepositsGlobals {
                        balance_nlpn: (g.balance_nlpn + minted) as u128,
                        ..g
                    })
                    &&& final(self).spec_nls_ticker() == old(self).spec_nls_ticker()
                    &&& final(self).spec_contains(addr@)
                    &&& amount_lpn > 0
                    &&& minted > 0
                    &&& amount_lpn * price.amount <= u128::MAX
                    &&& spec_reward(d, g.reward_per_token) <= u128::MAX
                    &&& d.deposited_nlpn + minted <= u128::MAX
                    &&& g.balance_nlpn + minted <= u128::MAX
                },
                Err(e) => {
                    let minted = spec_deposit_shares(amount_lpn, *price);
                    let g = old(self).spec_globals();
                    let d = old(self).spec_data_of(addr@);
                    &&& *final(self) == *old(self)
                    &&& (if amount_lpn == 0 {
                        e == ContractError::ZeroDepositFunds
                    } else if amount_lpn * price.amount > u128::MAX {
                        e == ContractError::Overflow
                    } else if minted == 0 {
                        e == ContractError::ZeroDepositFunds
                    } else {
                        e == ContractError::Overflow && (spec_reward(d, g.reward_per_token)
                            > u128::MAX || d.deposited_nlpn + minted > u128::MAX
                            || g.balance_nlpn + minted > u128::MAX)
                    })
                },
            }),
    {
        if amount_lpn == 0 {
            return Err(ContractError::ZeroDepositFunds);
        }
        let minted = match crate::finance::mul_div(amount_lpn, price.amount, price.amount_quote) {
            Some(v) => v,
            None => { return Err(ContractError::Overflow) },
        };
        if minted == 0 {
            // Too little to buy a single share: taking the funds would
            // leave a zero-share record and swallow them.
            return Err(ContractError::ZeroDepositFunds);
        }
        match self.find_index(addr) {
            Some(i) => {
                proof {
                    lemma_data_of_found(self.spec_entries(), i as int, addr@);
                }
                let d = self.entries[i].data;
                let settled_data = match Self::settled(&d, self.globals.reward_per_token) {
                    Ok(v) => v,
                    Err(e) => { return Err(e) },
                };
                let new_shares = match settled_data.deposited_nlpn.checked_add(minted) {
                    Some(v) => v,
                    None => { return Err(ContractError::Overflow) },
                };
                let new_balance = match self.globals.balance_nlpn.checked_add(minted) {
                    Some(v) => v,
                    None => { return Err(ContractError::Overflow) },
                };
                let entry = DepositEntry {
                    addr: self.entries[i].addr.clone(),
                    data: DepositData { deposited_nlpn: new_shares, ..settled_data },
                };
                proof {
                    lemma_replace(self.spec_entries(), i as int, entry,
                        self.globals.reward_per_token);
                    assert((self.globals.reward_per_token - self.globals.reward_per_token)
                        * entry.data.deposited_nlpn == 0) by (nonlinear_arith);
                }
                self.entries.set(i, entry);
                self.globals.balance_nlpn = new_balance;
                Ok(())
            },
            None => {
                proof {
                    lemma_data_of_absent(self.spec_entries(), addr@);
                }
                let new_balance = match self.globals.balance_nlpn.checked_add(minted) {
                    Some(v) => v,
                    None => { return Err(ContractError::Overflow) },
                };
                let entry = DepositEntry {
                    addr: addr.clone(),
                    data: DepositData {
                        deposited_nlpn: minted,
                        reward_per_token: self.globals.reward_per_token,
                        pending_rewards: 0,
                    },
                };
                proof {
                    lemma_push(self.spec_entries(), entry, self.globals.reward_per_token);
                    assert(spec_reward(default_deposit(), self.globals.reward_per_token) == 0)
                        by (nonlinear_arith);
                    assert((self.globals.reward_per_token - self.globals.reward_per_token)
                        * entry.data.deposited_nlpn == 0) by (nonlinear_arith);
                }
                self.entries.push(entry);
                self.globals.balance_nlpn = new_balance;
                Ok(())
            },
        }
    }

    /// Redeems `amount_nlpn` of a lender's shares.
    ///
    /// Rewards are settled first; when the last share leaves, the lender's
    /// settled reward is paid out at once, the record is pruned, and the
    /// payout instruction is handed back.  Asking for more than the lender
    /// holds fails without any state change.
    pub fn withdraw(&mut self, addr: &String, amount_nlpn: u128) -> (r: Result<
        Option<BankMsg>,
        ContractError,
    >)
        requires
            old(self).wf(),
        ensures
            (match r {
                Ok(payout) => {
                    let g = old(self).spec_globals();
                    let d = old(self).spec_data_of(addr@);
                    let settled_pending = spec_reward(d, g.reward_per_token);
                    &&& final(self).wf()
                    &&& amount_nlpn <= d.deposited_nlpn
                    &&& (old(self).spec_contains(addr@) ==> settled_pending <= u128::MAX)
                    &&& forall|a: Seq<char>|
                        a != addr@ ==> final(self).spec_data_of(a) == old(self).spec_data_of(a)
                    &&& final(self).spec_nls_ticker() == old(self).spec_nls_ticker()
                    &&& (match payout {
                        Some(msg) => {
                            &&& old(self).spec_contains(addr@)
                            &&& d.deposited_nlpn == amount_nlpn
                            &&& msg.to_address@ == addr@
                            &&& msg.amount.ticker@ == old(self).spec_nls_ticker()
                            &&& msg.amount.amount == settled_pending / (REWARD_SCALE as int)
                            &&& !final(self).spec_contains(addr@)
                            &&& final(self).spec_data_of(addr@) == default_deposit()
                            &&& final(self).spec_globals() == (DepositsGlobals {
                                balance_nlpn: (g.balance_nlpn - amount_nlpn) as u128,
                                balance_nls: (g.balance_nls - msg.amount.amount) as u128,
                                reward_per_token: g.reward_per_token,
                            })
                        },
                        None => {
                            &&& (if old(self).spec_contains(addr@) {
                                &&& amount_nlpn < d.deposited_nlpn
                                &&& final(self).spec_data_of(addr@) == (DepositData {
                                    deposited_nlpn: (d.deposited_nlpn - amount_nlpn) as u128,
                                    reward_per_token: g.reward_per_token,
                                    pending_rewards: settled_pending as u128,
                                })
                                &&& final(self).spec_globals() == (DepositsGlobals {
                                    balance_nlpn: (g.balance_nlpn - amount_nlpn) as u128,
                                    ..g
                                })
                            } else {
                                amount_nlpn == 0 && *final(self) == *old(self)
                            })
                        },
                    })
                },
                Err(e) => {
                    let g = old(self).spec_globals();
                    let d = old(self).spec_data_of(addr@);
                    let settled_pending = spec_reward(d, g.reward_per_token);
                    &&& *final(self) == *old(self)
                    &&& (if amount_nlpn > d.deposited_nlpn {
                        e == ContractError::InsufficientBalance
                    } else {
                        e == ContractError::Overflow && settled_pending > u128::MAX
                    })
                },
            }),
    {
        let i = match self.find_index(addr) {
            Some(i) => i,
            None => {
                proof {
                    lemma_data_of_absent(self.spec_entries(), addr@);
                }
                if amount_nlpn == 0 {
                    return Ok(None);
                } else {
                    return Err(ContractError::InsufficientBalance);
                }
            },
        };
        proof {
            lemma_data_of_found(self.spec_entries(), i as int, addr@);
            lemma_sum_lower(self.spec_entries(), i as int);
        }
        let d = self.entries[i].data;
        if amount_nlpn > d.deposited_nlpn {
            return Err(ContractError::InsufficientBalance);
        }
        let settled_data = match Self::settled(&d, self.globals.reward_per_token) {
            Ok(v) => v,
            Err(e) => { return Err(e) },
        };
        let new_shares = settled_data.deposited_nlpn - amount_nlpn;
        let new_balance_nlpn = self.globals.balance_nlpn - amount_nlpn;
        if new_shares == 0 {
            let reward = settled_data.pending_rewards / REWARD_SCALE;
            proof {
                // The pot covers this lender's reward, so the payout never
                // underflows it.
                let g = self.globals.reward_per_token;
                let s = self.spec_entries();
                let owed = spec_reward(d, g);
                lemma_sum_rewards_lower(s, i as int, g);
                vstd::arithmetic::div_mod::lemma_fundamental_div_mod(owed, REWARD_SCALE as int);
                vstd::arithmetic::div_mod::lemma_mod_pos_bound(owed, REWARD_SCALE as int);
                assert(reward * REWARD_SCALE <= owed);
                assert(reward <= self.globals.balance_nls);
                lemma_pop(s, g);
                if i as int != s.len() - 1 {
                    assert(forall|j: int|
                        0 <= j < s.drop_last().len() && j != i as int ==> s.drop_last()[j]
                            == s[j]);
                    lemma_replace(s.drop_last(), i as int, s.last(), g);
                    assert(s.update(i as int, s.last()).drop_last() =~= s.drop_last().update(
                        i as int,
                        s.last(),
                    ));
                } else {
                    assert(s.update(i as int, s.last()).drop_last() =~= s.drop_last());
                }
            }
            let new_balance_nls = self.globals.balance_nls - reward;
            let removed = self.entries.swap_remove(i);
            self.globals.balance_nlpn = new_balance_nlpn;
            self.globals.balance_nls = new_balance_nls;
            Ok(
                Some(
                    BankMsg {
                        to_address: removed.addr,
                        amount: Coin { ticker: self.nls_ticker.clone(), amount: reward },
                    },
                ),
            )
        } else {
            let entry = DepositEntry {
                addr: self.entries[i].addr.clone(),
                data: DepositData { deposited_nlpn: new_shares, ..settled_data },
            };
            proof {
                lemma_replace(self.spec_entries(), i as int, entry,
                    self.globals.reward_per_token);
                assert((self.globals.reward_per_token - self.globals.reward_per_token)
                    * entry.data.deposited_nlpn == 0) by (nonlinear_arith);
                assert((self.globals.reward_per_token - self.globals.reward_per_token)
                    * d.deposited_nlpn == 0) by (nonlinear_arith);
            }
            self.entries.set(i, entry);
            self.globals.balance_nlpn = new_balance_nlpn;
            Ok(None)
        }
    }

    /// Spreads newly received reward funds over the current shareholders by
    /// raising the accumulator by `amount / total shares`, in scaled units.
    ///
    /// A distribution while no shares are outstanding is rejected: there is
    /// nobody to own it, and accepting it would strand the funds.
    pub fn distribute_rewards(&mut self, amount_nls: u128) -> (r: Result<(), ContractError>)
        requires
            old(self).wf(),
        ensures
            (match r {
                Ok(()) => {
                    let g = old(self).spec_globals();
                    &&& final(self).wf()
                    &&& old(self).spec_globals().balance_nlpn > 0
                    &&& amount_nls * REWARD_SCALE <= u128::MAX
                    &&& g.reward_per_token + amount_nls * REWARD_SCALE / (g.balance_nlpn as int)
                        <= u128::MAX
                    &&& g.balance_nls + amount_nls <= u128::MAX
                    &&& final(self).spec_entries() == old(self).spec_entries()
                    &&& final(self).spec_nls_ticker() == old(self).spec_nls_ticker()
                    &&& final(self).spec_globals() == (DepositsGlobals {
                        balance_nlpn: g.balance_nlpn,
                        balance_nls: (g.balance_nls + amount_nls) as u128,
                        reward_per_token: (g.reward_per_token + amount_nls * REWARD_SCALE / (
                        g.balance_nlpn as int)) as u128,
                    })
                },
                Err(e) => {
                    let g = old(self).spec_globals();
                    &&& *final(self) == *old(self)
                    &&& (if g.balance_nlpn == 0 {
                        e == ContractError::NoDeposit
                    } else {
                        e == ContractError::Overflow && (amount_nls * REWARD_SCALE > u128::MAX
                            || g.reward_per_token + amount_nls * REWARD_SCALE / (
                        g.balance_nlpn as int) > u128::MAX || g.balance_nls + amount_nls
                            > u128::MAX)
                    })
                },
            }),
    {
        if self.globals.balance_nlpn == 0 {
            return Err(ContractError::NoDeposit);
        }
        let delta = match crate::finance::mul_div(
            amount_nls,
            REWARD_SCALE,
            self.globals.balance_nlpn,
        ) {
            Some(v) => v,
            None => { return Err(ContractError::Overflow) },
        };
        let new_rpt = match self.globals.reward_per_token.checked_add(delta) {
            Some(v) => v,
            None => { return Err(ContractError::Overflow) },
        };
        let new_nls = match self.globals.balance_nls.checked_add(amount_nls) {
            Some(v) => v,
            None => { return Err(ContractError::Overflow) },
        };
        proof {
            // The received funds cover the owed growth: the accumulator
            // rises by at most amount / shares per share.
            let s = self.spec_entries();
            let g0 = self.globals.reward_per_token;
            vstd::arithmetic::div_mod::lemma_div_pos_is_pos(
                amount_nls * REWARD_SCALE,
                self.globals.balance_nlpn as int,
            );
            lemma_sum_rewards_shift(s, g0, new_rpt);
            vstd::arithmetic::div_mod::lemma_fundamental_div_mod(
                amount_nls * REWARD_SCALE,
                self.globals.balance_nlpn as int,
            );
            vstd::arithmetic::div_mod::lemma_mod_pos_bound(
                amount_nls * REWARD_SCALE,
                self.globals.balance_nlpn as int,
            );
            assert((self.globals.balance_nlpn as int) * (delta as int) == (delta as int) * (
            self.globals.balance_nlpn as int)) by (nonlinear_arith);
            assert((delta as int) * sum_shares(s) <= amount_nls * REWARD_SCALE);
            assert((new_rpt - g0) * sum_shares(s) == (delta as int) * sum_shares(s));
        }
        self.globals.reward_per_token = new_rpt;
        self.globals.balance_nls = new_nls;
        Ok(())
    }

    /// A lender's claimable reward in whole units, without touching state.
    pub fn query_rewards(&self, addr: &String) -> (r: Result<u128, ContractError>)
        requires
            self.wf(),
        ensures
            (match r {
                Ok(v) => self.spec_contains(addr@) && v == spec_reward(
                    self.spec_data_of(addr@),
                    self.spec_globals().reward_per_token,
                ) / (REWARD_SCALE as int),
                Err(e) => (if !self.spec_contains(addr@) {
                    e == ContractError::NoDeposit
                } else {
                    e == ContractError::Overflow && spec_reward(
                        self.spec_data_of(addr@),
                        self.spec_globals().reward_per_token,
                    ) > u128::MAX
                }),
            }),
    {
        let i = match self.find_index(addr) {
            Some(i) => i,
            None => {
                proof {
                    lemma_data_of_absent(self.spec_entries(), addr@);
                }
                return Err(ContractError::NoDeposit);
            },
        };
        proof {
            lemma_data_of_found(self.spec_entries(), i as int, addr@);
        }
        let d = self.entries[i].data;
        match Self::settled(&d, self.globals.reward_per_token) {
            Ok(s) => Ok(s.pending_rewards / REWARD_SCALE),
            Err(e) => Err(e),
        }
    }

    /// Pays out a lender's whole pending reward, leaving the shares
    /// untouched; the scaled fraction below one unit stays pending.
    /// Returns the paid amount, which may be zero.
    pub fn claim_rewards(&mut self, addr: &String) -> (r: Result<u128, ContractError>)
        requires
            old(self).wf(),
        ensures
            (match r {
                Ok(v) => {
                    let g = old(self).spec_globals();
                    let d = old(self).spec_data_of(addr@);
                    let settled_pending = spec_reward(d, g.reward_per_token);
                    &&& final(self).wf()
                    &&& old(self).spec_contains(addr@)
                    &&& settled_pending <= u128::MAX
                    &&& v == settled_pending / (REWARD_SCALE as int)
                    &&& final(self).spec_data_of(addr@) == (DepositData {
                        deposited_nlpn: d.deposited_nlpn,
                        reward_per_token: g.reward_per_token,
                        pending_rewards: (settled_pending % (REWARD_SCALE as int)) as u128,
                    })
                    &&& forall|a: Seq<char>|
                        a != addr@ ==> final(self).spec_data_of(a) == old(self).spec_data_of(a)
                    &&& final(self).spec_globals() == (DepositsGlobals {
                        balance_nls: (g.balance_nls - v) as u128,
                        ..g
                    })
                    &&& final(self).spec_nls_ticker() == old(self).spec_nls_ticker()
                },
                Err(e) => {
                    let g = old(self).spec_globals();
                    let d = old(self).spec_data_of(addr@);
                    let settled_pending = spec_reward(d, g.reward_per_token);
                    &&& *final(self) == *old(self)
                    &&& (if !old(self).spec_contains(addr@) {
                        e == ContractError::NoDeposit
                    } else {
                        e == ContractError::Overflow && settled_pending > u128::MAX
                    })
                },
            }),
    {
        let i = match self.find_index(addr) {
            Some(i) => i,
            None => {
                proof {
                    lemma_data_of_absent(self.spec_entries(), addr@);
                }
                return Err(ContractError::NoDeposit);
            },
        };
        proof {
            lemma_data_of_found(self.spec_entries(), i as int, addr@);
        }
        let d = self.entries[i].data;
        let settled_data = match Self::settled(&d, self.globals.reward_per_token) {
            Ok(v) => v,
            Err(e) => { return Err(e) },
        };
        let reward = settled_data.pending_rewards / REWARD_SCALE;
        let remainder = settled_data.pending_rewards % REWARD_SCALE;
        proof {
            // The pot covers this lender's reward, so the payout never
            // underflows it.
            let g = self.globals.reward_per_token;
            let owed = spec_reward(d, g);
            lemma_sum_rewards_lower(self.spec_entries(), i as int, g);
            vstd::arithmetic::div_mod::lemma_fundamental_div_mod(owed, REWARD_SCALE as int);
            vstd::arithmetic::div_mod::lemma_mod_pos_bound(owed, REWARD_SCALE as int);
            assert(reward * REWARD_SCALE <= owed);
            assert(reward <= self.globals.balance_nls);
        }
        let new_balance_nls = self.globals.balance_nls - reward;
        let entry = DepositEntry {
            addr: self.entries[i].addr.clone(),
            data: DepositData { pending_rewards: remainder, ..settled_data },
        };
        proof {
            lemma_replace(self.spec_entries(), i as int, entry,
                self.globals.reward_per_token);
            assert((self.globals.reward_per_token - self.globals.reward_per_token)
                * entry.data.deposited_nlpn == 0) by (nonlinear_arith);
        }
        self.entries.set(i, entry);
        self.globals.balance_nls = new_balance_nls;
        Ok(reward)
    }

    /// The outbound transfer paying `amount` of the reward currency to
    /// `addr`.
    pub fn pay_nls(&self, addr: String, amount: u128) -> (r: BankMsg)
        ensures
            r.to_address@ == addr@,
            r.amount.ticker@ == self.spec_nls_ticker(),
            r.amount.amount == amount,
    {
        BankMsg {
            to_address: addr,
            amount: Coin { ticker: self.nls_ticker.clone(), amount },
        }
    }
}

} // verus!
