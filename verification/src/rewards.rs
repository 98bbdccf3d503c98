//! The reward entry points: distributing newly received reward funds over
//! the shareholders, claiming a lender's accumulated reward, and the
//! read-only views the dispatcher serves.

use vstd::prelude::*;

use crate::deposit::{spec_reward, Deposits, DepositsGlobals, REWARD_SCALE};
use crate::error::ContractError;
use crate::finance::{received_one, Coin, Timestamp};
use crate::lpp::LiquidityPool;
use crate::msg::{BankMsg, LppBalanceResponse, RewardsResponse};

verus! {

/// Takes the reward funds that arrived with the call — exactly one coin of
/// the reward denomination — and spreads them over the current
/// shareholders.
pub fn try_distribute_rewards(deposits: &mut Deposits, funds: Vec<Coin>) -> (r: Result<
    (),
    ContractError,
>)
    requires
        old(deposits).wf(),
    ensures
        (match r {
            Ok(()) => {
                let g = old(deposits).spec_globals();
                let amount = funds@[0].amount;
                &&& final(deposits).wf()
                &&& funds@.len() == 1 && funds@[0].ticker@ == old(deposits).spec_nls_ticker()
                &&& g.balance_nlpn > 0
                &&& final(deposits).spec_entries() == old(deposits).spec_entries()
                &&& final(deposits).spec_globals() == (DepositsGlobals {
                    balance_nlpn: g.balance_nlpn,
                    balance_nls: (g.balance_nls + amount) as u128,
                    reward_per_token: (g.reward_per_token + amount * REWARD_SCALE / (
                    g.balance_nlpn as int)) as u128,
                })
            },
            Err(e) => {
                &&& *final(deposits) == *old(deposits)
                &&& (if !(funds@.len() == 1 && funds@[0].ticker@ == old(
                    deposits,
                ).spec_nls_ticker()) {
                    e == ContractError::CurrencyMismatch
                } else if old(deposits).spec_globals().balance_nlpn == 0 {
                    e == ContractError::NoDeposit
                } else {
                    let g = old(deposits).spec_globals();
                    let amount = funds@[0].amount;
                    e == ContractError::Overflow && (amount * REWARD_SCALE > u128::MAX
                        || g.reward_per_token + amount * REWARD_SCALE / (
                    g.balance_nlpn as int) > u128::MAX || g.balance_nls + amount > u128::MAX)
                })
            },
        }),
{
    let amount = match received_one(&funds, deposits.nls_ticker()) {
        Ok(a) => a,
        Err(e) => { return Err(e) },
    };
    deposits.distribute_rewards(amount)
}

/// Pays a lender's whole accumulated reward out, to the lender or to a
/// named recipient.  A lender without a record, or without anything to
/// claim, is refused untouched.
pub fn try_claim_rewards(deposits: &mut Deposits, sender: &String,
    other_recipient: Option<String>) -> (r: Result<BankMsg, ContractError>)
    requires
        old(deposits).wf(),
    ensures
        (match r {
            Ok(msg) => {
                let g = old(deposits).spec_globals();
                let d = old(deposits).spec_data_of(sender@);
                let settled_pending = spec_reward(d, g.reward_per_token);
                &&& final(deposits).wf()
                &&& old(deposits).spec_contains(sender@)
                &&& msg.amount.amount == settled_pending / (REWARD_SCALE as int)
                &&& msg.amount.amount > 0
                &&& msg.amount.ticker@ == old(deposits).spec_nls_ticker()
                &&& msg.to_address@ == (match other_recipient {
                    Some(rec) => rec@,
                    None => sender@,
                })
                &&& final(deposits).spec_data_of(sender@).deposited_nlpn == d.deposited_nlpn
                &&& final(deposits).spec_data_of(sender@).pending_rewards == settled_pending % (
                REWARD_SCALE as int)
                &&& final(deposits).spec_globals() == (DepositsGlobals {
                    balance_nls: (g.balance_nls - msg.amount.amount) as u128,
                    ..g
                })
                &&& forall|a: Seq<char>|
                    a != sender@ ==> final(deposits).spec_data_of(a) == old(
                        deposits,
                    ).spec_data_of(a)
            },
            Err(e) => {
                let g = old(deposits).spec_globals();
                let d = old(deposits).spec_data_of(sender@);
                let settled_pending = spec_reward(d, g.reward_per_token);
                &&& *final(deposits) == *old(deposits)
                &&& (if !old(deposits).spec_contains(sender@) {
                    e == ContractError::NoDeposit
                } else if settled_pending > u128::MAX {
                    e == ContractError::Overflow
                } else {
                    e == ContractError::NoRewards && settled_pending / (REWARD_SCALE as int)
                        == 0
                })
            },
        }),
{
    let pending = match deposits.query_rewards(sender) {
        Ok(v) => v,
        Err(e) => { return Err(e) },
    };
    if pending == 0 {
        return Err(ContractError::NoRewards);
    }
    let reward = match deposits.claim_rewards(sender) {
        Ok(v) => v,
        Err(e) => { return Err(e) },
    };
    let recipient = match other_recipient {
        Some(rec) => rec,
        None => sender.clone(),
    };
    Ok(deposits.pay_nls(recipient, reward))
}

/// A lender's claimable reward, as a coin of the reward denomination.
pub fn query_rewards(deposits: &Deposits, addr: &String) -> (r: Result<
    RewardsResponse,
    ContractError,
>)
    requires
        deposits.wf(),
    ensures
        (match r {
            Ok(resp) => {
                &&& deposits.spec_contains(addr@)
                &&& resp.rewards.amount == spec_reward(
                    deposits.spec_data_of(addr@),
                    deposits.spec_globals().reward_per_token,
                ) / (REWARD_SCALE as int)
                &&& resp.rewards.ticker@ == deposits.spec_nls_ticker()
            },
            Err(e) => (if !deposits.spec_contains(addr@) {
                e == ContractError::NoDeposit
            } else {
                e == ContractError::Overflow && spec_reward(
                    deposits.spec_data_of(addr@),
                    deposits.spec_globals().reward_per_token,
                ) > u128::MAX
            }),
        }),
{
    let amount = match deposits.query_rewards(addr) {
        Ok(v) => v,
        Err(e) => { return Err(e) },
    };
    Ok(
        RewardsResponse {
            rewards: Coin { ticker: deposits.nls_ticker().clone(), amount },
        },
    )
}

/// The pool's balance sheet, shares outstanding included.
pub fn query_lpp_balance(pool: &LiquidityPool, deposits: &Deposits, balance: u128,
    now: Timestamp) -> (r: Result<LppBalanceResponse, ContractError>)
    ensures
        (match r {
            Ok(resp) => {
                &&& resp.balance.amount == balance
                &&& resp.total_principal_due.amount == pool.spec_total().total_principal_due
                &&& resp.total_interest_due.amount == pool.spec_total().spec_interest_due_by_now(
                    now,
                )
                &&& resp.balance.ticker@ == pool.spec_config().spec_lpn_ticker()
                &&& resp.total_principal_due.ticker@ == pool.spec_config().spec_lpn_ticker()
                &&& resp.total_interest_due.ticker@ == pool.spec_config().spec_lpn_ticker()
                &&& resp.balance_nlpn == deposits.spec_globals().balance_nlpn
            },
            Err(e) => e == ContractError::Overflow && !pool.spec_total().settle_fits(now),
        }),
{
    pool.query_lpp_balance(balance, now, deposits.balance_nlpn())
}

} // verus!
