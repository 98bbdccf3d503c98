//! The logical shapes of the messages the engine accepts and hands out.
//! Their wire encoding is the dispatcher's concern, not the engine's.

use vstd::prelude::*;

use crate::borrow::InterestRate;
use crate::finance::{Coin, Percent, Price};
use crate::loan::LoanData;

verus! {

/// What a pool is created with.  A fresh pool starts without a registered
/// loan code.
#[derive(Clone, Debug, PartialEq, Eq)]
pub struct InstantiateMsg {
    pub lpn_ticker: String,
    pub lease_code_admin: String,
    pub borrow_rate: InterestRate,
}

/// The answer to a rate quote: a locked annual rate, or the normal
/// no-liquidity outcome.
#[derive(Clone, Copy, Debug, PartialEq, Eq, Structural)]
pub enum QueryQuoteResponse {
    QuoteInterestRate(Percent),
    NoLiquidity,
}

/// A lender's share balance.
#[derive(Clone, Copy, Debug, PartialEq, Eq, Structural)]
pub struct BalanceResponse {
    pub balance: u128,
}

/// The current price of one pool share in the settlement currency.
#[derive(Clone, Copy, Debug, PartialEq, Eq, Structural)]
pub struct PriceResponse(pub Price);

impl From<crate::lpp::NTokenPrice> for PriceResponse {
    fn from(nprice: crate::lpp::NTokenPrice) -> (r: PriceResponse) {
        PriceResponse(nprice.get())
    }
}

impl vstd::std_specs::convert::FromSpecImpl<crate::lpp::NTokenPrice> for PriceResponse {
    open spec fn obeys_from_spec() -> bool {
        true
    }

    open spec fn from_spec(nprice: crate::lpp::NTokenPrice) -> PriceResponse {
        PriceResponse(nprice.spec_price())
    }
}

/// The pool's balance sheet: bank balance, principal due, interest due,
/// and shares outstanding.
#[derive(Clone, Debug, PartialEq, Eq)]
pub struct LppBalanceResponse {
    pub balance: Coin,
    pub total_principal_due: Coin,
    pub total_interest_due: Coin,
    pub balance_nlpn: u128,
}

/// A lender's claimable reward.
#[derive(Clone, Debug, PartialEq, Eq)]
pub struct RewardsResponse {
    pub rewards: Coin,
}

/// One loan's state, as a query answers it.
pub type LoanResponse = LoanData;

pub type QueryLoanResponse = Option<LoanResponse>;

/// An outbound fund-transfer instruction for the surrounding dispatcher to
/// execute.
#[derive(Clone, Debug, PartialEq, Eq)]
pub struct BankMsg {
    pub to_address: String,
    pub amount: Coin,
}

} // verus!
