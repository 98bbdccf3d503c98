//! The pool's static parameters: the settlement currency's ticker, the
//! identifier of the loan code allowed to borrow, and the borrow-rate curve.
//!
//! Created once at pool instantiation; only the loan-code identifier and the
//! curve may change afterwards, through the administrative updates.

use vstd::prelude::*;

use crate::borrow::InterestRate;
use crate::error::ContractError;
use crate::finance::Price;
use crate::msg::InstantiateMsg;

verus! {

#[derive(Clone, Debug, PartialEq, Eq)]
pub struct Config {
    lpn_ticker: String,
    lease_code_id: u64,
    borrow_rate: InterestRate,
}

impl Config {
    /// A configuration is well formed when its curve is.
    pub open spec fn wf(&self) -> bool {
        self.spec_borrow_rate().valid()
    }

    pub closed spec fn spec_lpn_ticker(&self) -> Seq<char> {
        self.lpn_ticker@
    }

    pub closed spec fn spec_lease_code_id(&self) -> u64 {
        self.lease_code_id
    }

    pub closed spec fn spec_borrow_rate(&self) -> InterestRate {
        self.borrow_rate
    }

    pub fn new(lpn_ticker: String, lease_code_id: u64, borrow_rate: InterestRate) -> (r: Config)
        requires
            borrow_rate.valid(),
        ensures
            r.wf(),
            r.spec_lpn_ticker() == lpn_ticker@,
            r.spec_lease_code_id() == lease_code_id,
            r.spec_borrow_rate() == borrow_rate,
    {
        Config { lpn_ticker, lease_code_id, borrow_rate }
    }

    pub fn lpn_ticker(&self) -> (r: &String)
        ensures
            r@ == self.spec_lpn_ticker(),
    {
        &self.lpn_ticker
    }

    pub fn lease_code_id(&self) -> (r: u64)
        ensures
            r == self.spec_lease_code_id(),
    {
        self.lease_code_id
    }

    pub fn borrow_rate(&self) -> (r: &InterestRate)
        ensures
            *r == self.spec_borrow_rate(),
    {
        &self.borrow_rate
    }

    pub fn update_lease_code(&mut self, lease_code: u64)
        ensures
            final(self).spec_lease_code_id() == lease_code,
            final(self).spec_lpn_ticker() == old(self).spec_lpn_ticker(),
            final(self).spec_borrow_rate() == old(self).spec_borrow_rate(),
            old(self).wf() ==> final(self).wf(),
    {
        self.lease_code_id = lease_code;
    }

    pub fn update_borrow_rate(&mut self, borrow_rate: InterestRate)
        requires
            borrow_rate.valid(),
        ensures
            final(self).spec_borrow_rate() == borrow_rate,
            final(self).spec_lpn_ticker() == old(self).spec_lpn_ticker(),
            final(self).spec_lease_code_id() == old(self).spec_lease_code_id(),
            final(self).wf(),
    {
        self.borrow_rate = borrow_rate;
    }

    /// The cross-contract identity check: a caller is a lease of this pool
    /// exactly when the code identifier its address reports equals the one
    /// configured here.
    pub fn validate_lease_code(&self, code_id: u64) -> (r: Result<(), ContractError>)
        ensures
            (match r {
                Ok(()) => code_id == self.spec_lease_code_id(),
                Err(e) => e == ContractError::InvalidLeaseCode && code_id
                    != self.spec_lease_code_id(),
            }),
    {
        if code_id == self.lease_code_id {
            Ok(())
        } else {
            Err(ContractError::InvalidLeaseCode)
        }
    }

    /// The one-to-one price the pool's shares start at.
    pub fn initial_derivative_price() -> (r: Price)
        ensures
            r.amount == 1,
            r.amount_quote == 1,
    {
        Price::identity()
    }
}

impl From<InstantiateMsg> for Config {
    /// A fresh pool starts without a registered loan code: zero is a
    /// non-existing code identifier.
    fn from(msg: InstantiateMsg) -> (r: Config) {
        Config { lpn_ticker: msg.lpn_ticker, lease_code_id: 0, borrow_rate: msg.borrow_rate }
    }
}

impl vstd::std_specs::convert::FromSpecImpl<InstantiateMsg> for Config {
    open spec fn obeys_from_spec() -> bool {
        true
    }

    closed spec fn from_spec(msg: InstantiateMsg) -> Config {
        Config { lpn_ticker: msg.lpn_ticker, lease_code_id: 0, borrow_rate: msg.borrow_rate }
    }
}

/// What `Config::from` builds out of an instantiation message: the message's
/// ticker and curve, and no registered loan code yet.
pub proof fn lemma_config_from_msg(msg: InstantiateMsg)
    ensures
        ({
            let c = <Config as vstd::std_specs::convert::FromSpec<InstantiateMsg>>::from_spec(
                msg,
            );
            &&& c.spec_lpn_ticker() == msg.lpn_ticker@
            &&& c.spec_lease_code_id() == 0
            &&& c.spec_borrow_rate() == msg.borrow_rate
            &&& (msg.borrow_rate.valid() ==> c.wf())
        }),
{
}

} // verus!
