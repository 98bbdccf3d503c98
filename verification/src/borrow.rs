//! The interest-rate model: a curve from pool utilization to an annual
//! percentage rate.
//!
//! The rate rises linearly with utilization, scaled against a configured
//! optimal utilization target, so that liquidity pressure is priced in
//! without floating point: `rate = base + addon * utilization / optimal`,
//! with every division rounding down.

use vstd::prelude::*;

use crate::error::ContractError;
use crate::finance::{Percent, PERMILLE_UNITS};

verus! {

/// Pool utilization in permille: the liability (principal plus accrued
/// interest, past the quoted amount) against the whole pool value.  An
/// empty pool counts as unutilized.
pub open spec fn spec_utilization(liability: int, balance: int) -> int {
    if liability + balance == 0 {
        0
    } else {
        liability * (PERMILLE_UNITS as int) / (liability + balance)
    }
}

/// Parameters of the borrow-rate curve.  All three percentages lie within
/// zero and a hundred percent and the optimal utilization is strictly
/// between the two; `new` refuses anything else.
#[derive(Clone, Copy, Debug, PartialEq, Eq, Structural)]
pub struct InterestRate {
    pub base_interest_rate: Percent,
    pub utilization_optimal: Percent,
    pub addon_optimal_interest_rate: Percent,
}

impl InterestRate {
    /// The invariant every constructed curve satisfies.
    pub open spec fn valid(&self) -> bool {
        &&& self.base_interest_rate.units <= PERMILLE_UNITS
        &&& 0 < self.utilization_optimal.units < PERMILLE_UNITS
        &&& self.addon_optimal_interest_rate.units <= PERMILLE_UNITS
    }

    /// The annual rate quoted at the given liability and balance, in
    /// permille units.
    pub open spec fn spec_rate(&self, liability: int, balance: int) -> int {
        self.base_interest_rate.units + self.addon_optimal_interest_rate.units
            * spec_utilization(liability, balance) / (self.utilization_optimal.units as int)
    }

    pub fn new(base_interest_rate: Percent, utilization_optimal: Percent,
        addon_optimal_interest_rate: Percent) -> (r: Option<InterestRate>)
        ensures
            (match r {
                Some(rate) => rate.valid() && rate.base_interest_rate == base_interest_rate
                    && rate.utilization_optimal == utilization_optimal
                    && rate.addon_optimal_interest_rate == addon_optimal_interest_rate,
                None => !(InterestRate {
                    base_interest_rate,
                    utilization_optimal,
                    addon_optimal_interest_rate,
                }).valid(),
            }),
    {
        let rate = InterestRate { base_interest_rate, utilization_optimal,
            addon_optimal_interest_rate };
        if rate.validate() {
            Some(rate)
        } else {
            None
        }
    }

    fn validate(&self) -> (r: bool)
        ensures
            r == self.valid(),
    {
        self.base_interest_rate.units <= PERMILLE_UNITS && 0 < self.utilization_optimal.units
            && self.utilization_optimal.units < PERMILLE_UNITS
            && self.addon_optimal_interest_rate.units <= PERMILLE_UNITS
    }

    /// The annual rate for a pool whose liability past the quote is
    /// `total_liability` and whose remaining balance is `balance`.  The only
    /// failure is an intermediate overflow, a fatal error.
    pub fn calculate(&self, total_liability: u128, balance: u128) -> (r: Result<
        Percent,
        ContractError,
    >)
        requires
            self.valid(),
        ensures
            (match r {
                Ok(p) => total_liability + balance <= u128::MAX && total_liability
                    * PERMILLE_UNITS <= u128::MAX && p.units == self.spec_rate(
                    total_liability as int, balance as int),
                Err(e) => e == ContractError::Overflow && (total_liability + balance > u128::MAX
                    || total_liability * PERMILLE_UNITS > u128::MAX),
            }),
    {
        let total = match total_liability.checked_add(balance) {
            Some(t) => t,
            None => { return Err(ContractError::Overflow) },
        };
        proof {
            lemma_utilization_bounded(total_liability as int, balance as int);
        }
        let utilization: Percent = if total == 0 {
            Percent::from_permille(0)
        } else {
            match Percent::from_ratio(total_liability, total) {
                Some(u) => u,
                None => { return Err(ContractError::Overflow) },
            }
        };
        proof {
            assert(self.addon_optimal_interest_rate.units * utilization.units <= 1000 * 1000)
                by (nonlinear_arith)
                requires
                    self.addon_optimal_interest_rate.units <= 1000,
                    utilization.units <= 1000,
            ;
        }
        let addon_part: u64 = (self.addon_optimal_interest_rate.units as u64) * (
        utilization.units as u64) / (self.utilization_optimal.units as u64);
        proof {
            assert(addon_part <= 1000 * 1000) by {
                vstd::arithmetic::div_mod::lemma_div_is_ordered(
                    self.addon_optimal_interest_rate.units * utilization.units,
                    1000int * 1000,
                    self.utilization_optimal.units as int,
                );
                vstd::arithmetic::div_mod::lemma_div_nonincreasing(
                    1000int * 1000,
                    self.utilization_optimal.units as int,
                );
            }
        }
        let units: u64 = (self.base_interest_rate.units as u64) + addon_part;
        Ok(Percent::from_permille(units as u32))
    }
}

/// Utilization never exceeds a hundred percent.
pub proof fn lemma_utilization_bounded(liability: int, balance: int)
    requires
        liability >= 0,
        balance >= 0,
    ensures
        0 <= spec_utilization(liability, balance) <= PERMILLE_UNITS,
{
    if liability + balance != 0 {
        assert(liability * (PERMILLE_UNITS as int) <= (liability + balance) * (
        PERMILLE_UNITS as int)) by (nonlinear_arith)
            requires
                liability >= 0,
                balance >= 0,
        ;
        vstd::arithmetic::div_mod::lemma_div_is_ordered(
            liability * (PERMILLE_UNITS as int),
            (liability + balance) * (PERMILLE_UNITS as int),
            liability + balance,
        );
        vstd::arithmetic::div_mod::lemma_div_by_multiple(
            PERMILLE_UNITS as int,
            liability + balance,
        );
        vstd::arithmetic::div_mod::lemma_div_pos_is_pos(
            liability * (PERMILLE_UNITS as int),
            liability + balance,
        );
        assert(liability * (PERMILLE_UNITS as int) >= 0) by (nonlinear_arith)
            requires
                liability >= 0,
        ;
    }
}

} // verus!
