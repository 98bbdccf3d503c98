//! The error taxonomy of the engine.
//!
//! Every operation returns its failure to the immediate caller as a typed
//! result; nothing is retried internally.  The variants fall in two classes:
//! caller or integration errors (wrong input, wrong currency, missing
//! record), and fatal programming errors (`Overflow`, `BrokenInvariant`)
//! that abort the operation rather than persist corrupted state.

use vstd::prelude::*;

verus! {

#[derive(Clone, Copy, Debug, PartialEq, Eq, Structural)]
pub enum ContractError {
    /// A quote or a withdrawal asks for more than the pool's balance holds.
    /// Expected and recoverable: the caller may retry with a smaller amount.
    NoLiquidity,
    /// A loan was requested for a principal of zero.
    ZeroLoanAmount,
    /// A repayment names a borrower that has no open loan.
    NoLoan,
    /// A loan was requested for a borrower that already has one open.
    LoanExists,
    /// A withdrawal asks for more shares than the lender holds.
    InsufficientBalance,
    /// A deposit arrived with no funds, or with too few to mint a single
    /// share.
    ZeroDepositFunds,
    /// A reward claim or query names a lender that has no deposit record,
    /// or rewards were distributed while no shares were outstanding.
    NoDeposit,
    /// A reward claim found nothing to pay out.
    NoRewards,
    /// Funds arrived in a different denomination than the one expected.
    CurrencyMismatch,
    /// A cross-contract identity check failed: the caller's code identifier
    /// differs from the loan code the pool was configured with.
    InvalidLeaseCode,
    /// An intermediate computation exceeded the machine's integer range.
    /// Fatal: a defect of the engine or of its configuration, never silently
    /// wrapped.
    Overflow,
    /// The aggregate and the per-loan records diverged.  Fatal: a defect of
    /// the engine, never silently repaired.
    BrokenInvariant,
}

pub type ContractResult<T> = Result<T, ContractError>;

} // verus!
