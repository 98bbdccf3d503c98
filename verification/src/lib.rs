//! A liquidity-pool accounting engine.
//!
//! The pool lends a settlement currency against continuously accruing simple
//! interest, keeps an aggregate of all open loans that answers "how much
//! interest is due now" in constant time, and prices lender deposits as pool
//! shares whose value never decreases while interest accrues.  A separate
//! accumulator distributes a secondary reward currency fairly over the
//! shareholders.
//!
//! All state lives in explicit records passed through each operation, every
//! accrual is computed from a stored checkpoint and a caller-supplied current
//! time, and every operation either commits in full or returns an error
//! without touching the state.

pub mod borrow;
pub mod config;
pub mod deposit;
pub mod error;
pub mod finance;
pub mod history;
pub mod loan;
pub mod lpp;
pub mod msg;
pub mod oracle;
pub mod rewards;
pub mod total;
