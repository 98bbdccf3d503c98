//! The fixed-point numeric core: currency-tagged amounts, permille
//! percentages, and the simple-interest formula shared by the per-loan and
//! the aggregate accrual paths.
//!
//! Amounts are plain 128-bit integers tagged with a currency ticker and
//! validated at the engine's boundary; all interior arithmetic is checked,
//! and an overflow surfaces as a fatal error instead of wrapping.

use vstd::prelude::*;

use crate::error::ContractError;

verus! {

/// Nanoseconds in the engine's interest year (365 days).
pub const NANOS_IN_YEAR: u64 = 31_536_000_000_000_000;

/// The denominator of the simple-interest formula:
/// permille units of a full hundred percent times the nanoseconds in a year.
pub const INTEREST_DENOM: u128 = 31_536_000_000_000_000_000;

/// Permille units that make a hundred percent.
pub const PERMILLE_UNITS: u32 = 1000;

/// A point in time, in nanoseconds since an arbitrary epoch.
pub type Timestamp = u64;

/// An amount of some currency, tagged with the currency's ticker.
///
/// The engine stores bare amounts internally (their currency is fixed by the
/// pool's configuration) and uses tagged coins where funds cross its
/// boundary, validating the ticker there.
#[derive(Clone, Debug, PartialEq, Eq)]
pub struct Coin {
    pub ticker: String,
    pub amount: u128,
}

impl Coin {
    pub fn new(ticker: String, amount: u128) -> (r: Coin)
        ensures
            r.ticker@ == ticker@,
            r.amount == amount,
    {
        Coin { ticker, amount }
    }
}

/// A percentage in permille units: `Percent { units: 1000 }` is 100%.
#[derive(Clone, Copy, Debug, PartialEq, Eq, Structural)]
pub struct Percent {
    pub units: u32,
}

impl Percent {
    pub fn from_permille(units: u32) -> (r: Percent)
        ensures
            r.units == units,
    {
        Percent { units }
    }

    pub fn from_percent(percent: u32) -> (r: Percent)
        requires
            percent * 10 <= u32::MAX,
        ensures
            r.units == percent * 10,
    {
        Percent { units: percent * 10 }
    }

    pub fn units(&self) -> (r: u32)
        ensures
            r == self.units,
    {
        self.units
    }

    /// This percentage of `amount`, rounded down; `None` on overflow.
    pub fn of(&self, amount: u128) -> (r: Option<u128>)
        ensures
            (match r {
                Some(v) => amount * self.units <= u128::MAX && v == amount * self.units
                    / (PERMILLE_UNITS as int),
                None => amount * self.units > u128::MAX,
            }),
    {
        mul_div(amount, self.units as u128, PERMILLE_UNITS as u128)
    }

    /// The ratio `numerator / denominator` as a permille percentage, rounded
    /// down; `None` when an intermediate product or the resulting unit count
    /// exceeds the machine's range.
    pub fn from_ratio(numerator: u128, denominator: u128) -> (r: Option<Percent>)
        requires
            denominator > 0,
        ensures
            (match r {
                Some(p) => numerator * PERMILLE_UNITS <= u128::MAX && numerator * PERMILLE_UNITS
                    / (denominator as int) <= u32::MAX && p.units == numerator * PERMILLE_UNITS
                    / (denominator as int),
                None => numerator * PERMILLE_UNITS > u128::MAX || numerator * PERMILLE_UNITS
                    / (denominator as int) > u32::MAX,
            }),
    {
        match mul_div(numerator, PERMILLE_UNITS as u128, denominator) {
            Some(units) => if units <= u32::MAX as u128 {
                Some(Percent { units: units as u32 })
            } else {
                None
            },
            None => None,
        }
    }

    pub fn checked_add(&self, other: &Percent) -> (r: Option<Percent>)
        ensures
            (match r {
                Some(p) => self.units + other.units <= u32::MAX && p.units == self.units
                    + other.units,
                None => self.units + other.units > u32::MAX,
            }),
    {
        match self.units.checked_add(other.units) {
            Some(units) => Some(Percent { units }),
            None => None,
        }
    }
}

/// `a * b / d` rounded down, or `None` when `a * b` exceeds the machine's
/// range.  The quotient itself always fits once the product does.
pub fn mul_div(a: u128, b: u128, d: u128) -> (r: Option<u128>)
    requires
        d > 0,
    ensures
        (match r {
            Some(v) => a * b <= u128::MAX && v == a * b / (d as int),
            None => a * b > u128::MAX,
        }),
{
    match a.checked_mul(b) {
        Some(product) => Some(product / d),
        None => None,
    }
}

/// `a * b * c / d` rounded down, or `None` when an intermediate product
/// exceeds the machine's range.
pub fn mul3_div(a: u128, b: u128, c: u128, d: u128) -> (r: Option<u128>)
    requires
        d > 0,
    ensures
        (match r {
            Some(v) => a * b <= u128::MAX && a * b * c <= u128::MAX && v == a * b * c
                / (d as int),
            None => a * b > u128::MAX || a * b * c > u128::MAX,
        }),
{
    match a.checked_mul(b) {
        Some(ab) => match ab.checked_mul(c) {
            Some(abc) => Some(abc / d),
            None => None,
        },
        None => None,
    }
}

/// An exact price of pool shares in the settlement currency, kept as the
/// ratio of two amounts: `amount` shares are worth `amount_quote` of the
/// settlement currency.  `amount` is never zero in a price the engine hands
/// out.
#[derive(Clone, Copy, Debug, PartialEq, Eq, Structural)]
pub struct Price {
    pub amount: u128,
    pub amount_quote: u128,
}

impl Price {
    /// The one-to-one price a fresh pool starts at.
    pub fn identity() -> (r: Price)
        ensures
            r.amount == 1,
            r.amount_quote == 1,
    {
        Price { amount: 1, amount_quote: 1 }
    }

    pub fn new(amount: u128, amount_quote: u128) -> (r: Price)
        ensures
            r.amount == amount,
            r.amount_quote == amount_quote,
    {
        Price { amount, amount_quote }
    }
}

/// The value of `of_shares` shares at `price`, rounded down.
pub open spec fn spec_price_total(of_shares: int, price: Price) -> int {
    of_shares * price.amount_quote / (price.amount as int)
}

/// The worth of `of_shares` shares at `price` in the settlement currency,
/// rounded down; `None` on overflow.
pub fn price_total(of_shares: u128, price: &Price) -> (r: Option<u128>)
    requires
        price.amount > 0,
    ensures
        (match r {
            Some(v) => of_shares * price.amount_quote <= u128::MAX && v == spec_price_total(
                of_shares as int, *price),
            None => of_shares * price.amount_quote > u128::MAX,
        }),
{
    mul_div(of_shares, price.amount_quote, price.amount)
}

/// The wall-clock time elapsed from `from` to `now`, zero when `now` lies
/// before the checkpoint.
pub open spec fn elapsed(from: Timestamp, now: Timestamp) -> int {
    if now >= from {
        now - from
    } else {
        0
    }
}

/// Simple interest over `dt_nanos` at `rate_units` permille per year on
/// `principal`, with a single rounding point.
pub open spec fn interest_for(principal: int, rate_units: int, dt_nanos: int) -> int {
    principal * rate_units * dt_nanos / (INTEREST_DENOM as int)
}

/// Accepts funds only as exactly one coin of the expected denomination and
/// hands back its bare amount; anything else is a currency mismatch.
pub fn received_one(funds: &Vec<Coin>, expected_ticker: &String) -> (r: Result<
    u128,
    ContractError,
>)
    ensures
        (match r {
            Ok(a) => funds@.len() == 1 && funds@[0].ticker@ == expected_ticker@ && a
                == funds@[0].amount,
            Err(e) => e == ContractError::CurrencyMismatch && !(funds@.len() == 1
                && funds@[0].ticker@ == expected_ticker@),
        }),
{
    if funds.len() == 1 {
        let coin = &funds[0];
        if coin.ticker == *expected_ticker {
            return Ok(coin.amount);
        }
    }
    Err(ContractError::CurrencyMismatch)
}

/// Hours of a schedule cadence as seconds.
pub fn to_seconds(cadence_hours: u32) -> (r: u64)
    ensures
        r == cadence_hours * 3600,
{
    cadence_hours as u64 * 60 * 60
}

} // verus!
