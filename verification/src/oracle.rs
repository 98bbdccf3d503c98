//! The market-oracle helpers the engine's surroundings rely on: how many
//! feeders a price round needs, and which fed prices are acceptable.
//!
//! A price names a base and a quote denomination with their amounts; a fed
//! price is kept only when its pair is among the supported ones and its
//! two denominations differ (ASCII case aside).

use vstd::prelude::*;
use vstd::utf8::encode_utf8;

verus! {

/// A denomination symbol with an amount of it.
#[derive(Clone, Debug, PartialEq, Eq)]
pub struct DenomInfo {
    pub symbol: String,
    pub amount: u128,
}

/// A pair of denomination symbols: base, then quote.
pub type DenomPair = (String, String);

/// One fed price: so much of the base is worth so much of the quote.
#[derive(Clone, Debug, PartialEq, Eq)]
pub struct PriceStorage {
    base: DenomInfo,
    quote: DenomInfo,
}

impl PriceStorage {
    pub closed spec fn spec_base(&self) -> DenomInfo {
        self.base
    }

    pub closed spec fn spec_quote(&self) -> DenomInfo {
        self.quote
    }

    pub fn new(base_symbol: String, base_amount: u128, quote_symbol: String,
        quote_amount: u128) -> (r: PriceStorage)
        ensures
            r.spec_base() == (DenomInfo { symbol: base_symbol, amount: base_amount }),
            r.spec_quote() == (DenomInfo { symbol: quote_symbol, amount: quote_amount }),
    {
        PriceStorage {
            base: DenomInfo { symbol: base_symbol, amount: base_amount },
            quote: DenomInfo { symbol: quote_symbol, amount: quote_amount },
        }
    }

    pub fn base(&self) -> (r: &DenomInfo)
        ensures
            *r == self.spec_base(),
    {
        &self.base
    }

    pub fn quote(&self) -> (r: &DenomInfo)
        ensures
            *r == self.spec_quote(),
    {
        &self.quote
    }

    /// The price's denomination pair, base first.
    pub fn denom_pair(&self) -> (r: DenomPair)
        ensures
            r.0@ == self.spec_base().symbol@,
            r.1@ == self.spec_quote().symbol@,
    {
        (self.base.symbol.clone(), self.quote.symbol.clone())
    }
}

/// All fed prices of a round.
#[derive(Clone, Debug, PartialEq, Eq)]
pub struct PriceResponse {
    pub prices: Vec<PriceStorage>,
}

/// The alarm message the oracle sends when a watched price is crossed.
#[derive(Clone, Debug, PartialEq, Eq)]
pub enum ExecuteAlarmMsg {
    Alarm(PriceStorage),
}

/// An ASCII upper-case byte folded to lower case; anything else stays.
pub open spec fn ascii_lower(c: u8) -> u8 {
    if 65 <= c <= 90 {
        (c + 32) as u8
    } else {
        c
    }
}

/// Byte sequences equal up to ASCII case.
pub open spec fn eq_ignore_case(a: Seq<u8>, b: Seq<u8>) -> bool {
    a.len() == b.len() && forall|i: int|
        0 <= i < a.len() ==> ascii_lower(#[trigger] a[i]) == ascii_lower(b[i])
}

/// Whether the pair (base, quote) occurs among the supported pairs.
pub open spec fn spec_pair_supported(pairs: Seq<DenomPair>, base: Seq<char>, quote: Seq<char>)
    -> bool {
    exists|i: int| 0 <= i < pairs.len() && (#[trigger] pairs[i]).0@ == base && pairs[i].1@
        == quote
}

/// Whether a fed price passes the filter: a supported pair whose two
/// denominations differ, ASCII case aside.
pub open spec fn spec_price_valid(p: PriceStorage, pairs: Seq<DenomPair>) -> bool {
    spec_pair_supported(pairs, p.spec_base().symbol@, p.spec_quote().symbol@)
        && !eq_ignore_case(encode_utf8(p.spec_base().symbol@), encode_utf8(p.spec_quote().symbol@))
}

/// ASCII-case-insensitive equality of two strings, byte for byte.
fn str_eq_ignore_ascii_case(a: &str, b: &str) -> (r: bool)
    ensures
        r == eq_ignore_case(encode_utf8(a@), encode_utf8(b@)),
{
    let ab = a.as_bytes();
    let bb = b.as_bytes();
    if ab.len() != bb.len() {
        return false;
    }
    let mut k: usize = 0;
    while k < ab.len()
        invariant
            ab@ == encode_utf8(a@),
            bb@ == encode_utf8(b@),
            ab@.len() == bb@.len(),
            k <= ab@.len(),
            forall|i: int| 0 <= i < k ==> ascii_lower(#[trigger] ab@[i]) == ascii_lower(bb@[i]),
        decreases ab@.len() - k,
    {
        let ca = ab[k];
        let cb = bb[k];
        let la = if 65 <= ca && ca <= 90 {
            ca + 32
        } else {
            ca
        };
        let lb = if 65 <= cb && cb <= 90 {
            cb + 32
        } else {
            cb
        };
        if la != lb {
            return false;
        }
        k = k + 1;
    }
    true
}

/// Whether `pair` occurs in `pairs`.
fn pair_contains(pairs: &Vec<DenomPair>, base: &String, quote: &String) -> (r: bool)
    ensures
        r == spec_pair_supported(pairs@, base@, quote@),
{
    let mut k: usize = 0;
    while k < pairs.len()
        invariant
            k <= pairs@.len(),
            forall|i: int|
                0 <= i < k ==> !((#[trigger] pairs@[i]).0@ == base@ && pairs@[i].1@ == quote@),
        decreases pairs@.len() - k,
    {
        if pairs[k].0 == *base && pairs[k].1 == *quote {
            return true;
        }
        k = k + 1;
    }
    false
}

/// An exact copy of a fed price.
fn clone_price(p: &PriceStorage) -> (r: PriceStorage)
    ensures
        r == *p,
{
    PriceStorage {
        base: DenomInfo { symbol: p.base.symbol.clone(), amount: p.base.amount },
        quote: DenomInfo { symbol: p.quote.symbol.clone(), amount: p.quote.amount },
    }
}

/// The market oracle's pure rules.
#[derive(Clone, Copy, Debug, PartialEq, Eq, Structural)]
pub struct MarketOracle {}

impl MarketOracle {
    /// How many feeders must have fed a price for it to count: the given
    /// percentage of all registered feeders, rounded down.
    pub fn feeders_needed(weight: usize, percentage: u8) -> (r: usize)
        requires
            weight * percentage / 100 <= usize::MAX,
        ensures
            r == weight * percentage / 100,
    {
        let res: u128 = (weight as u128) * (percentage as u128) / 100;
        res as usize
    }

    /// Keeps only the prices whose pair is supported and whose two
    /// denominations differ, ASCII case aside, in their fed order.
    pub fn remove_invalid_prices(supported_denom_pairs: Vec<DenomPair>,
        prices: Vec<PriceStorage>) -> (r: Vec<PriceStorage>)
        ensures
            r@ == prices@.filter(
                |p: PriceStorage| spec_price_valid(p, supported_denom_pairs@),
            ),
    {
        let ghost pred = |p: PriceStorage| spec_price_valid(p, supported_denom_pairs@);
        let mut out: Vec<PriceStorage> = Vec::new();
        let mut k: usize = 0;
        proof {
            reveal(Seq::filter);
            assert(prices@.subrange(0, 0) =~= Seq::<PriceStorage>::empty());
            assert(prices@.subrange(0, 0).filter(pred) =~= Seq::<PriceStorage>::empty());
        }
        while k < prices.len()
            invariant
                k <= prices@.len(),
                out@ == prices@.subrange(0, k as int).filter(pred),
                pred == (|p: PriceStorage| spec_price_valid(p, supported_denom_pairs@)),
            decreases prices@.len() - k,
        {
            let p = &prices[k];
            let keep = pair_contains(&supported_denom_pairs, &p.base.symbol, &p.quote.symbol)
                && !str_eq_ignore_ascii_case(p.base.symbol.as_str(), p.quote.symbol.as_str());
            proof {
                assert(prices@.subrange(0, k + 1) =~= prices@.subrange(0, k as int).push(
                    prices@[k as int],
                ));
                prices@.subrange(0, k as int).lemma_filter_push(prices@[k as int], pred);
                assert(keep == pred(prices@[k as int]));
            }
            if keep {
                let copy = clone_price(p);
                out.push(copy);
            }
            k = k + 1;
        }
        proof {
            assert(prices@.subrange(0, prices@.len() as int) =~= prices@);
        }
        out
    }
}

} // verus!
