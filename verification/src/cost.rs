//! What a request is billed for. No prices are built in: a model without prices
//! has an unknown cost, never a cost of zero.

use crate::types::{Dollars, TokenUsage};
use vstd::prelude::*;

verus! {

/// The prices of a model, per million tokens.
#[derive(Debug, Clone, Copy, PartialEq, Eq, Structural)]
pub struct Prices {
    pub input_per_1m: Option<Dollars>,
    pub output_per_1m: Option<Dollars>,
    pub cached_per_1m: Option<Dollars>,
    pub thinking_per_1m: Option<Dollars>,
}

impl Default for Prices {
    fn default() -> (r: Self)
        ensures
            r == (Prices {
                input_per_1m: None,
                output_per_1m: None,
                cached_per_1m: None,
                thinking_per_1m: None,
            }),
    {
        Prices {
            input_per_1m: None,
            output_per_1m: None,
            cached_per_1m: None,
            thinking_per_1m: None,
        }
    }
}

/// Whether a model has a price.
pub open spec fn is_priced(p: Prices) -> bool {
    p.input_per_1m is Some || p.output_per_1m is Some || p.cached_per_1m is Some
        || p.thinking_per_1m is Some
}

impl Prices {
    /// Whether the model has a price.
    pub fn is_configured(&self) -> (r: bool)
        ensures
            r == is_priced(*self),
    {
        self.input_per_1m.is_some() || self.output_per_1m.is_some() || self.cached_per_1m.is_some()
            || self.thinking_per_1m.is_some()
    }
}

/// Some tokens at a price per million.
#[derive(Debug, Clone, Copy, PartialEq, Eq, Structural)]
pub struct BillItem {
    pub tokens: u64,
    pub price_per_1m: Dollars,
}

/// What a request is billed for. Its cost is the sum of the four items.
#[derive(Debug, Clone, Copy, PartialEq, Eq, Structural)]
pub struct Bill {
    pub input: BillItem,
    pub cached: BillItem,
    pub output: BillItem,
    pub thinking: BillItem,
}

/// A price, or a fallback.
pub open spec fn price_or(p: Option<Dollars>, fallback: Dollars) -> Dollars {
    match p {
        Some(d) => d,
        None => fallback,
    }
}

/// A count, or zero.
pub open spec fn count_or_zero(n: Option<u64>) -> u64 {
    match n {
        Some(c) => c,
        None => 0,
    }
}

/// Nothing, in dollars.
pub open spec fn no_dollars() -> Dollars {
    Dollars { bits: 0 }
}

/// What a request is billed for. Cached tokens are part of the input and billed
/// apart from it. Without a price of their own, cached tokens cost what the
/// input costs and thinking tokens what the output costs.
pub open spec fn bill_of(p: Prices, u: TokenUsage) -> Bill {
    let input = count_or_zero(u.input);
    let cached = count_or_zero(u.cached);
    let input_price = price_or(p.input_per_1m, no_dollars());
    let output_price = price_or(p.output_per_1m, no_dollars());
    Bill {
        input: BillItem {
            tokens: if input >= cached {
                (input - cached) as u64
            } else {
                0
            },
            price_per_1m: input_price,
        },
        cached: BillItem { tokens: cached, price_per_1m: price_or(p.cached_per_1m, input_price) },
        output: BillItem { tokens: count_or_zero(u.output), price_per_1m: output_price },
        thinking: BillItem {
            tokens: count_or_zero(u.thinking),
            price_per_1m: price_or(p.thinking_per_1m, output_price),
        },
    }
}

/// Whether the cost of a request can be known: the model has a price, and the
/// provider has reported the input and the output.
pub open spec fn cost_is_known(p: Prices, u: TokenUsage) -> bool {
    is_priced(p) && u.input is Some && u.output is Some
}

fn or_zero(n: Option<u64>) -> (r: u64)
    ensures
        r == count_or_zero(n),
{
    match n {
        Some(c) => c,
        None => 0,
    }
}

fn or_price(p: Option<Dollars>, fallback: Dollars) -> (r: Dollars)
    ensures
        r == price_or(p, fallback),
{
    match p {
        Some(d) => d,
        None => fallback,
    }
}

/// What a request is billed for; `None` where its cost is unknown.
pub fn bill(prices: &Prices, usage: &TokenUsage) -> (r: Option<Bill>)
    ensures
        match r {
            Some(b) => cost_is_known(*prices, *usage) && b == bill_of(*prices, *usage),
            None => !cost_is_known(*prices, *usage),
        },
{
    if !prices.is_configured() || usage.input.is_none() || usage.output.is_none() {
        return None;
    }
    let input = or_zero(usage.input);
    let cached = or_zero(usage.cached);
    let zero = Dollars { bits: 0 };
    let input_price = or_price(prices.input_per_1m, zero);
    let output_price = or_price(prices.output_per_1m, zero);
    let billable: u64 = if input >= cached {
        input - cached
    } else {
        0
    };
    Some(
        Bill {
            input: BillItem { tokens: billable, price_per_1m: input_price },
            cached: BillItem {
                tokens: cached,
                price_per_1m: or_price(prices.cached_per_1m, input_price),
            },
            output: BillItem { tokens: or_zero(usage.output), price_per_1m: output_price },
            thinking: BillItem {
                tokens: or_zero(usage.thinking),
                price_per_1m: or_price(prices.thinking_per_1m, output_price),
            },
        },
    )
}

/// A cost that is not known is never made up: without a price, or without a
/// reported count, there is no bill.
pub proof fn law_unknown_cost_is_not_zero(p: Prices, u: TokenUsage)
    requires
        !is_priced(p) || u.input is None || u.output is None,
    ensures
        !cost_is_known(p, u),
{
}

/// No token is billed twice: the input and the cached tokens are together the
/// input that was reported, where it covers the cached ones.
pub proof fn law_input_is_billed_once(p: Prices, u: TokenUsage)
    requires
        cost_is_known(p, u),
        count_or_zero(u.cached) <= count_or_zero(u.input),
    ensures
        bill_of(p, u).input.tokens + bill_of(p, u).cached.tokens == u.input->0,
{
}

/// Tokens are billed at the price of their kind where there is one. Thinking
/// tokens without a price of their own cost what output costs, and cached tokens
/// what input costs; input or output without a price costs nothing.
pub proof fn law_each_kind_has_its_price(p: Prices, u: TokenUsage)
    ensures
        ({
            let b = bill_of(p, u);
            &&& p.thinking_per_1m is None ==> b.thinking.price_per_1m == b.output.price_per_1m
            &&& p.thinking_per_1m matches Some(d) ==> b.thinking.price_per_1m == d
            &&& p.cached_per_1m is None ==> b.cached.price_per_1m == b.input.price_per_1m
            &&& p.cached_per_1m matches Some(d) ==> b.cached.price_per_1m == d
            &&& p.input_per_1m matches Some(d) ==> b.input.price_per_1m == d
            &&& p.input_per_1m is None ==> b.input.price_per_1m.bits == 0
            &&& p.output_per_1m matches Some(d) ==> b.output.price_per_1m == d
            &&& p.output_per_1m is None ==> b.output.price_per_1m.bits == 0
        }),
{
}

/// Every token that was reported is billed, once: output and thinking tokens as
/// they were counted, cached tokens as such, and of the input what was not
/// cached. A kind of which nothing was reported is not billed.
pub proof fn law_reported_tokens_are_billed(p: Prices, u: TokenUsage)
    ensures
        ({
            let b = bill_of(p, u);
            &&& u.output matches Some(n) ==> b.output.tokens == n
            &&& u.output is None ==> b.output.tokens == 0
            &&& u.thinking matches Some(n) ==> b.thinking.tokens == n
            &&& u.thinking is None ==> b.thinking.tokens == 0
            &&& u.cached matches Some(n) ==> b.cached.tokens == n
            &&& u.cached is None ==> b.cached.tokens == 0
            &&& u.input matches Some(n) ==> (b.cached.tokens <= n ==> b.input.tokens
                + b.cached.tokens == n) && (b.cached.tokens > n ==> b.input.tokens == 0)
        }),
{
}

/// One price is enough for a cost to be known, whichever it is, and the counts
/// of input and output are needed; no other count is.
pub proof fn law_any_price_makes_the_cost_known(p: Prices, u: TokenUsage)
    ensures
        cost_is_known(p, u) ==> u.input is Some && u.output is Some,
        u.input is Some && u.output is Some && (p.input_per_1m is Some || p.output_per_1m is Some
            || p.cached_per_1m is Some || p.thinking_per_1m is Some) ==> cost_is_known(p, u),
        p.input_per_1m is None && p.output_per_1m is None && p.cached_per_1m is None
            && p.thinking_per_1m is None ==> !cost_is_known(p, u),
{
}

} // verus!
