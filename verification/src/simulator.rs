//! Constant-product swap pricing.

use crate::uint::{u256_checked_add, u256_checked_div, u256_checked_mul, u256_checked_sub, u256_limit, U256};
use vstd::arithmetic::div_mod::{lemma_div_is_ordered, lemma_div_multiples_vanish, lemma_fundamental_div_mod};
use vstd::prelude::*;

verus! {

/// The swap output of a constant-product pool for `amount_in`, with the fee in
/// parts of a thousand: `amount_in * (1000 - fee) * reserve_out` divided by
/// `reserve_in * 1000 + amount_in * (1000 - fee)`, rounded down.
///
/// There is no quote where the fee is above 1000, where the divisor is zero,
/// or where one of the intermediate numbers leaves the 256-bit range.
pub open spec fn amount_out_spec(amount_in: nat, reserve_in: nat, reserve_out: nat, fee: nat) -> Option<nat> {
    if fee > 1000 {
        None
    } else {
        let with_fee = amount_in * ((1000 - fee) as nat);
        let numerator = with_fee * reserve_out;
        let scaled_reserve = reserve_in * 1000;
        let denominator = scaled_reserve + with_fee;
        if with_fee >= u256_limit() || numerator >= u256_limit() || scaled_reserve >= u256_limit()
            || denominator >= u256_limit() || denominator == 0 {
            None
        } else {
            Some(numerator / denominator)
        }
    }
}

/// Whether an exec quote is the one that the formula gives.
pub open spec fn quote_matches(r: Option<U256>, expected: Option<nat>) -> bool {
    match expected {
        Some(v) => r matches Some(x) && x@ == v,
        None => r is None,
    }
}

/// Pricing of swaps on pools that follow the constant-product rule.
pub struct UniswapV2Simulator;

impl UniswapV2Simulator {
    /// The amount that leaves the pool when `amount_in` enters it.
    pub fn get_amount_out(amount_in: U256, reserve_in: U256, reserve_out: U256, fee: U256) -> (r: Option<U256>)
        ensures
            quote_matches(r, amount_out_spec(amount_in@, reserve_in@, reserve_out@, fee@)),
    {
        let thousand = U256::from_u64(1000);
        let kept = match u256_checked_sub(&thousand, &fee) {
            Some(k) => k,
            None => {
                return None;
            },
        };
        let with_fee = match u256_checked_mul(&amount_in, &kept) {
            Some(w) => w,
            None => {
                return None;
            },
        };
        let numerator = match u256_checked_mul(&with_fee, &reserve_out) {
            Some(n) => n,
            None => {
                return None;
            },
        };
        let scaled_reserve = match u256_checked_mul(&reserve_in, &thousand) {
            Some(s) => s,
            None => {
                return None;
            },
        };
        let denominator = match u256_checked_add(&scaled_reserve, &with_fee) {
            Some(d) => d,
            None => {
                return None;
            },
        };
        u256_checked_div(&numerator, &denominator)
    }
}

/// Nothing in, nothing out: with reserves above zero, a fee of at most 1000
/// and an input reserve whose thousandfold fits in 256 bits, the quote for an
/// input of zero is zero.
pub proof fn lemma_zero_in_gives_zero_out(reserve_in: nat, reserve_out: nat, fee: nat)
    requires
        reserve_in > 0,
        reserve_out > 0,
        fee <= 1000,
        reserve_in * 1000 < u256_limit(),
    ensures
        amount_out_spec(0, reserve_in, reserve_out, fee) == Some(0nat),
{
    let kept = (1000 - fee) as nat;
    assert(0 * kept == 0) by (nonlinear_arith);
    assert(0 * reserve_out == 0) by (nonlinear_arith);
    let denominator = reserve_in * 1000 + 0;
    assert(0nat / denominator == 0) by (nonlinear_arith)
        requires
            denominator > 0,
    ;
}

/// A quotient `x * r / (d + x)` does not fall when `x` grows.
proof fn lemma_quotient_monotonic(x1: nat, x2: nat, r: nat, d: nat)
    requires
        x1 <= x2,
        d + x1 > 0,
    ensures
        (x1 * r) / (d + x1) <= (x2 * r) / (d + x2),
{
    let n1 = (x1 * r) as int;
    let n2 = (x2 * r) as int;
    let d1 = (d + x1) as int;
    let d2 = (d + x2) as int;
    let q1 = n1 / d1;
    lemma_fundamental_div_mod(n1, d1);
    assert(0 <= n1 % d1 < d1) by (nonlinear_arith)
        requires
            d1 > 0,
    ;
    assert(q1 >= 0) by (nonlinear_arith)
        requires
            n1 >= 0,
            d1 > 0,
            q1 == n1 / d1,
    ;
    assert(d1 * q1 <= n1);
    // the quotient is at most r
    assert(q1 <= r) by (nonlinear_arith)
        requires
            d1 * q1 <= n1,
            n1 == x1 * r,
            d1 == d + x1,
            d1 > 0,
            q1 >= 0,
    ;
    assert(q1 * d2 <= n2) by (nonlinear_arith)
        requires
            d1 * q1 <= n1,
            n1 == x1 * r,
            n2 == x2 * r,
            d1 == d + x1,
            d2 == d + x2,
            x1 <= x2,
            0 <= q1 <= r,
    ;
    lemma_div_is_ordered(q1 * d2, n2, d2);
    lemma_div_multiples_vanish(q1, d2);
    assert(d2 * q1 == q1 * d2) by (nonlinear_arith);
}

/// The quote does not fall when the input grows, reserves and fee being the
/// same: of two inputs that both have a quote, the larger input has the
/// larger or equal quote. Where the input reserve is above zero, an input
/// below one that has a quote has a quote too.
pub proof fn lemma_amount_out_monotonic(amount_1: nat, amount_2: nat, reserve_in: nat, reserve_out: nat, fee: nat)
    requires
        amount_1 <= amount_2,
    ensures
        (amount_out_spec(amount_1, reserve_in, reserve_out, fee) is Some && amount_out_spec(
            amount_2,
            reserve_in,
            reserve_out,
            fee,
        ) is Some) ==> amount_out_spec(amount_1, reserve_in, reserve_out, fee)->0 <= amount_out_spec(
            amount_2,
            reserve_in,
            reserve_out,
            fee,
        )->0,
        (reserve_in > 0 && amount_out_spec(amount_2, reserve_in, reserve_out, fee) is Some) ==> amount_out_spec(
            amount_1,
            reserve_in,
            reserve_out,
            fee,
        ) is Some,
{
    if fee <= 1000 {
        let kept = (1000 - fee) as nat;
        let x1 = amount_1 * kept;
        let x2 = amount_2 * kept;
        assert(x1 <= x2) by (nonlinear_arith)
            requires
                amount_1 <= amount_2,
                x1 == amount_1 * kept,
                x2 == amount_2 * kept,
        ;
        assert(x1 * reserve_out <= x2 * reserve_out) by (nonlinear_arith)
            requires
                x1 <= x2,
        ;
        let d = reserve_in * 1000;
        if d + x1 > 0 {
            lemma_quotient_monotonic(x1, x2, reserve_out, d);
        }
    }
}

} // verus!
