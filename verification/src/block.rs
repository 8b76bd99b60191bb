//! Observed blocks and the base fee that the next block is expected to ask.

use crate::uint::{u256_checked_add, u256_checked_div, u256_checked_mul, u256_checked_sub, u256_limit, U256};
use rand::Rng;
use vstd::arithmetic::div_mod::{lemma_div_is_ordered, lemma_div_multiples_vanish};
use vstd::prelude::*;

verus! {

/// A block as the strategy sees it.
#[derive(Clone, Copy, Debug)]
pub struct NewBlock {
    pub number: u64,
    pub base_fee_per_gas: U256,
    pub next_base_fee: U256,
    pub timestamp: U256,
    pub gas_used: U256,
    pub gas_limit: U256,
}

/// The gas use at which the base fee stays as it is: half the gas limit, and
/// one where that half is zero.
pub open spec fn gas_target(gas_limit: nat) -> nat {
    if gas_limit / 2 == 0 {
        1
    } else {
        gas_limit / 2
    }
}

/// How far the base fee moves: the eighth part, rounded down, of the fee
/// taken in the proportion of `distance` to the target.
pub open spec fn base_fee_move(base_fee: nat, distance: nat, target: nat) -> nat {
    (base_fee * distance / target) / 8
}

/// The base fee after a block: above the target it rises by the move for the
/// excess, at the target or below it falls by the move for the shortfall.
pub open spec fn next_base_fee_spec(gas_used: nat, gas_limit: nat, base_fee: nat) -> nat {
    let target = gas_target(gas_limit);
    if gas_used > target {
        base_fee + base_fee_move(base_fee, (gas_used - target) as nat, target)
    } else {
        (base_fee - base_fee_move(base_fee, (target - gas_used) as nat, target)) as nat
    }
}

/// Whether the next base fee can be computed in 256 bits: the fee times the
/// distance of the gas use from the target fits, and so does the result.
pub open spec fn base_fee_fits(gas_used: nat, gas_limit: nat, base_fee: nat) -> bool {
    let target = gas_target(gas_limit);
    let distance = if gas_used > target {
        gas_used - target
    } else {
        target - gas_used
    };
    base_fee * distance < u256_limit() && next_base_fee_spec(gas_used, gas_limit, base_fee) < u256_limit()
}

/// The move of the fee for a distance of at most the target is at most an
/// eighth of the fee.
pub proof fn lemma_move_bounded(base_fee: nat, distance: nat, target: nat)
    requires
        0 < target,
        distance <= target,
    ensures
        base_fee_move(base_fee, distance, target) <= base_fee / 8,
        base_fee_move(base_fee, distance, target) <= base_fee,
{
    let product = (base_fee * distance) as int;
    let full = (base_fee * target) as int;
    assert(product <= full) by (nonlinear_arith)
        requires
            product == base_fee * distance,
            full == base_fee * target,
            distance <= target,
    ;
    lemma_div_is_ordered(product, full, target as int);
    assert(full == (target as int) * (base_fee as int)) by (nonlinear_arith)
        requires
            full == base_fee * target,
    ;
    lemma_div_multiples_vanish(base_fee as int, target as int);
    assert(product / (target as int) <= base_fee);
}

/// At the target the base fee stays: with a gas limit of two or more and a gas
/// use of half the limit, the next base fee is the base fee.
pub proof fn lemma_base_fee_at_target(gas_limit: nat, base_fee: nat)
    requires
        gas_limit >= 2,
    ensures
        next_base_fee_spec(gas_limit / 2, gas_limit, base_fee) == base_fee,
{
    let target = gas_target(gas_limit);
    assert(base_fee * 0 == 0) by (nonlinear_arith);
    assert(0nat / target == 0) by (nonlinear_arith)
        requires
            target > 0,
    ;
}

/// Above the target the base fee does not fall, and it rises exactly when the
/// move is not rounded down to nothing.
pub proof fn lemma_base_fee_above_target(gas_used: nat, gas_limit: nat, base_fee: nat)
    requires
        gas_used > gas_target(gas_limit),
    ensures
        next_base_fee_spec(gas_used, gas_limit, base_fee) >= base_fee,
        next_base_fee_spec(gas_used, gas_limit, base_fee) > base_fee <==> base_fee * (gas_used - gas_target(
            gas_limit,
        )) / (gas_target(gas_limit) as int) >= 8,
{
}

/// Below the target the base fee does not rise and does not fall under zero
/// nor by more than an eighth, and it falls exactly when the move is not
/// rounded down to nothing.
pub proof fn lemma_base_fee_below_target(gas_used: nat, gas_limit: nat, base_fee: nat)
    requires
        gas_used < gas_target(gas_limit),
    ensures
        next_base_fee_spec(gas_used, gas_limit, base_fee) <= base_fee,
        next_base_fee_spec(gas_used, gas_limit, base_fee) >= base_fee - base_fee / 8,
        next_base_fee_spec(gas_used, gas_limit, base_fee) < base_fee <==> base_fee * (gas_target(gas_limit)
            - gas_used) / (gas_target(gas_limit) as int) >= 8,
{
    let target = gas_target(gas_limit);
    lemma_move_bounded(base_fee, (target - gas_used) as nat, target);
}

/// The base fee that the next block is expected to ask, without jitter.
pub fn next_block_base_fee(gas_used: U256, gas_limit: U256, base_fee_per_gas: U256) -> (r: Option<U256>)
    ensures
        r is Some <==> base_fee_fits(gas_used@, gas_limit@, base_fee_per_gas@),
        r matches Some(fee) ==> fee@ == next_base_fee_spec(gas_used@, gas_limit@, base_fee_per_gas@),
{
    let two = U256::from_u64(2);
    let eight = U256::from_u64(8);
    let half = match u256_checked_div(&gas_limit, &two) {
        Some(h) => h,
        None => {
            return None;
        },
    };
    let target = if half.is_zero() {
        U256::one()
    } else {
        half
    };
    if target.lt(&gas_used) {
        let excess = match u256_checked_sub(&gas_used, &target) {
            Some(e) => e,
            None => {
                return None;
            },
        };
        let product = match u256_checked_mul(&base_fee_per_gas, &excess) {
            Some(p) => p,
            None => {
                return None;
            },
        };
        let share = match u256_checked_div(&product, &target) {
            Some(s) => s,
            None => {
                return None;
            },
        };
        let step = match u256_checked_div(&share, &eight) {
            Some(s) => s,
            None => {
                return None;
            },
        };
        u256_checked_add(&base_fee_per_gas, &step)
    } else {
        let shortfall = match u256_checked_sub(&target, &gas_used) {
            Some(e) => e,
            None => {
                return None;
            },
        };
        let product = match u256_checked_mul(&base_fee_per_gas, &shortfall) {
            Some(p) => p,
            None => {
                return None;
            },
        };
        let share = match u256_checked_div(&product, &target) {
            Some(s) => s,
            None => {
                return None;
            },
        };
        let step = match u256_checked_div(&share, &eight) {
            Some(s) => s,
            None => {
                return None;
            },
        };
        proof {
            lemma_move_bounded(base_fee_per_gas@, shortfall@, target@);
            base_fee_per_gas.lemma_value_bounds();
        }
        u256_checked_sub(&base_fee_per_gas, &step)
    }
}

/// The expected base fee with a jitter added to it.
pub fn base_fee_with_jitter(gas_used: U256, gas_limit: U256, base_fee_per_gas: U256, jitter: u64) -> (r: Option<
    U256,
>)
    ensures
        r is Some <==> base_fee_fits(gas_used@, gas_limit@, base_fee_per_gas@) && next_base_fee_spec(
            gas_used@,
            gas_limit@,
            base_fee_per_gas@,
        ) + jitter < u256_limit(),
        r matches Some(fee) ==> fee@ == next_base_fee_spec(gas_used@, gas_limit@, base_fee_per_gas@) + jitter,
{
    match next_block_base_fee(gas_used, gas_limit, base_fee_per_gas) {
        Some(fee) => u256_checked_add(&fee, &U256::from_u64(jitter)),
        None => None,
    }
}

/// Draws the jitter from the thread's random number generator of `rand`, with
/// `gen_range` over zero to nine, nine left out: a number below nine.
#[verifier::external_body]
fn draw_jitter() -> (r: u64)
    ensures
        r < 9,
{
    rand::thread_rng().gen_range(0..9u64)
}

/// The base fee that the next block is expected to ask, with a random jitter
/// below nine added to it.
pub fn calculate_next_block_base_fee(gas_used: U256, gas_limit: U256, base_fee_per_gas: U256) -> (r: Option<U256>)
    ensures
        r is Some ==> base_fee_fits(gas_used@, gas_limit@, base_fee_per_gas@),
        r matches Some(fee) ==> next_base_fee_spec(gas_used@, gas_limit@, base_fee_per_gas@) <= fee@
            < next_base_fee_spec(gas_used@, gas_limit@, base_fee_per_gas@) + 9,
        (base_fee_fits(gas_used@, gas_limit@, base_fee_per_gas@) && next_base_fee_spec(
            gas_used@,
            gas_limit@,
            base_fee_per_gas@,
        ) + 8 < u256_limit()) ==> r is Some,
{
    let jitter = draw_jitter();
    base_fee_with_jitter(gas_used, gas_limit, base_fee_per_gas, jitter)
}

impl NewBlock {
    /// The block that a header stands for, where it has a number and its next
    /// base fee can be computed. A header without base fee counts as one with
    /// a base fee of zero.
    pub fn from_header(
        number: Option<u64>,
        base_fee_per_gas: Option<U256>,
        timestamp: U256,
        gas_used: U256,
        gas_limit: U256,
    ) -> (r: Option<NewBlock>)
        ensures
            r is Some ==> number is Some,
            ({
                let base_fee = match base_fee_per_gas {
                    Some(fee) => fee,
                    None => U256 { limbs: [0, 0, 0, 0] },
                };
                number is Some && base_fee_fits(gas_used@, gas_limit@, base_fee@) && next_base_fee_spec(
                    gas_used@,
                    gas_limit@,
                    base_fee@,
                ) + 8 < u256_limit()
            }) ==> r is Some,
            r matches Some(block) ==> {
                let base_fee = match base_fee_per_gas {
                    Some(fee) => fee,
                    None => U256 { limbs: [0, 0, 0, 0] },
                };
                &&& block.number == number->0
                &&& block.base_fee_per_gas == base_fee
                &&& block.timestamp == timestamp
                &&& block.gas_used == gas_used
                &&& block.gas_limit == gas_limit
                &&& base_fee_fits(gas_used@, gas_limit@, base_fee@)
                &&& next_base_fee_spec(gas_used@, gas_limit@, base_fee@) <= block.next_base_fee@
                    < next_base_fee_spec(gas_used@, gas_limit@, base_fee@) + 9
            },
    {
        let number = match number {
            Some(n) => n,
            None => {
                return None;
            },
        };
        let base_fee = match base_fee_per_gas {
            Some(fee) => fee,
            None => U256 { limbs: [0, 0, 0, 0] },
        };
        match calculate_next_block_base_fee(gas_used, gas_limit, base_fee) {
            Some(next_base_fee) => Some(
                NewBlock { number, base_fee_per_gas: base_fee, next_base_fee, timestamp, gas_used, gas_limit },
            ),
            None => None,
        }
    }
}

} // verus!
