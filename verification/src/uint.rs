//! Unsigned 256-bit integers, held as four little-endian 64-bit limbs.
//!
//! The arithmetic that can leave the 256-bit range is done by the integer type
//! of `ethers_core`; the functions that call it state the result over the
//! natural number that a value stands for.

use vstd::arithmetic::power::pow;
use vstd::prelude::*;

verus! {

/// An unsigned 256-bit integer. `limbs[0]` is the least significant limb.
#[derive(Clone, Copy, Debug)]
pub struct U256 {
    pub limbs: [u64; 4],
}

/// The first natural number that no `U256` can hold: 2^256.
pub open spec fn u256_limit() -> nat {
    0x1_0000_0000_0000_0000_0000_0000_0000_0000_0000_0000_0000_0000_0000_0000_0000_0000nat
}

/// The number that four little-endian 64-bit limbs stand for.
pub open spec fn limbs_value(l0: u64, l1: u64, l2: u64, l3: u64) -> nat {
    (l0 as nat) + (l1 as nat) * 0x1_0000_0000_0000_0000nat + (l2 as nat)
        * 0x1_0000_0000_0000_0000_0000_0000_0000_0000nat + (l3 as nat)
        * 0x1_0000_0000_0000_0000_0000_0000_0000_0000_0000_0000_0000_0000nat
}

impl View for U256 {
    type V = nat;

    open spec fn view(&self) -> nat {
        limbs_value(self.limbs[0], self.limbs[1], self.limbs[2], self.limbs[3])
    }
}

/// A number has one lowest limb and one rest above it.
proof fn lemma_split_limb(low_a: u64, rest_a: int, low_b: u64, rest_b: int)
    requires
        low_a + 0x1_0000_0000_0000_0000 * rest_a == low_b + 0x1_0000_0000_0000_0000 * rest_b,
    ensures
        low_a == low_b,
        rest_a == rest_b,
{
}

impl U256 {
    /// Every value is below 2^256.
    pub proof fn lemma_value_bounds(self)
        ensures
            self@ < u256_limit(),
    {
    }

    /// Two values stand for the same number exactly when their limbs agree.
    pub proof fn lemma_value_injective(self, other: U256)
        ensures
            self@ == other@ <==> self == other,
    {
        if self@ == other@ {
            let a1 = self.limbs[1] as int + 0x1_0000_0000_0000_0000 * (self.limbs[2] as int
                + 0x1_0000_0000_0000_0000 * (self.limbs[3] as int));
            let b1 = other.limbs[1] as int + 0x1_0000_0000_0000_0000 * (other.limbs[2] as int
                + 0x1_0000_0000_0000_0000 * (other.limbs[3] as int));
            lemma_split_limb(self.limbs[0], a1, other.limbs[0], b1);
            let a2 = self.limbs[2] as int + 0x1_0000_0000_0000_0000 * (self.limbs[3] as int);
            let b2 = other.limbs[2] as int + 0x1_0000_0000_0000_0000 * (other.limbs[3] as int);
            lemma_split_limb(self.limbs[1], a2, other.limbs[1], b2);
            lemma_split_limb(self.limbs[2], self.limbs[3] as int, other.limbs[2], other.limbs[3] as int);
            assert(self.limbs =~= other.limbs);
        }
    }

    pub fn zero() -> (r: U256)
        ensures
            r@ == 0,
    {
        U256 { limbs: [0, 0, 0, 0] }
    }

    pub fn one() -> (r: U256)
        ensures
            r@ == 1,
    {
        U256 { limbs: [1, 0, 0, 0] }
    }

    pub fn from_u64(x: u64) -> (r: U256)
        ensures
            r@ == x,
    {
        U256 { limbs: [x, 0, 0, 0] }
    }

    pub fn from_u128(x: u128) -> (r: U256)
        ensures
            r@ == x,
    {
        let low: u64 = (x % 0x1_0000_0000_0000_0000) as u64;
        let high: u64 = (x / 0x1_0000_0000_0000_0000) as u64;
        U256 { limbs: [low, high, 0, 0] }
    }

    /// The value as a `u64`, where it fits.
    pub fn to_u64(&self) -> (r: Option<u64>)
        ensures
            r is Some <==> self@ <= u64::MAX,
            r matches Some(x) ==> x == self@,
    {
        if self.limbs[1] == 0 && self.limbs[2] == 0 && self.limbs[3] == 0 {
            Some(self.limbs[0])
        } else {
            None
        }
    }

    /// The value as a `u128`, where it fits.
    pub fn to_u128(&self) -> (r: Option<u128>)
        ensures
            r is Some <==> self@ <= u128::MAX,
            r matches Some(x) ==> x == self@,
    {
        if self.limbs[2] == 0 && self.limbs[3] == 0 {
            let low: u128 = self.limbs[0] as u128;
            let high: u128 = self.limbs[1] as u128;
            Some(low + high * 0x1_0000_0000_0000_0000)
        } else {
            None
        }
    }

    pub fn is_zero(&self) -> (r: bool)
        ensures
            r == (self@ == 0),
    {
        self.limbs[0] == 0 && self.limbs[1] == 0 && self.limbs[2] == 0 && self.limbs[3] == 0
    }

    /// Whether the two values stand for the same number.
    pub fn eq(&self, other: &U256) -> (r: bool)
        ensures
            r == (self@ == other@),
            r == (*self == *other),
    {
        proof {
            self.lemma_value_injective(*other);
        }
        self.limbs[0] == other.limbs[0] && self.limbs[1] == other.limbs[1] && self.limbs[2]
            == other.limbs[2] && self.limbs[3] == other.limbs[3]
    }

    /// Whether this value is strictly below the other.
    pub fn lt(&self, other: &U256) -> (r: bool)
        ensures
            r == (self@ < other@),
    {
        if self.limbs[3] != other.limbs[3] {
            self.limbs[3] < other.limbs[3]
        } else if self.limbs[2] != other.limbs[2] {
            self.limbs[2] < other.limbs[2]
        } else if self.limbs[1] != other.limbs[1] {
            self.limbs[1] < other.limbs[1]
        } else {
            self.limbs[0] < other.limbs[0]
        }
    }

    /// Whether this value is at most the other.
    pub fn le(&self, other: &U256) -> (r: bool)
        ensures
            r == (self@ <= other@),
    {
        !other.lt(self)
    }
}

/// Calls `checked_add` of the 256-bit integer of `ethers_core`: the sum where
/// it is below 2^256, and nothing where it is not.
#[verifier::external_body]
pub(crate) fn u256_checked_add(a: &U256, b: &U256) -> (r: Option<U256>)
    ensures
        r is Some <==> a@ + b@ < u256_limit(),
        r matches Some(s) ==> s@ == a@ + b@,
{
    match ethers_core::types::U256(a.limbs).checked_add(ethers_core::types::U256(b.limbs)) {
        Some(s) => Some(U256 { limbs: s.0 }),
        None => None,
    }
}

/// Calls `checked_sub` of the 256-bit integer of `ethers_core`: the
/// difference where the second number is not above the first, and nothing
/// where it is.
#[verifier::external_body]
pub(crate) fn u256_checked_sub(a: &U256, b: &U256) -> (r: Option<U256>)
    ensures
        r is Some <==> b@ <= a@,
        r matches Some(d) ==> d@ == a@ - b@,
{
    match ethers_core::types::U256(a.limbs).checked_sub(ethers_core::types::U256(b.limbs)) {
        Some(d) => Some(U256 { limbs: d.0 }),
        None => None,
    }
}

/// Calls `checked_mul` of the 256-bit integer of `ethers_core`: the product
/// where it is below 2^256, and nothing where it is not.
#[verifier::external_body]
pub(crate) fn u256_checked_mul(a: &U256, b: &U256) -> (r: Option<U256>)
    ensures
        r is Some <==> a@ * b@ < u256_limit(),
        r matches Some(p) ==> p@ == a@ * b@,
{
    match ethers_core::types::U256(a.limbs).checked_mul(ethers_core::types::U256(b.limbs)) {
        Some(p) => Some(U256 { limbs: p.0 }),
        None => None,
    }
}

/// Calls `checked_div` of the 256-bit integer of `ethers_core`: the quotient
/// rounded down where the divisor is not zero, and nothing where it is.
#[verifier::external_body]
pub(crate) fn u256_checked_div(a: &U256, b: &U256) -> (r: Option<U256>)
    ensures
        r is Some <==> b@ != 0,
        r matches Some(q) ==> q@ == a@ / b@,
{
    match ethers_core::types::U256(a.limbs).checked_div(ethers_core::types::U256(b.limbs)) {
        Some(q) => Some(U256 { limbs: q.0 }),
        None => None,
    }
}

/// Calls `checked_pow` of the 256-bit integer of `ethers_core`: the power
/// where it is below 2^256, and nothing where it is not.
#[verifier::external_body]
pub(crate) fn u256_checked_pow(base: &U256, exponent: &U256) -> (r: Option<U256>)
    ensures
        r is Some <==> pow(base@ as int, exponent@) < u256_limit(),
        r matches Some(p) ==> p@ == pow(base@ as int, exponent@),
{
    match ethers_core::types::U256(base.limbs).checked_pow(ethers_core::types::U256(exponent.limbs)) {
        Some(p) => Some(U256 { limbs: p.0 }),
        None => None,
    }
}

} // verus!
