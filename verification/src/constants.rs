//! Fixed numbers and addresses.

use crate::address::Address;
use crate::uint::U256;
use vstd::prelude::*;

verus! {

/// The number of smallest units in one coin: ten to the eighteenth.
pub const WEI_PER_COIN: u64 = 1_000_000_000_000_000_000;

/// The number of smallest units in a billionth of a coin: ten to the ninth.
pub const WEI_PER_GWEI: u64 = 1_000_000_000;

/// Ten to the eighteenth.
pub fn wei() -> (r: U256)
    ensures
        r@ == WEI_PER_COIN,
{
    U256::from_u64(WEI_PER_COIN)
}

/// Ten to the ninth.
pub fn gwei() -> (r: U256)
    ensures
        r@ == WEI_PER_GWEI,
{
    U256::from_u64(WEI_PER_GWEI)
}

/// The address of twenty zero bytes.
pub fn zero_address() -> (r: Address)
    ensures
        r@ == Seq::new(20, |i: int| 0u8),
{
    Address::zero()
}

/// The bytes of the one token that no path may touch.
pub open spec fn blacklisted_token_bytes() -> Seq<u8> {
    seq![
        0x94u8,
        0x69,
        0x60,
        0x3F,
        0x3E,
        0xfb,
        0xcf,
        0x17,
        0xe4,
        0xA5,
        0x86,
        0x8d,
        0x81,
        0xC7,
        0x01,
        0xBD,
        0xbD,
        0x22,
        0x25,
        0x55,
    ]
}

/// The tokens that no path may touch.
pub fn get_blacklist_tokens() -> (r: Vec<Address>)
    ensures
        r.len() == 1,
        r[0]@ == blacklisted_token_bytes(),
{
    let token = Address {
        bytes: [
            0x94,
            0x69,
            0x60,
            0x3F,
            0x3E,
            0xfb,
            0xcf,
            0x17,
            0xe4,
            0xA5,
            0x86,
            0x8d,
            0x81,
            0xC7,
            0x01,
            0xBD,
            0xbD,
            0x22,
            0x25,
            0x55,
        ],
    };
    proof {
        assert(token@ =~= blacklisted_token_bytes());
    }
    let mut tokens: Vec<Address> = Vec::new();
    tokens.push(token);
    tokens
}

} // verus!
