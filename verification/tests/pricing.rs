use triarb::simulator::UniswapV2Simulator;
use triarb::uint::U256;

fn quote(amount_in: u128, reserve_in: u128, reserve_out: u128, fee: u64) -> Option<u128> {
    UniswapV2Simulator::get_amount_out(
        U256::from_u128(amount_in),
        U256::from_u128(reserve_in),
        U256::from_u128(reserve_out),
        U256::from_u64(fee),
    )
    .map(|out| out.to_u128().unwrap())
}

#[test]
fn quotes_a_swap_with_the_constant_product_rule() {
    // 1000 * 997 * 1_000_000 / (1_000_000 * 1000 + 1000 * 997) = 996, rounded down
    assert_eq!(quote(1000, 1_000_000, 1_000_000, 3), Some(996));
}

#[test]
fn quote_without_fee_is_the_plain_product_rule() {
    // 100 * 1000 * 500 / (200 * 1000 + 100 * 1000) = 166, rounded down
    assert_eq!(quote(100, 200, 500, 0), Some(166));
}

#[test]
fn fee_of_a_thousand_takes_all() {
    assert_eq!(quote(100, 200, 500, 1000), Some(0));
}

#[test]
fn fee_above_a_thousand_gives_no_quote() {
    assert_eq!(quote(100, 200, 500, 1001), None);
}

#[test]
fn zero_in_gives_zero_out_for_positive_reserves() {
    assert_eq!(quote(0, 1, 1, 3), Some(0));
    assert_eq!(quote(0, 10_000_000_000, 20_000_000_000_000_000_000_000, 3), Some(0));
    assert_eq!(quote(0, u128::MAX, u128::MAX, 0), Some(0));
}

#[test]
fn empty_reserves_give_no_quote() {
    assert_eq!(quote(0, 0, 5, 3), None);
    // with an input the divisor is above zero, and an empty output reserve gives nothing
    assert_eq!(quote(7, 0, 5, 3), Some(5));
    assert_eq!(quote(7, 5, 0, 3), Some(0));
}

#[test]
fn quote_does_not_fall_when_the_input_grows() {
    let mut last = 0u128;
    let mut amount = 0u128;
    while amount <= 5_000_000 {
        let out = quote(amount, 3_000_000, 7_000_000, 3).unwrap();
        assert!(out >= last);
        last = out;
        amount += 12_345;
    }
    // the output never reaches the whole output reserve
    assert!(last < 7_000_000);
}

#[test]
fn numbers_that_leave_256_bits_give_no_quote() {
    let max = U256 { limbs: [u64::MAX; 4] };
    // the input reserve times 1000 does not fit
    assert!(UniswapV2Simulator::get_amount_out(U256::zero(), max, U256::one(), U256::from_u64(3)).is_none());
    // the input times 997 does not fit
    assert!(UniswapV2Simulator::get_amount_out(max, U256::one(), U256::one(), U256::from_u64(3)).is_none());
    // the product with the output reserve does not fit
    let big = U256 { limbs: [0, 0, 0, 1] };
    assert!(UniswapV2Simulator::get_amount_out(big, U256::one(), big, U256::from_u64(3)).is_none());
}

#[test]
fn quotes_with_products_above_128_bits_are_exact() {
    // amount 2^100, reserves 2^101 and 2^102, no fee:
    // 2^100 * 1000 * 2^102 / (2^101 * 1000 + 2^100 * 1000) = 2^102 / 3, rounded down
    let amount = U256 { limbs: [0, 1 << 36, 0, 0] };
    let reserve_in = U256 { limbs: [0, 1 << 37, 0, 0] };
    let reserve_out = U256 { limbs: [0, 1 << 38, 0, 0] };
    let out = UniswapV2Simulator::get_amount_out(amount, reserve_in, reserve_out, U256::zero()).unwrap();
    assert_eq!(out.to_u128(), Some((1u128 << 102) / 3));
}
