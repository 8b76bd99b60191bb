use triarb::uint::U256;

#[test]
fn small_numbers_keep_their_value() {
    assert_eq!(U256::zero().to_u64(), Some(0));
    assert_eq!(U256::one().to_u64(), Some(1));
    assert_eq!(U256::from_u64(u64::MAX).to_u64(), Some(u64::MAX));
    assert_eq!(U256::from_u64(42).to_u128(), Some(42));
}

#[test]
fn the_limbs_are_little_endian() {
    let x = U256::from_u128(0x0123_4567_89ab_cdef_0011_2233_4455_6677);
    assert_eq!(x.limbs, [0x0011_2233_4455_6677, 0x0123_4567_89ab_cdef, 0, 0]);
    assert_eq!(x.to_u128(), Some(0x0123_4567_89ab_cdef_0011_2233_4455_6677));
    assert_eq!(x.to_u64(), None);
    assert_eq!(U256::from_u128(u128::MAX).to_u128(), Some(u128::MAX));
}

#[test]
fn numbers_above_128_bits_do_not_fit_smaller_types() {
    let x = U256 { limbs: [5, 0, 1, 0] };
    assert_eq!(x.to_u128(), None);
    assert_eq!(x.to_u64(), None);
    assert!(!x.is_zero());
    assert!(U256::zero().is_zero());
}

#[test]
fn the_limbs_agree_with_the_integer_of_ethers() {
    let x = U256::from_u128(123_456_789_012_345_678_901_234_567_890);
    let y = ethers_core::types::U256::from(123_456_789_012_345_678_901_234_567_890u128);
    assert_eq!(x.limbs, y.0);
}

#[test]
fn order_goes_by_the_highest_limb_first() {
    let low = U256 { limbs: [u64::MAX, u64::MAX, u64::MAX, 0] };
    let high = U256 { limbs: [0, 0, 0, 1] };
    assert!(low.lt(&high));
    assert!(!high.lt(&low));
    assert!(low.le(&high));
    assert!(low.le(&low));
    assert!(!low.lt(&low));
    assert!(low.eq(&low));
    assert!(!low.eq(&high));
    let a = U256 { limbs: [9, 1, 0, 0] };
    let b = U256 { limbs: [1, 2, 0, 0] };
    assert!(a.lt(&b));
}
