use std::str::FromStr;
use triarb::address::Address;

const USDC: &str = "0xA0b86991c6218b36c1d19D4a2e9Eb0cE3606eB48";

fn usdc_bytes() -> [u8; 20] {
    [
        0xA0, 0xb8, 0x69, 0x91, 0xc6, 0x21, 0x8b, 0x36, 0xc1, 0xd1, 0x9D, 0x4a, 0x2e, 0x9E, 0xb0, 0xcE, 0x36, 0x06,
        0xeB, 0x48,
    ]
}

#[test]
fn reads_an_address_with_prefix_and_mixed_case() {
    assert_eq!(Address::from_str(USDC).unwrap().bytes, usdc_bytes());
}

#[test]
fn reads_an_address_without_prefix() {
    assert_eq!(Address::from_str("a0b86991c6218b36c1d19d4a2e9eb0ce3606eb48").unwrap().bytes, usdc_bytes());
    assert_eq!(Address::from_str("A0B86991C6218B36C1D19D4A2E9EB0CE3606EB48").unwrap().bytes, usdc_bytes());
}

#[test]
fn blanks_among_the_digits_are_passed_over() {
    assert_eq!(Address::from_str("0xa0b86991 c6218b36\tc1d19d4a\r\n2e9eb0ce 3606eb48 ").unwrap().bytes, usdc_bytes());
}

#[test]
fn rejects_what_is_no_address() {
    assert!(Address::from_str("").is_none());
    assert!(Address::from_str("0x").is_none());
    // 39 and 41 digits
    assert!(Address::from_str("0xa0b86991c6218b36c1d19d4a2e9eb0ce3606eb4").is_none());
    assert!(Address::from_str("0xa0b86991c6218b36c1d19d4a2e9eb0ce3606eb480").is_none());
    // a character that is no digit, before and after the fortieth digit
    assert!(Address::from_str("0xg0b86991c6218b36c1d19d4a2e9eb0ce3606eb48").is_none());
    assert!(Address::from_str("0xa0b86991c6218b36c1d19d4a2e9eb0ce3606eb48!").is_none());
    // the prefix is taken off once, and only in lower case
    assert!(Address::from_str("0x0xa0b86991c6218b36c1d19d4a2e9eb0ce3606eb48").is_none());
    assert!(Address::from_str("0Xa0b86991c6218b36c1d19d4a2e9eb0ce3606eb48").is_none());
    assert!(Address::from_str("0xa0b86991c6218b36c1d19d4a2e9eb0ce3606eb4é").is_none());
}

#[test]
fn writes_an_address_in_lower_case_with_prefix() {
    let a = Address { bytes: usdc_bytes() };
    assert_eq!(a.to_hex(), "0xa0b86991c6218b36c1d19d4a2e9eb0ce3606eb48");
    assert_eq!(Address::zero().to_hex(), "0x0000000000000000000000000000000000000000");
    assert_eq!(Address { bytes: [0xff; 20] }.to_hex(), "0xffffffffffffffffffffffffffffffffffffffff");
}

#[test]
fn reading_back_what_was_written_gives_the_address_again() {
    let mut bytes = [0u8; 20];
    for round in 0..50u32 {
        for (i, b) in bytes.iter_mut().enumerate() {
            *b = (round.wrapping_mul(37).wrapping_add(i as u32 * 11) % 256) as u8;
        }
        let a = Address { bytes };
        assert_eq!(Address::from_str(&a.to_hex()).unwrap().bytes, bytes);
    }
}

#[test]
fn text_and_reading_agree_with_the_address_of_ethers() {
    let theirs = ethers_core::types::H160::from_str(USDC).unwrap();
    let ours = Address::from_str(USDC).unwrap();
    assert_eq!(ours.bytes, theirs.0);
    assert_eq!(ours.to_hex(), format!("{:?}", theirs));
    for text in ["", "0x12", "0xa0b86991 c6218b36 c1d19d4a 2e9eb0ce 3606eb48", "zz", "0xa0b86991c6218b36c1d19d4a2e9eb0ce3606eb4 8x"] {
        let theirs = ethers_core::types::H160::from_str(text).ok().map(|h| h.0);
        let ours = Address::from_str(text).map(|a| a.bytes);
        assert_eq!(ours, theirs);
    }
}

#[test]
fn addresses_compare_by_their_bytes() {
    let a = Address { bytes: usdc_bytes() };
    let mut other = usdc_bytes();
    other[19] ^= 1;
    assert!(a.eq(&Address { bytes: usdc_bytes() }));
    assert!(!a.eq(&Address { bytes: other }));
    assert!(!a.eq(&Address::zero()));
}
