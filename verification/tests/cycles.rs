use triarb::address::Address;
use triarb::paths::{contains_address, generate_triangular_paths, prune_blacklisted, watched_pools, ArbPath};
use triarb::pools::{DexVariant, Pool};
use triarb::reserves::{Reserve, ReserveMap};
use triarb::uint::U256;

fn addr(n: u8) -> Address {
    Address { bytes: [n; 20] }
}

fn pool(address: u8, token0: u8, token1: u8, decimals0: u8, decimals1: u8) -> Pool {
    Pool {
        address: addr(address),
        version: DexVariant::UniswapV2,
        token0: addr(token0),
        token1: addr(token1),
        decimals0,
        decimals1,
        fee: 3,
    }
}

const T: u8 = 0xa0;
const A: u8 = 0xa1;
const B: u8 = 0xa2;
const C: u8 = 0xa3;

/// Four pools: T/A, A/B and B/T close a cycle on T, A/C leads nowhere.
fn four_pools() -> Vec<Pool> {
    vec![pool(1, T, A, 6, 18), pool(2, A, B, 18, 18), pool(3, B, T, 18, 6), pool(4, A, C, 18, 18)]
}

fn reserve(r0: u128, r1: u128) -> Reserve {
    Reserve { reserve0: U256::from_u128(r0), reserve1: U256::from_u128(r1) }
}

/// Reserves at which T -> A -> B -> T gives more than it takes.
fn reserves() -> ReserveMap {
    let mut map = ReserveMap::new();
    map.insert(addr(1), reserve(10_000_000_000, 20_000_000_000_000_000_000_000));
    map.insert(addr(2), reserve(10_000_000_000_000_000_000_000, 10_000_000_000_000_000_000_000));
    map.insert(addr(3), reserve(10_000_000_000_000_000_000_000, 6_000_000_000));
    map
}

fn tokens(path: &ArbPath) -> [(Address, Address); 3] {
    let side = |p: &Pool, zero_for_one: bool| if zero_for_one { (p.token0, p.token1) } else { (p.token1, p.token0) };
    [
        side(&path.pool_1, path.zero_for_one_1),
        side(&path.pool_2, path.zero_for_one_2),
        side(&path.pool_3, path.zero_for_one_3),
    ]
}

#[test]
fn one_cycle_gives_a_path_in_each_direction() {
    let paths = generate_triangular_paths(&four_pools(), addr(T));
    assert_eq!(paths.len(), 2);
    // ordered by the places of the pools: T/A first, then B/T first
    let forward = &paths[0];
    assert_eq!(
        [forward.pool_1.address.bytes[0], forward.pool_2.address.bytes[0], forward.pool_3.address.bytes[0]],
        [1, 2, 3]
    );
    assert_eq!((forward.zero_for_one_1, forward.zero_for_one_2, forward.zero_for_one_3), (true, true, true));
    let backward = &paths[1];
    assert_eq!(
        [backward.pool_1.address.bytes[0], backward.pool_2.address.bytes[0], backward.pool_3.address.bytes[0]],
        [3, 2, 1]
    );
    assert_eq!((backward.zero_for_one_1, backward.zero_for_one_2, backward.zero_for_one_3), (false, false, false));
    for path in &paths {
        assert_eq!(path.nhop, 3);
    }
}

#[test]
fn every_generated_path_is_a_closed_cycle_over_three_pools() {
    // a denser graph: five tokens, every pair has a pool
    let mut pools = Vec::new();
    let mut n = 1u8;
    for x in 0..5u8 {
        for y in (x + 1)..5u8 {
            // every other pool has its tokens the other way round
            if n % 2 == 0 {
                pools.push(pool(n, 0xa0 + y, 0xa0 + x, 18, 18));
            } else {
                pools.push(pool(n, 0xa0 + x, 0xa0 + y, 18, 18));
            }
            n += 1;
        }
    }
    let paths = generate_triangular_paths(&pools, addr(T));
    // T to one of 4 tokens, on to one of the other 3, and back: 12 cycles
    assert_eq!(paths.len(), 12);
    for path in &paths {
        let hops = tokens(path);
        assert_eq!(hops[0].0.bytes, addr(T).bytes);
        assert_eq!(hops[0].1.bytes, hops[1].0.bytes);
        assert_eq!(hops[1].1.bytes, hops[2].0.bytes);
        assert_eq!(hops[2].1.bytes, hops[0].0.bytes);
        assert_ne!(path.pool_1.address.bytes, path.pool_2.address.bytes);
        assert_ne!(path.pool_1.address.bytes, path.pool_3.address.bytes);
        assert_ne!(path.pool_2.address.bytes, path.pool_3.address.bytes);
    }
    // no path twice
    for a in 0..paths.len() {
        for b in (a + 1)..paths.len() {
            let key = |p: &ArbPath| (p.pool_1.address.bytes, p.pool_2.address.bytes, p.pool_3.address.bytes);
            assert_ne!(key(&paths[a]), key(&paths[b]));
        }
    }
}

#[test]
fn a_pool_cannot_stand_twice_in_a_path() {
    // two pools T/A: T -> A -> T -> ... would need one of them twice or a third hop that is none
    let pools = vec![pool(1, T, A, 6, 18), pool(2, T, A, 6, 18)];
    assert!(generate_triangular_paths(&pools, addr(T)).is_empty());
    // a third pool T/T closes T -> A -> T -> T
    let pools = vec![pool(1, T, A, 6, 18), pool(2, T, A, 6, 18), pool(3, T, T, 6, 6)];
    let paths = generate_triangular_paths(&pools, addr(T));
    for path in &paths {
        assert_ne!(path.pool_1.address.bytes, path.pool_2.address.bytes);
        assert_ne!(path.pool_1.address.bytes, path.pool_3.address.bytes);
        assert_ne!(path.pool_2.address.bytes, path.pool_3.address.bytes);
    }
    // the pool of T alone stands last after the two others, or first before them
    assert_eq!(paths.len(), 4);
}

#[test]
fn no_pools_or_no_base_token_give_no_paths() {
    assert!(generate_triangular_paths(&Vec::new(), addr(T)).is_empty());
    assert!(generate_triangular_paths(&four_pools(), addr(0x77)).is_empty());
    // C is held by one pool only
    assert!(generate_triangular_paths(&four_pools(), addr(C)).is_empty());
}

#[test]
fn the_third_hop_sells_what_the_second_bought() {
    // the last pool holds the base token as token0 and B as token1: it sells its token1
    let pools = vec![pool(1, T, A, 6, 18), pool(2, A, B, 18, 18), pool(3, T, B, 6, 18)];
    let paths = generate_triangular_paths(&pools, addr(T));
    assert_eq!(paths.len(), 2);
    assert_eq!(paths[0].pool_3.address.bytes, addr(3).bytes);
    assert!(!paths[0].zero_for_one_3);
    assert_eq!(paths[1].pool_1.address.bytes, addr(3).bytes);
    assert!(paths[1].zero_for_one_1);
}

#[test]
fn a_path_knows_its_pools() {
    let paths = generate_triangular_paths(&four_pools(), addr(T));
    let path = &paths[0];
    assert!(path.has_pool(&addr(1)));
    assert!(path.has_pool(&addr(2)));
    assert!(path.has_pool(&addr(3)));
    assert!(!path.has_pool(&addr(4)));
    assert_eq!(path._get_pool(0).address.bytes, addr(1).bytes);
    assert_eq!(path._get_pool(1).address.bytes, addr(2).bytes);
    assert_eq!(path._get_pool(2).address.bytes, addr(3).bytes);
    assert!(path._get_zero_for_one(0));
    assert!(!paths[1]._get_zero_for_one(2));
}

#[test]
fn a_blacklisted_token_in_any_pool_marks_the_path() {
    let paths = generate_triangular_paths(&four_pools(), addr(T));
    let path = &paths[0];
    assert!(!path.should_blacklist(&Vec::new()));
    assert!(!path.should_blacklist(&vec![addr(C)]));
    // T and A are in the first pool, B is in the second and third only
    assert!(path.should_blacklist(&vec![addr(A)]));
    assert!(path.should_blacklist(&vec![addr(C), addr(B)]));
    assert!(path.should_blacklist(&vec![addr(T)]));
    assert!(contains_address(&vec![addr(1), addr(2)], &addr(2)));
    assert!(!contains_address(&vec![addr(1), addr(2)], &addr(3)));
}

#[test]
fn hops_go_to_the_contract_with_their_routers() {
    let paths = generate_triangular_paths(&four_pools(), addr(T));
    let routers = vec![addr(0x51), addr(0x52), addr(0x53)];
    let params = paths[1].to_path_params(&routers);
    assert_eq!(params.len(), 3);
    let seen: Vec<(u8, u8, u8)> =
        params.iter().map(|p| (p.router.bytes[0], p.token_in.bytes[0], p.token_out.bytes[0])).collect();
    assert_eq!(seen, vec![(0x51, T, B), (0x52, B, A), (0x53, A, T)]);
}

#[test]
fn prices_a_path_hop_by_hop() {
    let paths = generate_triangular_paths(&four_pools(), addr(T));
    let reserves = reserves();
    // one token of six decimals in: 1_000_000 units
    assert_eq!(paths[0].simulate_v2_path(U256::from_u64(1), &reserves).unwrap().to_u64(), Some(1_188_641));
    assert_eq!(paths[1].simulate_v2_path(U256::from_u64(1), &reserves).unwrap().to_u64().is_some(), true);
    assert_eq!(paths[0].simulate_v2_path(U256::from_u64(10), &reserves).unwrap().to_u64(), Some(11_833_545));
    assert_eq!(paths[0].simulate_v2_path(U256::from_u64(300), &reserves).unwrap().to_u64(), Some(310_501_248));
    assert_eq!(paths[0].simulate_v2_path(U256::zero(), &reserves).unwrap().to_u64(), Some(0));
}

#[test]
fn a_pool_without_reserves_gives_no_quote() {
    let paths = generate_triangular_paths(&four_pools(), addr(T));
    let mut partial = ReserveMap::new();
    partial.insert(addr(1), reserve(10_000_000_000, 20_000_000_000_000_000_000_000));
    partial.insert(addr(2), reserve(10_000_000_000_000_000_000_000, 10_000_000_000_000_000_000_000));
    assert!(paths[0].simulate_v2_path(U256::from_u64(1), &partial).is_none());
    assert!(paths[0].simulate_v2_path(U256::from_u64(1), &ReserveMap::new()).is_none());
    assert!(paths[0].positive_spread(U256::from_u64(1), &partial).is_none());
}

#[test]
fn decimals_that_leave_256_bits_give_no_quote() {
    let mut pools = four_pools();
    // ten to the 78th does not fit in 256 bits
    pools[0].decimals0 = 78;
    let paths = generate_triangular_paths(&pools, addr(T));
    assert!(paths[0].simulate_v2_path(U256::from_u64(1), &reserves()).is_none());
    assert!(paths[0].simulate_v2_path(U256::zero(), &reserves()).is_none());
    // ten to the 77th fits, and nothing of it is nothing
    pools[0].decimals0 = 77;
    let paths = generate_triangular_paths(&pools, addr(T));
    assert_eq!(paths[0].simulate_v2_path(U256::zero(), &reserves()).unwrap().to_u64(), Some(0));
    // one token of 77 decimals leaves 256 bits in the first hop
    assert!(paths[0].simulate_v2_path(U256::from_u64(1), &reserves()).is_none());
    // two tokens of 77 decimals leave 256 bits when scaled
    assert!(paths[0].simulate_v2_path(U256::from_u64(2), &reserves()).is_none());
    pools[0].decimals0 = 50;
    let paths = generate_triangular_paths(&pools, addr(T));
    assert!(paths[0].simulate_v2_path(U256::from_u64(1), &reserves()).is_some());
}

#[test]
fn the_spread_is_what_comes_out_above_what_went_in() {
    let paths = generate_triangular_paths(&four_pools(), addr(T));
    let reserves = reserves();
    assert_eq!(paths[0].positive_spread(U256::from_u64(1), &reserves).unwrap().to_u64(), Some(188_641));
    // the other direction loses
    assert!(paths[1].positive_spread(U256::from_u64(1), &reserves).is_none());
    // nothing in, nothing gained
    assert!(paths[0].positive_spread(U256::zero(), &reserves).is_none());
}

#[test]
fn the_search_stops_at_the_first_fall_of_the_profit() {
    let paths = generate_triangular_paths(&four_pools(), addr(T));
    let reserves = reserves();
    let (amount_in, profit) = paths[0].optimize_amount_in(U256::from_u64(1000), 10, &reserves);
    assert_eq!(amount_in.to_u64(), Some(180));
    assert_eq!(profit.to_u64(), Some(16_493_843));
    // the losing direction: the profit falls at the first step
    let (amount_in, profit) = paths[1].optimize_amount_in(U256::from_u64(1000), 10, &reserves);
    assert_eq!((amount_in.to_u64(), profit.to_u64()), (Some(0), Some(0)));
}

#[test]
fn the_search_stays_below_the_largest_input() {
    let paths = generate_triangular_paths(&four_pools(), addr(T));
    let reserves = reserves();
    // the largest input itself is not tried: 0, 10, ..., 90
    let (amount_in, _) = paths[0].optimize_amount_in(U256::from_u64(100), 10, &reserves);
    assert_eq!(amount_in.to_u64(), Some(90));
    let (amount_in, profit) = paths[0].optimize_amount_in(U256::zero(), 10, &reserves);
    assert_eq!((amount_in.to_u64(), profit.to_u64()), (Some(0), Some(0)));
    // a step above the largest input tries zero only
    let (amount_in, profit) = paths[0].optimize_amount_in(U256::from_u64(5), 10, &reserves);
    assert_eq!((amount_in.to_u64(), profit.to_u64()), (Some(0), Some(0)));
}

#[test]
fn an_input_without_quote_is_passed_over_by_the_search() {
    let paths = generate_triangular_paths(&four_pools(), addr(T));
    let (amount_in, profit) = paths[0].optimize_amount_in(U256::from_u64(1000), 10, &ReserveMap::new());
    assert_eq!((amount_in.to_u64(), profit.to_u64()), (Some(0), Some(0)));
}

#[test]
fn the_profit_rises_to_one_peak_and_falls_after_it() {
    let paths = generate_triangular_paths(&four_pools(), addr(T));
    let path = &paths[0];
    for (r1, r3) in [
        (10_000_000_000u128, 6_000_000_000u128),
        (10_000_000_000, 5_500_000_000),
        (5_000_000_000, 3_000_000_000),
        (20_000_000_000, 12_000_000_000),
        (1_000_000_000, 2_000_000_000),
    ] {
        let mut reserves = ReserveMap::new();
        reserves.insert(addr(1), reserve(r1, 2 * r1 * 1_000_000_000_000));
        reserves.insert(addr(2), reserve(r1 * 1_000_000_000_000, r1 * 1_000_000_000_000));
        reserves.insert(addr(3), reserve(r1 * 1_000_000_000_000, r3));
        let mut profits: Vec<i128> = Vec::new();
        let mut amount = 0u64;
        while amount < 1000 {
            let out = path.simulate_v2_path(U256::from_u64(amount), &reserves).unwrap().to_u128().unwrap();
            profits.push(out as i128 - amount as i128 * 1_000_000);
            amount += 10;
        }
        let peak = (0..profits.len()).max_by_key(|i| (profits[*i], *i)).unwrap();
        assert!((0..peak).all(|i| profits[i] <= profits[i + 1]));
        assert!((peak..profits.len() - 1).all(|i| profits[i] >= profits[i + 1]));
        let (best, profit) = path.optimize_amount_in(U256::from_u64(1000), 10, &reserves);
        assert_eq!(best.to_u64(), Some(peak as u64 * 10));
        assert_eq!(profit.to_u128(), Some(profits[peak] as u128));
    }
}

#[test]
fn blacklisted_tokens_take_their_paths_out() {
    let mut pools = four_pools();
    // a second cycle T -> C -> B -> T over pools of its own
    pools.push(pool(5, T, C, 6, 18));
    pools.push(pool(6, C, B, 18, 18));
    pools.push(pool(7, B, T, 18, 6));
    let paths = generate_triangular_paths(&pools, addr(T));
    let through_c = paths.iter().filter(|p| p.has_pool(&addr(5)) || p.has_pool(&addr(6))).count();
    assert!(through_c > 0 && through_c < paths.len());
    let kept = prune_blacklisted(&paths, &vec![addr(C)]);
    assert_eq!(kept.len(), paths.len() - through_c);
    assert!(kept.iter().all(|p| !p.has_pool(&addr(5)) && !p.has_pool(&addr(6))));
    // the order of the others stays
    let expected: Vec<[u8; 20]> =
        paths.iter().filter(|p| !p.should_blacklist(&vec![addr(C)])).map(|p| p.pool_1.address.bytes).collect();
    assert_eq!(kept.iter().map(|p| p.pool_1.address.bytes).collect::<Vec<[u8; 20]>>(), expected);
    assert_eq!(prune_blacklisted(&paths, &Vec::new()).len(), paths.len());
    assert!(prune_blacklisted(&paths, &vec![addr(T)]).is_empty());
}

#[test]
fn the_pools_of_the_paths_are_watched_each_once() {
    let paths = generate_triangular_paths(&four_pools(), addr(T));
    let watched = watched_pools(&paths);
    let mut addresses: Vec<u8> = watched.iter().map(|p| p.address.bytes[0]).collect();
    assert_eq!(addresses, vec![1, 2, 3]);
    addresses.dedup();
    assert_eq!(addresses.len(), 3);
    assert!(watched_pools(&Vec::new()).is_empty());
}
