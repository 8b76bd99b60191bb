use ethers_core::abi::Token;
use triarb::address::Address;
use triarb::paths::{generate_triangular_paths, ArbPath};
use triarb::pools::{DexVariant, Pool};
use triarb::reserves::{Reserve, ReserveMap};
use triarb::block::NewBlock;
use triarb::strategy::{
    block_of, candidates, event_handler, gas_cost_in_quote, gas_cost_in_wei, path_key, path_touched,
    ranked_spreads, should_skip_path, simulation_order, Event, RankedSpread, SkipPaths, ESTIMATED_GAS_USAGE,
    PROBE_AMOUNT, SEARCH_LIMIT, SEARCH_STEP,
};
use triarb::updates::SyncLog;
use triarb::uint::U256;

fn addr(n: u8) -> Address {
    Address { bytes: [n; 20] }
}

fn pool(address: u8, token0: u8, token1: u8, decimals0: u8, decimals1: u8) -> Pool {
    Pool {
        address: addr(address),
        version: DexVariant::UniswapV2,
        token0: addr(token0),
        token1: addr(token1),
        decimals0,
        decimals1,
        fee: 3,
    }
}

const T: u8 = 0xa0;
const A: u8 = 0xa1;
const B: u8 = 0xa2;
const C: u8 = 0xa3;

fn four_pools() -> Vec<Pool> {
    vec![pool(1, T, A, 6, 18), pool(2, A, B, 18, 18), pool(3, B, T, 18, 6), pool(4, A, C, 18, 18)]
}

fn reserve(r0: u128, r1: u128) -> Reserve {
    Reserve { reserve0: U256::from_u128(r0), reserve1: U256::from_u128(r1) }
}

fn reserves() -> ReserveMap {
    let mut map = ReserveMap::new();
    map.insert(addr(1), reserve(10_000_000_000, 20_000_000_000_000_000_000_000));
    map.insert(addr(2), reserve(10_000_000_000_000_000_000_000, 10_000_000_000_000_000_000_000));
    map.insert(addr(3), reserve(10_000_000_000_000_000_000_000, 6_000_000_000));
    map.insert(addr(4), reserve(10_000_000_000_000_000_000_000, 10_000_000_000_000_000_000_000));
    map
}

fn paths() -> Vec<ArbPath> {
    generate_triangular_paths(&four_pools(), addr(T))
}

#[test]
fn one_profitable_cycle_is_ranked_and_sized() {
    let paths = paths();
    assert_eq!(paths.len(), 2);
    let reserves = reserves();
    // for one token in, the cycle gives more than it takes
    let out = paths[0].simulate_v2_path(U256::from_u64(1), &reserves).unwrap().to_u64().unwrap();
    assert!(out > 1_000_000);
    let ranked = ranked_spreads(&paths, &reserves, &vec![addr(2)]);
    assert_eq!(ranked.len(), 1);
    assert_eq!(ranked[0].path_index, 0);
    assert_eq!(ranked[0].spread.to_u64(), Some(188_641));
    let chosen = candidates(&paths, &reserves, &ranked, U256::from_u64(1_000_000));
    assert_eq!(chosen.len(), 1);
    let trade = &chosen[0];
    assert_eq!(trade.path_index, 0);
    assert!(!trade.amount_in.is_zero());
    assert_eq!(trade.amount_in.to_u64(), Some(180));
    assert_eq!(trade.profit.to_u64(), Some(16_493_843));
    // the profit of the best input is at least that of the probe amount
    assert!(trade.profit.to_u64().unwrap() >= ranked[0].spread.to_u64().unwrap());
    assert_eq!(trade.expected_amount_out.to_u64(), Some(180_000_000 + 16_493_843));
    assert_eq!(trade.estimated_gas_cost.to_u64(), Some(1_000_000));
}

#[test]
fn only_touched_paths_are_ranked() {
    let paths = paths();
    let reserves = reserves();
    assert!(ranked_spreads(&paths, &reserves, &Vec::new()).is_empty());
    // the pool of A and C is in no path
    assert!(ranked_spreads(&paths, &reserves, &vec![addr(4)]).is_empty());
    assert!(path_touched(&paths[0], &vec![addr(4), addr(3)]));
    assert!(path_touched(&paths[1], &vec![addr(1)]));
    assert!(!path_touched(&paths[0], &vec![addr(4)]));
    assert!(!path_touched(&paths[0], &Vec::new()));
    assert_eq!(ranked_spreads(&paths, &reserves, &vec![addr(1), addr(2), addr(3)]).len(), 1);
}

#[test]
fn the_larger_spread_comes_first() {
    // three cycles on T with different edges, each over its own pools
    let mut pools = Vec::new();
    let mut reserves = ReserveMap::new();
    for (i, back) in [(0u8, 5_600_000_000u128), (1, 6_400_000_000), (2, 4_000_000_000), (3, 6_000_000_000)] {
        let a = 0x40 + 2 * i;
        let b = 0x41 + 2 * i;
        let first = 10 + 3 * i;
        pools.push(pool(first, T, a, 6, 18));
        pools.push(pool(first + 1, a, b, 18, 18));
        pools.push(pool(first + 2, b, T, 18, 6));
        reserves.insert(addr(first), reserve(10_000_000_000, 20_000_000_000_000_000_000_000));
        reserves.insert(addr(first + 1), reserve(10_000_000_000_000_000_000_000, 10_000_000_000_000_000_000_000));
        reserves.insert(addr(first + 2), reserve(10_000_000_000_000_000_000_000, back));
    }
    let paths = generate_triangular_paths(&pools, addr(T));
    assert_eq!(paths.len(), 8);
    let touched: Vec<Address> = pools.iter().map(|p| p.address).collect();
    let ranked = ranked_spreads(&paths, &reserves, &touched);
    // of each cycle one direction gains: of the cycle with the back reserve of
    // 4_000_000_000 it is the backward one, which starts at pool 18
    assert_eq!(ranked.len(), 4);
    let spreads: Vec<u64> = ranked.iter().map(|r| r.spread.to_u64().unwrap()).collect();
    assert_eq!(spreads, vec![267_884, 238_014, 188_641, 109_399]);
    let firsts: Vec<u8> = ranked.iter().map(|r| paths[r.path_index].pool_1.address.bytes[0]).collect();
    assert_eq!(firsts, vec![13, 18, 19, 10]);
    for r in &ranked {
        let out = paths[r.path_index].simulate_v2_path(U256::from_u64(PROBE_AMOUNT), &reserves).unwrap();
        assert_eq!(out.to_u64().unwrap() - 1_000_000, r.spread.to_u64().unwrap());
    }
}

#[test]
fn a_trade_must_earn_more_than_its_gas() {
    let paths = paths();
    let reserves = reserves();
    let ranked = vec![RankedSpread { path_index: 0, spread: U256::from_u64(188_641) }];
    assert_eq!(candidates(&paths, &reserves, &ranked, U256::from_u64(16_493_842)).len(), 1);
    // a profit that only pays the gas is no profit
    assert!(candidates(&paths, &reserves, &ranked, U256::from_u64(16_493_843)).is_empty());
    assert!(candidates(&paths, &reserves, &ranked, U256::from_u64(1 << 40)).is_empty());
    assert!(candidates(&paths, &reserves, &Vec::new(), U256::zero()).is_empty());
    // the losing direction has a best input of nothing with a profit of nothing
    let losing = vec![RankedSpread { path_index: 1, spread: U256::one() }];
    assert!(candidates(&paths, &reserves, &losing, U256::zero()).is_empty());
    assert_eq!((SEARCH_LIMIT, SEARCH_STEP), (1000, 10));
}

#[test]
fn candidates_keep_the_order_of_the_ranking() {
    let paths = paths();
    let reserves = reserves();
    let ranked = vec![
        RankedSpread { path_index: 1, spread: U256::from_u64(9) },
        RankedSpread { path_index: 0, spread: U256::from_u64(5) },
        RankedSpread { path_index: 0, spread: U256::from_u64(3) },
    ];
    let chosen = candidates(&paths, &reserves, &ranked, U256::zero());
    assert_eq!(chosen.iter().map(|c| c.path_index).collect::<Vec<usize>>(), vec![0, 0]);
}

#[test]
fn gas_is_priced_at_the_next_base_fee() {
    assert_eq!(ESTIMATED_GAS_USAGE, 550000);
    let cost = gas_cost_in_wei(U256::from_u64(30_000_000_000), ESTIMATED_GAS_USAGE).unwrap();
    assert_eq!(cost.to_u64(), Some(16_500_000_000_000_000));
    assert!(gas_cost_in_wei(U256 { limbs: [0, 0, 0, 1 << 63] }, 2).is_none());
    assert!(gas_cost_in_wei(U256::zero(), u64::MAX).unwrap().is_zero());
}

#[test]
fn gas_is_turned_into_the_quote_token_at_the_reference_price() {
    // 2000 quote tokens of six decimals for one coin of eighteen:
    // 0.0165 coins cost 33 quote tokens
    let reference = reserve(20_000_000_000_000, 10_000_000_000_000_000_000_000);
    let cost = gas_cost_in_quote(U256::from_u64(16_500_000_000_000_000), &reference, true).unwrap();
    assert_eq!(cost.to_u64(), Some(33_000_000));
    let turned = reserve(10_000_000_000_000_000_000_000, 20_000_000_000_000);
    let cost = gas_cost_in_quote(U256::from_u64(16_500_000_000_000_000), &turned, false).unwrap();
    assert_eq!(cost.to_u64(), Some(33_000_000));
    // rounded down
    assert_eq!(gas_cost_in_quote(U256::from_u64(10), &reserve(1, 3), true).unwrap().to_u64(), Some(3));
    // an empty reference pool has no price
    assert!(gas_cost_in_quote(U256::from_u64(10), &reserve(5, 0), true).is_none());
    assert!(gas_cost_in_quote(U256::from_u64(10), &reserve(0, 5), false).is_none());
    assert_eq!(gas_cost_in_quote(U256::from_u64(10), &reserve(0, 5), true).unwrap().to_u64(), Some(0));
    let max = U256 { limbs: [u64::MAX; 4] };
    assert!(gas_cost_in_quote(max, &reserve(2, 1), true).is_none());
}

#[test]
fn a_path_is_named_by_its_pools() {
    let paths = paths();
    assert_eq!(
        path_key(&paths[0]),
        "0x0101010101010101010101010101010101010101_0x0202020202020202020202020202020202020202_0x0303030303030303030303030303030303030303"
    );
    let mut marks = SkipPaths::new();
    assert!(!should_skip_path(&marks, &paths[0]));
    marks.mark(&paths[0], true);
    marks.mark(&paths[1], false);
    assert!(should_skip_path(&marks, &paths[0]));
    assert!(!should_skip_path(&marks, &paths[1]));
    marks.mark(&paths[0], false);
    assert!(!should_skip_path(&marks, &paths[0]));
}

#[test]
fn an_order_for_the_simulator_is_scaled_and_without_lender() {
    let paths = paths();
    let routers = vec![addr(0x51), addr(0x52), addr(0x53)];
    let (amount, data) = simulation_order(&paths[0], &routers, 18, U256::from_u64(2)).unwrap();
    assert_eq!(amount.to_u64(), Some(2_000_000_000_000_000_000));
    let h = |n: u8| Token::Address(ethers_core::types::H160([n; 20]));
    let expected = ethers_core::abi::encode(&[
        Token::Uint(ethers_core::types::U256::from(2_000_000_000_000_000_000u64)),
        Token::Uint(ethers_core::types::U256::zero()),
        Token::Address(ethers_core::types::H160::zero()),
        h(0x51),
        h(T),
        h(A),
        h(0x52),
        h(A),
        h(B),
        h(0x53),
        h(B),
        h(T),
    ]);
    assert_eq!(data, expected);
    assert!(simulation_order(&paths[0], &routers, 78, U256::from_u64(1)).is_none());
    assert!(simulation_order(&paths[0], &routers, 77, U256::from_u64(12)).is_none());
    assert!(simulation_order(&paths[0], &routers, 77, U256::from_u64(2)).is_none());
    assert!(simulation_order(&paths[0], &routers, 77, U256::from_u64(1)).is_some());
}

fn block(next_base_fee: u64) -> NewBlock {
    NewBlock {
        number: 17_000_000,
        base_fee_per_gas: U256::from_u64(next_base_fee),
        next_base_fee: U256::from_u64(next_base_fee),
        timestamp: U256::from_u64(1_700_000_000),
        gas_used: U256::from_u64(15_000_000),
        gas_limit: U256::from_u64(30_000_000),
    }
}

fn report(pool: u8, index: u64, reserve0: u128, reserve1: u128) -> SyncLog {
    let mut data = vec![0u8; 16];
    data.extend_from_slice(&reserve0.to_be_bytes());
    data.extend(vec![0u8; 16]);
    data.extend_from_slice(&reserve1.to_be_bytes());
    SyncLog { address: addr(pool), transaction_index: Some(index), data }
}

/// A cache that also watches a reference pool of the quote token and the
/// native token: 2000 quote tokens of six decimals for a coin.
fn cache_with_reference() -> ReserveMap {
    let mut map = reserves();
    map.insert(addr(9), reserve(20_000_000_000_000, 10_000_000_000_000_000_000_000));
    map
}

#[test]
fn a_block_is_handled_from_reports_to_candidates() {
    let paths = paths();
    let mut cache = cache_with_reference();
    // before the block the third pool gives no edge; its report in the block brings one.
    cache.insert(addr(3), reserve(10_000_000_000_000_000_000_000, 5_000_000_000));
    assert!(ranked_spreads(&paths, &cache, &vec![addr(3)]).is_empty());
    let logs = vec![
        report(3, 4, 10_000_000_000_000_000_000_000, 5_500_000_000),
        report(3, 9, 10_000_000_000_000_000_000_000, 6_000_000_000),
        report(0x77, 1, 5, 5),
    ];
    // base fee of 1 gwei: 550_000 gwei of gas cost 1_100_000 units of the quote token
    let handled = event_handler(&Event::Block(block(1_000_000_000)), &logs, &paths, &mut cache, &addr(9), true).unwrap();
    assert_eq!(handled.touched_pools.iter().map(|a| a.bytes[0]).collect::<Vec<u8>>(), vec![3]);
    assert_eq!(cache.get(&addr(3)).unwrap().reserve1.to_u64(), Some(6_000_000_000));
    assert_eq!(cache.len(), 5);
    assert!(!cache.contains_key(&addr(0x77)));
    assert_eq!(handled.ranked.len(), 1);
    assert_eq!(handled.ranked[0].path_index, 0);
    assert_eq!(handled.ranked[0].spread.to_u64(), Some(188_641));
    let chosen = handled.candidates.unwrap();
    assert_eq!(chosen.len(), 1);
    assert_eq!(chosen[0].amount_in.to_u64(), Some(180));
    assert_eq!(chosen[0].profit.to_u64(), Some(16_493_843));
    assert_eq!(chosen[0].estimated_gas_cost.to_u64(), Some(1_100_000));
}

#[test]
fn gas_that_costs_more_than_the_profit_leaves_no_candidate() {
    let paths = paths();
    let mut cache = cache_with_reference();
    let logs = vec![report(2, 1, 10_000_000_000_000_000_000_000, 10_000_000_000_000_000_000_000)];
    // base fee of 20 gwei: the gas costs 22_000_000 units, the best profit is 16_493_843
    let handled = event_handler(&Event::Block(block(20_000_000_000)), &logs, &paths, &mut cache, &addr(9), true).unwrap();
    assert_eq!(handled.ranked.len(), 1);
    assert!(handled.candidates.unwrap().is_empty());
}

#[test]
fn without_a_price_for_gas_a_block_is_ranked_but_not_picked_from() {
    let paths = paths();
    let mut cache = reserves();
    let logs = vec![report(1, 1, 10_000_000_000, 20_000_000_000_000_000_000_000)];
    // the reference pool is not watched
    let handled = event_handler(&Event::Block(block(1_000_000_000)), &logs, &paths, &mut cache, &addr(9), true).unwrap();
    assert_eq!(handled.touched_pools.len(), 1);
    assert_eq!(handled.ranked.len(), 1);
    assert!(handled.candidates.is_none());
    // the reference pool has no reserve of the native token
    let mut cache = reserves();
    cache.insert(addr(9), reserve(5, 0));
    let handled = event_handler(&Event::Block(block(1_000_000_000)), &logs, &paths, &mut cache, &addr(9), true).unwrap();
    assert!(handled.candidates.is_none());
}

#[test]
fn a_block_without_reports_touches_no_path() {
    let paths = paths();
    let mut cache = cache_with_reference();
    let handled = event_handler(&Event::Block(block(1)), &Vec::new(), &paths, &mut cache, &addr(9), true).unwrap();
    assert!(handled.touched_pools.is_empty());
    assert!(handled.ranked.is_empty());
    assert!(handled.candidates.unwrap().is_empty());
}

#[test]
fn other_events_change_nothing() {
    let paths = paths();
    let mut cache = cache_with_reference();
    let logs = vec![report(3, 1, 1, 1)];
    for event in [Event::PendingTx(vec![1, 2, 3]), Event::Log(report(3, 1, 1, 1))] {
        assert!(block_of(&event).is_none());
        assert!(event_handler(&event, &logs, &paths, &mut cache, &addr(9), true).is_none());
        assert_eq!(cache.get(&addr(3)).unwrap().reserve1.to_u64(), Some(6_000_000_000));
    }
    assert_eq!(block_of(&Event::Block(block(5))).unwrap().number, 17_000_000);
}
