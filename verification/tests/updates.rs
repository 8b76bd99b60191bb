use triarb::address::Address;
use triarb::reserves::{Reserve, ReserveMap};
use triarb::strategy::update_reserves;
use triarb::uint::U256;
use triarb::updates::{apply_touched_reserves, get_touched_pool_reserves, SyncLog};

fn addr(n: u8) -> Address {
    Address { bytes: [n; 20] }
}

fn word(n: u64) -> Vec<u8> {
    let mut w = vec![0u8; 24];
    w.extend_from_slice(&n.to_be_bytes());
    w
}

fn log(pool: u8, index: Option<u64>, reserve0: u64, reserve1: u64) -> SyncLog {
    let mut data = word(reserve0);
    data.extend(word(reserve1));
    SyncLog { address: addr(pool), transaction_index: index, data }
}

fn pair(map: &ReserveMap, pool: u8) -> Option<(u64, u64)> {
    map.get(&addr(pool)).map(|r| (r.reserve0.to_u64().unwrap(), r.reserve1.to_u64().unwrap()))
}

fn reserve(r0: u64, r1: u64) -> Reserve {
    Reserve { reserve0: U256::from_u64(r0), reserve1: U256::from_u64(r1) }
}

#[test]
fn the_report_with_the_highest_transaction_index_decides() {
    // the logs of pool 1 arrive out of order
    let logs = vec![
        log(1, Some(7), 70, 71),
        log(2, Some(3), 30, 31),
        log(1, Some(9), 90, 91),
        log(1, Some(8), 80, 81),
        log(2, Some(1), 10, 11),
    ];
    let touched = get_touched_pool_reserves(&logs);
    assert_eq!(touched.len(), 2);
    assert_eq!(pair(&touched, 1), Some((90, 91)));
    assert_eq!(pair(&touched, 2), Some((30, 31)));
    assert_eq!(pair(&touched, 3), None);
}

#[test]
fn of_two_reports_with_one_index_the_later_decides() {
    let logs = vec![log(1, Some(4), 1, 2), log(1, Some(4), 3, 4), log(1, Some(2), 5, 6)];
    assert_eq!(pair(&get_touched_pool_reserves(&logs), 1), Some((3, 4)));
}

#[test]
fn a_report_without_index_counts_as_index_zero() {
    let logs = vec![log(1, Some(0), 1, 2), log(1, None, 3, 4)];
    assert_eq!(pair(&get_touched_pool_reserves(&logs), 1), Some((3, 4)));
    let logs = vec![log(1, Some(1), 1, 2), log(1, None, 3, 4)];
    assert_eq!(pair(&get_touched_pool_reserves(&logs), 1), Some((1, 2)));
    let logs = vec![log(1, None, 3, 4)];
    assert_eq!(pair(&get_touched_pool_reserves(&logs), 1), Some((3, 4)));
}

#[test]
fn a_report_that_cannot_be_read_is_passed_over() {
    let mut short = log(1, Some(9), 90, 91);
    short.data.truncate(63);
    let logs = vec![log(1, Some(7), 70, 71), short, SyncLog { address: addr(2), transaction_index: Some(1), data: vec![] }];
    let touched = get_touched_pool_reserves(&logs);
    assert_eq!(touched.len(), 1);
    assert_eq!(pair(&touched, 1), Some((70, 71)));
    assert!(get_touched_pool_reserves(&Vec::new()).keys().is_empty());
}

#[test]
fn reserves_are_read_as_big_endian_words() {
    let mut data = vec![0u8; 64];
    data[0] = 1; // 2^248
    data[31] = 2;
    data[32 + 16] = 3; // 3 * 2^120
    data.extend_from_slice(&[0xee; 5]); // bytes after the two words
    let logs = vec![SyncLog { address: addr(1), transaction_index: Some(0), data }];
    let touched = get_touched_pool_reserves(&logs);
    let r = touched.get(&addr(1)).unwrap();
    assert_eq!(r.reserve0.limbs, [2, 0, 0, 1 << 56]);
    assert_eq!(r.reserve1.to_u128(), Some(3u128 << 120));
}

#[test]
fn only_watched_pools_are_updated() {
    let mut cache = ReserveMap::new();
    cache.insert(addr(1), reserve(1, 1));
    cache.insert(addr(2), reserve(2, 2));
    cache.insert(addr(3), reserve(3, 3));
    let mut touched = ReserveMap::new();
    touched.insert(addr(9), reserve(90, 91));
    touched.insert(addr(3), reserve(30, 31));
    touched.insert(addr(1), reserve(10, 11));
    let pools = apply_touched_reserves(&mut cache, &touched);
    let mut seen: Vec<u8> = pools.iter().map(|a| a.bytes[0]).collect();
    seen.sort();
    assert_eq!(seen, vec![1, 3]);
    assert_eq!(cache.len(), 3);
    assert_eq!(pair(&cache, 1), Some((10, 11)));
    assert_eq!(pair(&cache, 2), Some((2, 2)));
    assert_eq!(pair(&cache, 3), Some((30, 31)));
    assert_eq!(pair(&cache, 9), None);
}

#[test]
fn a_block_without_reports_touches_nothing() {
    let mut cache = ReserveMap::new();
    cache.insert(addr(1), reserve(1, 1));
    assert!(apply_touched_reserves(&mut cache, &ReserveMap::new()).is_empty());
    assert!(update_reserves(&mut cache, &Vec::new()).is_empty());
    assert_eq!(pair(&cache, 1), Some((1, 1)));
}

#[test]
fn the_logs_of_a_block_update_the_cache() {
    let mut cache = ReserveMap::new();
    cache.insert(addr(1), reserve(1, 1));
    cache.insert(addr(2), reserve(2, 2));
    let logs = vec![log(2, Some(5), 50, 51), log(7, Some(1), 70, 71), log(2, Some(6), 60, 61), log(2, Some(2), 20, 21)];
    let pools = update_reserves(&mut cache, &logs);
    assert_eq!(pools.iter().map(|a| a.bytes[0]).collect::<Vec<u8>>(), vec![2]);
    assert_eq!(pair(&cache, 1), Some((1, 1)));
    assert_eq!(pair(&cache, 2), Some((60, 61)));
    assert_eq!(cache.len(), 2);
}
