//! Reserve updates from the logs of one block.
//!
//! A pool may report its reserves several times in a block. The report of the
//! transaction with the highest index decides, whatever the order in which
//! the logs arrive; of two reports with the same index the later log decides.

use crate::abi::{abi_decode_uints, be_value, word_at};
use crate::address::Address;
use crate::reserves::{AddressMap, Reserve, ReserveMap};
use vstd::prelude::*;

verus! {

/// A reserve report of a pool, as a log of the chain holds it.
#[derive(Clone, Debug)]
pub struct SyncLog {
    /// The pool that reports.
    pub address: Address,
    /// The place of the reporting transaction in its block, where it is known.
    pub transaction_index: Option<u64>,
    /// The two reserves, one 32-byte big-endian word each.
    pub data: Vec<u8>,
}

/// Whether the data of a log hold two reserves.
pub open spec fn log_readable(log: SyncLog) -> bool {
    log.data@.len() >= 64
}

/// The transaction index of a log, zero where it is not known.
pub open spec fn log_index(log: SyncLog) -> nat {
    match log.transaction_index {
        Some(i) => i as nat,
        None => 0,
    }
}

/// Whether a reserve is the one that the data of a log hold.
pub open spec fn reserve_of_log(log: SyncLog, reserve: Reserve) -> bool {
    reserve.reserve0@ == be_value(word_at(log.data@, 0)) && reserve.reserve1@ == be_value(word_at(log.data@, 1))
}

/// Whether log `w` gives way to log `j`, among the first `k` logs: `j` is a
/// readable report of the same pool with a higher transaction index, or with
/// the same and a later place.
pub open spec fn overruled_by(logs: Seq<SyncLog>, w: int, j: int) -> bool {
    &&& logs[j].address == logs[w].address
    &&& log_readable(logs[j])
    &&& (log_index(logs[j]) > log_index(logs[w]) || (log_index(logs[j]) == log_index(logs[w]) && j > w))
}

/// Whether log `w` decides the reserves of its pool among the first `k` logs:
/// it is readable, and none of them overrules it.
pub open spec fn decides(logs: Seq<SyncLog>, k: int, w: int) -> bool {
    &&& 0 <= w < k
    &&& log_readable(logs[w])
    &&& forall|j: int| 0 <= j < k ==> !#[trigger] overruled_by(logs, w, j)
}

/// Whether a pool has a readable report among the first `k` logs.
pub open spec fn has_report(logs: Seq<SyncLog>, k: int, address: Address) -> bool {
    exists|j: int| 0 <= j < k && (#[trigger] logs[j]).address == address && log_readable(logs[j])
}

/// The deciding report of a pool so far.
#[derive(Clone, Copy)]
struct Leading {
    index: u64,
    reserve: Reserve,
}

/// Whether the leading reports are those of the first `k` logs: each pool
/// with a readable report has the index and the reserves of the report that
/// decides among them, and no other pool has an entry.
spec fn leads(leading: Map<Address, Leading>, from: Map<Address, int>, logs: Seq<SyncLog>, k: int) -> bool {
    &&& forall|a: Address| #[trigger] leading.contains_key(a) <==> has_report(logs, k, a)
    &&& forall|a: Address| #[trigger]
        leading.contains_key(a) ==> {
            let w = from[a];
            &&& decides(logs, k, w)
            &&& logs[w].address == a
            &&& leading[a].index == log_index(logs[w])
            &&& reserve_of_log(logs[w], leading[a].reserve)
        }
}

/// A report that is not overruled among the logs before a log of another
/// pool, or before an unreadable one, is not overruled with it.
proof fn lemma_decides_on(logs: Seq<SyncLog>, k: int, w: int)
    requires
        0 <= k < logs.len(),
        decides(logs, k, w),
        !log_readable(logs[k]) || logs[k].address != logs[w].address || log_index(logs[k]) < log_index(logs[w]),
    ensures
        decides(logs, k + 1, w),
{
    assert forall|j: int| 0 <= j < k + 1 implies !#[trigger] overruled_by(logs, w, j) by {}
}

/// Reads the reserves of the pools that report in the logs of a block. Logs
/// whose data do not hold two reserves are passed over.
pub fn get_touched_pool_reserves(logs: &Vec<SyncLog>) -> (r: ReserveMap)
    ensures
        r.wf(),
        forall|a: Address| r@.contains_key(a) <==> has_report(logs@, logs.len() as int, a),
        forall|a: Address| #[trigger]
            r@.contains_key(a) ==> exists|w: int|
                decides(logs@, logs.len() as int, w) && (#[trigger] logs[w]).address == a && reserve_of_log(
                    logs[w],
                    r@[a],
                ),
{
    let mut leading: AddressMap<Leading> = AddressMap::new();
    let ghost mut from: Map<Address, int> = Map::empty();
    let mut k: usize = 0;
    while k < logs.len()
        invariant
            k <= logs.len(),
            leading.wf(),
            leads(leading@, from, logs@, k as int),
        decreases logs.len() - k,
    {
        let log = &logs[k];
        let ghost old_leading = leading@;
        let ghost old_from = from;
        let ghost address = log.address;
        let mut takes = false;
        let mut index: u64 = 0;
        let mut reserve = Reserve::default();
        match abi_decode_uints(2, &log.data) {
            None => {},
            Some(values) => {
                reserve = Reserve { reserve0: values[0], reserve1: values[1] };
                index = match log.transaction_index {
                    Some(i) => i,
                    None => 0,
                };
                takes = match leading.get(&log.address) {
                    Some(before) => before.index <= index,
                    None => true,
                };
            },
        }
        if takes {
            leading.insert(log.address, Leading { index, reserve });
            proof {
                from = from.insert(address, k as int);
            }
        }
        proof {
            let now = leading@;
            let readable = log_readable(logs[k as int]);
            assert forall|a: Address| #[trigger] now.contains_key(a) <==> has_report(logs@, k + 1, a) by {
                if has_report(logs@, k + 1, a) {
                    let j = choose|j: int| 0 <= j < k + 1 && (#[trigger] logs[j]).address == a && log_readable(logs[j]);
                    if j < k {
                        assert(has_report(logs@, k as int, a));
                    }
                }
                if now.contains_key(a) {
                    if old_leading.contains_key(a) {
                        assert(has_report(logs@, k as int, a));
                        let j = choose|j: int|
                            0 <= j < k && (#[trigger] logs[j]).address == a && log_readable(logs[j]);
                        assert(0 <= j < k + 1 && logs[j].address == a && log_readable(logs[j]));
                    } else {
                        assert(logs[k as int].address == a && readable);
                    }
                }
            }
            assert forall|a: Address| #[trigger] now.contains_key(a) implies {
                let w = from[a];
                &&& decides(logs@, k + 1, w)
                &&& logs[w].address == a
                &&& now[a].index == log_index(logs[w])
                &&& reserve_of_log(logs[w], now[a].reserve)
            } by {
                if takes && a == address {
                    assert forall|j: int| 0 <= j < k + 1 implies !#[trigger] overruled_by(logs@, k as int, j) by {
                        if j < k && overruled_by(logs@, k as int, j) {
                            // a readable report of this pool before: the pool had a leading report
                            assert(has_report(logs@, k as int, a));
                            assert(old_leading.contains_key(a));
                            let w = old_from[a];
                            assert(decides(logs@, k as int, w));
                            assert(!overruled_by(logs@, w, j));
                        }
                    }
                } else {
                    assert(old_leading.contains_key(a));
                    let w = old_from[a];
                    assert(decides(logs@, k as int, w));
                    lemma_decides_on(logs@, k as int, w);
                }
            }
        }
        k += 1;
    }
    let keys = leading.keys();
    let mut reserves = ReserveMap::new();
    let mut p: usize = 0;
    while p < keys.len()
        invariant
            p <= keys.len(),
            reserves.wf(),
            keys@.no_duplicates(),
            forall|a: Address| keys@.contains(a) <==> leading@.contains_key(a),
            forall|a: Address| #[trigger]
                reserves@.contains_key(a) <==> keys@.subrange(0, p as int).contains(a),
            forall|a: Address| #[trigger]
                reserves@.contains_key(a) ==> leading@.contains_key(a) && reserves@[a] == leading@[a].reserve,
        decreases keys.len() - p,
    {
        let address = keys[p];
        let ghost seen = keys@.subrange(0, p as int);
        let ghost next = keys@.subrange(0, p + 1);
        proof {
            assert(keys@.contains(address));
            assert(next =~= seen.push(address));
            assert forall|a: Address| next.contains(a) <==> (seen.contains(a) || a == address) by {
                if next.contains(a) {
                    let j = choose|j: int| 0 <= j < next.len() && next[j] == a;
                    if j < p {
                        assert(seen[j] == a);
                    }
                }
                if seen.contains(a) {
                    let j = choose|j: int| 0 <= j < seen.len() && seen[j] == a;
                    assert(next[j] == a);
                }
                if a == address {
                    assert(next[p as int] == a);
                }
            }
        }
        match leading.get(&address) {
            Some(entry) => {
                reserves.insert(address, entry.reserve);
            },
            None => {
                assert(leading@.contains_key(address));
            },
        }
        p += 1;
    }
    proof {
        assert(keys@.subrange(0, keys.len() as int) =~= keys@);
        let n = logs.len() as int;
        assert forall|a: Address| reserves@.contains_key(a) <==> has_report(logs@, n, a) by {
            assert(keys@.contains(a) <==> leading@.contains_key(a));
        }
        assert forall|a: Address| #[trigger] reserves@.contains_key(a) implies exists|w: int|
            decides(logs@, n, w) && (#[trigger] logs[w]).address == a && reserve_of_log(logs[w], reserves@[a]) by {
            let w = from[a];
            assert(decides(logs@, n, w) && logs[w].address == a);
        }
    }
    reserves
}

/// Takes the reserves of the touched pools into the cache, for the pools that
/// the cache watches and for no others, and lists the pools that it updated.
pub fn apply_touched_reserves(reserves: &mut ReserveMap, touched: &ReserveMap) -> (r: Vec<Address>)
    requires
        old(reserves).wf(),
        touched.wf(),
    ensures
        final(reserves).wf(),
        final(reserves)@.dom() == old(reserves)@.dom(),
        forall|a: Address| #[trigger]
            old(reserves)@.contains_key(a) ==> final(reserves)@[a] == (if touched@.contains_key(a) {
                touched@[a]
            } else {
                old(reserves)@[a]
            }),
        r@.no_duplicates(),
        forall|a: Address| #[trigger]
            r@.contains(a) <==> (old(reserves)@.contains_key(a) && touched@.contains_key(a)),
{
    let keys = touched.keys();
    let mut touched_pools: Vec<Address> = Vec::new();
    let mut i: usize = 0;
    while i < keys.len()
        invariant
            i <= keys.len(),
            reserves.wf(),
            touched.wf(),
            keys@.no_duplicates(),
            forall|a: Address| keys@.contains(a) <==> touched@.contains_key(a),
            reserves@.dom() =~= old(reserves)@.dom(),
            forall|a: Address| #[trigger]
                old(reserves)@.contains_key(a) ==> reserves@[a] == (if keys@.subrange(0, i as int).contains(a) {
                    touched@[a]
                } else {
                    old(reserves)@[a]
                }),
            touched_pools@.no_duplicates(),
            forall|a: Address| #[trigger]
                touched_pools@.contains(a) <==> (old(reserves)@.contains_key(a) && keys@.subrange(
                    0,
                    i as int,
                ).contains(a)),
        decreases keys.len() - i,
    {
        let address = keys[i];
        let ghost seen = keys@.subrange(0, i as int);
        let ghost next = keys@.subrange(0, i + 1);
        proof {
            assert(keys@.contains(address));
            assert(next =~= seen.push(address));
            assert forall|a: Address| next.contains(a) <==> (seen.contains(a) || a == address) by {
                if next.contains(a) {
                    let j = choose|j: int| 0 <= j < next.len() && next[j] == a;
                    if j < i {
                        assert(seen[j] == a);
                    }
                }
                if seen.contains(a) {
                    let j = choose|j: int| 0 <= j < seen.len() && seen[j] == a;
                    assert(next[j] == a);
                }
                if a == address {
                    assert(next[i as int] == a);
                }
            }
            assert(!seen.contains(address)) by {
                if seen.contains(address) {
                    let j = choose|j: int| 0 <= j < seen.len() && seen[j] == address;
                    assert(keys@[j] == keys@[i as int]);
                }
            }
        }
        if reserves.contains_key(&address) {
            match touched.get(&address) {
                Some(reserve) => {
                    reserves.insert(address, reserve);
                    let ghost before = touched_pools@;
                    touched_pools.push(address);
                    proof {
                        assert(!before.contains(address));
                        assert forall|a: Address| #[trigger]
                            touched_pools@.contains(a) <==> (old(reserves)@.contains_key(a) && next.contains(
                                a,
                            )) by {
                            if touched_pools@.contains(a) {
                                let j = choose|j: int| 0 <= j < touched_pools@.len() && touched_pools@[j] == a;
                                if j < before.len() {
                                    assert(before[j] == a);
                                    assert(before.contains(a));
                                }
                            }
                            if old(reserves)@.contains_key(a) && next.contains(a) {
                                if a == address {
                                    assert(touched_pools@[before.len() as int] == a);
                                } else {
                                    assert(before.contains(a));
                                    let j = choose|j: int| 0 <= j < before.len() && before[j] == a;
                                    assert(touched_pools@[j] == a);
                                }
                            }
                        }
                    }
                },
                None => {
                    assert(touched@.contains_key(address));
                },
            }
        } else {
            proof {
                assert(!old(reserves)@.contains_key(address));
                assert forall|a: Address| #[trigger]
                    touched_pools@.contains(a) <==> (old(reserves)@.contains_key(a) && next.contains(a)) by {
                    if touched_pools@.contains(a) {
                        assert(seen.contains(a));
                    }
                    if old(reserves)@.contains_key(a) && next.contains(a) {
                        assert(seen.contains(a));
                    }
                }
            }
        }
        i += 1;
    }
    proof {
        assert(keys@.subrange(0, keys.len() as int) =~= keys@);
    }
    touched_pools
}

} // verus!
