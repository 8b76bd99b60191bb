//! The choice of trades for a block: which paths the block touched, what
//! they promise, in which order to try them, and which are worth a simulation.

use crate::abi::{encodes_values, lemma_be_value_of_zeros};
use crate::address::{address_text, Address};
use crate::block::NewBlock;
use crate::bundler::{order_tx_calldata, order_values, Flashloan, PathParam};
use crate::paths::{token_unit, ArbPath};
use crate::reserves::{Reserve, ReserveMap};
use crate::simulator::quote_matches;
use crate::text::push_char;
use crate::uint::{u256_checked_div, u256_checked_mul, u256_checked_pow, u256_limit, U256};
use crate::updates::{
    apply_touched_reserves, decides, get_touched_pool_reserves, has_report, reserve_of_log, SyncLog,
};
use vstd::hash_map::StringHashMap;
use vstd::prelude::*;
use vstd::string::*;

verus! {

/// The amount of whole tokens that a path is priced with to find its spread.
pub const PROBE_AMOUNT: u64 = 1;

/// The largest input, in whole tokens, that the search for the best input tries.
pub const SEARCH_LIMIT: u64 = 1000;

/// The step, in whole tokens, of the search for the best input.
pub const SEARCH_STEP: usize = 10;

/// The gas that a trade is expected to use.
pub const ESTIMATED_GAS_USAGE: u64 = 550000;

/// A path with a spread above zero.
#[derive(Clone, Copy, Debug)]
pub struct RankedSpread {
    /// The place of the path in the path list.
    pub path_index: usize,
    /// What the path gives for the probe amount above the probe amount itself.
    pub spread: U256,
}

/// A trade that is worth a simulation.
#[derive(Clone, Copy, Debug)]
pub struct CandidateTrade {
    /// The place of the path in the path list.
    pub path_index: usize,
    /// The input, in whole tokens.
    pub amount_in: U256,
    /// What the path gives for the input, in smallest units.
    pub expected_amount_out: U256,
    /// The expected output less the input, in smallest units.
    pub profit: U256,
    /// The expected cost of gas, in smallest units of the same token.
    pub estimated_gas_cost: U256,
}

/// The name of a path in a map of paths: the addresses of its three pools in
/// hexadecimal, with `_` between them.
pub open spec fn path_key_text(path: ArbPath) -> Seq<char> {
    address_text(path.pool_1.address@) + seq!['_'] + address_text(path.pool_2.address@) + seq!['_'] + address_text(
        path.pool_3.address@,
    )
}

/// The name of a path in a map of paths.
pub fn path_key(path: &ArbPath) -> (r: String)
    ensures
        r@ == path_key_text(*path),
{
    let mut key = path.pool_1.address.to_hex();
    push_char(&mut key, '_');
    key.append(path.pool_2.address.to_hex().as_str());
    push_char(&mut key, '_');
    key.append(path.pool_3.address.to_hex().as_str());
    proof {
        assert(key@ =~= path_key_text(*path));
    }
    key
}

/// Marks on paths, by the names of the paths: a path that is marked with
/// `true` is passed over.
pub struct SkipPaths {
    marks: StringHashMap<bool>,
}

impl View for SkipPaths {
    type V = Map<Seq<char>, bool>;

    closed spec fn view(&self) -> Map<Seq<char>, bool> {
        self.marks@
    }
}

impl SkipPaths {
    /// No marks.
    pub fn new() -> (r: SkipPaths)
        ensures
            r@ == Map::<Seq<char>, bool>::empty(),
    {
        SkipPaths { marks: StringHashMap::new() }
    }

    /// Sets the mark of a path.
    pub fn mark(&mut self, path: &ArbPath, skip: bool)
        ensures
            final(self)@ == old(self)@.insert(path_key_text(*path), skip),
    {
        let key = path_key(path);
        self.marks.insert(key, skip);
    }
}

/// Whether a path is marked to be passed over.
pub fn should_skip_path(skip_paths_map: &SkipPaths, path: &ArbPath) -> (r: bool)
    ensures
        r == (skip_paths_map@.contains_key(path_key_text(*path)) && skip_paths_map@[path_key_text(*path)]),
{
    let key = path_key(path);
    match skip_paths_map.marks.get(key.as_str()) {
        Some(skip) => *skip,
        None => false,
    }
}

/// Whether a pool of the path is among the pools.
pub open spec fn touches(path: ArbPath, pools: Seq<Address>) -> bool {
    exists|i: int|
        0 <= i < pools.len() && (path.pool_1.address == #[trigger] pools[i] || path.pool_2.address == pools[i]
            || path.pool_3.address == pools[i])
}

/// Whether a pool of the path is among the pools that a block touched.
pub fn path_touched(path: &ArbPath, touched_pools: &Vec<Address>) -> (r: bool)
    ensures
        r == touches(*path, touched_pools@),
{
    let mut i: usize = 0;
    while i < touched_pools.len()
        invariant
            i <= touched_pools.len(),
            forall|j: int|
                0 <= j < i ==> !(path.pool_1.address == #[trigger] touched_pools[j] || path.pool_2.address
                    == touched_pools[j] || path.pool_3.address == touched_pools[j]),
        decreases touched_pools.len() - i,
    {
        if path.has_pool(&touched_pools[i]) {
            return true;
        }
        i += 1;
    }
    false
}

/// The spread of a path: what it gives for the probe amount above the probe
/// amount itself, where that is above zero.
pub open spec fn spread_of(path: ArbPath, reserves: Map<Address, Reserve>) -> Option<nat> {
    match path.profit_quote(PROBE_AMOUNT as nat, reserves) {
        Some(p) => if p > 0 {
            Some(p as nat)
        } else {
            None
        },
        None => None,
    }
}

/// Whether the path at a place is one to rank: the block touched it, and its
/// spread is above zero.
pub open spec fn to_rank(paths: Seq<ArbPath>, reserves: Map<Address, Reserve>, touched: Seq<Address>, i: int) -> bool {
    touches(paths[i], touched) && spread_of(paths[i], reserves) is Some
}

/// Whether a ranking is that of the touched paths with a spread above zero:
/// each of them once, with its spread, the larger spread first.
pub open spec fn is_ranking(
    ranked: Seq<RankedSpread>,
    paths: Seq<ArbPath>,
    reserves: Map<Address, Reserve>,
    touched: Seq<Address>,
    upto: int,
) -> bool {
    &&& forall|a: int, b: int| 0 <= a < b < ranked.len() ==> (#[trigger] ranked[a]).spread@ >= (#[trigger] ranked[b]).spread@
    &&& forall|a: int, b: int|
        0 <= a < ranked.len() && 0 <= b < ranked.len() && a != b ==> (#[trigger] ranked[a]).path_index != (
        #[trigger] ranked[b]).path_index
    &&& forall|e: int|
        0 <= e < ranked.len() ==> (#[trigger] ranked[e]).path_index < upto && to_rank(
            paths,
            reserves,
            touched,
            ranked[e].path_index as int,
        ) && spread_of(paths[ranked[e].path_index as int], reserves) == Some(ranked[e].spread@)
    &&& forall|i: int|
        0 <= i < upto && #[trigger] to_rank(paths, reserves, touched, i) ==> exists|e: int|
            0 <= e < ranked.len() && (#[trigger] ranked[e]).path_index == i
}

/// Ranks the paths that a block touched by their spread, the largest first.
/// Paths without quote and paths without gain are left out.
pub fn ranked_spreads(paths: &Vec<ArbPath>, reserves: &ReserveMap, touched_pools: &Vec<Address>) -> (r: Vec<
    RankedSpread,
>)
    requires
        reserves.wf(),
        forall|i: int| 0 <= i < paths.len() ==> (#[trigger] paths[i]).nhop <= 3,
    ensures
        is_ranking(r@, paths@, reserves@, touched_pools@, paths.len() as int),
{
    let mut ranked: Vec<RankedSpread> = Vec::new();
    let mut idx: usize = 0;
    while idx < paths.len()
        invariant
            idx <= paths.len(),
            reserves.wf(),
            forall|i: int| 0 <= i < paths.len() ==> (#[trigger] paths[i]).nhop <= 3,
            is_ranking(ranked@, paths@, reserves@, touched_pools@, idx as int),
        decreases paths.len() - idx,
    {
        let path = &paths[idx];
        let ghost before = ranked@;
        let ghost mut placed = false;
        if path_touched(path, touched_pools) {
            match path.positive_spread(U256::from_u64(PROBE_AMOUNT), reserves) {
                Some(spread) => {
                    let mut pos: usize = 0;
                    while pos < ranked.len() && !ranked[pos].spread.lt(&spread)
                        invariant
                            pos <= ranked.len(),
                            forall|q: int| 0 <= q < pos ==> (#[trigger] ranked[q]).spread@ >= spread@,
                        decreases ranked.len() - pos,
                    {
                        pos += 1;
                    }
                    let entry = RankedSpread { path_index: idx, spread };
                    ranked.insert(pos, entry);
                    proof {
                        placed = true;
                        let after = ranked@;
                        assert(after.len() == before.len() + 1);
                        assert(after[pos as int] == entry);
                        assert forall|q: int| 0 <= q < pos implies #[trigger] after[q] == before[q] by {}
                        assert forall|q: int| pos < q < after.len() implies #[trigger] after[q] == before[q - 1] by {}
                        assert forall|a: int, b: int| 0 <= a < b < after.len() implies (#[trigger] after[a]).spread@ >= (
                        #[trigger] after[b]).spread@ by {
                            if a < pos && b > pos {
                                assert(after[a] == before[a]);
                                assert(after[b] == before[b - 1]);
                                if a != b - 1 {
                                    assert(before[a].spread@ >= before[b - 1].spread@);
                                }
                            } else if a < pos && b < pos {
                                assert(before[a].spread@ >= before[b].spread@);
                            } else if a > pos {
                                assert(before[a - 1].spread@ >= before[b - 1].spread@);
                            } else if a == pos {
                                assert(after[b] == before[b - 1]);
                                if pos < before.len() {
                                    assert(before[pos as int].spread@ < spread@);
                                    if b - 1 > pos {
                                        assert(before[pos as int].spread@ >= before[b - 1].spread@);
                                    }
                                }
                            }
                        }
                        assert forall|a: int, b: int|
                            0 <= a < after.len() && 0 <= b < after.len() && a != b implies (#[trigger] after[a]).path_index
                            != (#[trigger] after[b]).path_index by {
                            let a0 = if a < pos {
                                a
                            } else {
                                a - 1
                            };
                            let b0 = if b < pos {
                                b
                            } else {
                                b - 1
                            };
                            if a != pos && b != pos {
                                assert(after[a] == before[a0]);
                                assert(after[b] == before[b0]);
                                assert(before[a0].path_index != before[b0].path_index);
                            } else if a == pos {
                                assert(after[b] == before[b0]);
                                assert(before[b0].path_index < idx);
                            } else {
                                assert(after[a] == before[a0]);
                                assert(before[a0].path_index < idx);
                            }
                        }
                        assert forall|e: int| 0 <= e < after.len() implies (#[trigger] after[e]).path_index < idx + 1
                            && to_rank(paths@, reserves@, touched_pools@, after[e].path_index as int) && spread_of(
                            paths[after[e].path_index as int],
                            reserves@,
                        ) == Some(after[e].spread@) by {
                            if e != pos {
                                let e0 = if e < pos {
                                    e
                                } else {
                                    e - 1
                                };
                                assert(after[e] == before[e0]);
                                assert(before[e0].path_index < idx);
                            }
                        }
                        assert forall|i: int|
                            0 <= i < idx + 1 && #[trigger] to_rank(paths@, reserves@, touched_pools@, i) implies exists|
                            e: int,
                        |
                            0 <= e < after.len() && (#[trigger] after[e]).path_index == i by {
                            if i < idx {
                                let e0 = choose|e0: int| 0 <= e0 < before.len() && (#[trigger] before[e0]).path_index == i;
                                let e = if e0 < pos {
                                    e0
                                } else {
                                    e0 + 1
                                };
                                assert(after[e] == before[e0]);
                            } else {
                                assert(after[pos as int].path_index == i);
                            }
                        }
                    }
                },
                None => {},
            }
        }
        proof {
            if !placed {
                assert(!to_rank(paths@, reserves@, touched_pools@, idx as int));
                assert forall|e: int| 0 <= e < ranked.len() implies (#[trigger] ranked[e]).path_index < idx + 1 by {
                    assert(ranked[e].path_index < idx);
                }
            }
        }
        idx += 1;
    }
    ranked
}

/// Whether a path is worth a simulation: the profit of its best input is
/// above the cost of gas, and the best input has a quote.
pub open spec fn proceeds(path: ArbPath, reserves: Map<Address, Reserve>, gas_cost: nat) -> bool {
    let best = path.optimum(SEARCH_LIMIT as nat, SEARCH_STEP as nat, reserves);
    best.1 > gas_cost && path.path_quote(best.0, reserves) is Some
}

/// Whether a candidate is the one for the path at a place: its input is the
/// best input of the path, with the profit and the quote that go with it.
pub open spec fn is_candidate(
    candidate: CandidateTrade,
    path_index: usize,
    path: ArbPath,
    reserves: Map<Address, Reserve>,
    gas_cost: nat,
) -> bool {
    let best = path.optimum(SEARCH_LIMIT as nat, SEARCH_STEP as nat, reserves);
    &&& candidate.path_index == path_index
    &&& candidate.amount_in@ == best.0
    &&& candidate.profit@ == best.1
    &&& path.path_quote(best.0, reserves) == Some(candidate.expected_amount_out@)
    &&& candidate.estimated_gas_cost@ == gas_cost
}

/// Whether trades are those picked from a ranking: for each ranked path that
/// is worth a simulation its candidate, in the order of the ranking, and
/// nothing else.
pub open spec fn are_candidates(
    chosen: Seq<CandidateTrade>,
    ranked: Seq<RankedSpread>,
    paths: Seq<ArbPath>,
    reserves: Map<Address, Reserve>,
    gas_cost: nat,
) -> bool {
    &&& chosen.len() == kept(ranked, paths, reserves, gas_cost).len()
    &&& forall|c: int|
        0 <= c < chosen.len() ==> is_candidate(
            #[trigger] chosen[c],
            kept(ranked, paths, reserves, gas_cost)[c],
            paths[kept(ranked, paths, reserves, gas_cost)[c] as int],
            reserves,
            gas_cost,
        )
}

/// The places in a ranking of the paths that are worth a simulation, in the
/// order of the ranking.
pub open spec fn kept(
    ranked: Seq<RankedSpread>,
    paths: Seq<ArbPath>,
    reserves: Map<Address, Reserve>,
    gas_cost: nat,
) -> Seq<usize>
    decreases ranked.len(),
{
    if ranked.len() == 0 {
        Seq::empty()
    } else {
        let before = kept(ranked.drop_last(), paths, reserves, gas_cost);
        if proceeds(paths[ranked.last().path_index as int], reserves, gas_cost) {
            before.push(ranked.last().path_index)
        } else {
            before
        }
    }
}

/// Picks the trades that are worth a simulation, in the order of the ranking:
/// for each ranked path the best input is searched, and the path is kept where
/// the profit of that input is above the cost of gas.
pub fn candidates(paths: &Vec<ArbPath>, reserves: &ReserveMap, ranked: &Vec<RankedSpread>, gas_cost: U256) -> (r: Vec<
    CandidateTrade,
>)
    requires
        reserves.wf(),
        forall|i: int| 0 <= i < paths.len() ==> (#[trigger] paths[i]).nhop <= 3,
        forall|e: int| 0 <= e < ranked.len() ==> (#[trigger] ranked[e]).path_index < paths.len(),
    ensures
        are_candidates(r@, ranked@, paths@, reserves@, gas_cost@),
{
    let mut chosen: Vec<CandidateTrade> = Vec::new();
    let mut e: usize = 0;
    while e < ranked.len()
        invariant
            e <= ranked.len(),
            reserves.wf(),
            forall|i: int| 0 <= i < paths.len() ==> (#[trigger] paths[i]).nhop <= 3,
            forall|j: int| 0 <= j < ranked.len() ==> (#[trigger] ranked[j]).path_index < paths.len(),
            chosen.len() == kept(ranked@.subrange(0, e as int), paths@, reserves@, gas_cost@).len(),
            forall|c: int|
                0 <= c < chosen.len() ==> is_candidate(
                    #[trigger] chosen[c],
                    kept(ranked@.subrange(0, e as int), paths@, reserves@, gas_cost@)[c],
                    paths[kept(ranked@.subrange(0, e as int), paths@, reserves@, gas_cost@)[c] as int],
                    reserves@,
                    gas_cost@,
                ),
        decreases ranked.len() - e,
    {
        let path_index = ranked[e].path_index;
        let path = &paths[path_index];
        proof {
            assert(ranked@.subrange(0, e + 1).drop_last() =~= ranked@.subrange(0, e as int));
            assert(ranked@.subrange(0, e + 1).last() == ranked[e as int]);
        }
        let best = path.optimize_amount_in(U256::from_u64(SEARCH_LIMIT), SEARCH_STEP, reserves);
        if gas_cost.lt(&best.1) {
            match path.simulate_v2_path(best.0, reserves) {
                Some(amount_out) => {
                    chosen.push(
                        CandidateTrade {
                            path_index,
                            amount_in: best.0,
                            expected_amount_out: amount_out,
                            profit: best.1,
                            estimated_gas_cost: gas_cost,
                        },
                    );
                },
                None => {},
            }
        }
        e += 1;
    }
    proof {
        assert(ranked@.subrange(0, ranked.len() as int) =~= ranked@);
    }
    chosen
}

/// The cost of the gas of a trade at the base fee that the next block is
/// expected to ask, in the native token: fee times gas, where that fits in
/// 256 bits.
pub fn gas_cost_in_wei(next_base_fee: U256, estimated_gas_usage: u64) -> (r: Option<U256>)
    ensures
        r is Some <==> next_base_fee@ * estimated_gas_usage < u256_limit(),
        r matches Some(cost) ==> cost@ == next_base_fee@ * estimated_gas_usage,
{
    u256_checked_mul(&next_base_fee, &U256::from_u64(estimated_gas_usage))
}

/// The cost of gas in the token that profits are counted in, at the price
/// that a reference pool of that token and the native token shows: the cost
/// in the native token times the reserve of the quote token by the reserve of
/// the native token, rounded down, all in smallest units.
pub open spec fn quoted_gas_cost(gas_cost: nat, quote_reserve: nat, native_reserve: nat) -> Option<nat> {
    if native_reserve == 0 || gas_cost * quote_reserve >= u256_limit() {
        None
    } else {
        Some(gas_cost * quote_reserve / native_reserve)
    }
}

/// The cost of gas in the token that profits are counted in. `quote_is_token0`
/// says which side of the reference pool holds that token.
pub fn gas_cost_in_quote(gas_cost: U256, reference: &Reserve, quote_is_token0: bool) -> (r: Option<U256>)
    ensures
        quote_matches(
            r,
            if quote_is_token0 {
                quoted_gas_cost(gas_cost@, reference.reserve0@, reference.reserve1@)
            } else {
                quoted_gas_cost(gas_cost@, reference.reserve1@, reference.reserve0@)
            },
        ),
{
    let (quote_reserve, native_reserve) = if quote_is_token0 {
        (reference.reserve0, reference.reserve1)
    } else {
        (reference.reserve1, reference.reserve0)
    };
    if native_reserve.is_zero() {
        return None;
    }
    match u256_checked_mul(&gas_cost, &quote_reserve) {
        Some(product) => u256_checked_div(&product, &native_reserve),
        None => None,
    }
}

/// What the feeds of the chain deliver.
#[derive(Clone, Debug)]
pub enum Event {
    /// A new block.
    Block(NewBlock),
    /// A transaction that waits for a block, by its hash.
    PendingTx(Vec<u8>),
    /// A reserve report of a pool.
    Log(SyncLog),
}

/// The block that an event asks to evaluate: the block of a block event, and
/// none for the other events, which the strategy does not act on.
pub fn block_of(event: &Event) -> (r: Option<NewBlock>)
    ensures
        r == (match *event {
            Event::Block(block) => Some(block),
            _ => None,
        }),
{
    match event {
        Event::Block(block) => Some(*block),
        _ => None,
    }
}

/// What the handling of a block gives.
#[derive(Debug)]
pub struct HandledBlock {
    /// The watched pools whose reserves the block changed, each once.
    pub touched_pools: Vec<Address>,
    /// The touched paths with a spread above zero, the largest spread first.
    pub ranked: Vec<RankedSpread>,
    /// The trades that are worth a simulation, in the order of the ranking,
    /// where gas has a price in the quote token.
    pub candidates: Option<Vec<CandidateTrade>>,
}

/// Whether a cache is what the reports of a block make of the cache before:
/// it watches the same pools; a watched pool with a report has the reserves
/// of its deciding report, as a whole; every other pool has its reserves of
/// before; and the touched pools are the watched pools with a report, each
/// once.
pub open spec fn is_update(
    before: Map<Address, Reserve>,
    after: Map<Address, Reserve>,
    logs: Seq<SyncLog>,
    touched: Seq<Address>,
) -> bool {
    &&& after.dom() == before.dom()
    &&& touched.no_duplicates()
    &&& forall|a: Address| #[trigger]
        touched.contains(a) <==> (before.contains_key(a) && has_report(logs, logs.len() as int, a))
    &&& forall|a: Address| #[trigger]
        before.contains_key(a) ==> (if has_report(logs, logs.len() as int, a) {
            exists|w: int|
                decides(logs, logs.len() as int, w) && (#[trigger] logs[w]).address == a && reserve_of_log(
                    logs[w],
                    after[a],
                )
        } else {
            after[a] == before[a]
        })
}

/// The cost of the gas of a trade in the quote token, as a block and the
/// reference pool price it: the base fee that the next block is expected to
/// ask times the gas that a trade is expected to use, at the reserves of the
/// reference pool. None where the cache does not watch the reference pool,
/// where that pool has no reserve of the native token, or where a number
/// leaves 256 bits.
pub open spec fn block_gas_cost(
    block: NewBlock,
    reserves: Map<Address, Reserve>,
    reference: Address,
    quote_is_token0: bool,
) -> Option<nat> {
    if !reserves.contains_key(reference) || block.next_base_fee@ * ESTIMATED_GAS_USAGE >= u256_limit() {
        None
    } else if quote_is_token0 {
        quoted_gas_cost(
            block.next_base_fee@ * ESTIMATED_GAS_USAGE as nat,
            reserves[reference].reserve0@,
            reserves[reference].reserve1@,
        )
    } else {
        quoted_gas_cost(
            block.next_base_fee@ * ESTIMATED_GAS_USAGE as nat,
            reserves[reference].reserve1@,
            reserves[reference].reserve0@,
        )
    }
}

/// Whether the handling of a block gave what it owes: the cache updated by
/// the reports, the touched pools listed, the touched paths ranked over the
/// updated cache, and candidates exactly where gas has a price, picked from
/// the ranking at that price.
pub open spec fn is_handled(
    handled: HandledBlock,
    block: NewBlock,
    logs: Seq<SyncLog>,
    paths: Seq<ArbPath>,
    before: Map<Address, Reserve>,
    after: Map<Address, Reserve>,
    reference: Address,
    quote_is_token0: bool,
) -> bool {
    &&& is_update(before, after, logs, handled.touched_pools@)
    &&& is_ranking(handled.ranked@, paths, after, handled.touched_pools@, paths.len() as int)
    &&& match block_gas_cost(block, after, reference, quote_is_token0) {
        Some(cost) => match handled.candidates {
            Some(chosen) => are_candidates(chosen@, handled.ranked@, paths, after, cost),
            None => false,
        },
        None => handled.candidates is None,
    }
}

/// Takes the reserve reports of a block into the cache and lists the watched
/// pools that the block touched.
pub fn update_reserves(reserves: &mut ReserveMap, logs: &Vec<SyncLog>) -> (r: Vec<Address>)
    requires
        old(reserves).wf(),
    ensures
        final(reserves).wf(),
        is_update(old(reserves)@, final(reserves)@, logs@, r@),
{
    let touched = get_touched_pool_reserves(logs);
    apply_touched_reserves(reserves, &touched)
}

/// Handles an event of the feeds. A block with the reserve reports of its
/// logs updates the cache and has the touched paths ranked; where gas has a
/// price at the reference pool, the trades worth a simulation are picked.
/// Any other event changes nothing and leaves nothing to do.
pub fn event_handler(
    event: &Event,
    logs: &Vec<SyncLog>,
    paths: &Vec<ArbPath>,
    reserves: &mut ReserveMap,
    reference: &Address,
    quote_is_token0: bool,
) -> (r: Option<HandledBlock>)
    requires
        old(reserves).wf(),
        forall|i: int| 0 <= i < paths.len() ==> (#[trigger] paths[i]).nhop <= 3,
    ensures
        final(reserves).wf(),
        match *event {
            Event::Block(block) => match r {
                Some(handled) => is_handled(
                    handled,
                    block,
                    logs@,
                    paths@,
                    old(reserves)@,
                    final(reserves)@,
                    *reference,
                    quote_is_token0,
                ),
                None => false,
            },
            _ => r is None && final(reserves)@ == old(reserves)@,
        },
{
    let block = match block_of(event) {
        Some(block) => block,
        None => {
            return None;
        },
    };
    let touched_pools = update_reserves(reserves, logs);
    let gas_cost = match reserves.get(reference) {
        Some(reserve) => match gas_cost_in_wei(block.next_base_fee, ESTIMATED_GAS_USAGE) {
            Some(cost) => gas_cost_in_quote(cost, &reserve, quote_is_token0),
            None => None,
        },
        None => None,
    };
    let ranked = ranked_spreads(paths, reserves, &touched_pools);
    let chosen = match gas_cost {
        Some(cost) => Some(candidates(paths, reserves, &ranked, cost)),
        None => None,
    };
    Some(HandledBlock { touched_pools, ranked, candidates: chosen })
}

/// Whether hops are those of a path with these routers.
pub open spec fn hops_of(hops: Seq<PathParam>, path: ArbPath, routers: Seq<Address>) -> bool {
    &&& hops.len() == path.nhop
    &&& forall|i: int|
        0 <= i < hops.len() ==> (#[trigger] hops[i]).router == routers[i] && hops[i].token_in == path.token_in(i)
            && hops[i].token_out == path.token_out(i)
}

/// Prepares the trade of a path for the fork simulator: the input in smallest
/// units, and the data of the order, without funds from a lender.
pub fn simulation_order(path: &ArbPath, routers: &Vec<Address>, token_decimals: u8, amount_in: U256) -> (r: Option<
    (U256, Vec<u8>),
>)
    requires
        path.nhop <= 3,
        routers.len() >= path.nhop,
    ensures
        r is Some <==> (token_unit(token_decimals) < u256_limit() && amount_in@ * token_unit(token_decimals)
            < u256_limit()),
        r matches Some(order) ==> {
            &&& order.0@ == amount_in@ * token_unit(token_decimals)
            &&& exists|hops: Seq<PathParam>| #[trigger]
                hops_of(hops, *path, routers@) && encodes_values(
                    order.1@,
                    order_values(hops, order.0@, Flashloan::NotUsed, 0),
                )
        },
{
    let unit = match u256_checked_pow(&U256::from_u64(10), &U256::from_u64(token_decimals as u64)) {
        Some(u) => u,
        None => {
            return None;
        },
    };
    let scaled = match u256_checked_mul(&amount_in, &unit) {
        Some(s) => s,
        None => {
            return None;
        },
    };
    let path_params = path.to_path_params(routers);
    let loan_from = Address::zero();
    let calldata = order_tx_calldata(&path_params, scaled, Flashloan::NotUsed, loan_from);
    proof {
        lemma_be_value_of_zeros(loan_from@);
        assert(hops_of(path_params@, *path, routers@));
    }
    Some((scaled, calldata))
}

} // verus!
