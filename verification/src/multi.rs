//! Refreshing the reserves of many pools: the plan of the batches, and the
//! map that the answers make.

use crate::address::Address;
use crate::pools::Pool;
use crate::reserves::{Reserve, ReserveMap};
use vstd::arithmetic::div_mod::lemma_fundamental_div_mod_converse;
use vstd::prelude::*;

verus! {

/// The most calls that one batch may hold.
pub const MAX_CALLS_PER_BATCH: usize = 250;

/// The number of batches for `n` calls: `n / 250`, rounded up.
pub open spec fn batch_count(n: nat) -> nat {
    (n + 249) / 250
}

/// The number of calls in each batch but the last: `n` by the number of
/// batches, rounded up.
pub open spec fn batch_size(n: nat) -> nat {
    if batch_count(n) == 0 {
        0
    } else {
        (n + batch_count(n) - 1) as nat / batch_count(n)
    }
}

/// The place of the first call of batch `i`.
pub open spec fn batch_start(n: nat, i: nat) -> nat {
    i * batch_size(n)
}

/// The place after the last call of batch `i`.
pub open spec fn batch_end(n: nat, i: nat) -> nat {
    if (i + 1) * batch_size(n) < n {
        (i + 1) * batch_size(n)
    } else {
        n
    }
}

/// A quotient rounded up is the quotient rounded down, and one more where
/// something is left over.
proof fn lemma_div_rounded_up(n: nat, b: nat)
    requires
        b > 0,
    ensures
        (n + b - 1) as nat / b == n / b + (if n % b != 0 {
            1nat
        } else {
            0nat
        }),
{
    let q = (n / b) as int;
    let r = (n % b) as int;
    assert(n == b * q + r && 0 <= r < b) by (nonlinear_arith)
        requires
            b > 0,
            q == n / b,
            r == n % b,
    ;
    if r == 0 {
        assert(n + b - 1 == q * b + (b - 1)) by (nonlinear_arith)
            requires
                n == b * q + r,
                r == 0,
        ;
        lemma_fundamental_div_mod_converse(n + b - 1, b as int, q, b - 1);
    } else {
        assert(n + b - 1 == (q + 1) * b + (r - 1)) by (nonlinear_arith)
            requires
                n == b * q + r,
        ;
        lemma_fundamental_div_mod_converse(n + b - 1, b as int, q + 1, r - 1);
    }
}

/// The sizes of the plan: enough batches of at most 250 calls to hold all.
proof fn lemma_plan_sizes(n: nat)
    requires
        n > 0,
    ensures
        batch_count(n) > 0,
        0 < batch_size(n) <= 250,
        (batch_count(n) - 1) * batch_size(n) < n,
        batch_count(n) * batch_size(n) >= n,
{
    let b = batch_count(n) as int;
    let s = batch_size(n) as int;
    assert(250 * (b - 1) < n <= 250 * b);
    lemma_div_rounded_up(n, b as nat);
    let q = (n / (b as nat)) as int;
    let r = (n % (b as nat)) as int;
    assert(n == b * q + r && 0 <= r < b) by (nonlinear_arith)
        requires
            b > 0,
            q == n / (b as nat),
            r == n % (b as nat),
    ;
    assert(b * s >= n && b * (s - 1) < n) by (nonlinear_arith)
        requires
            n == b * q + r,
            0 <= r < b,
            s == q + (if r != 0 {
                1int
            } else {
                0int
            }),
    ;
    assert(s <= 250) by (nonlinear_arith)
        requires
            b * (s - 1) < n,
            n <= 250 * b,
            b > 0,
    ;
    assert(s > 0) by (nonlinear_arith)
        requires
            b * s >= n,
            n > 0,
            b > 0,
    ;
    assert((b - 1) * s < n) by (nonlinear_arith)
        requires
            250 * (b - 1) < n,
            0 < s <= 250,
            b > 0,
    ;
}

/// The batches part the calls: the first starts at zero, each starts where
/// the one before it ends, the last ends with the last call, and each holds
/// one call at least and 250 at most.
pub proof fn lemma_batches_part_the_calls(n: nat, i: nat)
    requires
        i < batch_count(n),
    ensures
        batch_start(n, 0) == 0,
        batch_start(n, i) < batch_end(n, i) <= n,
        batch_end(n, i) - batch_start(n, i) <= 250,
        i + 1 < batch_count(n) ==> batch_end(n, i) == batch_start(n, i + 1),
        i + 1 == batch_count(n) ==> batch_end(n, i) == n,
{
    lemma_plan_sizes(n);
    let b = batch_count(n) as int;
    let s = batch_size(n) as int;
    assert(0 * s == 0) by (nonlinear_arith);
    assert(i * s <= (b - 1) * s) by (nonlinear_arith)
        requires
            0 <= i <= b - 1,
            s > 0,
    ;
    assert((i + 1) * s == i * s + s) by (nonlinear_arith);
    if i + 1 < b {
        assert((i + 1) * s <= (b - 1) * s) by (nonlinear_arith)
            requires
                0 <= i + 1 <= b - 1,
                s > 0,
        ;
    } else {
        assert((i + 1) * s == b * s);
    }
}

/// From batch `k` on, a call at or after the start of that batch has its batch.
proof fn lemma_batch_from(n: nat, p: nat, k: nat)
    requires
        k < batch_count(n),
        batch_start(n, k) <= p < n,
    ensures
        exists|i: nat| i < batch_count(n) && #[trigger] batch_start(n, i) <= p < batch_end(n, i),
    decreases batch_count(n) - k,
{
    lemma_batches_part_the_calls(n, k);
    if p < batch_end(n, k) {
        assert(batch_start(n, k) <= p < batch_end(n, k));
    } else {
        lemma_batch_from(n, p, k + 1);
    }
}

/// Every call is in a batch: no call of the list is left out of the plan.
pub proof fn lemma_call_has_its_batch(n: nat, p: nat)
    requires
        p < n,
    ensures
        exists|i: nat| i < batch_count(n) && #[trigger] batch_start(n, i) <= p < batch_end(n, i),
{
    lemma_plan_sizes(n);
    lemma_batches_part_the_calls(n, 0);
    lemma_batch_from(n, p, 0);
}

/// Plans the batches for a number of calls: the places of the first call of
/// each batch and of the call after its last.
pub fn batch_ranges(pools_cnt: usize) -> (r: Vec<(usize, usize)>)
    ensures
        r.len() == batch_count(pools_cnt as nat),
        forall|i: int|
            0 <= i < r.len() ==> (#[trigger] r[i]).0 == batch_start(pools_cnt as nat, i as nat) && r[i].1
                == batch_end(pools_cnt as nat, i as nat),
{
    let mut ranges: Vec<(usize, usize)> = Vec::new();
    if pools_cnt == 0 {
        return ranges;
    }
    let n = pools_cnt;
    let count: usize = n / MAX_CALLS_PER_BATCH + (if n % MAX_CALLS_PER_BATCH != 0 {
        1
    } else {
        0
    });
    proof {
        lemma_plan_sizes(n as nat);
        lemma_div_rounded_up(n as nat, count as nat);
    }
    let size: usize = n / count + (if n % count != 0 {
        1
    } else {
        0
    });
    let mut i: usize = 0;
    while i < count
        invariant
            n == pools_cnt,
            n > 0,
            count == batch_count(n as nat),
            size == batch_size(n as nat),
            i <= count,
            ranges.len() == i,
            forall|j: int|
                0 <= j < i ==> (#[trigger] ranges[j]).0 == batch_start(n as nat, j as nat) && ranges[j].1
                    == batch_end(n as nat, j as nat),
        decreases count - i,
    {
        proof {
            lemma_batches_part_the_calls(n as nat, i as nat);
            assert((i + 1) * size == i * size + size) by (nonlinear_arith);
        }
        let start = i * size;
        let end = if n - start < size {
            n
        } else {
            start + size
        };
        ranges.push((start, end));
        i += 1;
    }
    ranges
}

/// The map that the answers for the first pools of a list make: the answer
/// at place `i` is for the pool at place `i`, a pool without answer gets no
/// entry, and of two answers for one address the later one stays.
pub open spec fn collected(pools: Seq<Pool>, answers: Seq<Option<Reserve>>) -> Map<Address, Reserve>
    decreases answers.len(),
{
    if answers.len() == 0 {
        Map::empty()
    } else {
        let before = collected(pools, answers.drop_last());
        match answers.last() {
            Some(reserve) => before.insert(pools[answers.len() - 1].address, reserve),
            None => before,
        }
    }
}

/// Whether the answer at a place is an answer for the pool with an address.
pub open spec fn answers_for(pools: Seq<Pool>, answers: Seq<Option<Reserve>>, address: Address, i: int) -> bool {
    0 <= i < answers.len() && pools[i].address == address && answers[i] is Some
}

/// Whether the answer at a place is the last answer for an address.
pub open spec fn is_last_answer(pools: Seq<Pool>, answers: Seq<Option<Reserve>>, address: Address, i: int) -> bool {
    answers_for(pools, answers, address, i) && forall|j: int|
        i < j < answers.len() ==> !#[trigger] answers_for(pools, answers, address, j)
}

/// The collected map has an entry for an address exactly where there is an
/// answer for it.
pub proof fn lemma_collected_keys(pools: Seq<Pool>, answers: Seq<Option<Reserve>>, address: Address)
    ensures
        collected(pools, answers).contains_key(address) <==> exists|i: int| #[trigger]
            answers_for(pools, answers, address, i),
    decreases answers.len(),
{
    if answers.len() > 0 {
        let before = answers.drop_last();
        let last = answers.len() - 1;
        lemma_collected_keys(pools, before, address);
        if collected(pools, answers).contains_key(address) {
            if answers_for(pools, answers, address, last) {
            } else {
                assert(collected(pools, before).contains_key(address));
                let i = choose|i: int| #[trigger] answers_for(pools, before, address, i);
                assert(answers_for(pools, answers, address, i));
            }
        }
        if exists|i: int| #[trigger] answers_for(pools, answers, address, i) {
            let i = choose|i: int| #[trigger] answers_for(pools, answers, address, i);
            if i < last {
                assert(answers_for(pools, before, address, i));
            }
        }
    }
}

/// The collected map holds for an address the last answer for it.
pub proof fn lemma_collected_entry(pools: Seq<Pool>, answers: Seq<Option<Reserve>>, address: Address, i: int)
    requires
        is_last_answer(pools, answers, address, i),
    ensures
        collected(pools, answers).contains_key(address),
        collected(pools, answers)[address] == answers[i]->0,
    decreases answers.len(),
{
    let before = answers.drop_last();
    let last = answers.len() - 1;
    if i < last {
        assert(!answers_for(pools, answers, address, last));
        assert(answers_for(pools, before, address, i));
        assert forall|j: int| i < j < before.len() implies !#[trigger] answers_for(pools, before, address, j) by {
            assert(!answers_for(pools, answers, address, j));
        }
        lemma_collected_entry(pools, before, address, i);
    }
}

/// The answers of all batches, one batch after the other.
pub open spec fn joined(batches: Seq<Vec<Option<Reserve>>>) -> Seq<Option<Reserve>>
    decreases batches.len(),
{
    if batches.len() == 0 {
        Seq::empty()
    } else {
        joined(batches.drop_last()) + batches.last()@
    }
}

/// Pairs each answer with its pool and makes the map of the reserves.
pub fn get_uniswap_v2_reserves(pools: &Vec<Pool>, answers: &Vec<Option<Reserve>>) -> (r: ReserveMap)
    requires
        answers.len() <= pools.len(),
    ensures
        r.wf(),
        r@ == collected(pools@, answers@),
{
    let mut reserves = ReserveMap::new();
    let mut i: usize = 0;
    while i < answers.len()
        invariant
            i <= answers.len() <= pools.len(),
            reserves.wf(),
            reserves@ == collected(pools@, answers@.subrange(0, i as int)),
        decreases answers.len() - i,
    {
        proof {
            assert(answers@.subrange(0, i + 1).drop_last() =~= answers@.subrange(0, i as int));
        }
        match answers[i] {
            Some(reserve) => {
                reserves.insert(pools[i].address, reserve);
            },
            None => {},
        }
        i += 1;
    }
    proof {
        assert(answers@.subrange(0, answers.len() as int) =~= answers@);
    }
    reserves
}

/// The pools of batch `i` of the plan for a pool list.
pub open spec fn batch_slice(pools: Seq<Pool>, i: nat) -> Seq<Pool> {
    pools.subrange(batch_start(pools.len(), i) as int, batch_end(pools.len(), i) as int)
}

/// Whether batches of answers follow the plan for a pool list: there is one
/// batch of answers for each batch of the plan, and none has more answers
/// than its batch has pools.
pub open spec fn follows_plan(pools: Seq<Pool>, batches: Seq<Vec<Option<Reserve>>>) -> bool {
    &&& batches.len() == batch_count(pools.len())
    &&& forall|i: int|
        0 <= i < batches.len() ==> (#[trigger] batches[i]).len() <= batch_end(pools.len(), i as nat) - batch_start(
            pools.len(),
            i as nat,
        )
}

/// The map that batches of answers make, each batch paired with its own
/// pools, a later batch deciding where two batches answer for one address.
pub open spec fn merged(pools: Seq<Pool>, batches: Seq<Vec<Option<Reserve>>>) -> Map<Address, Reserve>
    decreases batches.len(),
{
    if batches.len() == 0 {
        Map::empty()
    } else {
        merged(pools, batches.drop_last()).union_prefer_right(
            collected(batch_slice(pools, (batches.len() - 1) as nat), batches.last()@),
        )
    }
}

/// Parts the pool list into the batches of the plan: 250 pools at most in
/// each, as many batches as that takes and no more, every pool in one batch.
pub fn batch_pools(pools: &Vec<Pool>) -> (r: Vec<Vec<Pool>>)
    ensures
        r.len() == batch_count(pools.len() as nat),
        forall|i: int| 0 <= i < r.len() ==> (#[trigger] r[i])@ == batch_slice(pools@, i as nat),
        forall|i: int| 0 <= i < r.len() ==> 0 < (#[trigger] r[i]).len() <= MAX_CALLS_PER_BATCH,
{
    let ranges = batch_ranges(pools.len());
    let mut batches: Vec<Vec<Pool>> = Vec::new();
    let mut b: usize = 0;
    while b < ranges.len()
        invariant
            b <= ranges.len(),
            ranges.len() == batch_count(pools.len() as nat),
            forall|i: int|
                0 <= i < ranges.len() ==> (#[trigger] ranges[i]).0 == batch_start(pools.len() as nat, i as nat)
                    && ranges[i].1 == batch_end(pools.len() as nat, i as nat),
            batches.len() == b,
            forall|i: int| 0 <= i < b ==> (#[trigger] batches[i])@ == batch_slice(pools@, i as nat),
            forall|i: int| 0 <= i < b ==> 0 < (#[trigger] batches[i]).len() <= MAX_CALLS_PER_BATCH,
        decreases ranges.len() - b,
    {
        let start = ranges[b].0;
        let end = ranges[b].1;
        proof {
            lemma_batches_part_the_calls(pools.len() as nat, b as nat);
        }
        let mut batch: Vec<Pool> = Vec::new();
        let mut k: usize = start;
        while k < end
            invariant
                start <= k <= end <= pools.len(),
                batch@ == pools@.subrange(start as int, k as int),
            decreases end - k,
        {
            batch.push(pools[k]);
            proof {
                assert(batch@ =~= pools@.subrange(start as int, k + 1));
            }
            k += 1;
        }
        batches.push(batch);
        b += 1;
    }
    batches
}

/// Makes one map of the answers of all batches. The batches follow the plan
/// for the pool list, and the answers of a batch are for the pools of that
/// batch, in their order.
pub fn batch_get_uniswap_v2_reserves(pools: &Vec<Pool>, batch_results: &Vec<Vec<Option<Reserve>>>) -> (r: ReserveMap)
    requires
        follows_plan(pools@, batch_results@),
    ensures
        r.wf(),
        r@ == merged(pools@, batch_results@),
{
    let ranges = batch_ranges(pools.len());
    let mut reserves = ReserveMap::new();
    let mut b: usize = 0;
    while b < batch_results.len()
        invariant
            b <= batch_results.len(),
            follows_plan(pools@, batch_results@),
            ranges.len() == batch_count(pools.len() as nat),
            forall|i: int|
                0 <= i < ranges.len() ==> (#[trigger] ranges[i]).0 == batch_start(pools.len() as nat, i as nat)
                    && ranges[i].1 == batch_end(pools.len() as nat, i as nat),
            reserves.wf(),
            reserves@ == merged(pools@, batch_results@.subrange(0, b as int)),
        decreases batch_results.len() - b,
    {
        let batch = &batch_results[b];
        let start = ranges[b].0;
        let ghost done = reserves@;
        let ghost slice = batch_slice(pools@, b as nat);
        proof {
            lemma_batches_part_the_calls(pools.len() as nat, b as nat);
            assert(batch_results@[b as int].len() <= batch_end(pools.len() as nat, b as nat) - batch_start(
                pools.len() as nat,
                b as nat,
            ));
            assert(done =~= done.union_prefer_right(collected(slice, batch@.subrange(0, 0))));
        }
        let mut j: usize = 0;
        while j < batch.len()
            invariant
                j <= batch.len(),
                start == batch_start(pools.len() as nat, b as nat),
                start + batch.len() <= batch_end(pools.len() as nat, b as nat) <= pools.len(),
                slice == batch_slice(pools@, b as nat),
                reserves.wf(),
                reserves@ == done.union_prefer_right(collected(slice, batch@.subrange(0, j as int))),
            decreases batch.len() - j,
        {
            proof {
                assert(batch@.subrange(0, j + 1).drop_last() =~= batch@.subrange(0, j as int));
                assert(slice[j as int] == pools[start + j]);
            }
            match batch[j] {
                Some(reserve) => {
                    reserves.insert(pools[start + j].address, reserve);
                    proof {
                        assert(reserves@ =~= done.union_prefer_right(collected(slice, batch@.subrange(0, j + 1))));
                    }
                },
                None => {},
            }
            j += 1;
        }
        proof {
            assert(batch@.subrange(0, batch.len() as int) =~= batch@);
            let next = batch_results@.subrange(0, b + 1);
            assert(next.drop_last() =~= batch_results@.subrange(0, b as int));
            assert(next.last() == batch_results@[b as int]);
            assert(next.len() - 1 == b);
        }
        b += 1;
    }
    proof {
        assert(batch_results@.subrange(0, batch_results.len() as int) =~= batch_results@);
    }
    reserves
}

/// The map of a run of answers depends on the pools that have an answer only.
proof fn lemma_collected_reads_prefix(first: Seq<Pool>, second: Seq<Pool>, answers: Seq<Option<Reserve>>)
    requires
        answers.len() <= first.len(),
        answers.len() <= second.len(),
        forall|i: int| 0 <= i < answers.len() ==> first[i] == second[i],
    ensures
        collected(first, answers) == collected(second, answers),
    decreases answers.len(),
{
    if answers.len() > 0 {
        lemma_collected_reads_prefix(first, second, answers.drop_last());
    }
}

/// The map of two runs of answers, one after the other, is the map of the
/// first with the map of the second laid over it.
proof fn lemma_collected_split(pools: Seq<Pool>, first: Seq<Option<Reserve>>, second: Seq<Option<Reserve>>)
    requires
        first.len() + second.len() <= pools.len(),
    ensures
        collected(pools, first + second) == collected(pools, first).union_prefer_right(
            collected(pools.skip(first.len() as int), second),
        ),
    decreases second.len(),
{
    let rest = pools.skip(first.len() as int);
    if second.len() == 0 {
        assert(first + second =~= first);
        assert(collected(pools, first) =~= collected(pools, first).union_prefer_right(collected(rest, second)));
    } else {
        lemma_collected_split(pools, first, second.drop_last());
        assert((first + second).drop_last() =~= first + second.drop_last());
        assert((first + second).last() == second.last());
        assert(rest[second.len() - 1] == pools[first.len() + second.len() - 1]);
        assert(collected(pools, first + second) =~= collected(pools, first).union_prefer_right(
            collected(rest, second),
        ));
    }
}

/// Whether each batch holds an answer for every pool of its batch.
pub open spec fn batches_full(pools: Seq<Pool>, batches: Seq<Vec<Option<Reserve>>>) -> bool {
    &&& batches.len() == batch_count(pools.len())
    &&& forall|i: int|
        0 <= i < batches.len() ==> (#[trigger] batches[i]).len() == batch_end(pools.len(), i as nat) - batch_start(
            pools.len(),
            i as nat,
        )
}

/// The first batches of full batches hold the answers for the pools before
/// the next batch, and merged they make the map of those answers taken at once.
proof fn lemma_merged_prefix(pools: Seq<Pool>, batches: Seq<Vec<Option<Reserve>>>, k: nat)
    requires
        batches_full(pools, batches),
        k <= batches.len(),
    ensures
        k < batches.len() ==> joined(batches.subrange(0, k as int)).len() == batch_start(pools.len(), k),
        k == batches.len() ==> joined(batches.subrange(0, k as int)).len() == pools.len(),
        merged(pools, batches.subrange(0, k as int)) == collected(pools, joined(batches.subrange(0, k as int))),
    decreases k,
{
    let n = pools.len();
    let prefix = batches.subrange(0, k as int);
    if k == 0 {
        assert(batch_start(n, 0) == 0) by (nonlinear_arith);
        if batches.len() == 0 {
            assert(n == 0);
        }
    } else {
        let before = batches.subrange(0, k - 1);
        lemma_merged_prefix(pools, batches, (k - 1) as nat);
        lemma_batches_part_the_calls(n, (k - 1) as nat);
        assert(prefix.drop_last() =~= before);
        assert(prefix.last() == batches[k - 1]);
        let done = joined(before);
        let batch = batches[k - 1]@;
        let slice = batch_slice(pools, (k - 1) as nat);
        assert(joined(prefix) == done + batch);
        lemma_collected_split(pools, done, batch);
        let rest = pools.skip(done.len() as int);
        assert forall|i: int| 0 <= i < batch.len() implies rest[i] == slice[i] by {}
        lemma_collected_reads_prefix(rest, slice, batch);
    }
}

/// Merging the batches gives what one call for all pools would give: where
/// every batch holds an answer for each of its pools, the merged map is the
/// map of all answers taken at once, with no address lost and none doubled.
pub proof fn lemma_merged_is_whole(pools: Seq<Pool>, batches: Seq<Vec<Option<Reserve>>>)
    requires
        batches_full(pools, batches),
    ensures
        joined(batches).len() == pools.len(),
        merged(pools, batches) == collected(pools, joined(batches)),
{
    lemma_merged_prefix(pools, batches, batches.len());
    assert(batches.subrange(0, batches.len() as int) =~= batches);
}

} // verus!
