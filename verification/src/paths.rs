//! Closed three-hop trading cycles over the pool list, and their pricing.

use crate::address::Address;
use crate::bundler::PathParam;
use crate::pools::Pool;
use crate::reserves::{AddressMap, Reserve, ReserveMap};
use crate::simulator::{amount_out_spec, lemma_amount_out_monotonic, quote_matches, UniswapV2Simulator};
use crate::uint::{u256_checked_add, u256_checked_mul, u256_checked_pow, u256_checked_sub, u256_limit, U256};
use vstd::arithmetic::power::pow;
use vstd::prelude::*;

verus! {

/// A trading cycle of up to three hops. Each hop sells one token of its pool
/// for the other: `zero_for_one` says that token0 is the one sold.
#[derive(Clone, Copy, Debug)]
pub struct ArbPath {
    pub nhop: u8,
    pub pool_1: Pool,
    pub pool_2: Pool,
    pub pool_3: Pool,
    pub zero_for_one_1: bool,
    pub zero_for_one_2: bool,
    pub zero_for_one_3: bool,
}

/// The direction in which a pool sells a token: token0 for token1 where the
/// token is its token0, the other way where it is its token1, and none where
/// the pool does not hold the token.
pub open spec fn hop_direction(pool: Pool, token: Address) -> Option<bool> {
    if pool.token0 == token {
        Some(true)
    } else if pool.token1 == token {
        Some(false)
    } else {
        None
    }
}

/// The token that a pool gives in a direction.
pub open spec fn bought_token(pool: Pool, zero_for_one: bool) -> Address {
    if zero_for_one {
        pool.token1
    } else {
        pool.token0
    }
}

/// The token that a pool takes in a direction.
pub open spec fn sold_token(pool: Pool, zero_for_one: bool) -> Address {
    if zero_for_one {
        pool.token0
    } else {
        pool.token1
    }
}

/// What one input of the step search gives.
enum StepProfit {
    NoQuote,
    Loss,
    Gain(U256),
}

/// Ten to the power of the decimals of a token: the number of smallest units
/// in one token.
pub open spec fn token_unit(decimals: u8) -> nat {
    pow(10, decimals as nat) as nat
}

impl ArbPath {
    /// The pool of hop `i`, hops counted from zero.
    pub open spec fn pool(&self, i: int) -> Pool {
        if i == 0 {
            self.pool_1
        } else if i == 1 {
            self.pool_2
        } else {
            self.pool_3
        }
    }

    /// The direction of hop `i`.
    pub open spec fn zero_for_one(&self, i: int) -> bool {
        if i == 0 {
            self.zero_for_one_1
        } else if i == 1 {
            self.zero_for_one_2
        } else {
            self.zero_for_one_3
        }
    }

    /// The token that hop `i` sells.
    pub open spec fn token_in(&self, i: int) -> Address {
        sold_token(self.pool(i), self.zero_for_one(i))
    }

    /// The token that hop `i` buys.
    pub open spec fn token_out(&self, i: int) -> Address {
        bought_token(self.pool(i), self.zero_for_one(i))
    }

    /// Whether the path is a closed cycle of three hops over three different
    /// pools: each hop sells what the hop before it bought, and the first
    /// sells what the last bought.
    pub open spec fn well_formed(&self) -> bool {
        &&& self.nhop == 3
        &&& self.token_out(0) == self.token_in(1)
        &&& self.token_out(1) == self.token_in(2)
        &&& self.token_out(2) == self.token_in(0)
        &&& self.pool_1.address != self.pool_2.address
        &&& self.pool_1.address != self.pool_3.address
        &&& self.pool_2.address != self.pool_3.address
    }

    /// The decimals of the token that the path starts with.
    pub open spec fn decimals_in(&self) -> u8 {
        if self.zero_for_one_1 {
            self.pool_1.decimals0
        } else {
            self.pool_1.decimals1
        }
    }

    /// The quote of hop `i` for an amount: none where the reserves of its
    /// pool are not known.
    pub open spec fn hop_quote(&self, i: int, amount: nat, reserves: Map<Address, Reserve>) -> Option<nat> {
        let pool = self.pool(i);
        if !reserves.contains_key(pool.address) {
            None
        } else {
            let reserve = reserves[pool.address];
            if self.zero_for_one(i) {
                amount_out_spec(amount, reserve.reserve0@, reserve.reserve1@, pool.fee as nat)
            } else {
                amount_out_spec(amount, reserve.reserve1@, reserve.reserve0@, pool.fee as nat)
            }
        }
    }

    /// What the first `hops` hops make of an amount, each hop taking what the
    /// hop before it gave: none as soon as one hop has no quote.
    pub open spec fn chain_quote(&self, hops: nat, amount: nat, reserves: Map<Address, Reserve>) -> Option<nat>
        decreases hops,
    {
        if hops == 0 {
            Some(amount)
        } else {
            match self.chain_quote((hops - 1) as nat, amount, reserves) {
                None => None,
                Some(a) => self.hop_quote(hops - 1, a, reserves),
            }
        }
    }

    /// What the path makes of `amount_in` whole tokens, in smallest units of
    /// the token: the amount is first scaled by the unit of the token that the
    /// path starts with. None where that leaves the 256-bit range, or where a
    /// hop has no quote.
    pub open spec fn path_quote(&self, amount_in: nat, reserves: Map<Address, Reserve>) -> Option<nat> {
        let unit = token_unit(self.decimals_in());
        if unit >= u256_limit() || amount_in * unit >= u256_limit() {
            None
        } else {
            self.chain_quote(self.nhop as nat, amount_in * unit, reserves)
        }
    }

    /// The profit of an input: what the path gives for it less the input
    /// itself, both in smallest units of the first token. It is negative for
    /// a loss, and none where the input has no quote.
    pub open spec fn profit_quote(&self, amount_in: nat, reserves: Map<Address, Reserve>) -> Option<int> {
        match self.path_quote(amount_in, reserves) {
            None => None,
            Some(out) => Some(out - amount_in * token_unit(self.decimals_in())),
        }
    }

    /// The step search for the best input: from `amount` on, in steps of
    /// `step` below `max`, with the best input and profit found so far. An
    /// amount without quote is passed over. The search ends at the first
    /// amount whose profit is below the best so far.
    pub open spec fn search(
        &self,
        amount: nat,
        max: nat,
        step: nat,
        best_in: nat,
        best_profit: nat,
        reserves: Map<Address, Reserve>,
    ) -> (nat, nat)
        decreases
            (if amount < max {
                max - amount
            } else {
                0
            }),
    {
        if step == 0 || amount >= max {
            (best_in, best_profit)
        } else {
            match self.profit_quote(amount, reserves) {
                None => self.search(amount + step, max, step, best_in, best_profit, reserves),
                Some(p) => {
                    if p >= best_profit {
                        self.search(amount + step, max, step, amount, p as nat, reserves)
                    } else {
                        (best_in, best_profit)
                    }
                },
            }
        }
    }

    /// The best input below `max` and its profit, as the step search from
    /// zero finds them.
    pub open spec fn optimum(&self, max: nat, step: nat, reserves: Map<Address, Reserve>) -> (nat, nat) {
        self.search(0, max, step, 0, 0, reserves)
    }

    /// In a well-formed path the token bought by a hop is the token sold by
    /// the next, round the cycle, and the three pools are different.
    pub proof fn lemma_cycle_closed(self, i: int)
        requires
            self.well_formed(),
            0 <= i < 3,
        ensures
            self.token_out(i) == self.token_in((i + 1) % 3),
            forall|a: int, b: int| 0 <= a < 3 && 0 <= b < 3 && a != b ==> self.pool(a).address != self.pool(b).address,
    {
    }

    /// What the step search gives is what it was given, or an input that it
    /// tried with the profit of that input; and the profit it gives is not
    /// below the one it was given.
    pub proof fn lemma_search_result(
        self,
        amount: nat,
        max: nat,
        step: nat,
        best_in: nat,
        best_profit: nat,
        reserves: Map<Address, Reserve>,
    )
        requires
            step > 0,
        ensures
            ({
                let found = self.search(amount, max, step, best_in, best_profit, reserves);
                &&& found.1 >= best_profit
                &&& (found == (best_in, best_profit) || (amount <= found.0 < max && self.profit_quote(
                    found.0,
                    reserves,
                ) == Some(found.1 as int)))
            }),
        decreases
            (if amount < max {
                max - amount
            } else {
                0
            }),
    {
        if amount < max {
            match self.profit_quote(amount, reserves) {
                None => {
                    self.lemma_search_result(amount + step, max, step, best_in, best_profit, reserves);
                },
                Some(p) => {
                    if p >= best_profit {
                        self.lemma_search_result(amount + step, max, step, amount, p as nat, reserves);
                    }
                },
            }
        }
    }

    /// Whether the step search that starts at `amount` comes by the input `a`.
    pub open spec fn is_tried(amount: nat, step: nat, a: nat) -> bool
        decreases
            (if a > amount {
                a - amount
            } else {
                0
            }),
    {
        a == amount || (step > 0 && a > amount && Self::is_tried(amount + step, step, a))
    }

    /// The search gives the last point to which the profit did not fall: no
    /// input that it tried up to the input it gives has a profit above the
    /// profit it gives.
    pub proof fn lemma_search_is_non_decreasing(
        self,
        amount: nat,
        max: nat,
        step: nat,
        best_in: nat,
        best_profit: nat,
        reserves: Map<Address, Reserve>,
        a: nat,
    )
        requires
            step > 0,
            best_in <= amount,
            Self::is_tried(amount, step, a),
            a < max,
            a <= self.search(amount, max, step, best_in, best_profit, reserves).0,
            self.profit_quote(a, reserves) is Some,
        ensures
            self.profit_quote(a, reserves)->0 <= self.search(amount, max, step, best_in, best_profit, reserves).1,
        decreases
            (if amount < max {
                max - amount
            } else {
                0
            }),
    {
        if amount < max {
            match self.profit_quote(amount, reserves) {
                None => {
                    self.lemma_search_is_non_decreasing(amount + step, max, step, best_in, best_profit, reserves, a);
                },
                Some(p) => {
                    if p >= best_profit {
                        self.lemma_search_result(amount + step, max, step, amount, p as nat, reserves);
                        if a != amount {
                            self.lemma_search_is_non_decreasing(
                                amount + step,
                                max,
                                step,
                                amount,
                                p as nat,
                                reserves,
                                a,
                            );
                        }
                    }
                },
            }
        }
    }

    /// An input that a search comes by is not below the input it starts at.
    pub proof fn lemma_tried_is_at_least(amount: nat, step: nat, a: nat)
        requires
            Self::is_tried(amount, step, a),
        ensures
            a >= amount,
    {
    }

    /// Up to the input that the search gives, the profit does not fall from
    /// one tried input to the next: of two inputs that it tried up to there
    /// and that have a quote, the later has the larger or equal profit, and
    /// none is below the profit that the search was given.
    pub proof fn lemma_search_rises(
        self,
        amount: nat,
        max: nat,
        step: nat,
        best_in: nat,
        best_profit: nat,
        reserves: Map<Address, Reserve>,
        a: nat,
        b: nat,
    )
        requires
            step > 0,
            best_in < amount,
            Self::is_tried(amount, step, a),
            Self::is_tried(amount, step, b),
            a <= b <= self.search(amount, max, step, best_in, best_profit, reserves).0,
            self.profit_quote(a, reserves) is Some,
            self.profit_quote(b, reserves) is Some,
        ensures
            best_profit <= self.profit_quote(a, reserves)->0 <= self.profit_quote(b, reserves)->0,
        decreases
            (if amount < max {
                max - amount
            } else {
                0
            }),
    {
        if amount < max {
            match self.profit_quote(amount, reserves) {
                None => {
                    self.lemma_search_rises(amount + step, max, step, best_in, best_profit, reserves, a, b);
                },
                Some(p) => {
                    if p >= best_profit {
                        if a == amount {
                            if b != amount {
                                self.lemma_search_rises(amount + step, max, step, amount, p as nat, reserves, b, b);
                            }
                        } else {
                            self.lemma_search_rises(amount + step, max, step, amount, p as nat, reserves, a, b);
                        }
                    }
                },
            }
        }
    }

    /// The search ends at the first fall of the profit: the first input with
    /// a quote that it would try after the input it gives, if there is one
    /// below the largest input, has a profit below the profit it gives.
    pub proof fn lemma_search_stops(
        self,
        amount: nat,
        max: nat,
        step: nat,
        best_in: nat,
        best_profit: nat,
        reserves: Map<Address, Reserve>,
        a: nat,
    )
        requires
            step > 0,
            best_in < amount,
            Self::is_tried(amount, step, a),
            a < max,
            self.search(amount, max, step, best_in, best_profit, reserves).0 < a,
            self.profit_quote(a, reserves) is Some,
            forall|c: nat|
                #[trigger] Self::is_tried(amount, step, c) && self.search(
                    amount,
                    max,
                    step,
                    best_in,
                    best_profit,
                    reserves,
                ).0 < c < a ==> self.profit_quote(c, reserves) is None,
        ensures
            self.profit_quote(a, reserves)->0 < self.search(amount, max, step, best_in, best_profit, reserves).1,
        decreases
            (if amount < max {
                max - amount
            } else {
                0
            }),
    {
        let found = self.search(amount, max, step, best_in, best_profit, reserves);
        match self.profit_quote(amount, reserves) {
            None => {
                assert forall|c: nat| #[trigger]
                    Self::is_tried(amount + step, step, c) && found.0 < c < a implies self.profit_quote(
                    c,
                    reserves,
                ) is None by {
                    assert(Self::is_tried(amount, step, c));
                }
                self.lemma_search_stops(amount + step, max, step, best_in, best_profit, reserves, a);
            },
            Some(p) => {
                if p >= best_profit {
                    self.lemma_search_result(amount + step, max, step, amount, p as nat, reserves);
                    assert forall|c: nat| #[trigger]
                        Self::is_tried(amount + step, step, c) && found.0 < c < a implies self.profit_quote(
                        c,
                        reserves,
                    ) is None by {
                        assert(Self::is_tried(amount, step, c));
                    }
                    self.lemma_search_stops(amount + step, max, step, amount, p as nat, reserves, a);
                } else {
                    if a != amount {
                        assert(Self::is_tried(amount, step, amount));
                    }
                }
            },
        }
    }

    /// Nothing in gives no loss: the profit of an input of zero, where it has
    /// a quote, is not below zero.
    pub proof fn lemma_no_loss_at_zero(self, reserves: Map<Address, Reserve>)
        ensures
            self.profit_quote(0, reserves) matches Some(p) ==> p >= 0,
    {
        let unit = token_unit(self.decimals_in());
        assert(0 * unit == 0) by (nonlinear_arith);
    }

    /// Up to the best input that the search from zero gives, the profit does
    /// not fall from one tried input to the next.
    pub proof fn lemma_optimum_rises(self, max: nat, step: nat, reserves: Map<Address, Reserve>, a: nat, b: nat)
        requires
            step > 0,
            Self::is_tried(0, step, a),
            Self::is_tried(0, step, b),
            a <= b <= self.optimum(max, step, reserves).0,
            self.profit_quote(a, reserves) is Some,
            self.profit_quote(b, reserves) is Some,
        ensures
            0 <= self.profit_quote(a, reserves)->0 <= self.profit_quote(b, reserves)->0,
    {
        self.lemma_no_loss_at_zero(reserves);
        if 0 < max {
            match self.profit_quote(0, reserves) {
                None => {
                    self.lemma_search_rises(step, max, step, 0, 0, reserves, a, b);
                },
                Some(p) => {
                    if a == 0 {
                        if b != 0 {
                            self.lemma_search_rises(step, max, step, 0, p as nat, reserves, b, b);
                        }
                    } else {
                        self.lemma_search_rises(step, max, step, 0, p as nat, reserves, a, b);
                    }
                },
            }
        }
    }

    /// The search from zero ends at the first fall of the profit: the first
    /// input with a quote that it would try after the best input, if there is
    /// one below the largest input, has a profit below the best.
    pub proof fn lemma_optimum_stops(self, max: nat, step: nat, reserves: Map<Address, Reserve>, a: nat)
        requires
            step > 0,
            Self::is_tried(0, step, a),
            a < max,
            self.optimum(max, step, reserves).0 < a,
            self.profit_quote(a, reserves) is Some,
            forall|c: nat|
                #[trigger] Self::is_tried(0, step, c) && self.optimum(max, step, reserves).0 < c < a
                    ==> self.profit_quote(c, reserves) is None,
        ensures
            self.profit_quote(a, reserves)->0 < self.optimum(max, step, reserves).1,
    {
        self.lemma_no_loss_at_zero(reserves);
        let found = self.optimum(max, step, reserves);
        assert forall|c: nat| #[trigger] Self::is_tried(step, step, c) && found.0 < c < a implies self.profit_quote(
            c,
            reserves,
        ) is None by {
            assert(Self::is_tried(0, step, c));
        }
        match self.profit_quote(0, reserves) {
            None => {
                self.lemma_search_stops(step, max, step, 0, 0, reserves, a);
            },
            Some(p) => {
                self.lemma_search_stops(step, max, step, 0, p as nat, reserves, a);
            },
        }
    }

    /// What a chain of hops gives does not fall when the amount grows: of two
    /// amounts that both have a quote, the larger has the larger or equal quote.
    pub proof fn lemma_chain_quote_monotonic(
        self,
        hops: nat,
        amount_1: nat,
        amount_2: nat,
        reserves: Map<Address, Reserve>,
    )
        requires
            amount_1 <= amount_2,
            self.chain_quote(hops, amount_1, reserves) is Some,
            self.chain_quote(hops, amount_2, reserves) is Some,
        ensures
            self.chain_quote(hops, amount_1, reserves)->0 <= self.chain_quote(hops, amount_2, reserves)->0,
        decreases hops,
    {
        if hops > 0 {
            let before = (hops - 1) as nat;
            self.lemma_chain_quote_monotonic(before, amount_1, amount_2, reserves);
            let x1 = self.chain_quote(before, amount_1, reserves)->0;
            let x2 = self.chain_quote(before, amount_2, reserves)->0;
            let pool = self.pool(hops - 1);
            let reserve = reserves[pool.address];
            if self.zero_for_one(hops - 1) {
                lemma_amount_out_monotonic(x1, x2, reserve.reserve0@, reserve.reserve1@, pool.fee as nat);
            } else {
                lemma_amount_out_monotonic(x1, x2, reserve.reserve1@, reserve.reserve0@, pool.fee as nat);
            }
        }
    }

    /// The quote of a path does not fall when the input grows: of two inputs
    /// that both have a quote, the larger has the larger or equal quote.
    pub proof fn lemma_path_quote_monotonic(self, amount_1: nat, amount_2: nat, reserves: Map<Address, Reserve>)
        requires
            amount_1 <= amount_2,
            self.path_quote(amount_1, reserves) is Some,
            self.path_quote(amount_2, reserves) is Some,
        ensures
            self.path_quote(amount_1, reserves)->0 <= self.path_quote(amount_2, reserves)->0,
    {
        let unit = token_unit(self.decimals_in());
        assert(amount_1 * unit <= amount_2 * unit) by (nonlinear_arith)
            requires
                amount_1 <= amount_2,
        ;
        self.lemma_chain_quote_monotonic(self.nhop as nat, amount_1 * unit, amount_2 * unit, reserves);
    }

    /// The best input that the search finds is zero with a profit of zero, or
    /// an input below the largest with the profit that this input has.
    pub proof fn lemma_optimum_is_quoted(self, max: nat, step: nat, reserves: Map<Address, Reserve>)
        requires
            step > 0,
        ensures
            ({
                let best = self.optimum(max, step, reserves);
                best == (0nat, 0nat) || (best.0 < max && self.profit_quote(best.0, reserves) == Some(best.1 as int))
            }),
    {
        self.lemma_search_result(0, max, step, 0, 0, reserves);
    }

    /// Once a hop has no quote, no longer chain has one.
    proof fn lemma_chain_none_stays(self, from: nat, to: nat, amount: nat, reserves: Map<Address, Reserve>)
        requires
            from <= to,
            self.chain_quote(from, amount, reserves) is None,
        ensures
            self.chain_quote(to, amount, reserves) is None,
        decreases to,
    {
        if from < to {
            self.lemma_chain_none_stays(from, (to - 1) as nat, amount, reserves);
        }
    }

    /// Whether one of the three pools has this address.
    pub fn has_pool(&self, pool: &Address) -> (r: bool)
        ensures
            r == (self.pool_1.address == *pool || self.pool_2.address == *pool || self.pool_3.address == *pool),
    {
        let is_pool_1 = self.pool_1.address.eq(pool);
        let is_pool_2 = self.pool_2.address.eq(pool);
        let is_pool_3 = self.pool_3.address.eq(pool);
        is_pool_1 || is_pool_2 || is_pool_3
    }

    /// The pool of hop `i`.
    pub fn _get_pool(&self, i: u8) -> (r: &Pool)
        requires
            i < 3,
        ensures
            *r == self.pool(i as int),
    {
        if i == 0 {
            &self.pool_1
        } else if i == 1 {
            &self.pool_2
        } else {
            &self.pool_3
        }
    }

    /// The direction of hop `i`.
    pub fn _get_zero_for_one(&self, i: u8) -> (r: bool)
        requires
            i < 3,
        ensures
            r == self.zero_for_one(i as int),
    {
        if i == 0 {
            self.zero_for_one_1
        } else if i == 1 {
            self.zero_for_one_2
        } else {
            self.zero_for_one_3
        }
    }

    /// Whether the pool of hop `i` holds a token of the list.
    pub open spec fn hop_listed(&self, i: int, tokens: Seq<Address>) -> bool {
        tokens.contains(self.pool(i).token0) || tokens.contains(self.pool(i).token1)
    }

    /// Whether a pool of a hop of the path holds a token of the list.
    pub open spec fn touches_listed(&self, tokens: Seq<Address>) -> bool {
        exists|i: int| 0 <= i < self.nhop && #[trigger] self.hop_listed(i, tokens)
    }

    /// Whether a pool of the path holds a token of the blacklist.
    pub fn should_blacklist(&self, blacklist_tokens: &Vec<Address>) -> (r: bool)
        requires
            self.nhop <= 3,
        ensures
            r == self.touches_listed(blacklist_tokens@),
    {
        let mut i: u8 = 0;
        while i < self.nhop
            invariant
                i <= self.nhop <= 3,
                forall|j: int| 0 <= j < i ==> !#[trigger] self.hop_listed(j, blacklist_tokens@),
            decreases self.nhop - i,
        {
            let pool = self._get_pool(i);
            if contains_address(blacklist_tokens, &pool.token0) || contains_address(blacklist_tokens, &pool.token1) {
                assert(self.hop_listed(i as int, blacklist_tokens@));
                return true;
            }
            i += 1;
        }
        false
    }

    /// Prices the path for `amount_in` whole tokens of its first token.
    pub fn simulate_v2_path(&self, amount_in: U256, reserves: &ReserveMap) -> (r: Option<U256>)
        requires
            self.nhop <= 3,
            reserves.wf(),
        ensures
            quote_matches(r, self.path_quote(amount_in@, reserves@)),
    {
        let token_in_decimals = if self.zero_for_one_1 {
            self.pool_1.decimals0
        } else {
            self.pool_1.decimals1
        };
        let unit = match u256_checked_pow(&U256::from_u64(10), &U256::from_u64(token_in_decimals as u64)) {
            Some(u) => u,
            None => {
                return None;
            },
        };
        let start = match u256_checked_mul(&amount_in, &unit) {
            Some(a) => a,
            None => {
                return None;
            },
        };
        let mut amount_out = start;
        let mut i: u8 = 0;
        while i < self.nhop
            invariant
                i <= self.nhop <= 3,
                reserves.wf(),
                self.path_quote(amount_in@, reserves@) == self.chain_quote(self.nhop as nat, start@, reserves@),
                self.chain_quote(i as nat, start@, reserves@) == Some(amount_out@),
            decreases self.nhop - i,
        {
            let pool = self._get_pool(i);
            let zero_for_one = self._get_zero_for_one(i);
            let quote = match reserves.get(&pool.address) {
                None => None,
                Some(reserve) => {
                    let fee = U256::from_u64(pool.fee as u64);
                    if zero_for_one {
                        UniswapV2Simulator::get_amount_out(amount_out, reserve.reserve0, reserve.reserve1, fee)
                    } else {
                        UniswapV2Simulator::get_amount_out(amount_out, reserve.reserve1, reserve.reserve0, fee)
                    }
                },
            };
            proof {
                assert(quote_matches(quote, self.hop_quote(i as int, amount_out@, reserves@)));
                assert(self.chain_quote((i + 1) as nat, start@, reserves@) == self.hop_quote(
                    i as int,
                    amount_out@,
                    reserves@,
                ));
            }
            match quote {
                None => {
                    proof {
                        self.lemma_chain_none_stays((i + 1) as nat, self.nhop as nat, start@, reserves@);
                    }
                    return None;
                },
                Some(out) => {
                    amount_out = out;
                },
            }
            i += 1;
        }
        Some(amount_out)
    }

    /// The profit of one input of the search: its quote less the scaled input.
    fn profit_at(&self, amount_in: U256, reserves: &ReserveMap) -> (r: StepProfit)
        requires
            self.nhop <= 3,
            reserves.wf(),
        ensures
            match self.profit_quote(amount_in@, reserves@) {
                None => r is NoQuote,
                Some(p) => if p < 0 {
                    r is Loss
                } else {
                    r matches StepProfit::Gain(g) && g@ == p
                },
            },
    {
        let token_in_decimals = if self.zero_for_one_1 {
            self.pool_1.decimals0
        } else {
            self.pool_1.decimals1
        };
        match self.simulate_v2_path(amount_in, reserves) {
            None => StepProfit::NoQuote,
            Some(amount_out) => {
                let unit = u256_checked_pow(&U256::from_u64(10), &U256::from_u64(token_in_decimals as u64));
                let scaled = match unit {
                    Some(u) => u256_checked_mul(&amount_in, &u),
                    None => None,
                };
                match scaled {
                    Some(s) => match u256_checked_sub(&amount_out, &s) {
                        Some(gain) => StepProfit::Gain(gain),
                        None => StepProfit::Loss,
                    },
                    None => StepProfit::Loss,
                }
            },
        }
    }

    /// The profit of an input where there is one: the quote less the scaled
    /// input, where that is above zero.
    pub fn positive_spread(&self, amount_in: U256, reserves: &ReserveMap) -> (r: Option<U256>)
        requires
            self.nhop <= 3,
            reserves.wf(),
        ensures
            match self.profit_quote(amount_in@, reserves@) {
                Some(p) => if p > 0 {
                    r matches Some(s) && s@ == p
                } else {
                    r is None
                },
                None => r is None,
            },
    {
        match self.profit_at(amount_in, reserves) {
            StepProfit::Gain(gain) => if gain.is_zero() {
                None
            } else {
                Some(gain)
            },
            _ => None,
        }
    }

    /// Searches the input that gives the most: tries zero, `step_size`, twice
    /// `step_size` and so on below `max_amount_in`, and stops at the first
    /// amount whose profit falls below the best before it. Gives the best
    /// input and its profit.
    pub fn optimize_amount_in(&self, max_amount_in: U256, step_size: usize, reserves: &ReserveMap) -> (r: (
        U256,
        U256,
    ))
        requires
            self.nhop <= 3,
            reserves.wf(),
            step_size > 0,
        ensures
            (r.0@, r.1@) == self.optimum(max_amount_in@, step_size as nat, reserves@),
    {
        let step = U256::from_u64(step_size as u64);
        let mut optimized_in = U256::zero();
        let mut profit = U256::zero();
        let mut amount_in = U256::zero();
        while amount_in.lt(&max_amount_in)
            invariant
                self.nhop <= 3,
                reserves.wf(),
                step@ == step_size,
                step_size > 0,
                self.optimum(max_amount_in@, step_size as nat, reserves@) == self.search(
                    amount_in@,
                    max_amount_in@,
                    step_size as nat,
                    optimized_in@,
                    profit@,
                    reserves@,
                ),
            decreases
                (if amount_in@ < max_amount_in@ {
                    max_amount_in@ - amount_in@
                } else {
                    0
                }),
        {
            match self.profit_at(amount_in, reserves) {
                StepProfit::NoQuote => {},
                StepProfit::Loss => {
                    return (optimized_in, profit);
                },
                StepProfit::Gain(this_profit) => {
                    if profit.le(&this_profit) {
                        optimized_in = amount_in;
                        profit = this_profit;
                    } else {
                        return (optimized_in, profit);
                    }
                },
            }
            assert(self.optimum(max_amount_in@, step_size as nat, reserves@) == self.search(
                amount_in@ + step@,
                max_amount_in@,
                step_size as nat,
                optimized_in@,
                profit@,
                reserves@,
            ));
            match u256_checked_add(&amount_in, &step) {
                Some(n) => {
                    amount_in = n;
                },
                None => {
                    proof {
                        max_amount_in.lemma_value_bounds();
                    }
                    return (optimized_in, profit);
                },
            }
        }
        (optimized_in, profit)
    }

    /// The hops of the path as the execution contract takes them, each with
    /// the router that trades it.
    pub fn to_path_params(&self, routers: &Vec<Address>) -> (r: Vec<PathParam>)
        requires
            self.nhop <= 3,
            routers.len() >= self.nhop,
        ensures
            r.len() == self.nhop,
            forall|i: int|
                0 <= i < self.nhop ==> (#[trigger] r[i]).router == routers[i] && r[i].token_in == self.token_in(i)
                    && r[i].token_out == self.token_out(i),
    {
        let mut path_params: Vec<PathParam> = Vec::new();
        let mut i: u8 = 0;
        while i < self.nhop
            invariant
                i <= self.nhop <= 3,
                routers.len() >= self.nhop,
                path_params.len() == i,
                forall|j: int|
                    0 <= j < i ==> (#[trigger] path_params[j]).router == routers[j] && path_params[j].token_in
                        == self.token_in(j) && path_params[j].token_out == self.token_out(j),
            decreases self.nhop - i,
        {
            let pool = self._get_pool(i);
            let zero_for_one = self._get_zero_for_one(i);
            let param = if zero_for_one {
                PathParam { router: routers[i as usize], token_in: pool.token0, token_out: pool.token1 }
            } else {
                PathParam { router: routers[i as usize], token_in: pool.token1, token_out: pool.token0 }
            };
            path_params.push(param);
            i += 1;
        }
        path_params
    }
}

/// The path over the pools at places `i`, `j` and `k` that starts and ends
/// at the base token, if there is one: the first pool sells the base token,
/// each of the others sells what the pool before it bought, the last buys the
/// base token, and the three pools are different.
pub open spec fn triple_path(pools: Seq<Pool>, base: Address, i: int, j: int, k: int) -> Option<ArbPath> {
    match hop_direction(pools[i], base) {
        None => None,
        Some(d1) => match hop_direction(pools[j], bought_token(pools[i], d1)) {
            None => None,
            Some(d2) => match hop_direction(pools[k], bought_token(pools[j], d2)) {
                None => None,
                Some(d3) => if bought_token(pools[k], d3) == base && pools[i].address != pools[j].address
                    && pools[i].address != pools[k].address && pools[j].address != pools[k].address {
                    Some(
                        ArbPath {
                            nhop: 3,
                            pool_1: pools[i],
                            pool_2: pools[j],
                            pool_3: pools[k],
                            zero_for_one_1: d1,
                            zero_for_one_2: d2,
                            zero_for_one_3: d3,
                        },
                    )
                } else {
                    None
                },
            },
        },
    }
}

/// The paths over the pools at `i` and `j` and a third pool before `k_end`,
/// in the order of the third pool.
pub open spec fn paths_through(pools: Seq<Pool>, base: Address, i: int, j: int, k_end: nat) -> Seq<ArbPath>
    decreases k_end,
{
    if k_end == 0 {
        Seq::empty()
    } else {
        let before = paths_through(pools, base, i, j, (k_end - 1) as nat);
        match triple_path(pools, base, i, j, k_end - 1) {
            Some(path) => before.push(path),
            None => before,
        }
    }
}

/// The paths over the pool at `i` and a second pool before `j_end`, in the
/// order of the second pool, then of the third.
pub open spec fn paths_from(pools: Seq<Pool>, base: Address, i: int, j_end: nat) -> Seq<ArbPath>
    decreases j_end,
{
    if j_end == 0 {
        Seq::empty()
    } else {
        paths_from(pools, base, i, (j_end - 1) as nat) + paths_through(pools, base, i, j_end - 1, pools.len())
    }
}

/// The paths whose first pool stands before `i_end`, in the order of the
/// first pool, then of the second, then of the third.
pub open spec fn paths_up_to(pools: Seq<Pool>, base: Address, i_end: nat) -> Seq<ArbPath>
    decreases i_end,
{
    if i_end == 0 {
        Seq::empty()
    } else {
        paths_up_to(pools, base, (i_end - 1) as nat) + paths_from(pools, base, i_end - 1, pools.len())
    }
}

/// All closed three-hop paths over a pool list that start and end at the
/// base token, ordered by the places of their first, second and third pool.
pub open spec fn triangular_paths(pools: Seq<Pool>, base: Address) -> Seq<ArbPath> {
    paths_up_to(pools, base, pools.len())
}

/// No path goes through a second pool that does not hold what the first bought.
proof fn lemma_no_second_hop(pools: Seq<Pool>, base: Address, i: int, j: int, k_end: nat)
    requires
        hop_direction(pools[i], base) matches Some(d1) ==> hop_direction(pools[j], bought_token(pools[i], d1))
            is None,
    ensures
        paths_through(pools, base, i, j, k_end) == Seq::<ArbPath>::empty(),
    decreases k_end,
{
    if k_end > 0 {
        lemma_no_second_hop(pools, base, i, j, (k_end - 1) as nat);
    }
}

/// No path starts at a pool that does not hold the base token.
proof fn lemma_no_first_hop(pools: Seq<Pool>, base: Address, i: int, j_end: nat)
    requires
        hop_direction(pools[i], base) is None,
    ensures
        paths_from(pools, base, i, j_end) == Seq::<ArbPath>::empty(),
    decreases j_end,
{
    if j_end > 0 {
        lemma_no_first_hop(pools, base, i, (j_end - 1) as nat);
        lemma_no_second_hop(pools, base, i, j_end - 1, pools.len());
        assert(paths_from(pools, base, i, j_end) =~= Seq::<ArbPath>::empty());
    }
}

proof fn lemma_through_contains(pools: Seq<Pool>, base: Address, i: int, j: int, k_end: nat, k: int)
    requires
        0 <= k < k_end,
        triple_path(pools, base, i, j, k) is Some,
    ensures
        paths_through(pools, base, i, j, k_end).contains(triple_path(pools, base, i, j, k)->0),
    decreases k_end,
{
    let path = triple_path(pools, base, i, j, k)->0;
    let before = paths_through(pools, base, i, j, (k_end - 1) as nat);
    let all = paths_through(pools, base, i, j, k_end);
    if k == k_end - 1 {
        assert(all[all.len() - 1] == path);
    } else {
        lemma_through_contains(pools, base, i, j, (k_end - 1) as nat, k);
        let w = choose|w: int| 0 <= w < before.len() && before[w] == path;
        assert(all[w] == path);
    }
}

proof fn lemma_from_contains(pools: Seq<Pool>, base: Address, i: int, j_end: nat, j: int, k: int)
    requires
        0 <= j < j_end,
        0 <= k < pools.len(),
        triple_path(pools, base, i, j, k) is Some,
    ensures
        paths_from(pools, base, i, j_end).contains(triple_path(pools, base, i, j, k)->0),
    decreases j_end,
{
    let path = triple_path(pools, base, i, j, k)->0;
    let before = paths_from(pools, base, i, (j_end - 1) as nat);
    let last = paths_through(pools, base, i, j_end - 1, pools.len());
    let all = paths_from(pools, base, i, j_end);
    if j == j_end - 1 {
        lemma_through_contains(pools, base, i, j, pools.len(), k);
        let w = choose|w: int| 0 <= w < last.len() && last[w] == path;
        assert(all[before.len() + w] == path);
    } else {
        lemma_from_contains(pools, base, i, (j_end - 1) as nat, j, k);
        let w = choose|w: int| 0 <= w < before.len() && before[w] == path;
        assert(all[w] == path);
    }
}

proof fn lemma_up_to_contains(pools: Seq<Pool>, base: Address, i_end: nat, i: int, j: int, k: int)
    requires
        0 <= i < i_end,
        0 <= j < pools.len(),
        0 <= k < pools.len(),
        triple_path(pools, base, i, j, k) is Some,
    ensures
        paths_up_to(pools, base, i_end).contains(triple_path(pools, base, i, j, k)->0),
    decreases i_end,
{
    let path = triple_path(pools, base, i, j, k)->0;
    let before = paths_up_to(pools, base, (i_end - 1) as nat);
    let last = paths_from(pools, base, i_end - 1, pools.len());
    let all = paths_up_to(pools, base, i_end);
    if i == i_end - 1 {
        lemma_from_contains(pools, base, i, pools.len(), j, k);
        let w = choose|w: int| 0 <= w < last.len() && last[w] == path;
        assert(all[before.len() + w] == path);
    } else {
        lemma_up_to_contains(pools, base, (i_end - 1) as nat, i, j, k);
        let w = choose|w: int| 0 <= w < before.len() && before[w] == path;
        assert(all[w] == path);
    }
}

/// Whether a path is that of three pools of the list.
pub open spec fn arises(pools: Seq<Pool>, base: Address, path: ArbPath) -> bool {
    exists|i: int, j: int, k: int|
        0 <= i < pools.len() && 0 <= j < pools.len() && 0 <= k < pools.len() && #[trigger] triple_path(
            pools,
            base,
            i,
            j,
            k,
        ) == Some(path)
}

proof fn lemma_through_arises(pools: Seq<Pool>, base: Address, i: int, j: int, k_end: nat, p: int)
    requires
        0 <= i < pools.len(),
        0 <= j < pools.len(),
        k_end <= pools.len(),
        0 <= p < paths_through(pools, base, i, j, k_end).len(),
    ensures
        arises(pools, base, paths_through(pools, base, i, j, k_end)[p]),
    decreases k_end,
{
    let before = paths_through(pools, base, i, j, (k_end - 1) as nat);
    if p < before.len() {
        lemma_through_arises(pools, base, i, j, (k_end - 1) as nat, p);
    } else {
        assert(triple_path(pools, base, i, j, k_end - 1) == Some(paths_through(pools, base, i, j, k_end)[p]));
    }
}

proof fn lemma_from_arises(pools: Seq<Pool>, base: Address, i: int, j_end: nat, p: int)
    requires
        0 <= i < pools.len(),
        j_end <= pools.len(),
        0 <= p < paths_from(pools, base, i, j_end).len(),
    ensures
        arises(pools, base, paths_from(pools, base, i, j_end)[p]),
    decreases j_end,
{
    let before = paths_from(pools, base, i, (j_end - 1) as nat);
    if p < before.len() {
        lemma_from_arises(pools, base, i, (j_end - 1) as nat, p);
    } else {
        lemma_through_arises(pools, base, i, j_end - 1, pools.len(), p - before.len());
    }
}

proof fn lemma_up_to_arises(pools: Seq<Pool>, base: Address, i_end: nat, p: int)
    requires
        i_end <= pools.len(),
        0 <= p < paths_up_to(pools, base, i_end).len(),
    ensures
        arises(pools, base, paths_up_to(pools, base, i_end)[p]),
    decreases i_end,
{
    let before = paths_up_to(pools, base, (i_end - 1) as nat);
    if p < before.len() {
        lemma_up_to_arises(pools, base, (i_end - 1) as nat, p);
    } else {
        lemma_from_arises(pools, base, i_end - 1, pools.len(), p - before.len());
    }
}

/// Nothing is made up: every generated path is the path of three pools of
/// the list that close a cycle on the base token.
pub proof fn lemma_triangular_paths_sound(pools: Seq<Pool>, base: Address, p: int)
    requires
        0 <= p < triangular_paths(pools, base).len(),
    ensures
        arises(pools, base, triangular_paths(pools, base)[p]),
{
    lemma_up_to_arises(pools, base, pools.len(), p);
}

/// No cycle is left out: three pools of the list that make a closed path on
/// the base token have their path among the generated ones.
pub proof fn lemma_triangular_paths_complete(pools: Seq<Pool>, base: Address, i: int, j: int, k: int)
    requires
        0 <= i < pools.len(),
        0 <= j < pools.len(),
        0 <= k < pools.len(),
        triple_path(pools, base, i, j, k) is Some,
    ensures
        triangular_paths(pools, base).contains(triple_path(pools, base, i, j, k)->0),
{
    lemma_up_to_contains(pools, base, pools.len(), i, j, k);
}

fn direction(pool: &Pool, token: &Address) -> (r: Option<bool>)
    ensures
        r == hop_direction(*pool, *token),
{
    if pool.token0.eq(token) {
        Some(true)
    } else if pool.token1.eq(token) {
        Some(false)
    } else {
        None
    }
}

/// Lists the closed three-hop paths over the pools that start and end at
/// `token_in`. A first or second pool that cannot be part of a cycle is left
/// before the pools after it are tried.
pub fn generate_triangular_paths(pools: &Vec<Pool>, token_in: Address) -> (r: Vec<ArbPath>)
    ensures
        r@ == triangular_paths(pools@, token_in),
        forall|p: int| 0 <= p < r.len() ==> (#[trigger] r[p]).well_formed() && r[p].token_in(0) == token_in,
{
    let n = pools.len();
    let mut paths: Vec<ArbPath> = Vec::new();
    let mut i: usize = 0;
    while i < n
        invariant
            n == pools.len(),
            i <= n,
            paths@ == paths_up_to(pools@, token_in, i as nat),
            forall|p: int|
                0 <= p < paths.len() ==> (#[trigger] paths[p]).well_formed() && paths[p].token_in(0) == token_in,
        decreases n - i,
    {
        let pool_1 = pools[i];
        let ghost start = paths@;
        match direction(&pool_1, &token_in) {
            None => {
                proof {
                    lemma_no_first_hop(pools@, token_in, i as int, n as nat);
                }
            },
            Some(zero_for_one_1) => {
                let token_out_1 = if zero_for_one_1 {
                    pool_1.token1
                } else {
                    pool_1.token0
                };
                let mut j: usize = 0;
                while j < n
                    invariant
                        n == pools.len(),
                        i < n,
                        j <= n,
                        pool_1 == pools[i as int],
                        hop_direction(pool_1, token_in) == Some(zero_for_one_1),
                        token_out_1 == bought_token(pool_1, zero_for_one_1),
                        paths@ == start + paths_from(pools@, token_in, i as int, j as nat),
                        forall|p: int|
                            0 <= p < paths.len() ==> (#[trigger] paths[p]).well_formed() && paths[p].token_in(0)
                                == token_in,
                    decreases n - j,
                {
                    let pool_2 = pools[j];
                    let ghost middle = paths@;
                    match direction(&pool_2, &token_out_1) {
                        None => {
                            proof {
                                lemma_no_second_hop(pools@, token_in, i as int, j as int, n as nat);
                            }
                        },
                        Some(zero_for_one_2) => {
                            let token_out_2 = if zero_for_one_2 {
                                pool_2.token1
                            } else {
                                pool_2.token0
                            };
                            let mut k: usize = 0;
                            while k < n
                                invariant
                                    n == pools.len(),
                                    i < n,
                                    j < n,
                                    k <= n,
                                    pool_1 == pools[i as int],
                                    pool_2 == pools[j as int],
                                    hop_direction(pool_1, token_in) == Some(zero_for_one_1),
                                    token_out_1 == bought_token(pool_1, zero_for_one_1),
                                    hop_direction(pool_2, token_out_1) == Some(zero_for_one_2),
                                    token_out_2 == bought_token(pool_2, zero_for_one_2),
                                    paths@ == middle + paths_through(pools@, token_in, i as int, j as int, k as nat),
                                    forall|p: int|
                                        0 <= p < paths.len() ==> (#[trigger] paths[p]).well_formed()
                                            && paths[p].token_in(0) == token_in,
                                decreases n - k,
                            {
                                let pool_3 = pools[k];
                                let ghost inner = paths@;
                                match direction(&pool_3, &token_out_2) {
                                    None => {},
                                    Some(zero_for_one_3) => {
                                        let token_out_3 = if zero_for_one_3 {
                                            pool_3.token1
                                        } else {
                                            pool_3.token0
                                        };
                                        if token_out_3.eq(&token_in) && !pool_1.address.eq(&pool_2.address)
                                            && !pool_1.address.eq(&pool_3.address) && !pool_2.address.eq(
                                            &pool_3.address,
                                        ) {
                                            let arb_path = ArbPath {
                                                nhop: 3,
                                                pool_1,
                                                pool_2,
                                                pool_3,
                                                zero_for_one_1,
                                                zero_for_one_2,
                                                zero_for_one_3,
                                            };
                                            paths.push(arb_path);
                                        }
                                    },
                                }
                                proof {
                                    assert(paths@ =~= middle + paths_through(
                                        pools@,
                                        token_in,
                                        i as int,
                                        j as int,
                                        (k + 1) as nat,
                                    ));
                                }
                                k += 1;
                            }
                        },
                    }
                    proof {
                        assert(paths@ =~= start + paths_from(pools@, token_in, i as int, (j + 1) as nat));
                    }
                    j += 1;
                }
            },
        }
        proof {
            assert(paths@ =~= paths_up_to(pools@, token_in, (i + 1) as nat));
        }
        i += 1;
    }
    paths
}

/// The paths that touch no token of a list, in their order.
pub open spec fn pruned(paths: Seq<ArbPath>, tokens: Seq<Address>) -> Seq<ArbPath>
    decreases paths.len(),
{
    if paths.len() == 0 {
        Seq::empty()
    } else if paths.last().touches_listed(tokens) {
        pruned(paths.drop_last(), tokens)
    } else {
        pruned(paths.drop_last(), tokens).push(paths.last())
    }
}

/// Takes out the paths that touch a token of the blacklist.
pub fn prune_blacklisted(paths: &Vec<ArbPath>, blacklist_tokens: &Vec<Address>) -> (r: Vec<ArbPath>)
    requires
        forall|i: int| 0 <= i < paths.len() ==> (#[trigger] paths[i]).nhop <= 3,
    ensures
        r@ == pruned(paths@, blacklist_tokens@),
        forall|i: int| 0 <= i < r.len() ==> (#[trigger] r[i]).nhop <= 3,
{
    let mut kept: Vec<ArbPath> = Vec::new();
    let mut i: usize = 0;
    while i < paths.len()
        invariant
            i <= paths.len(),
            forall|k: int| 0 <= k < paths.len() ==> (#[trigger] paths[k]).nhop <= 3,
            kept@ == pruned(paths@.subrange(0, i as int), blacklist_tokens@),
            forall|k: int| 0 <= k < kept.len() ==> (#[trigger] kept[k]).nhop <= 3,
        decreases paths.len() - i,
    {
        proof {
            assert(paths@.subrange(0, i + 1).drop_last() =~= paths@.subrange(0, i as int));
            assert(paths@.subrange(0, i + 1).last() == paths[i as int]);
        }
        if !paths[i].should_blacklist(blacklist_tokens) {
            kept.push(paths[i]);
        }
        i += 1;
    }
    proof {
        assert(paths@.subrange(0, paths.len() as int) =~= paths@);
    }
    kept
}

/// Whether a pool is one of the three pools of the path at a place.
pub open spec fn pool_of_path(paths: Seq<ArbPath>, p: int, pool: Pool) -> bool {
    0 <= p < paths.len() && (paths[p].pool_1 == pool || paths[p].pool_2 == pool || paths[p].pool_3 == pool)
}

/// Whether a pool is one of the pools of a path before a place.
pub open spec fn from_a_path(paths: Seq<ArbPath>, upto: int, pool: Pool) -> bool {
    exists|p: int| 0 <= p < upto && #[trigger] pool_of_path(paths, p, pool)
}

/// Whether a list holds a pool with an address.
pub open spec fn lists_address(pools: Seq<Pool>, address: Address) -> bool {
    exists|k: int| 0 <= k < pools.len() && (#[trigger] pools[k]).address == address
}

/// A list with one pool more holds the addresses it held and the address of
/// that pool.
proof fn lemma_listed_after_push(pools: Seq<Pool>, pool: Pool)
    ensures
        forall|a: Address| #[trigger]
            lists_address(pools.push(pool), a) <==> (a == pool.address || lists_address(pools, a)),
{
    let after = pools.push(pool);
    assert forall|a: Address| #[trigger] lists_address(after, a) <==> (a == pool.address || lists_address(
        pools,
        a,
    )) by {
        if lists_address(after, a) {
            let k = choose|k: int| 0 <= k < after.len() && (#[trigger] after[k]).address == a;
            if k < pools.len() {
                assert(pools[k].address == a);
            }
        }
        if lists_address(pools, a) {
            let k = choose|k: int| 0 <= k < pools.len() && (#[trigger] pools[k]).address == a;
            assert(after[k].address == a);
        }
        if a == pool.address {
            assert(after[pools.len() as int].address == a);
        }
    }
}

/// Whether pools are those that paths go through, each address once: no two
/// of them have the same address, each is a pool of a path, and every pool
/// of a path has its address among them.
pub open spec fn are_watched(watched: Seq<Pool>, paths: Seq<ArbPath>, upto: int) -> bool {
    &&& forall|a: int, b: int|
        0 <= a < watched.len() && 0 <= b < watched.len() && a != b ==> (#[trigger] watched[a]).address != (
        #[trigger] watched[b]).address
    &&& forall|k: int| 0 <= k < watched.len() ==> #[trigger] from_a_path(paths, upto, watched[k])
    &&& forall|p: int, pool: Pool|
        0 <= p < upto && #[trigger] pool_of_path(paths, p, pool) ==> lists_address(watched, pool.address)
}

/// The pools that the paths go through, each address once: the pools whose
/// reserves are to be watched.
pub fn watched_pools(paths: &Vec<ArbPath>) -> (r: Vec<Pool>)
    ensures
        are_watched(r@, paths@, paths.len() as int),
{
    let mut watched: Vec<Pool> = Vec::new();
    let mut seen: AddressMap<Pool> = AddressMap::new();
    let mut p: usize = 0;
    while p < paths.len()
        invariant
            p <= paths.len(),
            seen.wf(),
            forall|a: Address| #[trigger] seen@.contains_key(a) <==> lists_address(watched@, a),
            are_watched(watched@, paths@, p as int),
        decreases paths.len() - p,
    {
        let path = paths[p];
        let ghost before = watched@;
        if !seen.contains_key(&path.pool_1.address) {
            watched.push(path.pool_1);
            seen.insert(path.pool_1.address, path.pool_1);
            proof {
                lemma_listed_after_push(before, path.pool_1);
            }
        }
        let ghost first = watched@;
        if !seen.contains_key(&path.pool_2.address) {
            watched.push(path.pool_2);
            seen.insert(path.pool_2.address, path.pool_2);
            proof {
                lemma_listed_after_push(first, path.pool_2);
            }
        }
        let ghost second = watched@;
        if !seen.contains_key(&path.pool_3.address) {
            watched.push(path.pool_3);
            seen.insert(path.pool_3.address, path.pool_3);
            proof {
                lemma_listed_after_push(second, path.pool_3);
            }
        }
        proof {
            let after = watched@;
            assert(pool_of_path(paths@, p as int, path.pool_1));
            assert(pool_of_path(paths@, p as int, path.pool_2));
            assert(pool_of_path(paths@, p as int, path.pool_3));
            assert forall|k: int| 0 <= k < before.len() implies #[trigger] after[k] == before[k] by {
                assert(first[k] == before[k]);
                assert(second[k] == first[k]);
            }
            assert forall|k: int| 0 <= k < first.len() implies #[trigger] after[k] == first[k] by {
                assert(second[k] == first[k]);
            }
            assert forall|k: int| 0 <= k < second.len() implies #[trigger] after[k] == second[k] by {}
            assert forall|k: int| 0 <= k < after.len() implies #[trigger] from_a_path(paths@, p + 1, after[k]) by {
                if k < before.len() {
                    assert(from_a_path(paths@, p as int, before[k]));
                    let q = choose|q: int| 0 <= q < p && #[trigger] pool_of_path(paths@, q, before[k]);
                    assert(pool_of_path(paths@, q, after[k]));
                } else {
                    assert(pool_of_path(paths@, p as int, after[k]));
                }
            }
            assert forall|a: Address| lists_address(before, a) implies lists_address(after, a) by {
                let k = choose|k: int| 0 <= k < before.len() && (#[trigger] before[k]).address == a;
                assert(after[k].address == a);
            }
            assert forall|a: Address| lists_address(first, a) implies lists_address(after, a) by {
                let k = choose|k: int| 0 <= k < first.len() && (#[trigger] first[k]).address == a;
                assert(after[k].address == a);
            }
            assert forall|a: Address| lists_address(second, a) implies lists_address(after, a) by {
                let k = choose|k: int| 0 <= k < second.len() && (#[trigger] second[k]).address == a;
                assert(after[k].address == a);
            }
            assert(lists_address(first, path.pool_1.address)) by {
                if !lists_address(before, path.pool_1.address) {
                    assert(first[first.len() - 1].address == path.pool_1.address);
                } else {
                    let k = choose|k: int| 0 <= k < before.len() && (#[trigger] before[k]).address == path.pool_1.address;
                    assert(first[k].address == path.pool_1.address);
                }
            }
            assert(lists_address(second, path.pool_2.address)) by {
                if !lists_address(first, path.pool_2.address) {
                    assert(second[second.len() - 1].address == path.pool_2.address);
                } else {
                    let k = choose|k: int| 0 <= k < first.len() && (#[trigger] first[k]).address == path.pool_2.address;
                    assert(second[k].address == path.pool_2.address);
                }
            }
            assert(lists_address(after, path.pool_3.address)) by {
                if !lists_address(second, path.pool_3.address) {
                    assert(after[after.len() - 1].address == path.pool_3.address);
                } else {
                    let k = choose|k: int| 0 <= k < second.len() && (#[trigger] second[k]).address == path.pool_3.address;
                    assert(after[k].address == path.pool_3.address);
                }
            }
            assert forall|q: int, pool: Pool| 0 <= q < p + 1 && #[trigger] pool_of_path(paths@, q, pool) implies lists_address(
                after,
                pool.address,
            ) by {
                if q < p {
                    assert(lists_address(before, pool.address));
                }
            }
            assert forall|a: int, b: int| 0 <= a < after.len() && 0 <= b < after.len() && a != b implies (
            #[trigger] after[a]).address != (#[trigger] after[b]).address by {
                let lo = if a < b {
                    a
                } else {
                    b
                };
                let hi = if a < b {
                    b
                } else {
                    a
                };
                if hi < before.len() {
                    assert(before[a].address != before[b].address);
                } else if hi < first.len() {
                    // the pool at `hi` was pushed because no pool before it had its address
                    assert(!lists_address(before, first[hi].address));
                    assert(before[lo].address != first[hi].address);
                } else if hi < second.len() {
                    assert(!lists_address(first, second[hi].address));
                    assert(first[lo].address != second[hi].address);
                } else {
                    assert(!lists_address(second, after[hi].address));
                    assert(second[lo].address != after[hi].address);
                }
            }
        }
        p += 1;
    }
    watched
}

/// Whether a list of addresses holds an address.
pub fn contains_address(list: &Vec<Address>, address: &Address) -> (r: bool)
    ensures
        r == list@.contains(*address),
{
    let mut i: usize = 0;
    while i < list.len()
        invariant
            i <= list.len(),
            forall|j: int| 0 <= j < i ==> list[j] != *address,
        decreases list.len() - i,
    {
        if list[i].eq(address) {
            return true;
        }
        i += 1;
    }
    false
}

} // verus!
