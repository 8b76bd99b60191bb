//! The reserves of the pools that are watched, by pool address.
//!
//! The map is a hash map keyed by the text of an address; beside it stands
//! the list of the addresses it holds, so that they can be walked.

use crate::address::{address_text, lemma_address_text_round_trip, Address};
use crate::uint::U256;
use vstd::hash_map::StringHashMap;
use vstd::prelude::*;

verus! {

/// The two reserves of a pool, as its last update gave them.
#[derive(Clone, Copy, Debug)]
pub struct Reserve {
    pub reserve0: U256,
    pub reserve1: U256,
}

impl Default for Reserve {
    /// Two reserves of zero.
    fn default() -> (r: Reserve)
        ensures
            r.reserve0@ == 0,
            r.reserve1@ == 0,
    {
        Reserve { reserve0: U256::zero(), reserve1: U256::zero() }
    }
}

/// Two addresses with the same text are the same address.
pub proof fn lemma_address_text_injective(a: Address, b: Address)
    requires
        address_text(a@) == address_text(b@),
    ensures
        a == b,
{
    lemma_address_text_round_trip(a@);
    lemma_address_text_round_trip(b@);
    a.lemma_view_injective(b);
}

/// A map from addresses to values. Setting a value replaces the value that
/// the address had as a whole; no address has more than one value.
#[verifier::reject_recursive_types(T)]
pub struct AddressMap<T> {
    by_text: StringHashMap<T>,
    keys: Vec<Address>,
}

/// A map from pool addresses to reserves.
pub type ReserveMap = AddressMap<Reserve>;

impl<T> View for AddressMap<T> {
    type V = Map<Address, T>;

    closed spec fn view(&self) -> Map<Address, T> {
        Map::new(
            |a: Address| self.by_text@.contains_key(address_text(a@)),
            |a: Address| self.by_text@[address_text(a@)],
        )
    }
}

impl<T: Copy> AddressMap<T> {
    /// Whether the map is in order: the list of its addresses holds each
    /// address of the map once and no other. Every map that this module
    /// hands out is.
    pub closed spec fn wf(&self) -> bool {
        &&& self.keys@.no_duplicates()
        &&& forall|a: Address| #[trigger] self.keys@.contains(a) <==> self.by_text@.contains_key(address_text(a@))
    }

    /// A map without entries.
    pub fn new() -> (r: AddressMap<T>)
        ensures
            r.wf(),
            r@ == Map::<Address, T>::empty(),
    {
        let r = AddressMap { by_text: StringHashMap::new(), keys: Vec::new() };
        proof {
            assert(r@ =~= Map::<Address, T>::empty());
        }
        r
    }

    /// Whether the map has a value for this address.
    pub fn contains_key(&self, address: &Address) -> (r: bool)
        ensures
            r == self@.contains_key(*address),
    {
        let key = address.to_hex();
        self.by_text.contains_key(key.as_str())
    }

    /// The value of an address, where the map has one.
    pub fn get(&self, address: &Address) -> (r: Option<T>)
        ensures
            r == (if self@.contains_key(*address) {
                Some(self@[*address])
            } else {
                None
            }),
    {
        let key = address.to_hex();
        match self.by_text.get(key.as_str()) {
            Some(value) => Some(*value),
            None => None,
        }
    }

    /// Sets the value of an address, in place of the one that the map had
    /// for it.
    pub fn insert(&mut self, address: Address, value: T)
        requires
            old(self).wf(),
        ensures
            final(self).wf(),
            final(self)@ == old(self)@.insert(address, value),
    {
        let key = address.to_hex();
        let ghost old_keys = self.keys@;
        if !self.by_text.contains_key(key.as_str()) {
            self.keys.push(address);
        }
        self.by_text.insert(key, value);
        proof {
            let text = address_text(address@);
            assert forall|b: Address| address_text(b@) == text implies b == address by {
                lemma_address_text_injective(b, address);
            }
            assert forall|b: Address| #[trigger]
                self.keys@.contains(b) <==> self.by_text@.contains_key(address_text(b@)) by {
                if self.keys@.contains(b) {
                    let j = choose|j: int| 0 <= j < self.keys@.len() && self.keys@[j] == b;
                    if j < old_keys.len() {
                        assert(old_keys[j] == b);
                        assert(old_keys.contains(b));
                    }
                }
                if self.by_text@.contains_key(address_text(b@)) {
                    if b == address {
                        if old_keys.contains(b) {
                            let j = choose|j: int| 0 <= j < old_keys.len() && old_keys[j] == b;
                            assert(self.keys@[j] == b);
                        } else {
                            assert(self.keys@[old_keys.len() as int] == b);
                        }
                    } else {
                        assert(old_keys.contains(b));
                        let j = choose|j: int| 0 <= j < old_keys.len() && old_keys[j] == b;
                        assert(self.keys@[j] == b);
                    }
                }
            }
            assert(self.keys@.no_duplicates()) by {
                if self.keys@.len() > old_keys.len() {
                    assert(!old_keys.contains(address));
                    assert forall|i: int, j: int|
                        0 <= i < self.keys@.len() && 0 <= j < self.keys@.len() && i != j implies self.keys@[i]
                        != self.keys@[j] by {
                        if i < old_keys.len() && j < old_keys.len() {
                            assert(old_keys[i] != old_keys[j]);
                        } else if i < old_keys.len() {
                            assert(old_keys.contains(old_keys[i]));
                        } else {
                            assert(old_keys.contains(old_keys[j]));
                        }
                    }
                }
            }
            assert(self@ =~= old(self)@.insert(address, value));
        }
    }

    /// The addresses that the map has values for, each once.
    pub fn keys(&self) -> (r: Vec<Address>)
        requires
            self.wf(),
        ensures
            r@.no_duplicates(),
            forall|a: Address| r@.contains(a) <==> self@.contains_key(a),
    {
        let mut keys: Vec<Address> = Vec::new();
        let mut i: usize = 0;
        while i < self.keys.len()
            invariant
                i <= self.keys.len(),
                keys@ == self.keys@.subrange(0, i as int),
            decreases self.keys.len() - i,
        {
            keys.push(self.keys[i]);
            proof {
                assert(keys@ =~= self.keys@.subrange(0, i + 1));
            }
            i += 1;
        }
        proof {
            assert(keys@ =~= self.keys@);
            assert forall|a: Address| keys@.contains(a) <==> self@.contains_key(a) by {
                assert(self.keys@.contains(a) <==> self.by_text@.contains_key(address_text(a@)));
            }
        }
        keys
    }

    /// The number of addresses that the map has values for.
    pub fn len(&self) -> (r: usize)
        requires
            self.wf(),
        ensures
            r == self@.dom().len(),
            self@.dom().finite(),
    {
        proof {
            assert forall|a: Address| self.keys@.to_set().contains(a) <==> self@.dom().contains(a) by {
                assert(self.keys@.contains(a) <==> self.by_text@.contains_key(address_text(a@)));
            }
            assert(self@.dom() =~= self.keys@.to_set());
            self.keys@.unique_seq_to_set();
            vstd::seq_lib::seq_to_set_is_finite(self.keys@);
        }
        self.keys.len()
    }
}

} // verus!
