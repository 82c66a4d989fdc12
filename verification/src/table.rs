//! The table itself: a dense store of values, a reverse key log parallel to
//! it, and a key-to-slot index. The index always maps each live key to the
//! slot of its value, and the reverse log names the key of each slot, so a
//! removal can repair the index after swap-compaction in constant time.
use vstd::prelude::*;

use crate::fxmap::SlotMap;
use crate::fxmap::slot_map_clear;
use crate::fxmap::slot_map_get;
use crate::fxmap::slot_map_insert;
use crate::fxmap::slot_map_remove;
use crate::fxmap::slot_map_with_capacity;
use crate::rng::random_key;

verus! {

/// A mutable borrow of one slot of a dense store: afterwards the store is
/// the old one with that slot holding whatever the caller leaves behind the
/// borrow.
fn store_slot_mut<T>(store: &mut Vec<T>, slot: usize) -> (v: &mut T)
    requires
        slot < old(store).len(),
    ensures
        *v == old(store)@[slot as int],
        (final(store)@ == old(store)@.update(slot as int, *final(v))),
{
    &mut store[slot]
}

/// A keyed dense-storage container: contiguous values, constant-time lookup
/// by opaque 128-bit key, constant-time removal by swap-compaction.
///
/// Abstractly the table is a finite map from keys to values; every
/// operation's contract says what it does to that map.
#[derive(Debug, Clone)]
pub struct Table<T> {
    /// The index: key to current slot in the dense store.
    map: SlotMap,
    /// The dense store: the live values, in slot order.
    data: Vec<T>,
    /// The reverse key log: the key of each slot, parallel to the store.
    reverse: Vec<u128>,
}

impl<T> View for Table<T> {
    type V = Map<u128, T>;

    /// The table as a map: each live key to the value in its slot.
    closed spec fn view(&self) -> Map<u128, T> {
        Map::new(
            |k: u128| self.map@.contains_key(k),
            |k: u128| self.data@[self.map@[k] as int],
        )
    }
}

impl<T> Table<T> {
    /// The index-consistency invariant: store and log have the same length,
    /// the index maps the key of every slot back to that slot, and every
    /// indexed key names a valid slot whose log entry is that key.
    pub closed spec fn well_formed(&self) -> bool {
        &&& self.data@.len() == self.reverse@.len()
        &&& (forall|i: int|
            #![trigger self.reverse@[i]]
            0 <= i < self.reverse@.len() ==> self.map@.contains_key(self.reverse@[i])
                && self.map@[self.reverse@[i]] == i)
        &&& (forall|k: u128|
            #![trigger self.map@.contains_key(k)]
            self.map@.contains_key(k) ==> self.map@[k] < self.reverse@.len()
                && self.reverse@[self.map@[k] as int] == k)
    }

    /// No slot's key repeats: the index maps each key to a single slot.
    proof fn lemma_reverse_no_duplicates(&self)
        requires
            self.well_formed(),
        ensures
            self.reverse@.no_duplicates(),
    {
        assert forall|i: int, j: int|
            0 <= i < self.reverse@.len() && 0 <= j < self.reverse@.len() && i != j implies
            self.reverse@[i] != self.reverse@[j] by {
            assert(self.map@[self.reverse@[i]] == i);
            assert(self.map@[self.reverse@[j]] == j);
        }
    }

    /// The live keys in current slot order: the reverse key log. The order
    /// is internal and may change on any mutation; `keys` returns it, and
    /// `values` returns the matching values slot by slot.
    pub closed spec fn key_log(&self) -> Seq<u128> {
        self.reverse@
    }

    /// A key is live in the table's map view exactly when the index holds
    /// it, and its value is the one in its slot.
    proof fn lemma_view_key(&self, k: u128)
        ensures
            self@.contains_key(k) <==> self.map@.contains_key(k),
            self.map@.contains_key(k) ==> self@[k] == self.data@[self.map@[k] as int],
    {
    }

    /// The live keys are exactly the logged keys, and there are as many live
    /// entries as slots.
    proof fn lemma_view_dom(&self)
        requires
            self.well_formed(),
        ensures
            self@.dom() =~= self.reverse@.to_set(),
            self@.dom().finite(),
            self@.len() == self.data@.len(),
    {
        broadcast use vstd::seq_lib::seq_to_set_is_finite;

        assert forall|k: u128| self@.dom().contains(k) <==> self.reverse@.to_set().contains(k) by {
            self.lemma_view_key(k);
            if self.map@.contains_key(k) {
                assert(self.reverse@[self.map@[k] as int] == k);
                assert(self.reverse@.contains(k));
            }
            if self.reverse@.contains(k) {
                let i = choose|i: int| 0 <= i < self.reverse@.len() && self.reverse@[i] == k;
                assert(self.map@.contains_key(self.reverse@[i]));
            }
        }
        assert(self@.dom() =~= self.reverse@.to_set());
        self.lemma_reverse_no_duplicates();
        self.reverse@.unique_seq_to_set();
    }

    /// The live keys of a well-formed table form a finite set.
    pub proof fn lemma_view_finite(&self)
        requires
            self.well_formed(),
        ensures
            self@.dom().finite(),
    {
        self.lemma_view_dom();
    }

    /// Creates an empty table sized for `capacity` entries. The capacity is
    /// a performance knob only: the table behaves exactly as a
    /// default-constructed one.
    pub fn with_capacity(capacity: usize) -> (t: Self)
        ensures
            t.well_formed(),
            (t@ == Map::<u128, T>::empty()),
    {
        let t = Table {
            map: slot_map_with_capacity(capacity),
            data: Vec::with_capacity(capacity),
            reverse: Vec::with_capacity(capacity),
        };
        proof {
            assert(t@ =~= Map::<u128, T>::empty());
        }
        t
    }

    /// Removes the key's value and returns it, or reports the key absent.
    /// Swap-compaction: the last value moves into the vacated slot, the
    /// reverse log names the key that moved, and that key's index entry is
    /// repaired. Removing a non-last value therefore relocates the
    /// formerly-last one, but no live key's value changes.
    pub fn remove(&mut self, key: u128) -> (r: Option<T>)
        requires
            old(self).well_formed(),
        ensures
            final(self).well_formed(),
            (final(self)@ == old(self)@.remove(key)),
            r == if old(self)@.contains_key(key) {
                Some(old(self)@[key])
            } else {
                None::<T>
            },
    {
        match slot_map_remove(&mut self.map, key) {
            Some(slot) => {
                proof {
                    assert(old(self).map@[old(self).reverse@[slot as int]] == slot);
                }
                let value = self.data.swap_remove(slot);
                let last = self.reverse.len() - 1;
                let moved_key = self.reverse[last];
                self.reverse.swap_remove(slot);
                if slot < self.reverse.len() {
                    slot_map_insert(&mut self.map, moved_key, slot);
                }
                proof {
                    self.lemma_remove_restores_invariant(*old(self), key, slot, moved_key);
                }
                Some(value)
            },
            None => {
                proof {
                    assert(self@ =~= old(self)@.remove(key));
                }
                None
            },
        }
    }

    /// The facts that make swap-compaction sound: after the store and log
    /// have been compacted and the moved key's index entry repaired, the
    /// invariant holds again and exactly the removed key is gone.
    proof fn lemma_remove_restores_invariant(
        &self,
        prior: Table<T>,
        key: u128,
        slot: usize,
        moved_key: u128,
    )
        requires
            prior.well_formed(),
            prior.map@.contains_key(key),
            slot == prior.map@[key],
            moved_key == prior.reverse@[prior.reverse@.len() - 1],
            self.data@ == prior.data@.update(slot as int, prior.data@.last()).drop_last(),
            self.reverse@ == prior.reverse@.update(slot as int, prior.reverse@.last()).drop_last(),
            self.map@ == if slot + 1 < prior.reverse@.len() {
                prior.map@.remove(key).insert(moved_key, slot)
            } else {
                prior.map@.remove(key)
            },
        ensures
            self.well_formed(),
            (self@ == prior@.remove(key)),
    {
        let n = prior.reverse@.len();
        assert(prior.map@[prior.reverse@[n - 1]] == n - 1);
        assert(prior.reverse@[slot as int] == key);
        assert forall|i: int| 0 <= i < self.reverse@.len() implies
            self.map@.contains_key(self.reverse@[i]) && self.map@[self.reverse@[i]] == i by {
            assert(prior.map@[prior.reverse@[i]] == i);
            if i != slot {
                assert(self.reverse@[i] == prior.reverse@[i]);
            }
        }
        assert forall|k: u128| self.map@.contains_key(k) implies
            self.map@[k] < self.reverse@.len() && self.reverse@[self.map@[k] as int] == k by {
            if k != key && (slot + 1 >= n || k != moved_key) {
                assert(prior.reverse@[prior.map@[k] as int] == k);
                assert(prior.map@[k] != slot);
                assert(prior.map@[k] != n - 1);
            }
        }
        assert forall|k: u128| self@.contains_key(k) implies self@[k] == prior@.remove(key)[k] by {
            if k != key && (slot + 1 >= n || k != moved_key) {
                assert(prior.reverse@[prior.map@[k] as int] == k);
                assert(prior.map@[k] != slot);
                assert(prior.map@[k] != n - 1);
            }
        }
        assert(self@ =~= prior@.remove(key));
    }

    /// Adds a value under the caller's key; insert-or-replace. A live key is
    /// first removed, then the value is appended as a fresh slot, so the
    /// later value wins and the count is unchanged on a collision.
    pub fn add_with_key(&mut self, key: u128, value: T)
        requires
            old(self).well_formed(),
        ensures
            final(self).well_formed(),
            (final(self)@ == old(self)@.insert(key, value)),
    {
        let _ = self.remove(key);
        let ghost mid = *self;
        self.data.push(value);
        self.reverse.push(key);
        let slot = self.data.len() - 1;
        slot_map_insert(&mut self.map, key, slot);
        proof {
            assert(!mid@.contains_key(key));
            mid.lemma_view_key(key);
            assert forall|i: int| 0 <= i < self.reverse@.len() implies
                self.map@.contains_key(self.reverse@[i]) && self.map@[self.reverse@[i]] == i by {
                if i < slot {
                    assert(mid.map@[mid.reverse@[i]] == i);
                }
            }
            assert forall|k: u128| self.map@.contains_key(k) implies
                self.map@[k] < self.reverse@.len() && self.reverse@[self.map@[k] as int] == k by {
                if k != key {
                    assert(mid.reverse@[mid.map@[k] as int] == k);
                }
            }
            assert forall|k: u128| self@.contains_key(k)
                <==> old(self)@.insert(key, value).contains_key(k) by {
                self.lemma_view_key(k);
                mid.lemma_view_key(k);
            }
            assert forall|k: u128| self@.contains_key(k) implies
                self@[k] == old(self)@.insert(key, value)[k] by {
                self.lemma_view_key(k);
                mid.lemma_view_key(k);
                if k != key {
                    assert(mid.reverse@[mid.map@[k] as int] == k);
                    assert(mid@[k] == old(self)@[k]);
                }
            }
            assert(self@ =~= old(self)@.insert(key, value));
        }
    }

    /// Adds a value under a freshly drawn random key and returns that key.
    /// The contract holds for every draw; a draw that collides with a live
    /// key follows the insert-or-replace policy of `add_with_key`.
    pub fn add(&mut self, value: T) -> (key: u128)
        requires
            old(self).well_formed(),
        ensures
            final(self).well_formed(),
            (final(self)@ == old(self)@.insert(key, value)),
    {
        let key = random_key();
        self.add_with_key(key, value);
        key
    }

    /// Looks the key's value up, or reports the key absent. Total: a dead
    /// key is an explicit `None`, never a fault.
    pub fn get(&self, key: u128) -> (r: Option<&T>)
        requires
            self.well_formed(),
        ensures
            r.is_some() <==> self@.contains_key(key),
            r.is_some() ==> *r.unwrap() == self@[key],
    {
        match slot_map_get(&self.map, key) {
            Some(slot) => Some(&self.data[slot]),
            None => None,
        }
    }

    /// Looks the key's value up for in-place mutation, or reports the key
    /// absent. Only the value behind the returned borrow can change: the
    /// key's slot and every other entry stay as they were.
    pub fn get_mut(&mut self, key: u128) -> (r: Option<&mut T>)
        requires
            old(self).well_formed(),
        ensures
            final(self).well_formed(),
            r.is_some() <==> old(self)@.contains_key(key),
            r.is_some() ==> *r.unwrap() == old(self)@[key],
            r.is_some() ==> (final(self)@ =~= old(self)@.insert(key, *final(r.unwrap()))),
            r.is_none() ==> final(self)@ == old(self)@,
    {
        match slot_map_get(&self.map, key) {
            Some(slot) => {
                proof {
                    assert(self.reverse@[self.map@[key] as int] == key);
                    assert forall|k: u128| self@.contains_key(k) == self.map@.contains_key(
                        k,
                    ) by {
                        self.lemma_view_key(k);
                    }
                    assert forall|k: u128| self.map@.contains_key(k) && k != key implies
                        self.map@[k] != slot && self@[k] == self.data@[self.map@[k] as int] by {
                        self.lemma_view_key(k);
                        assert(self.reverse@[self.map@[k] as int] == k);
                    }
                    self.lemma_view_key(key);
                }
                Some(store_slot_mut(&mut self.data, slot))
            },
            None => {
                proof {
                    self.lemma_view_key(key);
                }
                None
            },
        }
    }

    /// The live values, in current slot order. The order is internal: any
    /// mutation may change it. Together the length and membership clauses
    /// say the iteration is complete: one value per live entry, and the
    /// values seen are exactly the live ones.
    pub fn values(&self) -> (r: &Vec<T>)
        requires
            self.well_formed(),
        ensures
            r@.len() == self@.len(),
            (forall|v: T| #[trigger] r@.contains(v) <==> self@.contains_value(v)),
            (forall|i: int|
                0 <= i < r@.len() ==> self@.contains_key(#[trigger] self.key_log()[i]) && r@[i]
                    == self@[self.key_log()[i]]),
    {
        proof {
            self.lemma_view_dom();
            assert forall|i: int| 0 <= i < self.data@.len() implies self@.contains_key(
                self.reverse@[i],
            ) && self.data@[i] == self@[self.reverse@[i]] by {
                self.lemma_view_key(self.reverse@[i]);
            }
            assert forall|v: T| self.data@.contains(v) <==> self@.contains_value(v) by {
                if self.data@.contains(v) {
                    let i = choose|i: int| 0 <= i < self.data@.len() && self.data@[i] == v;
                    let k = self.reverse@[i];
                    self.lemma_view_key(k);
                    assert(self.map@[k] == i);
                    assert(self@.dom().contains(k) && self@[k] == v);
                }
                if self@.contains_value(v) {
                    let k = choose|k: u128| #[trigger] self@.dom().contains(k) && self@[k] == v;
                    self.lemma_view_key(k);
                    assert(self.data@[self.map@[k] as int] == v);
                }
            }
        }
        &self.data
    }

    /// The live keys, one per entry, in the order of the internal key log.
    /// The order is not guaranteed stable across mutations.
    pub fn keys(&self) -> (r: &Vec<u128>)
        requires
            self.well_formed(),
        ensures
            r@ == self.key_log(),
            r@.len() == self@.len(),
            r@.no_duplicates(),
            (forall|k: u128| #[trigger] r@.contains(k) <==> self@.contains_key(k)),
    {
        proof {
            self.lemma_view_dom();
            self.lemma_reverse_no_duplicates();
        }
        &self.reverse
    }

    /// The number of live entries.
    pub fn count(&self) -> (n: usize)
        requires
            self.well_formed(),
        ensures
            n == self@.len(),
    {
        proof {
            self.lemma_view_dom();
        }
        self.data.len()
    }

    /// Empties the table, releasing every value.
    pub fn clear(&mut self)
        requires
            old(self).well_formed(),
        ensures
            final(self).well_formed(),
            (final(self)@ == Map::<u128, T>::empty()),
    {
        self.data.clear();
        self.reverse.clear();
        slot_map_clear(&mut self.map);
        proof {
            assert(self@ =~= Map::<u128, T>::empty());
        }
    }
}

impl<T> Default for Table<T> {
    /// An empty table with a small default capacity.
    fn default() -> (t: Self)
        ensures
            t.well_formed(),
            (t@ == Map::<u128, T>::empty()),
    {
        Table::with_capacity(32)
    }
}

} // verus!
