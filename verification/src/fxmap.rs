//! The key-to-slot index: a `std::collections::HashMap` keyed by 128-bit
//! identifiers and driven by fxhash's hasher, as the container has always
//! used. vstd models a `HashMap` as a `Map` view but ties its method
//! contracts to hashers it knows; fxhash's deterministic hasher is not among
//! them, so the handful of map operations the container needs are stated
//! here over that same view and taken on trust.
use vstd::prelude::*;

use std::collections::HashMap;

verus! {

/// fxhash's hasher state. Opaque here: only the map built over it matters.
#[verifier::external_type_specification]
#[verifier::external_body]
pub struct ExFxHasher(fxhash::FxHasher);

/// `std::hash::BuildHasherDefault`, which fxhash uses to build its hashers;
/// vstd gives it no specification.
#[verifier::external_type_specification]
#[verifier::external_body]
#[verifier::reject_recursive_types(H)]
pub struct ExBuildHasherDefault<H>(std::hash::BuildHasherDefault<H>);

/// The index type: key to slot, hashed by fxhash.
pub type SlotMap = HashMap<u128, usize, fxhash::FxBuildHasher>;

/// Relies on `HashMap::with_capacity_and_hasher`: the new map is empty.
#[verifier::external_body]
pub(crate) fn slot_map_with_capacity(capacity: usize) -> (m: SlotMap)
    ensures
        (m@ == Map::<u128, usize>::empty()),
{
    HashMap::with_capacity_and_hasher(capacity, std::hash::BuildHasherDefault::default())
}

/// Relies on `HashMap::insert`: afterwards the key maps to the given slot
/// and every other entry is as it was.
#[verifier::external_body]
pub(crate) fn slot_map_insert(m: &mut SlotMap, key: u128, slot: usize)
    ensures
        final(m)@ == old(m)@.insert(key, slot),
{
    m.insert(key, slot);
}

/// Relies on `HashMap::get`: returns the slot the key maps to, if any.
#[verifier::external_body]
pub(crate) fn slot_map_get(m: &SlotMap, key: u128) -> (r: Option<usize>)
    ensures
        r == if m@.contains_key(key) {
            Some(m@[key])
        } else {
            None::<usize>
        },
{
    m.get(&key).copied()
}

/// Relies on `HashMap::remove`: deletes the key's entry, if any, and
/// returns the slot it mapped to.
#[verifier::external_body]
pub(crate) fn slot_map_remove(m: &mut SlotMap, key: u128) -> (r: Option<usize>)
    ensures
        final(m)@ == old(m)@.remove(key),
        r == if old(m)@.contains_key(key) {
            Some(old(m)@[key])
        } else {
            None::<usize>
        },
{
    m.remove(&key)
}

/// Relies on `HashMap::clear`: afterwards the map is empty.
#[verifier::external_body]
pub(crate) fn slot_map_clear(m: &mut SlotMap)
    ensures
        (final(m)@ == Map::<u128, usize>::empty()),
{
    m.clear();
}

} // verus!
