//! Hash maps and sets keyed by integers, hashed with `rustc_hash`.

use vstd::prelude::*;
use rustc_hash::{FxBuildHasher, FxHashMap, FxHashSet};

verus! {

/// The hasher factory of `rustc_hash`; it carries no state that the library reads.
#[verifier::external_type_specification]
#[verifier::external_body]
pub struct ExFxBuildHasher(FxBuildHasher);

/// `FxHashMap::default`: the map that holds nothing.
#[verifier::external_body]
pub(crate) fn fx_new<V>() -> (m: FxHashMap<u64, V>)
    ensures
        m@.dom() == Set::<u64>::empty(),
{
    FxHashMap::default()
}

/// `FxHashMap::insert`: afterwards `key` is bound to `value` and every other binding is as
/// before.
#[verifier::external_body]
pub(crate) fn fx_insert<V>(m: &mut FxHashMap<u64, V>, key: u64, value: V)
    ensures
        final(m)@ == old(m)@.insert(key, value),
{
    m.insert(key, value);
}

/// `FxHashMap::get`: the value bound to `key`, if there is one.
#[verifier::external_body]
pub(crate) fn fx_get<V>(m: &FxHashMap<u64, V>, key: u64) -> (r: Option<&V>)
    ensures
        r == (if m@.dom().contains(key) {
            Some(&m@[key])
        } else {
            None::<&V>
        }),
{
    m.get(&key)
}

/// `FxHashMap::remove`: the binding of `key` leaves the map.
#[verifier::external_body]
pub(crate) fn fx_remove<V>(m: &mut FxHashMap<u64, V>, key: u64)
    ensures
        final(m)@ == old(m)@.remove(key),
{
    m.remove(&key);
}

/// `FxHashMap::clear`: all bindings leave the map.
#[verifier::external_body]
pub(crate) fn fx_clear<V>(m: &mut FxHashMap<u64, V>)
    ensures
        final(m)@.dom() == Set::<u64>::empty(),
{
    m.clear();
}

/// `FxHashMap::len`: the number of keys that are bound.
#[verifier::external_body]
pub(crate) fn fx_len<V>(m: &FxHashMap<u64, V>) -> (r: usize)
    ensures
        r == m@.dom().len(),
{
    m.len()
}

/// `FxHashMap::keys`, collected: each key that is bound once, in no particular order.
#[verifier::external_body]
pub(crate) fn fx_keys<V>(m: &FxHashMap<u64, V>) -> (r: Vec<u64>)
    ensures
        r@.no_duplicates(),
        r@.to_set() == m@.dom(),
{
    m.keys().copied().collect()
}

/// `FxHashSet::default`: the set that holds nothing.
#[verifier::external_body]
pub(crate) fn fx_set_new() -> (s: FxHashSet<u64>)
    ensures
        s@ == Set::<u64>::empty(),
{
    FxHashSet::default()
}

/// `FxHashSet::insert`: afterwards the set holds `key` too.
#[verifier::external_body]
pub(crate) fn fx_set_insert(s: &mut FxHashSet<u64>, key: u64)
    ensures
        final(s)@ == old(s)@.insert(key),
{
    s.insert(key);
}

/// `FxHashSet::remove`: `key` leaves the set.
#[verifier::external_body]
pub(crate) fn fx_set_remove(s: &mut FxHashSet<u64>, key: u64)
    ensures
        final(s)@ == old(s)@.remove(key),
{
    s.remove(&key);
}

/// `FxHashSet::contains`: whether the set holds `key`.
#[verifier::external_body]
pub(crate) fn fx_set_contains(s: &FxHashSet<u64>, key: u64) -> (r: bool)
    ensures
        r == s@.contains(key),
{
    s.contains(&key)
}

} // verus!
