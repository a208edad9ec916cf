//! Cache of secondary traces for guard failures.

use vstd::prelude::*;
use rustc_hash::FxHashMap;
use crate::fx::{fx_get, fx_insert, fx_len, fx_new};
use super::values::ValueType;

verus! {

/// Maps a failed guard, by its slot and the type that was seen, to the trace for that type.
#[derive(Debug)]
pub struct PolymorphicInlineCache {
    entries: FxHashMap<u64, u32>,
    max_entries: usize,
}

/// The key of a slot and a type: different for each pair.
pub open spec fn pic_key(slot: u16, t: ValueType) -> u64 {
    (slot * 256 + t.code()) as u64
}

/// What `add_side_exit` does to a table of `limit` entries.
pub open spec fn entered(
    table: Map<u64, u32>,
    limit: usize,
    slot: u16,
    t: ValueType,
    id: u32,
) -> Map<u64, u32> {
    if table.dom().len() < limit {
        table.insert(pic_key(slot, t), id)
    } else {
        table
    }
}

/// Two pairs with one key are the same pair.
pub proof fn pic_key_is_injective(a: u16, t: ValueType, b: u16, u: ValueType)
    requires
        pic_key(a, t) == pic_key(b, u),
    ensures
        a == b,
        t == u,
{
    super::values::code_round_trip(t);
    super::values::code_round_trip(u);
}

fn key_of(slot: u16, t: ValueType) -> (r: u64)
    ensures
        r == pic_key(slot, t),
{
    slot as u64 * 256 + t.code() as u64
}

impl PolymorphicInlineCache {
    /// The traces by key.
    pub closed spec fn table(&self) -> Map<u64, u32> {
        self.entries@
    }

    /// The number of entries that is not exceeded.
    pub closed spec fn limit(&self) -> usize {
        self.max_entries
    }

    /// The trace for a failed guard, if there is one.
    pub open spec fn target(&self, slot: u16, t: ValueType) -> Option<u32> {
        if self.table().dom().contains(pic_key(slot, t)) {
            Some(self.table()[pic_key(slot, t)])
        } else {
            None
        }
    }

    /// The cache holds no more entries than its limit.
    pub open spec fn wf(&self) -> bool {
        self.table().dom().finite() && self.table().dom().len() <= self.limit()
    }

    /// An empty cache for at most `max_entries` entries.
    pub fn new(max_entries: usize) -> (r: Self)
        ensures
            r.wf(),
            r.table().dom() == Set::<u64>::empty(),
            r.limit() == max_entries,
    {
        PolymorphicInlineCache { entries: fx_new(), max_entries }
    }

    /// Enters the trace for a failed guard, unless the cache is full.
    pub fn add_side_exit(&mut self, slot: u16, failed_type: ValueType, trace_id: u32)
        requires
            old(self).wf(),
        ensures
            final(self).wf(),
            final(self).limit() == old(self).limit(),
            final(self).table() == entered(
                old(self).table(),
                old(self).limit(),
                slot,
                failed_type,
                trace_id,
            ),
    {
        if fx_len(&self.entries) < self.max_entries {
            fx_insert(&mut self.entries, key_of(slot, failed_type), trace_id);
        }
    }

    /// The trace for a failed guard, if there is one.
    pub fn lookup(&self, slot: u16, failed_type: ValueType) -> (r: Option<u32>)
        ensures
            r == self.target(slot, failed_type),
    {
        match fx_get(&self.entries, key_of(slot, failed_type)) {
            Some(id) => Some(*id),
            None => None,
        }
    }

    /// Number of entries.
    pub fn len(&self) -> (r: usize)
        ensures
            r == self.table().dom().len(),
    {
        fx_len(&self.entries)
    }

    /// Whether there is no entry.
    pub fn is_empty(&self) -> (r: bool)
        ensures
            r == (self.table().dom().len() == 0),
    {
        fx_len(&self.entries) == 0
    }
}

/// A cache that is not full gives back the trace that was entered last for a failed guard, and
/// entering it changes the target of no other failed guard.
pub proof fn lookup_after_add(
    before: PolymorphicInlineCache,
    after: PolymorphicInlineCache,
    slot: u16,
    t: ValueType,
    id: u32,
    other_slot: u16,
    other: ValueType,
)
    requires
        after.table() == entered(before.table(), before.limit(), slot, t, id),
    ensures
        before.table().dom().len() < before.limit() ==> after.target(slot, t) == Some(id),
        other_slot != slot || other != t ==> after.target(other_slot, other) == before.target(
            other_slot,
            other,
        ),
{
    if pic_key(slot, t) == pic_key(other_slot, other) {
        pic_key_is_injective(slot, t, other_slot, other);
    }
}

} // verus!
