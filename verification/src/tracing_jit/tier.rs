//! Compilation tiers and the execution counts that decide about them.

use vstd::prelude::*;
use rustc_hash::{FxHashMap, FxHashSet};
use crate::fx::{
    fx_get, fx_insert, fx_new, fx_set_contains, fx_set_insert, fx_set_new, fx_set_remove,
};

verus! {

/// How much effort goes into compiling a trace.
#[derive(Debug, Clone, Copy, PartialEq, Eq, Structural)]
pub enum CompilationTier {
    /// Copied and patched stencils.
    Stencil,
    /// Linear scan allocation.
    LinearScan,
    /// Full optimization.
    Optimized,
}

/// The tier that the execution count of a trace has earned it.
#[derive(Clone, Copy, Debug, PartialEq, Eq, Structural)]
pub enum TierState {
    /// Few executions.
    Tier1Baseline,
    /// More than 100 executions.
    Tier2Optimized,
    /// More than 1000 executions.
    Tier4Global,
}

/// More executions than this earn the optimized tier.
pub const TIER2_THRESHOLD: u64 = 100;

/// More executions than this earn the global tier.
pub const TIER4_THRESHOLD: u64 = 1000;

/// The tier that a number of executions earns.
pub open spec fn tier_for(count: u64) -> TierState {
    if count > TIER4_THRESHOLD {
        TierState::Tier4Global
    } else if count > TIER2_THRESHOLD {
        TierState::Tier2Optimized
    } else {
        TierState::Tier1Baseline
    }
}

/// The tiers in ascending order.
pub open spec fn tier_rank(t: TierState) -> int {
    match t {
        TierState::Tier1Baseline => 0,
        TierState::Tier2Optimized => 1,
        TierState::Tier4Global => 2,
    }
}

/// More executions never lead to a lower tier.
pub proof fn tier_is_monotone(a: u64, b: u64)
    requires
        a <= b,
    ensures
        tier_rank(tier_for(a)) <= tier_rank(tier_for(b)),
{
}

/// Counts executions and keeps the tier of each trace.
#[derive(Debug)]
pub struct TierManager {
    trace_tiers: FxHashMap<u64, TierState>,
    hotness: FxHashMap<u64, u64>,
    compiling_tier4: FxHashSet<u64>,
}

impl TierManager {
    /// Number of executions of a trace.
    pub closed spec fn count(&self, id: u32) -> u64 {
        if self.hotness@.dom().contains(id as u64) {
            self.hotness@[id as u64]
        } else {
            0
        }
    }

    /// The tier that is kept for a trace.
    pub closed spec fn tier(&self, id: u32) -> TierState {
        if self.trace_tiers@.dom().contains(id as u64) {
            self.trace_tiers@[id as u64]
        } else {
            TierState::Tier1Baseline
        }
    }

    /// The traces for which a compilation for the global tier is under way.
    pub closed spec fn compiling(&self) -> Set<u64> {
        self.compiling_tier4@
    }

    /// The tier that is kept for a trace is the one that its count earns.
    pub open spec fn wf(&self) -> bool {
        forall|id: u32| #[trigger] self.tier(id) == tier_for(self.count(id))
    }

    /// A manager that has seen no execution.
    pub fn new() -> (r: Self)
        ensures
            r.wf(),
            forall|id: u32| #[trigger] r.count(id) == 0,
            r.compiling() == Set::<u64>::empty(),
    {
        TierManager { trace_tiers: fx_new(), hotness: fx_new(), compiling_tier4: fx_set_new() }
    }

    /// Counts one execution of a trace and returns the tier that it has earned.
    pub fn record_execution(&mut self, trace_id: u32) -> (r: TierState)
        requires
            old(self).wf(),
            old(self).count(trace_id) < u64::MAX,
        ensures
            final(self).wf(),
            final(self).count(trace_id) == old(self).count(trace_id) + 1,
            forall|id: u32|
                id != trace_id ==> #[trigger] final(self).count(id) == old(self).count(id),
            final(self).compiling() == old(self).compiling(),
            r == tier_for(final(self).count(trace_id)),
            r == final(self).tier(trace_id),
    {
        let count: u64 = self.hotness(trace_id) + 1;
        fx_insert(&mut self.hotness, trace_id as u64, count);
        let recommended: TierState = if count > TIER4_THRESHOLD {
            TierState::Tier4Global
        } else if count > TIER2_THRESHOLD {
            TierState::Tier2Optimized
        } else {
            TierState::Tier1Baseline
        };
        fx_insert(&mut self.trace_tiers, trace_id as u64, recommended);
        proof {
            assert forall|id: u32| #[trigger] self.tier(id) == tier_for(self.count(id)) by {
                if id != trace_id {
                    assert(old(self).tier(id) == tier_for(old(self).count(id)));
                }
            }
        }
        recommended
    }

    /// The tier of a trace.
    pub fn current_tier(&self, trace_id: u32) -> (r: TierState)
        ensures
            r == self.tier(trace_id),
    {
        match fx_get(&self.trace_tiers, trace_id as u64) {
            Some(t) => *t,
            None => TierState::Tier1Baseline,
        }
    }

    /// Notes that a compilation for the global tier is under way.
    pub fn start_tier4_compilation(&mut self, trace_id: u32)
        requires
            old(self).wf(),
        ensures
            final(self).wf(),
            final(self).compiling() == old(self).compiling().insert(trace_id as u64),
            forall|id: u32| #[trigger] final(self).count(id) == old(self).count(id),
    {
        fx_set_insert(&mut self.compiling_tier4, trace_id as u64);
        assert forall|id: u32| #[trigger] self.tier(id) == tier_for(self.count(id)) by {
            assert(old(self).tier(id) == tier_for(old(self).count(id)));
        }
    }

    /// Notes that a compilation for the global tier is over.
    pub fn finish_tier4_compilation(&mut self, trace_id: u32)
        requires
            old(self).wf(),
        ensures
            final(self).wf(),
            final(self).compiling() == old(self).compiling().remove(trace_id as u64),
            forall|id: u32| #[trigger] final(self).count(id) == old(self).count(id),
    {
        fx_set_remove(&mut self.compiling_tier4, trace_id as u64);
        assert forall|id: u32| #[trigger] self.tier(id) == tier_for(self.count(id)) by {
            assert(old(self).tier(id) == tier_for(old(self).count(id)));
        }
    }

    /// Whether a compilation for the global tier is under way.
    pub fn is_compiling_tier4(&self, trace_id: u32) -> (r: bool)
        ensures
            r == self.compiling().contains(trace_id as u64),
    {
        fx_set_contains(&self.compiling_tier4, trace_id as u64)
    }

    /// Number of executions of a trace.
    pub fn hotness(&self, trace_id: u32) -> (r: u64)
        ensures
            r == self.count(trace_id),
    {
        match fx_get(&self.hotness, trace_id as u64) {
            Some(c) => *c,
            None => 0,
        }
    }
}

} // verus!
