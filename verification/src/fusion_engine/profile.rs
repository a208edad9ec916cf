//! Shapes that were seen at run time, and the decision to swap a kernel.

use vstd::prelude::*;
use crate::ieee::{INFINITY, ONE, SIX_FIFTHS};
use super::boundary::{copy_indices, BoundaryView, FusionBoundary};
use super::dtype::TensorShape;

verus! {

/// Tensor shapes observed while a computation warms up.
#[derive(Debug, Clone)]
pub struct DynamicShapeProfile {
    /// Observed shapes, oldest first.
    pub observed_shapes: Vec<TensorShape>,
    /// Number of updates so far.
    pub update_count: usize,
    /// Bits of the confidence that replaces that of a boundary, if one is set.
    pub confidence_override: Option<u64>,
}

/// The dimensions of a list of shapes.
pub open spec fn dimensions(v: Seq<TensorShape>) -> Seq<Seq<i64>> {
    Seq::new(v.len(), |i: int| v[i]@)
}

/// A copy of a shape.
pub fn copy_shape(shape: &TensorShape) -> (r: TensorShape)
    ensures
        r@ == shape@,
{
    let mut r: TensorShape = Vec::new();
    let mut i: usize = 0;
    while i < shape.len()
        invariant
            i <= shape@.len(),
            r@ == shape@.take(i as int),
        decreases shape.len() - i,
    {
        r.push(shape[i]);
        i += 1;
        assert(r@ =~= shape@.take(i as int));
    }
    assert(r@ =~= shape@);
    r
}

impl DynamicShapeProfile {
    /// A profile that has seen nothing.
    pub fn new() -> (r: Self)
        ensures
            r.observed_shapes@.len() == 0,
            r.update_count == 0,
            r.confidence_override is None,
    {
        DynamicShapeProfile {
            observed_shapes: Vec::new(),
            update_count: 0,
            confidence_override: None,
        }
    }

    /// A profile that has seen nothing, with room for `capacity` shapes.
    pub fn with_capacity(capacity: usize) -> (r: Self)
        ensures
            r.observed_shapes@.len() == 0,
            r.update_count == 0,
            r.confidence_override is None,
    {
        DynamicShapeProfile {
            observed_shapes: Vec::with_capacity(capacity),
            update_count: 0,
            confidence_override: None,
        }
    }

    /// Records the shapes of one iteration behind those seen before.
    pub fn update_from_runtime(&mut self, actual_shapes: &[TensorShape])
        requires
            old(self).update_count < usize::MAX,
        ensures
            dimensions(final(self).observed_shapes@) == dimensions(old(self).observed_shapes@)
                + dimensions(actual_shapes@),
            final(self).update_count == old(self).update_count + 1,
            final(self).confidence_override == old(self).confidence_override,
    {
        let ghost before = dimensions(self.observed_shapes@);
        let ghost new = dimensions(actual_shapes@);
        let mut i: usize = 0;
        assert(dimensions(self.observed_shapes@) =~= before + new.take(0));
        while i < actual_shapes.len()
            invariant
                i <= actual_shapes@.len(),
                new == dimensions(actual_shapes@),
                dimensions(self.observed_shapes@) == before + new.take(i as int),
                self.update_count == old(self).update_count,
                self.confidence_override == old(self).confidence_override,
            decreases actual_shapes.len() - i,
        {
            let shape: TensorShape = copy_shape(&actual_shapes[i]);
            let ghost held = self.observed_shapes@;
            let ghost dims = shape@;
            self.observed_shapes.push(shape);
            i += 1;
            assert(dimensions(self.observed_shapes@) =~= dimensions(held).push(dims));
            assert(new.take(i as int) =~= new.take(i - 1).push(dims));
            assert(dimensions(self.observed_shapes@) =~= before + new.take(i as int));
        }
        assert(new.take(i as int) =~= new);
        self.update_count = self.update_count + 1;
    }

    /// Bits of the confidence by which the speedup of a boundary is scaled: the override where
    /// one is set, otherwise that of the boundary.
    #[verifier::allow_in_spec]
    pub fn swap_confidence(&self, boundary: &FusionBoundary) -> (r: u64)
        ensures
            r == (match self.confidence_override {
                Some(c) => c,
                None => boundary@.confidence,
            }),
        returns
            (match self.confidence_override {
                Some(c) => c,
                None => boundary@.confidence,
            }),
    {
        match self.confidence_override {
            Some(c) => c,
            None => boundary.confidence,
        }
    }

    /// Whether a fused kernel is worth compiling anew: its speedup, scaled by
    /// `swap_confidence`, is at least 1.2. `speedup` holds the bits of that speedup.
    /// Negative numbers and NaN do not reach the threshold.
    #[verifier::allow_in_spec]
    pub fn hot_swap_kernel(&self, speedup: u64) -> (r: bool)
        ensures
            r == (SIX_FIFTHS <= speedup <= INFINITY),
        returns
            SIX_FIFTHS <= speedup <= INFINITY,
    {
        SIX_FIFTHS <= speedup && speedup <= INFINITY
    }
}

impl Default for DynamicShapeProfile {
    fn default() -> (r: Self)
        ensures
            r.observed_shapes@.len() == 0,
            r.update_count == 0,
            r.confidence_override is None,
    {
        DynamicShapeProfile::new()
    }
}

/// A boundary after the schedule check answered: certain where the check found the fusion legal,
/// otherwise as it was. Once it is certain, its places are in ascending order and savings below
/// zero count as none.
pub fn speculative_handshake(boundary: &FusionBoundary, legal: bool) -> (r: FusionBoundary)
    requires
        legal ==> boundary@.indices.len() > 0 && crate::ieee::is_factor(boundary@.factor),
    ensures
        r@ == (if legal {
            BoundaryView {
                indices: super::boundary::ascending(boundary@.indices),
                savings: super::boundary::at_least_zero(boundary@.savings),
                confidence: ONE,
                ..boundary@
            }
        } else {
            boundary@
        }),
{
    if legal {
        FusionBoundary::new(
            copy_indices(&boundary.op_indices),
            boundary.pattern,
            boundary.memory_traffic_savings_bytes,
            boundary.compute_savings_factor,
            ONE,
        )
    } else {
        boundary.clone()
    }
}

} // verus!
