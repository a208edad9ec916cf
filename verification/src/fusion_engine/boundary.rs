//! Groups of operations to fuse, and the decision that collects them.

use vstd::prelude::*;
use crate::ieee;
use super::pattern::FusionPattern;
use super::savings::cut_off;

verus! {

/// What a fusion boundary states: which operations to fuse, as what, and to what benefit.
#[verifier::ext_equal]
pub struct BoundaryView {
    /// Places of the operations.
    pub indices: Seq<usize>,
    /// The pattern that they form.
    pub pattern: FusionPattern,
    /// Bytes of memory traffic saved.
    pub savings: i64,
    /// Bits of the compute savings factor.
    pub factor: u64,
    /// Bits of the confidence.
    pub confidence: u64,
}

/// A group of operations to fuse into one kernel, with the estimated benefit.
#[derive(Debug)]
pub struct FusionBoundary {
    /// Places of the operations in the sequence that was analysed.
    pub op_indices: Vec<usize>,
    /// The pattern that the operations form.
    pub pattern: FusionPattern,
    /// Bytes of memory traffic that the fusion saves.
    pub memory_traffic_savings_bytes: i64,
    /// Bits of the ratio of operations before and after the fusion, at least 1.
    pub compute_savings_factor: u64,
    /// Bits of the confidence that the fusion is correct and worth it, between 0 and 1.
    pub confidence: u64,
}

impl View for FusionBoundary {
    type V = BoundaryView;

    open spec fn view(&self) -> BoundaryView {
        BoundaryView {
            indices: self.op_indices@,
            pattern: self.pattern,
            savings: self.memory_traffic_savings_bytes,
            factor: self.compute_savings_factor,
            confidence: self.confidence,
        }
    }
}

/// What a list of boundaries states.
pub open spec fn views(v: Seq<FusionBoundary>) -> Seq<BoundaryView> {
    Seq::new(v.len(), |i: int| v[i]@)
}

/// The greater of `x` and 0.
pub open spec fn at_least_zero(x: i64) -> i64 {
    if x < 0 {
        0
    } else {
        x
    }
}

/// A boundary is well formed when it names at least one operation, in ascending order, and its
/// estimates are in their ranges.
pub open spec fn well_formed(b: BoundaryView) -> bool {
    &&& b.indices.len() > 0
    &&& forall|i: int, j: int| 0 <= i < j < b.indices.len() ==> b.indices[i] < b.indices[j]
    &&& b.savings >= 0
    &&& ieee::is_factor(b.factor)
    &&& ieee::is_fraction(b.confidence)
}

/// Whether the boundaries share an operation.
pub open spec fn overlap(a: BoundaryView, b: BoundaryView) -> bool {
    exists|x: usize| #[trigger] a.indices.contains(x) && b.indices.contains(x)
}

/// Whether no two of the boundaries share an operation.
pub open spec fn disjoint(v: Seq<BoundaryView>) -> bool {
    forall|i: int, j: int| 0 <= i < j < v.len() ==> !overlap(v[i], v[j])
}

/// Whether the boundaries name the same operations as the same pattern.
pub open spec fn same_fusion(a: BoundaryView, b: BoundaryView) -> bool {
    a.indices == b.indices && a.pattern == b.pattern
}

impl Clone for FusionBoundary {
    fn clone(&self) -> (r: Self)
        ensures
            r@ == self@,
    {
        FusionBoundary {
            op_indices: copy_indices(&self.op_indices),
            pattern: self.pattern,
            memory_traffic_savings_bytes: self.memory_traffic_savings_bytes,
            compute_savings_factor: self.compute_savings_factor,
            confidence: self.confidence,
        }
    }
}

/// A copy of a list of places.
pub fn copy_indices(v: &Vec<usize>) -> (r: Vec<usize>)
    ensures
        r@ == v@,
{
    let mut r: Vec<usize> = Vec::new();
    let mut i: usize = 0;
    while i < v.len()
        invariant
            i <= v@.len(),
            r@ == v@.take(i as int),
        decreases v.len() - i,
    {
        r.push(v[i]);
        i += 1;
        assert(r@ =~= v@.take(i as int));
    }
    assert(r@ =~= v@);
    r
}

/// Whether two lists of places are equal.
pub fn same_indices(a: &Vec<usize>, b: &Vec<usize>) -> (r: bool)
    ensures
        r == (a@ == b@),
{
    if a.len() != b.len() {
        return false;
    }
    let mut i: usize = 0;
    while i < a.len()
        invariant
            a@.len() == b@.len(),
            i <= a@.len(),
            forall|j: int| 0 <= j < i ==> a@[j] == b@[j],
        decreases a.len() - i,
    {
        if a[i] != b[i] {
            assert(a@[i as int] != b@[i as int]);
            return false;
        }
        i += 1;
    }
    assert(a@ =~= b@);
    true
}

/// Whether a list of places holds `x`.
pub fn holds_index(v: &Vec<usize>, x: usize) -> (r: bool)
    ensures
        r == v@.contains(x),
{
    let mut i: usize = 0;
    while i < v.len()
        invariant
            i <= v@.len(),
            forall|j: int| 0 <= j < i ==> v@[j] != x,
        decreases v.len() - i,
    {
        if v[i] == x {
            assert(v@[i as int] == x);
            return true;
        }
        i += 1;
    }
    false
}

/// Whether one place does not come behind another.
pub open spec fn comes_first() -> spec_fn(usize, usize) -> bool {
    |x: usize, y: usize| x <= y
}

/// A list of places in ascending order.
pub open spec fn ascending(v: Seq<usize>) -> Seq<usize> {
    v.sort_by(comes_first())
}

proof fn lemma_ascending(v: Seq<usize>, w: Seq<usize>)
    requires
        w.to_multiset() == v.to_multiset(),
        forall|i: int, j: int| 0 <= i < j < w.len() ==> w[i] <= w[j],
    ensures
        w == ascending(v),
{
    let leq = comes_first();
    assert(vstd::relations::total_ordering(leq));
    assert forall|i: int, j: int| 0 <= i < j < w.len() implies #[trigger] leq(w[i], w[j]) by {
        assert(w[i] <= w[j]);
    }
    v.lemma_sort_by_ensures(leq);
    vstd::seq_lib::lemma_sorted_unique(w, ascending(v), leq);
}

/// A list in ascending order stays as it is, and every other keeps its places.
pub proof fn ascending_is_sorted(v: Seq<usize>)
    ensures
        ascending(v).len() == v.len(),
        ascending(v).to_multiset() == v.to_multiset(),
        forall|i: int, j: int| 0 <= i < j < v.len() ==> ascending(v)[i] <= ascending(v)[j],
        (forall|i: int, j: int| 0 <= i < j < v.len() ==> v[i] <= v[j]) ==> ascending(v) == v,
{
    let leq = comes_first();
    let w = ascending(v);
    assert(vstd::relations::total_ordering(leq));
    v.lemma_sort_by_ensures(leq);
    v.to_multiset_ensures();
    w.to_multiset_ensures();
    assert forall|i: int, j: int| 0 <= i < j < v.len() implies w[i] <= w[j] by {
        assert(leq(w[i], w[j]));
    }
    if forall|i: int, j: int| 0 <= i < j < v.len() ==> v[i] <= v[j] {
        lemma_ascending(v, v);
    }
}

/// The places of a list in ascending order.
fn sort_indices(v: &Vec<usize>) -> (r: Vec<usize>)
    ensures
        r@ == ascending(v@),
{
    let mut r: Vec<usize> = Vec::new();
    let mut k: usize = 0;
    assert(v@.take(0) =~= Seq::<usize>::empty());
    while k < v.len()
        invariant
            k <= v@.len(),
            r@.len() == k,
            r@.to_multiset() == v@.take(k as int).to_multiset(),
            forall|i: int, j: int| 0 <= i < j < r@.len() ==> r@[i] <= r@[j],
        decreases v.len() - k,
    {
        let x: usize = v[k];
        let mut at: usize = r.len();
        while at > 0 && r[at - 1] > x
            invariant
                at <= r@.len(),
                forall|i: int| at <= i < r@.len() ==> r@[i] > x,
                forall|i: int, j: int| 0 <= i < j < r@.len() ==> r@[i] <= r@[j],
            decreases at,
        {
            at -= 1;
        }
        let ghost before = r@;
        r.insert(at, x);
        proof {
            vstd::seq_lib::to_multiset_insert(before, at as int, x);
            assert(v@.take(k + 1) =~= v@.take(k as int).push(x));
            v@.take(k as int).to_multiset_ensures();
        }
        k += 1;
    }
    assert(v@.take(k as int) =~= v@);
    proof {
        lemma_ascending(v@, r@);
    }
    r
}

impl FusionBoundary {
    /// A boundary with the given estimates. Its places are brought into ascending order, and
    /// savings below zero count as none.
    pub fn new(
        op_indices: Vec<usize>,
        pattern: FusionPattern,
        memory_traffic_savings_bytes: i64,
        compute_savings_factor: u64,
        confidence: u64,
    ) -> (r: Self)
        requires
            op_indices@.len() > 0,
            ieee::is_factor(compute_savings_factor),
            ieee::is_fraction(confidence),
        ensures
            r@ == (BoundaryView {
                indices: ascending(op_indices@),
                pattern,
                savings: at_least_zero(memory_traffic_savings_bytes),
                factor: compute_savings_factor,
                confidence,
            }),
    {
        let savings: i64 = if memory_traffic_savings_bytes < 0 {
            0
        } else {
            memory_traffic_savings_bytes
        };
        FusionBoundary {
            op_indices: sort_indices(&op_indices),
            pattern,
            memory_traffic_savings_bytes: savings,
            compute_savings_factor,
            confidence,
        }
    }

    /// Number of operations in this boundary.
    #[inline]
    pub fn op_count(&self) -> (r: usize)
        ensures
            r == self@.indices.len(),
    {
        self.op_indices.len()
    }

    /// Whether the fused schedule must be checked before it is used.
    #[inline]
    pub fn requires_polyhedral_validation(&self) -> (r: bool)
        ensures
            r == self@.pattern.requires_polyhedral_validation(),
    {
        self.pattern.requires_polyhedral_validation()
    }

    /// Whether this boundary and `other` share an operation.
    pub fn overlaps(&self, other: &FusionBoundary) -> (r: bool)
        ensures
            r == overlap(self@, other@),
    {
        let mut i: usize = 0;
        while i < self.op_indices.len()
            invariant
                i <= self.op_indices@.len(),
                forall|j: int|
                    0 <= j < i ==> !other.op_indices@.contains(#[trigger] self.op_indices@[j]),
            decreases self.op_indices.len() - i,
        {
            let x: usize = self.op_indices[i];
            if holds_index(&other.op_indices, x) {
                assert(self@.indices.contains(x)) by {
                    assert(self.op_indices@[i as int] == x);
                }
                assert(other@.indices.contains(x));
                return true;
            }
            i += 1;
        }
        assert(!overlap(self@, other@)) by {
            if overlap(self@, other@) {
                let x = choose|x: usize| #[trigger]
                    self@.indices.contains(x) && other@.indices.contains(x);
                let j = choose|j: int| 0 <= j < self@.indices.len() && self@.indices[j] == x;
                assert(!other.op_indices@.contains(self.op_indices@[j]));
            }
        }
        false
    }

    /// Whether this boundary and `other` name the same operations as the same pattern.
    pub fn is_same_fusion(&self, other: &FusionBoundary) -> (r: bool)
        ensures
            r == same_fusion(self@, other@),
    {
        same_indices(&self.op_indices, &other.op_indices) && self.pattern == other.pattern
    }
}

/// Memory traffic that the first `k` boundaries save together.
pub open spec fn total_savings(v: Seq<BoundaryView>, k: int) -> int
    decreases k,
{
    if k <= 0 {
        0
    } else {
        total_savings(v, k - 1) + v[k - 1].savings
    }
}

/// Number of operations that the first `k` boundaries name together.
pub open spec fn total_ops(v: Seq<BoundaryView>, k: int) -> int
    decreases k,
{
    if k <= 0 {
        0
    } else {
        total_ops(v, k - 1) + v[k - 1].indices.len()
    }
}

/// Whether some boundary must be checked before it is used.
pub open spec fn any_needs_validation(v: Seq<BoundaryView>) -> bool {
    exists|i: int| 0 <= i < v.len() && (#[trigger] v[i]).pattern.requires_polyhedral_validation()
}

/// The boundaries that were chosen, with what they save together.
#[derive(Debug, Clone)]
pub struct FusionDecision {
    /// The boundaries. Each operation is in at most one of them.
    pub boundaries: Vec<FusionBoundary>,
    /// Sum of the memory traffic savings of the boundaries, cut off to its range.
    pub total_hbm_traffic_reduction: i64,
    /// Whether some boundary must be checked before it is used.
    pub requires_polyhedral_validation: bool,
}

impl FusionDecision {
    /// What the boundaries of this decision state.
    pub open spec fn chosen(&self) -> Seq<BoundaryView> {
        views(self.boundaries@)
    }

    /// The aggregate fields are what the boundaries add up to.
    pub open spec fn consistent(&self) -> bool {
        &&& self.total_hbm_traffic_reduction == super::dtype::saturated(
            total_savings(self.chosen(), self.chosen().len() as int),
        )
        &&& self.requires_polyhedral_validation == any_needs_validation(self.chosen())
    }

    /// A decision to fuse nothing.
    pub fn empty() -> (r: Self)
        ensures
            r.chosen() == Seq::<BoundaryView>::empty(),
            r.consistent(),
    {
        let r = FusionDecision {
            boundaries: Vec::new(),
            total_hbm_traffic_reduction: 0,
            requires_polyhedral_validation: false,
        };
        assert(r.chosen() =~= Seq::<BoundaryView>::empty());
        r
    }

    /// A decision to fuse the given boundaries.
    pub fn from_boundaries(boundaries: Vec<FusionBoundary>) -> (r: Self)
        ensures
            r.boundaries == boundaries,
            r.consistent(),
    {
        let ghost v = views(boundaries@);
        let mut total: i128 = 0;
        let mut validate: bool = false;
        let mut k: usize = 0;
        while k < boundaries.len()
            invariant
                v == views(boundaries@),
                -(k * 0x8000_0000_0000_0000) <= total <= k * 0x8000_0000_0000_0000,
                k <= boundaries@.len(),
                total == total_savings(v, k as int),
                validate == exists|i: int|
                    0 <= i < k && (#[trigger] v[i]).pattern.requires_polyhedral_validation(),
            decreases boundaries.len() - k,
        {
            assert(v[k as int] == boundaries@[k as int]@);
            total = total + boundaries[k].memory_traffic_savings_bytes as i128;
            if boundaries[k].requires_polyhedral_validation() {
                validate = true;
            }
            k += 1;
        }
        FusionDecision {
            boundaries,
            total_hbm_traffic_reduction: cut_off(total),
            requires_polyhedral_validation: validate,
        }
    }

    /// Number of boundaries.
    #[inline]
    pub fn boundary_count(&self) -> (r: usize)
        ensures
            r == self.chosen().len(),
    {
        self.boundaries.len()
    }

    /// Number of operations in all boundaries together.
    pub fn total_fused_ops(&self) -> (r: usize)
        requires
            total_ops(self.chosen(), self.chosen().len() as int) <= usize::MAX,
        ensures
            r == total_ops(self.chosen(), self.chosen().len() as int),
    {
        let ghost v = self.chosen();
        let mut total: usize = 0;
        let mut k: usize = 0;
        while k < self.boundaries.len()
            invariant
                v == self.chosen(),
                k <= v.len(),
                v.len() == self.boundaries@.len(),
                total == total_ops(v, k as int),
                total_ops(v, v.len() as int) <= usize::MAX,
            decreases self.boundaries.len() - k,
        {
            proof {
                lemma_total_ops_monotone(v, k + 1, v.len() as int);
                assert(v[k as int] == self.boundaries@[k as int]@);
            }
            total = total + self.boundaries[k].op_count();
            k += 1;
        }
        total
    }
}

proof fn lemma_total_ops_monotone(v: Seq<BoundaryView>, a: int, b: int)
    requires
        0 <= a <= b,
    ensures
        total_ops(v, a) <= total_ops(v, b),
    decreases b - a,
{
    if a < b {
        lemma_total_ops_monotone(v, a, b - 1);
    }
}

} // verus!
