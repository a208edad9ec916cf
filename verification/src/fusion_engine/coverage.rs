//! Which operations a decision covers.

use vstd::prelude::*;
use super::boundary;
use super::boundary::{BoundaryView, FusionDecision};
use super::pattern::FusionPattern;

verus! {

/// Which operations a decision fuses, and what each pattern contributes.
#[derive(Debug)]
pub struct FusionCoverageReport {
    /// Number of operations that were analysed.
    pub total_ops: usize,
    /// Number of operations that some boundary names.
    pub fused_ops: usize,
    /// Places of the operations that no boundary names, ascending.
    pub orphaned_indices: Vec<usize>,
    /// For each pattern that occurs: the pattern, the number of its boundaries, the operations
    /// in them and the bytes they save.
    pub pattern_stats: Vec<(FusionPattern, usize, usize, i64)>,
}

/// Whether some boundary names the operation at place `i`.
pub open spec fn covered(v: Seq<BoundaryView>, i: int) -> bool {
    exists|b: int| 0 <= b < v.len() && (#[trigger] v[b]).indices.contains(i as usize)
}

/// The first `k` places that no boundary names.
pub open spec fn orphans(v: Seq<BoundaryView>, k: nat) -> Seq<usize>
    decreases k,
{
    if k == 0 {
        Seq::empty()
    } else if covered(v, k - 1) {
        orphans(v, (k - 1) as nat)
    } else {
        orphans(v, (k - 1) as nat).push((k - 1) as usize)
    }
}

/// Number of boundaries of a pattern, of their operations, and the bytes they save, over the
/// first `k` boundaries.
pub open spec fn stats_up_to(v: Seq<BoundaryView>, p: FusionPattern, k: nat) -> (int, int, int)
    decreases k,
{
    if k == 0 {
        (0, 0, 0)
    } else {
        let (count, ops, savings) = stats_up_to(v, p, (k - 1) as nat);
        let b = v[k - 1];
        if b.pattern == p {
            (count + 1, ops + b.indices.len(), savings + b.savings)
        } else {
            (count, ops, savings)
        }
    }
}

/// The patterns in the order in which they are reported.
pub open spec fn report_order() -> Seq<FusionPattern> {
    seq![
        FusionPattern::MatMulBiasReLU,
        FusionPattern::AttentionBlock,
        FusionPattern::NormResidualActivation,
        FusionPattern::OptimizerStepFusion,
        FusionPattern::BackwardPassChain,
        FusionPattern::CommunicationComputeOverlap,
        FusionPattern::PersistentKernel,
        FusionPattern::ElementwiseChain,
        FusionPattern::ReductionFusion,
        FusionPattern::HorizontalElementwise,
    ]
}

/// The statistics of the first `k` patterns in the order of the report that occur.
pub open spec fn stats_of(v: Seq<BoundaryView>, k: nat) -> Seq<(FusionPattern, usize, usize, i64)>
    decreases k,
{
    if k == 0 {
        Seq::empty()
    } else {
        let p = report_order()[k - 1];
        let (count, ops, savings) = stats_up_to(v, p, v.len());
        if count == 0 {
            stats_of(v, (k - 1) as nat)
        } else {
            stats_of(v, (k - 1) as nat).push((p, count as usize, ops as usize, savings as i64))
        }
    }
}

/// Adding up the statistics of each pattern stays in range.
pub open spec fn stats_fit(v: Seq<BoundaryView>) -> bool {
    forall|p: FusionPattern, k: nat|
        k <= v.len() ==> (#[trigger] stats_up_to(v, p, k)).1 <= usize::MAX && i64::MIN
            <= stats_up_to(v, p, k).2 <= i64::MAX
}

fn is_covered(decision: &FusionDecision, i: usize) -> (r: bool)
    ensures
        r == covered(decision.chosen(), i as int),
{
    let ghost v = decision.chosen();
    let mut b: usize = 0;
    while b < decision.boundaries.len()
        invariant
            b <= decision.boundaries@.len(),
            v == decision.chosen(),
            forall|j: int| 0 <= j < b ==> !(#[trigger] v[j]).indices.contains(i),
        decreases decision.boundaries.len() - b,
    {
        assert(v[b as int] == decision.boundaries@[b as int]@);
        if boundary::holds_index(&decision.boundaries[b].op_indices, i) {
            return true;
        }
        b += 1;
    }
    false
}

fn pattern_totals(decision: &FusionDecision, p: FusionPattern) -> (r: (usize, usize, i64))
    requires
        stats_fit(decision.chosen()),
    ensures
        (r.0 as int, r.1 as int, r.2 as int) == stats_up_to(
            decision.chosen(),
            p,
            decision.chosen().len(),
        ),
{
    let ghost v = decision.chosen();
    let mut count: usize = 0;
    let mut ops: usize = 0;
    let mut savings: i64 = 0;
    let mut k: usize = 0;
    while k < decision.boundaries.len()
        invariant
            v == decision.chosen(),
            k <= decision.boundaries@.len(),
            stats_fit(v),
            count <= k,
            (count as int, ops as int, savings as int) == stats_up_to(v, p, k as nat),
        decreases decision.boundaries.len() - k,
    {
        assert(v[k as int] == decision.boundaries@[k as int]@);
        assert(stats_up_to(v, p, (k + 1) as nat).1 <= usize::MAX);
        if decision.boundaries[k].pattern == p {
            count = count + 1;
            ops = ops + decision.boundaries[k].op_count();
            savings = savings + decision.boundaries[k].memory_traffic_savings_bytes;
        }
        k += 1;
    }
    (count, ops, savings)
}

/// Reports which of `total_ops` operations a decision covers.
pub fn compute_coverage_report(decision: &FusionDecision, total_ops: usize) -> (r:
    FusionCoverageReport)
    requires
        stats_fit(decision.chosen()),
    ensures
        r.total_ops == total_ops,
        r.orphaned_indices@ == orphans(decision.chosen(), total_ops as nat),
        r.fused_ops + r.orphaned_indices@.len() == total_ops,
        r.pattern_stats@ == stats_of(decision.chosen(), report_order().len()),
{
    let ghost v = decision.chosen();
    let mut orphaned_indices: Vec<usize> = Vec::new();
    let mut fused_ops: usize = 0;
    let mut i: usize = 0;
    while i < total_ops
        invariant
            v == decision.chosen(),
            i <= total_ops,
            orphaned_indices@ == orphans(v, i as nat),
            fused_ops + orphaned_indices@.len() == i,
        decreases total_ops - i,
    {
        if is_covered(decision, i) {
            fused_ops = fused_ops + 1;
        } else {
            orphaned_indices.push(i);
        }
        i += 1;
    }
    let patterns: [FusionPattern; 10] = [
        FusionPattern::MatMulBiasReLU,
        FusionPattern::AttentionBlock,
        FusionPattern::NormResidualActivation,
        FusionPattern::OptimizerStepFusion,
        FusionPattern::BackwardPassChain,
        FusionPattern::CommunicationComputeOverlap,
        FusionPattern::PersistentKernel,
        FusionPattern::ElementwiseChain,
        FusionPattern::ReductionFusion,
        FusionPattern::HorizontalElementwise,
    ];
    assert(patterns@ =~= report_order());
    let mut pattern_stats: Vec<(FusionPattern, usize, usize, i64)> = Vec::new();
    let mut k: usize = 0;
    while k < 10
        invariant
            v == decision.chosen(),
            stats_fit(v),
            patterns@ == report_order(),
            k <= 10,
            pattern_stats@ == stats_of(v, k as nat),
        decreases 10 - k,
    {
        let p: FusionPattern = patterns[k];
        let (count, ops, savings) = pattern_totals(decision, p);
        if count > 0 {
            pattern_stats.push((p, count, ops, savings));
        }
        k += 1;
    }
    FusionCoverageReport { total_ops, fused_ops, orphaned_indices, pattern_stats }
}

/// The orphans are exactly the places that no boundary names, each listed once and in ascending
/// order.
pub proof fn orphans_are_uncovered(v: Seq<BoundaryView>, k: nat)
    requires
        k <= usize::MAX,
    ensures
        forall|i: int|
            0 <= i < k ==> (orphans(v, k).contains(i as usize) <==> !#[trigger] covered(v, i)),
        forall|i: int| 0 <= i < orphans(v, k).len() ==> (#[trigger] orphans(v, k)[i]) < k,
        forall|i: int, j: int|
            0 <= i < j < orphans(v, k).len() ==> orphans(v, k)[i] < orphans(v, k)[j],
    decreases k,
{
    if k > 0 {
        orphans_are_uncovered(v, (k - 1) as nat);
        let before = orphans(v, (k - 1) as nat);
        let after = orphans(v, k);
        assert forall|i: int| 0 <= i < k implies (after.contains(i as usize) <==> !#[trigger] covered(
            v,
            i,
        )) by {
            if i == k - 1 {
                if covered(v, i) {
                    if after.contains(i as usize) {
                        let j = choose|j: int| 0 <= j < after.len() && after[j] == i as usize;
                        assert(before[j] < k - 1);
                    }
                } else {
                    assert(after[before.len() as int] == i as usize);
                }
            } else {
                if before.contains(i as usize) {
                    let j = choose|j: int| 0 <= j < before.len() && before[j] == i as usize;
                    assert(after[j] == i as usize);
                }
                if after.contains(i as usize) {
                    let j = choose|j: int| 0 <= j < after.len() && after[j] == i as usize;
                    assert(j < before.len());
                    assert(before[j] == i as usize);
                }
            }
        }
    }
}

} // verus!
