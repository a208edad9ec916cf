//! What the estimates of a fusion amount to.

use vstd::prelude::*;
use crate::ieee::{clamp_fraction, is_positive, ONE, SIX_FIFTHS, SIX_TENTHS, THREE_TENTHS};
use super::boundary::{BoundaryView, FusionBoundary, FusionDecision};
use super::classify::OpClass;
use super::dtype::DType;
use super::engine::FusionEngine;
use super::horizontal::group_confidence_bits;
use super::op::{FusionOp, OpType};
use super::pattern::FusionPattern;
use super::profile::DynamicShapeProfile;
use super::savings::{compute_savings, confidence_bits, four_fifths};

verus! {

/// A pattern of operations in a row, each of which hands its output to the next.
pub open spec fn is_row(p: FusionPattern) -> bool {
    p == FusionPattern::MatMulBiasReLU || p == FusionPattern::NormResidualActivation || p
        == FusionPattern::OptimizerStepFusion || p == FusionPattern::BackwardPassChain || p
        == FusionPattern::ElementwiseChain
}

/// One more operation at the end of a row makes an intermediate of what was the last output: it is
/// written once and read once less. A single operation saves nothing.
pub proof fn each_intermediate_saves_twice_its_size(
    p: FusionPattern,
    ops: Seq<FusionOp>,
    next: FusionOp,
)
    requires
        is_row(p),
        ops.len() > 0,
    ensures
        super::savings::exact_traffic(p, ops.push(next)) == super::savings::exact_traffic(p, ops)
            + 2 * ops.last().memory_bytes,
        super::savings::exact_traffic(p, seq![next]) == 0,
{
    let longer = ops.push(next);
    let n = ops.len() as int;
    lemma_same_bytes(ops, longer, n);
    lemma_same_bytes(ops, longer, n - 1);
    assert(longer[n - 1] == ops.last());
}

proof fn lemma_same_bytes(a: Seq<FusionOp>, b: Seq<FusionOp>, k: int)
    requires
        k <= a.len(),
        k <= b.len(),
        forall|i: int| 0 <= i < k ==> a[i] == b[i],
    ensures
        super::savings::bytes_before(a, k) == super::savings::bytes_before(b, k),
    decreases k,
{
    if k > 0 {
        lemma_same_bytes(a, b, k - 1);
    }
}

/// Attention saves the output of its first product and that of its first softmax, each written and
/// read once less; a repeated block saves that of its first operation; a fused reduction saves
/// that of its first reduction; an overlap hides the traffic of its first collective; and a
/// horizontal group of `n` operations saves `n - 1` launches of 5000 bytes each. Nothing is saved
/// where there is no operation.
pub proof fn other_patterns_save(ops: Seq<FusionOp>, i: int)
    requires
        0 <= i < ops.len(),
    ensures
        super::savings::exact_traffic(FusionPattern::PersistentKernel, ops) == 2
            * ops[0].memory_bytes,
        super::savings::exact_traffic(FusionPattern::HorizontalElementwise, ops) == 5000 * (
        ops.len() - 1),
        ops[i].op_type == OpType::Softmax && ops.len() >= 2 && (forall|j: int|
            0 <= j < i ==> (#[trigger] ops[j]).op_type != OpType::Softmax)
            ==> super::savings::exact_traffic(FusionPattern::AttentionBlock, ops) == 2 * (
        ops[0].memory_bytes + ops[i].memory_bytes),
        (forall|j: int| 0 <= j < ops.len() ==> (#[trigger] ops[j]).op_type != OpType::Softmax)
            ==> super::savings::exact_traffic(FusionPattern::AttentionBlock, ops) == 2
            * ops[0].memory_bytes,
        ops[i].op_type == OpType::Reduce && (forall|j: int|
            0 <= j < i ==> (#[trigger] ops[j]).op_type != OpType::Reduce)
            ==> super::savings::exact_traffic(FusionPattern::ReductionFusion, ops) == 2
            * ops[i].memory_bytes,
        (forall|j: int| 0 <= j < ops.len() ==> (#[trigger] ops[j]).op_type != OpType::Reduce)
            ==> super::savings::exact_traffic(FusionPattern::ReductionFusion, ops) == 0,
        super::recognition::collective(ops[i].op_type) && (forall|j: int|
            0 <= j < i ==> !super::recognition::collective((#[trigger] ops[j]).op_type))
            ==> super::savings::exact_traffic(FusionPattern::CommunicationComputeOverlap, ops)
            == ops[i].memory_bytes,
        (forall|j: int|
            0 <= j < ops.len() ==> !super::recognition::collective((#[trigger] ops[j]).op_type))
            ==> super::savings::exact_traffic(FusionPattern::CommunicationComputeOverlap, ops) == 0,
{
    first_is_first(ops, 0, OpClass::Only(OpType::Softmax));
    first_is_first(ops, 0, OpClass::Only(OpType::Reduce));
    first_is_first(ops, 0, OpClass::Communication);
    let s = super::classify::first_op(ops, 0, OpClass::Only(OpType::Softmax));
    let r = super::classify::first_op(ops, 0, OpClass::Only(OpType::Reduce));
    let c = super::classify::first_op(ops, 0, OpClass::Communication);
    assert forall|j: int| 0 <= j < ops.len() implies OpClass::Communication.admits(
        (#[trigger] ops[j]).op_type,
    ) == super::recognition::collective(ops[j].op_type) by {}
    assert(0 <= s < ops.len() ==> ops[s].op_type == OpType::Softmax);
    assert(0 <= r < ops.len() ==> ops[r].op_type == OpType::Reduce);
    assert(0 <= c < ops.len() ==> super::recognition::collective(ops[c].op_type));
}

/// The first place of a class is the least one from the start on whose operation belongs to it, or
/// the length where there is none.
pub proof fn first_is_first(ops: Seq<FusionOp>, from: int, c: OpClass)
    requires
        0 <= from,
    ensures
        ({
            let i = super::classify::first_op(ops, from, c);
            &&& i <= ops.len()
            &&& from <= ops.len() ==> from <= i
            &&& from <= i < ops.len() ==> c.admits(ops[i].op_type)
            &&& forall|j: int| from <= j < i ==> !c.admits((#[trigger] ops[j]).op_type)
        }),
    decreases ops.len() - from,
{
    if from < ops.len() && !super::classify::op_at(ops, from, c) {
        first_is_first(ops, from + 1, c);
        let i = super::classify::first_op(ops, from, c);
        assert forall|j: int| from <= j < i implies !c.admits((#[trigger] ops[j]).op_type) by {
            if j == from {
                assert(!super::classify::op_at(ops, from, c));
            }
        }
    }
}

/// The savings that are reported are the exact ones wherever these are in range, and otherwise the
/// nearest number in range; no operations save nothing.
pub proof fn reported_savings_are_exact(p: FusionPattern, ops: Seq<FusionOp>)
    ensures
        ({
            let exact = super::savings::exact_traffic(p, ops);
            let told = super::savings::traffic_saved(p, ops);
            &&& i64::MIN <= told <= i64::MAX
            &&& i64::MIN <= exact <= i64::MAX ==> told == exact
            &&& exact > i64::MAX ==> told == i64::MAX
            &&& exact < i64::MIN ==> told == i64::MIN
            &&& ops.len() == 0 ==> told == 0
        }),
{
}

/// The double of a pattern above one half and up to one, in units of the distance of such doubles.
pub open spec fn units(bits: u64) -> int {
    bits - 0x3fe0000000000000 + 0x10000000000000
}

/// Confidence in a pattern before any bonus, in percent.
pub open spec fn base_percent(p: FusionPattern) -> int {
    match p {
        FusionPattern::MatMulBiasReLU => 90,
        FusionPattern::AttentionBlock => 85,
        FusionPattern::NormResidualActivation => 90,
        FusionPattern::OptimizerStepFusion => 80,
        FusionPattern::BackwardPassChain => 70,
        FusionPattern::CommunicationComputeOverlap => 60,
        FusionPattern::PersistentKernel => 50,
        FusionPattern::ElementwiseChain => 95,
        FusionPattern::ReductionFusion => 80,
        FusionPattern::HorizontalElementwise => 70,
    }
}

/// A confidence is, but for the rounding of its sums, its base plus ten percent where the ranks
/// agree and five for each further bonus, and at most one.
pub proof fn confidence_adds_up(p: FusionPattern, ranks: bool, bonuses: u8)
    requires
        bonuses <= 3,
    ensures
        ({
            let sum = base_percent(p) + (if ranks {
                10int
            } else {
                0
            }) + 5 * bonuses;
            let percent = if sum > 100 {
                100
            } else {
                sum
            };
            let off = 100 * units(confidence_bits(p, ranks, bonuses)) - percent * 0x20000000000000;
            -300 <= off <= 300
        }),
{
}

/// Whether `next` is what a double of `exact` over `scale` units is rounded to: the nearest number
/// of units, the even one of two that are as near, and one where the sum is not below it.
pub open spec fn rounds_to(next: u64, exact: int, scale: int) -> bool {
    let off = scale * units(next) - exact;
    if exact >= scale * 0x20000000000000 {
        next == ONE
    } else {
        &&& -scale <= 2 * off <= scale
        &&& 2 * off == scale || 2 * off == -scale ==> units(next) % 2 == 0
    }
}

/// A confidence is the double nearest to its base; ranks that agree add 0.1 to it, and each
/// further bonus adds 0.05, every sum rounded to the nearest double and none above one.
pub proof fn confidence_is_rounded_step_by_step(p: FusionPattern, ranks: bool, bonuses: u8)
    requires
        bonuses < 3,
    ensures
        rounds_to(confidence_bits(p, false, 0), base_percent(p) * 0x20000000000000, 100),
        rounds_to(
            confidence_bits(p, true, 0),
            8 * units(confidence_bits(p, false, 0)) + 0x1999999999999a,
            8,
        ),
        rounds_to(
            confidence_bits(p, ranks, (bonuses + 1) as u8),
            16 * units(confidence_bits(p, ranks, bonuses)) + 0x1999999999999a,
            16,
        ),
{
}

/// Four fifths of a confidence are the double nearest to its product with 0.8.
pub proof fn four_fifths_are_rounded(p: FusionPattern, ranks: bool, bonuses: u8)
    requires
        bonuses <= 3,
    ensures
        ({
            let c = confidence_bits(p, ranks, bonuses);
            let f = four_fifths(c);
            let exact = 0x1999999999999a * units(c);
            let off = if f >= 0x3fe0000000000000 {
                0x20000000000000 * units(f) - exact
            } else {
                0x10000000000000 * (f - 0x3fd0000000000000 + 0x10000000000000) - exact
            };
            let half = if f >= 0x3fe0000000000000 {
                0x10000000000000int
            } else {
                0x8000000000000
            };
            &&& -half <= off <= half
            &&& off == half || off == -half ==> f % 2 == 0
        }),
{
}

/// The factor of a pattern is, but for the rounding to a double, one and so many hundredths: ten
/// for a product, a backward chain and a reduction, thirty for attention, five for a
/// normalization, twenty for an optimizer step, fifteen for a repeated block, and none for the
/// others.
pub proof fn compute_savings_in_percent(p: FusionPattern)
    ensures
        ({
            let gain = match p {
                FusionPattern::MatMulBiasReLU => 10int,
                FusionPattern::AttentionBlock => 30,
                FusionPattern::NormResidualActivation => 5,
                FusionPattern::OptimizerStepFusion => 20,
                FusionPattern::BackwardPassChain => 10,
                FusionPattern::CommunicationComputeOverlap => 0,
                FusionPattern::PersistentKernel => 15,
                FusionPattern::ElementwiseChain => 0,
                FusionPattern::ReductionFusion => 10,
                FusionPattern::HorizontalElementwise => 0,
            };
            let off = 100 * (compute_savings(p) - 0x3ff0000000000000) - gain * 0x10000000000000;
            -50 <= off <= 50
        }),
{
}

/// What speaks for a fusion beside its pattern: outputs of one rank count most, and then one
/// element type, an intermediate of more than a mebibyte, and that nothing is overwritten.
pub proof fn bonuses_of_a_window(p: FusionPattern, ops: Seq<FusionOp>)
    requires
        ops.len() >= 2,
    ensures
        ({
            let ranks = (exists|i: int| 0 <= i < ops.len() && (#[trigger] ops[i]).output_shape@.len()
                > 0) && forall|i: int, j: int|
                0 <= i < ops.len() && 0 <= j < ops.len() && (#[trigger] ops[i]).output_shape@.len()
                    > 0 && (#[trigger] ops[j]).output_shape@.len() > 0
                    ==> ops[i].output_shape@.len() == ops[j].output_shape@.len();
            let same = forall|i: int, j: int|
                0 <= i < ops.len() && 0 <= j < ops.len() ==> (#[trigger] ops[i]).dtype == (
                #[trigger] ops[j]).dtype;
            let large = exists|i: int|
                0 <= i < ops.len() - 1 && (#[trigger] ops[i]).memory_bytes > 1024 * 1024;
            let fresh = forall|i: int| 0 <= i < ops.len() ==> !(#[trigger] ops[i]).is_inplace;
            let count = (if same { 1int } else { 0 }) + (if large { 1int } else { 0 }) + (if fresh {
                1int
            } else {
                0
            });
            super::savings::window_confidence(p, ops) == confidence_bits(p, ranks, count as u8)
        }),
{
    let ranks = (exists|i: int| 0 <= i < ops.len() && (#[trigger] ops[i]).output_shape@.len() > 0)
        && forall|i: int, j: int|
        0 <= i < ops.len() && 0 <= j < ops.len() && (#[trigger] ops[i]).output_shape@.len() > 0 && (
        #[trigger] ops[j]).output_shape@.len() > 0 ==> ops[i].output_shape@.len()
            == ops[j].output_shape@.len();
    let same = forall|i: int, j: int|
        0 <= i < ops.len() && 0 <= j < ops.len() ==> (#[trigger] ops[i]).dtype == (
        #[trigger] ops[j]).dtype;
    if ranks {
        let i = choose|i: int| 0 <= i < ops.len() && (#[trigger] ops[i]).output_shape@.len() > 0;
        assert(super::savings::only_rank(ops, ops[i].output_shape@.len()));
        assert(super::savings::one_rank(ops));
    }
    if super::savings::one_rank(ops) {
        let r = choose|r: nat|
            r > 0 && #[trigger] super::savings::only_rank(ops, r) && exists|i: int|
                0 <= i < ops.len() && (#[trigger] ops[i]).output_shape@.len() > 0;
        assert forall|i: int, j: int|
            0 <= i < ops.len() && 0 <= j < ops.len() && (#[trigger] ops[i]).output_shape@.len() > 0
                && (#[trigger] ops[j]).output_shape@.len() > 0 implies ops[i].output_shape@.len()
            == ops[j].output_shape@.len() by {
            assert(ops[i].output_shape@.len() == r);
            assert(ops[j].output_shape@.len() == r);
        }
    }
    if super::savings::one_dtype(ops) {
        assert forall|i: int, j: int| 0 <= i < ops.len() && 0 <= j < ops.len() implies (
        #[trigger] ops[i]).dtype == (#[trigger] ops[j]).dtype by {
            assert(ops[i].dtype == ops[0].dtype && ops[j].dtype == ops[0].dtype);
        }
    }
}

/// A window that forms a pattern gives a boundary over exactly its places, from the first to the
/// last, with that pattern, its savings unless they are negative, and its factor; a window that
/// forms none gives none.
pub proof fn boundary_of_a_window(ops: Seq<FusionOp>, start: int, size: int, i: int)
    requires
        0 <= start,
        2 <= size,
        start + size <= ops.len() <= usize::MAX,
        0 <= i < size,
    ensures
        ({
            let w = ops.subrange(start, start + size);
            let p = super::classify::pattern_of(w);
            match super::engine::window_boundary(ops, start, size) {
                Some(b) => {
                    &&& p == Some(b.pattern)
                    &&& b.indices.len() == size
                    &&& b.indices[i] == start + i
                    &&& b.savings >= 0
                    &&& super::savings::traffic_saved(b.pattern, w) >= 0 ==> b.savings
                        == super::savings::traffic_saved(b.pattern, w)
                    &&& super::savings::traffic_saved(b.pattern, w) < 0 ==> b.savings == 0
                    &&& b.factor == compute_savings(b.pattern)
                    &&& b.confidence == super::savings::window_confidence(b.pattern, w)
                },
                None => p is None,
            }
        }),
{
}

/// Every window of two or more operations within the limit that forms a pattern in which the engine
/// has enough confidence is among the candidates, and every candidate is such a window.
pub proof fn candidates_are_the_admitted_windows(
    engine: FusionEngine,
    ops: Seq<FusionOp>,
    start: int,
    size: int,
    c: int,
)
    ensures
        2 <= size <= engine.largest_window() && 0 <= start && start + size <= ops.len()
            && super::engine::window_boundary(ops, start, size) is Some && (
        super::engine::window_boundary(ops, start, size).unwrap().confidence >= engine.threshold()
            || engine.speculates()) ==> engine.candidates(ops).contains(
            super::engine::window_boundary(ops, start, size).unwrap(),
        ),
        0 <= c < engine.candidates(ops).len() ==> exists|s: int, z: int|
            2 <= z <= engine.largest_window() && 0 <= s && s + z <= ops.len()
                && #[trigger] super::engine::window_boundary(ops, s, z) == Some(
                engine.candidates(ops)[c],
            ),
{
    let largest = engine.largest_in(ops);
    if largest >= 2 {
        let count = super::engine::window_count(ops, largest);
        if 2 <= size <= engine.largest_window() && 0 <= start && start + size <= ops.len()
            && super::engine::window_boundary(ops, start, size) is Some && (
        super::engine::window_boundary(ops, start, size).unwrap().confidence >= engine.threshold()
            || engine.speculates()) {
            lemma_window_is_listed(engine, ops, start, size, largest, count);
        }
        if 0 <= c < engine.candidates(ops).len() {
            lemma_listed_is_window(engine, ops, largest, count, c);
        }
    }
}

proof fn lemma_window_is_listed(
    engine: FusionEngine,
    ops: Seq<FusionOp>,
    start: int,
    size: int,
    z: int,
    k: int,
)
    requires
        2 <= size <= z <= ops.len(),
        0 <= start,
        start + size <= ops.len(),
        size == z ==> start < k,
        k <= super::engine::window_count(ops, z),
        super::engine::window_boundary(ops, start, size) is Some,
        engine.admits(super::engine::window_boundary(ops, start, size).unwrap().confidence),
    ensures
        super::engine::candidates_up_to(engine, ops, z, k).contains(
            super::engine::window_boundary(ops, start, size).unwrap(),
        ),
    decreases z, k,
{
    let wanted = super::engine::window_boundary(ops, start, size).unwrap();
    let all = super::engine::candidates_up_to(engine, ops, z, k);
    if k > 0 {
        let before = super::engine::candidates_up_to(engine, ops, z, k - 1);
        if size == z && start == k - 1 {
            assert(all == before.push(wanted));
            assert(all[before.len() as int] == wanted);
        } else {
            lemma_window_is_listed(engine, ops, start, size, z, k - 1);
            let i = choose|i: int| 0 <= i < before.len() && before[i] == wanted;
            assert(all[i] == wanted);
        }
    } else {
        lemma_window_is_listed(
            engine,
            ops,
            start,
            size,
            z - 1,
            super::engine::window_count(ops, z - 1),
        );
    }
}

proof fn lemma_listed_is_window(
    engine: FusionEngine,
    ops: Seq<FusionOp>,
    z: int,
    k: int,
    c: int,
)
    requires
        2 <= z <= ops.len(),
        z <= engine.largest_window(),
        k <= super::engine::window_count(ops, z),
        0 <= c < super::engine::candidates_up_to(engine, ops, z, k).len(),
    ensures
        exists|s: int, y: int|
            2 <= y <= z && 0 <= s && s + y <= ops.len() && #[trigger] super::engine::window_boundary(
                ops,
                s,
                y,
            ) == Some(super::engine::candidates_up_to(engine, ops, z, k)[c]),
    decreases z, k,
{
    let all = super::engine::candidates_up_to(engine, ops, z, k);
    if k > 0 {
        let before = super::engine::candidates_up_to(engine, ops, z, k - 1);
        if c < before.len() {
            lemma_listed_is_window(engine, ops, z, k - 1, c);
            assert(all[c] == before[c]);
        } else {
            assert(super::engine::window_boundary(ops, k - 1, z) == Some(all[c]));
        }
    } else if z > 2 {
        lemma_listed_is_window(
            engine,
            ops,
            z - 1,
            super::engine::window_count(ops, z - 1),
            c,
        );
    }
}

/// The same boundary at four fifths of its confidence.
pub proof fn reduced_boundary_differs_in_confidence(ops: Seq<FusionOp>, start: int, size: int)
    ensures
        match (
            super::engine::window_boundary(ops, start, size),
            super::engine::reduced_boundary(ops, start, size),
        ) {
            (Some(b), Some(r)) => r.indices == b.indices && r.pattern == b.pattern && r.savings
                == b.savings && r.factor == b.factor && r.confidence == four_fifths(b.confidence),
            (None, None) => true,
            _ => false,
        },
{
}

/// Every window within the limit that forms a pattern is among the alternatives, whatever the
/// confidence in it.
pub proof fn every_window_is_an_alternative(
    engine: FusionEngine,
    ops: Seq<FusionOp>,
    start: int,
    size: int,
)
    requires
        2 <= size <= engine.largest_window(),
        0 <= start,
        start + size <= ops.len(),
        super::engine::window_boundary(ops, start, size) is Some,
    ensures
        engine.alternatives(ops).contains(
            super::engine::window_boundary(ops, start, size).unwrap(),
        ),
{
    let largest = engine.largest_in(ops);
    lemma_alternative_is_listed(
        engine,
        ops,
        start,
        size,
        largest,
        super::engine::window_count(ops, largest),
    );
}

proof fn lemma_parts_keep(
    engine: FusionEngine,
    ops: Seq<FusionOp>,
    base: Seq<BoundaryView>,
    start: int,
    size: int,
    part: int,
    k: int,
    i: int,
)
    requires
        0 <= i < base.len(),
    ensures
        i < super::engine::parts_up_to(engine, ops, base, start, size, part, k).len(),
        super::engine::parts_up_to(engine, ops, base, start, size, part, k)[i] == base[i],
    decreases part, k,
{
    if k > 0 {
        lemma_parts_keep(engine, ops, base, start, size, part, k - 1, i);
    } else if part > 2 {
        lemma_parts_keep(engine, ops, base, start, size, part - 1, size - (part - 1) + 1, i);
    }
}

proof fn lemma_alternative_is_listed(
    engine: FusionEngine,
    ops: Seq<FusionOp>,
    start: int,
    size: int,
    z: int,
    k: int,
)
    requires
        2 <= size <= z <= ops.len(),
        0 <= start,
        start + size <= ops.len(),
        size == z ==> start < k,
        k <= super::engine::window_count(ops, z),
        super::engine::window_boundary(ops, start, size) is Some,
    ensures
        super::engine::alternatives_up_to(engine, ops, z, k).contains(
            super::engine::window_boundary(ops, start, size).unwrap(),
        ),
    decreases z, k,
{
    let wanted = super::engine::window_boundary(ops, start, size).unwrap();
    let all = super::engine::alternatives_up_to(engine, ops, z, k);
    if k > 0 {
        let before = super::engine::alternatives_up_to(engine, ops, z, k - 1);
        let base = super::engine::with_found(
            before,
            super::engine::window_boundary(ops, k - 1, z),
        );
        if size == z && start == k - 1 {
            lemma_parts_keep(engine, ops, base, k - 1, z, z, 0, before.len() as int);
            assert(base[before.len() as int] == wanted);
            assert(all[before.len() as int] == wanted);
        } else {
            lemma_alternative_is_listed(engine, ops, start, size, z, k - 1);
            let i = choose|i: int| 0 <= i < before.len() && before[i] == wanted;
            assert(base[i] == wanted);
            lemma_parts_keep(engine, ops, base, k - 1, z, z, 0, i);
            assert(all[i] == wanted);
        }
    } else {
        lemma_alternative_is_listed(
            engine,
            ops,
            start,
            size,
            z - 1,
            super::engine::window_count(ops, z - 1),
        );
    }
}

/// Two boundaries overlap exactly if some place of the one is a place of the other, whichever is
/// asked; a boundary that names an operation overlaps with itself.
pub proof fn overlap_is_symmetric(a: BoundaryView, b: BoundaryView)
    ensures
        super::boundary::overlap(a, b) <==> exists|i: int, j: int|
            0 <= i < a.indices.len() && 0 <= j < b.indices.len() && #[trigger] a.indices[i]
                == #[trigger] b.indices[j],
        super::boundary::overlap(a, b) == super::boundary::overlap(b, a),
        a.indices.len() > 0 ==> super::boundary::overlap(a, a),
{
    if super::boundary::overlap(a, b) {
        let x = choose|x: usize| #[trigger] a.indices.contains(x) && b.indices.contains(x);
        let i = choose|i: int| 0 <= i < a.indices.len() && a.indices[i] == x;
        let j = choose|j: int| 0 <= j < b.indices.len() && b.indices[j] == x;
        assert(a.indices[i] == b.indices[j]);
        assert(b.indices.contains(x) && a.indices.contains(x));
    }
    if super::boundary::overlap(b, a) {
        let x = choose|x: usize| #[trigger] b.indices.contains(x) && a.indices.contains(x);
        assert(a.indices.contains(x) && b.indices.contains(x));
    }
    if exists|i: int, j: int|
        0 <= i < a.indices.len() && 0 <= j < b.indices.len() && #[trigger] a.indices[i]
            == #[trigger] b.indices[j] {
        let (i, j) = choose|i: int, j: int|
            0 <= i < a.indices.len() && 0 <= j < b.indices.len() && #[trigger] a.indices[i]
                == #[trigger] b.indices[j];
        assert(a.indices.contains(a.indices[i]) && b.indices.contains(a.indices[i]));
    }
    if a.indices.len() > 0 {
        assert(a.indices.contains(a.indices[0]));
    }
}

/// One more boundary adds its savings and its operations to those of a decision.
pub proof fn totals_add_up(v: Seq<BoundaryView>, b: BoundaryView)
    ensures
        super::boundary::total_savings(v.push(b), v.len() as int + 1) == super::boundary::total_savings(
            v,
            v.len() as int,
        ) + b.savings,
        super::boundary::total_ops(v.push(b), v.len() as int + 1) == super::boundary::total_ops(
            v,
            v.len() as int,
        ) + b.indices.len(),
        super::boundary::total_savings(v, 0) == 0,
        super::boundary::total_ops(v, 0) == 0,
        super::boundary::any_needs_validation(v.push(b)) <==> super::boundary::any_needs_validation(
            v,
        ) || b.pattern.requires_polyhedral_validation(),
{
    lemma_totals_agree(v, v.push(b), v.len() as int);
    let w = v.push(b);
    if super::boundary::any_needs_validation(v) {
        let i = choose|i: int|
            0 <= i < v.len() && (#[trigger] v[i]).pattern.requires_polyhedral_validation();
        assert(w[i] == v[i]);
    }
    if b.pattern.requires_polyhedral_validation() {
        assert(w[v.len() as int] == b);
    }
    if super::boundary::any_needs_validation(w) && !b.pattern.requires_polyhedral_validation() {
        let i = choose|i: int|
            0 <= i < w.len() && (#[trigger] w[i]).pattern.requires_polyhedral_validation();
        assert(v[i] == w[i]);
    }
}

proof fn lemma_totals_agree(a: Seq<BoundaryView>, b: Seq<BoundaryView>, k: int)
    requires
        k <= a.len(),
        k <= b.len(),
        forall|i: int| 0 <= i < k ==> a[i] == b[i],
    ensures
        super::boundary::total_savings(a, k) == super::boundary::total_savings(b, k),
        super::boundary::total_ops(a, k) == super::boundary::total_ops(b, k),
    decreases k,
{
    if k > 0 {
        lemma_totals_agree(a, b, k - 1);
    }
}

/// A fused schedule of overlapping, normalizing, optimizing or element-wise operations needs no
/// check against its loops; every other pattern does. Attention, products and optimizer steps
/// remove two intermediates, an overlap and a horizontal group none, and the others one.
pub proof fn patterns_and_their_demands(p: FusionPattern)
    ensures
        !p.requires_polyhedral_validation() <==> p == FusionPattern::NormResidualActivation || p
            == FusionPattern::OptimizerStepFusion || p
            == FusionPattern::CommunicationComputeOverlap || p == FusionPattern::ElementwiseChain,
        p.intermediates_eliminated() == 2 <==> p == FusionPattern::MatMulBiasReLU || p
            == FusionPattern::AttentionBlock || p == FusionPattern::OptimizerStepFusion,
        p.intermediates_eliminated() == 0 <==> p == FusionPattern::CommunicationComputeOverlap || p
            == FusionPattern::HorizontalElementwise,
        p.intermediates_eliminated() <= 2,
{
}

/// A decision reports the savings of its boundaries where their sum is in range, and asks for a
/// check exactly if one of its boundaries does.
pub proof fn decision_reports_its_boundaries(d: FusionDecision)
    requires
        d.consistent(),
    ensures
        ({
            let sum = super::boundary::total_savings(d.chosen(), d.chosen().len() as int);
            &&& i64::MIN <= sum <= i64::MAX ==> d.total_hbm_traffic_reduction == sum
            &&& sum > i64::MAX ==> d.total_hbm_traffic_reduction == i64::MAX
            &&& d.requires_polyhedral_validation <==> exists|i: int|
                0 <= i < d.chosen().len() && (#[trigger] d.chosen()[i]).pattern
                    .requires_polyhedral_validation()
        }),
{
}

/// Arithmetic operations per element: two for each term of the dot product of a matrix product,
/// four for a layer normalization, three for a softmax, its logarithm and a root mean square
/// normalization, one for anything else, and none for an empty output.
pub proof fn intensity_by_operation(op: FusionOp)
    ensures
        ({
            let r = super::op::intensity(op);
            let t = op.op_type;
            let rows = op.input_shapes@;
            let full = super::dtype::element_count(op.output_shape@) > 0;
            &&& !full ==> r == 0
            &&& full && (t == OpType::MatMul || t == OpType::BatchMatMul) && rows.len() > 0
                && rows[0]@.len() >= 2 && rows[0]@[rows[0]@.len() - 1] >= 1 ==> r == 2
                * rows[0]@[rows[0]@.len() - 1]
            &&& full && (t == OpType::MatMul || t == OpType::BatchMatMul) && (rows.len() == 0
                || rows[0]@.len() < 2 || rows[0]@[rows[0]@.len() - 1] < 1) ==> r == 2
            &&& full && t == OpType::LayerNorm ==> r == 4
            &&& full && (t == OpType::Softmax || t == OpType::LogSoftmax || t == OpType::RMSNorm)
                ==> r == 3
            &&& full && t != OpType::MatMul && t != OpType::BatchMatMul && t != OpType::LayerNorm
                && t != OpType::Softmax && t != OpType::LogSoftmax && t != OpType::RMSNorm ==> r
                == 1
        }),
{
}

/// An output can be kept out of memory exactly if it is not written in place, takes memory and is
/// not that of a collective.
pub proof fn eligible_intermediates(op: FusionOp)
    ensures
        op.is_intermediate_eligible() <==> !op.is_inplace && op.memory_bytes > 0 && op.op_type
            != OpType::AllReduce && op.op_type != OpType::AllGather && op.op_type
            != OpType::ReduceScatter,
{
}

/// A tensor of four-byte elements takes twice as much as one of two-byte elements and four times
/// as much as one of single bytes, as far as nothing is cut off.
pub proof fn element_sizes_scale(shape: Seq<i64>)
    requires
        0 <= super::dtype::element_count(shape) <= i64::MAX / 4,
    ensures
        super::dtype::tensor_bytes(shape, DType::FP32) == 4 * super::dtype::element_count(shape),
        super::dtype::tensor_bytes(shape, DType::FP16) == 2 * super::dtype::element_count(shape),
        super::dtype::tensor_bytes(shape, DType::BF16) == 2 * super::dtype::element_count(shape),
        super::dtype::tensor_bytes(shape, DType::FP8) == super::dtype::element_count(shape),
        super::dtype::tensor_bytes(shape, DType::INT8) == super::dtype::element_count(shape),
        super::dtype::tensor_bytes(shape, DType::INT4) == super::dtype::element_count(shape),
{
    let n = super::dtype::element_count(shape);
    assert(n * 1 == n && n * 2 == 2 * n && n * 4 == 4 * n) by (nonlinear_arith);
}

/// A scalar has one element, and one more dimension multiplies the number of elements, as far as
/// nothing is cut off.
pub proof fn dimensions_multiply(shape: Seq<i64>, d: i64)
    requires
        i64::MIN <= super::dtype::element_count(shape) * d <= i64::MAX,
    ensures
        super::dtype::element_count(Seq::<i64>::empty()) == 1,
        super::dtype::element_count(shape.push(d)) == super::dtype::element_count(shape) * d,
{
    let longer = shape.push(d);
    lemma_products_agree(shape, longer, shape.len());
    if shape.contains(0) {
        let i = choose|i: int| 0 <= i < shape.len() && shape[i] == 0;
        assert(longer[i] == 0);
        assert(0 * d == 0) by (nonlinear_arith);
    } else if d == 0 {
        assert(longer[shape.len() as int] == 0);
        assert(super::dtype::element_count(shape) * 0 == 0) by (nonlinear_arith);
    } else {
        assert(!longer.contains(0)) by {
            if longer.contains(0) {
                let i = choose|i: int| 0 <= i < longer.len() && longer[i] == 0;
                assert(shape[i] == 0);
                assert(shape.contains(0));
            }
        }
    }
}

proof fn lemma_products_agree(a: Seq<i64>, b: Seq<i64>, k: nat)
    requires
        k <= a.len(),
        k <= b.len(),
        forall|i: int| 0 <= i < k ==> a[i] == b[i],
    ensures
        super::dtype::saturated_product(a, k) == super::dtype::saturated_product(b, k),
    decreases k,
{
    if k > 0 {
        lemma_products_agree(a, b, (k - 1) as nat);
    }
}

/// One more boundary adds one, its operations and its savings to the statistics of its pattern, and
/// nothing to those of the others.
pub proof fn statistics_add_up(v: Seq<BoundaryView>, b: BoundaryView, p: FusionPattern)
    ensures
        ({
            let old = super::coverage::stats_up_to(v, p, v.len());
            let new = super::coverage::stats_up_to(v.push(b), p, (v.len() + 1) as nat);
            &&& b.pattern == p ==> new.0 == old.0 + 1 && new.1 == old.1 + b.indices.len() && new.2
                == old.2 + b.savings
            &&& b.pattern != p ==> new == old
            &&& super::coverage::stats_up_to(v, p, 0) == (0int, 0int, 0int)
        }),
{
    lemma_stats_agree(v, v.push(b), p, v.len());
}

proof fn lemma_stats_agree(a: Seq<BoundaryView>, b: Seq<BoundaryView>, p: FusionPattern, k: nat)
    requires
        k <= a.len(),
        k <= b.len(),
        forall|i: int| 0 <= i < k ==> a[i] == b[i],
    ensures
        super::coverage::stats_up_to(a, p, k) == super::coverage::stats_up_to(b, p, k),
    decreases k,
{
    if k > 0 {
        lemma_stats_agree(a, b, p, (k - 1) as nat);
    }
}

proof fn lemma_counted(v: Seq<BoundaryView>, p: FusionPattern, k: nat)
    requires
        k <= v.len(),
    ensures
        0 <= super::coverage::stats_up_to(v, p, k).0 <= k,
        super::coverage::stats_up_to(v, p, k).0 > 0 <==> exists|i: int|
            0 <= i < k && (#[trigger] v[i]).pattern == p,
    decreases k,
{
    if k > 0 {
        lemma_counted(v, p, (k - 1) as nat);
        if super::coverage::stats_up_to(v, p, (k - 1) as nat).0 > 0 {
            let i = choose|i: int| 0 <= i < k - 1 && (#[trigger] v[i]).pattern == p;
            assert(0 <= i < k && v[i].pattern == p);
        }
        if v[k - 1].pattern == p {
            assert(0 <= k - 1 < k && v[k - 1].pattern == p);
        }
    }
}

/// A report has an entry for exactly the patterns that occur among the boundaries, each with the
/// number of its boundaries, of their operations, and the bytes that they save.
pub proof fn every_pattern_is_reported(v: Seq<BoundaryView>, p: FusionPattern)
    requires
        super::coverage::stats_fit(v),
        v.len() <= usize::MAX,
    ensures
        ({
            let r = super::coverage::stats_of(v, super::coverage::report_order().len());
            let (count, ops, savings) = super::coverage::stats_up_to(v, p, v.len());
            &&& (exists|i: int| 0 <= i < v.len() && (#[trigger] v[i]).pattern == p) ==> r.contains(
                (p, count as usize, ops as usize, savings as i64),
            )
            &&& forall|i: int|
                0 <= i < r.len() && (#[trigger] r[i]).0 == p ==> r[i] == (
                    p,
                    count as usize,
                    ops as usize,
                    savings as i64,
                ) && exists|j: int| 0 <= j < v.len() && (#[trigger] v[j]).pattern == p
        }),
{
    let order = super::coverage::report_order();
    lemma_counted(v, p, v.len());
    lemma_reported(v, p, order.len());
    assert(order.contains(p)) by {
        assert(order[0] == FusionPattern::MatMulBiasReLU);
        assert(order[1] == FusionPattern::AttentionBlock);
        assert(order[2] == FusionPattern::NormResidualActivation);
        assert(order[3] == FusionPattern::OptimizerStepFusion);
        assert(order[4] == FusionPattern::BackwardPassChain);
        assert(order[5] == FusionPattern::CommunicationComputeOverlap);
        assert(order[6] == FusionPattern::PersistentKernel);
        assert(order[7] == FusionPattern::ElementwiseChain);
        assert(order[8] == FusionPattern::ReductionFusion);
        assert(order[9] == FusionPattern::HorizontalElementwise);
    }
}

proof fn lemma_reported(v: Seq<BoundaryView>, p: FusionPattern, k: nat)
    requires
        k <= super::coverage::report_order().len(),
    ensures
        ({
            let r = super::coverage::stats_of(v, k);
            let (count, ops, savings) = super::coverage::stats_up_to(v, p, v.len());
            let entry = (p, count as usize, ops as usize, savings as i64);
            &&& count > 0 && (exists|i: int|
                0 <= i < k && #[trigger] super::coverage::report_order()[i] == p) ==> r.contains(
                entry,
            )
            &&& forall|i: int|
                0 <= i < r.len() && (#[trigger] r[i]).0 == p ==> r[i] == entry && count != 0
        }),
    decreases k,
{
    lemma_counted(v, p, v.len());
    if k > 0 {
        lemma_reported(v, p, (k - 1) as nat);
        let before = super::coverage::stats_of(v, (k - 1) as nat);
        let r = super::coverage::stats_of(v, k);
        let (count, ops, savings) = super::coverage::stats_up_to(v, p, v.len());
        let entry = (p, count as usize, ops as usize, savings as i64);
        let order = super::coverage::report_order();
        if count > 0 && (exists|i: int| 0 <= i < k && #[trigger] order[i] == p) {
            if order[k - 1] == p {
                assert(r[before.len() as int] == entry);
            } else {
                let i = choose|i: int| 0 <= i < k && #[trigger] order[i] == p;
                assert(0 <= i < k - 1 && order[i] == p);
                let j = choose|j: int| 0 <= j < before.len() && before[j] == entry;
                assert(r[j] == entry);
            }
        }
        assert forall|i: int| 0 <= i < r.len() && (#[trigger] r[i]).0 == p implies r[i] == entry
            && count != 0 by {
            if i < before.len() {
                assert(r[i] == before[i]);
            }
        }
    }
}

/// A place belongs to the horizontal group of a shape exactly if its operation treats each element
/// by itself and writes a tensor of that shape, no scalar, and it does not both read a tensor of
/// that shape and come behind another such operation on elements of its type.
pub proof fn group_takes_every_free_member(ops: Seq<FusionOp>, shape: Seq<i64>, i: int)
    requires
        ops.len() <= usize::MAX,
        0 <= i < ops.len(),
    ensures
        super::horizontal::independent(ops, shape, ops.len()).contains(i as usize) <==> {
            let member = |m: int|
                super::recognition::per_element(ops[m].op_type) && shape.len() > 0
                    && ops[m].output_shape@ == shape;
            member(i) && !((exists|j: int|
                0 <= j < ops[i].input_shapes@.len() && (#[trigger] ops[i].input_shapes@[j])@
                    == shape) && (exists|m: int|
                0 <= m < i && (#[trigger] ops[m]).dtype == ops[i].dtype
                    && super::recognition::per_element(ops[m].op_type) && shape.len() > 0
                    && ops[m].output_shape@ == shape))
        },
{
    lemma_group_takes(ops, shape, i, ops.len());
    assert forall|t: OpType| #[trigger] t.is_elementwise() == super::recognition::per_element(
        t,
    ) by {}
    let d = ops[i].dtype;
    if super::horizontal::has_member_of(ops, shape, d, i) {
        let m = choose|m: int|
            0 <= m < i && super::horizontal::is_member(ops, shape, m) && (#[trigger] ops[m]).dtype
                == d;
        assert(0 <= m < i && ops[m].dtype == d && super::recognition::per_element(ops[m].op_type));
    }
    if exists|m: int|
        0 <= m < i && (#[trigger] ops[m]).dtype == ops[i].dtype && super::recognition::per_element(
            ops[m].op_type,
        ) && shape.len() > 0 && ops[m].output_shape@ == shape {
        let m = choose|m: int|
            0 <= m < i && (#[trigger] ops[m]).dtype == ops[i].dtype
                && super::recognition::per_element(ops[m].op_type) && shape.len() > 0
                && ops[m].output_shape@ == shape;
        assert(super::horizontal::is_member(ops, shape, m) && ops[m].dtype == d);
        assert(super::horizontal::has_member_of(ops, shape, d, i));
    }
}

proof fn lemma_group_takes(ops: Seq<FusionOp>, shape: Seq<i64>, i: int, k: nat)
    requires
        k <= ops.len() <= usize::MAX,
        0 <= i < ops.len(),
    ensures
        super::horizontal::independent(ops, shape, k).contains(i as usize) <==> i < k
            && super::horizontal::is_member(ops, shape, i) && !super::horizontal::may_depend(
            ops,
            shape,
            i,
        ),
    decreases k,
{
    if k > 0 {
        lemma_group_takes(ops, shape, i, (k - 1) as nat);
        let before = super::horizontal::independent(ops, shape, (k - 1) as nat);
        let after = super::horizontal::independent(ops, shape, k);
        if before.contains(i as usize) {
            let j = choose|j: int| 0 <= j < before.len() && before[j] == i as usize;
            assert(after[j] == i as usize);
        }
        if after.contains(i as usize) && !before.contains(i as usize) {
            let j = choose|j: int| 0 <= j < after.len() && after[j] == i as usize;
            assert(j >= before.len()) by {
                if j < before.len() {
                    assert(before[j] == i as usize);
                }
            }
            assert(i == k - 1);
        }
        if i == k - 1 && super::horizontal::is_member(ops, shape, i)
            && !super::horizontal::may_depend(ops, shape, i) {
            assert(after[before.len() as int] == i as usize);
        }
    }
}

/// A horizontal group of two or more operations is a boundary over exactly its members, which saves
/// a launch of 5000 bytes for each but one, and no computation.
pub proof fn boundary_of_a_group(ops: Seq<FusionOp>, shape: Seq<i64>)
    requires
        super::horizontal::independent(ops, shape, ops.len()).len() < 1000000000000,
    ensures
        ({
            let g = super::horizontal::independent(ops, shape, ops.len());
            match super::horizontal::group_boundary(ops, shape) {
                Some(b) => {
                    &&& g.len() >= 2
                    &&& b.indices == g
                    &&& b.pattern == FusionPattern::HorizontalElementwise
                    &&& b.savings == 5000 * (g.len() - 1)
                    &&& b.factor == 0x3ff0000000000000
                    &&& b.confidence == group_confidence_bits(g.len() as usize)
                },
                None => g.len() < 2,
            }
        }),
{
}

/// The confidence in a horizontal group is, but for rounding, seventy percent and three more for
/// each operation, and at most ninety-five.
pub proof fn group_confidence_grows(n: usize)
    requires
        n >= 2,
    ensures
        ({
            let sum = 70 + 3 * n;
            let percent = if sum > 95 {
                95
            } else {
                sum
            };
            let off = 100 * units(group_confidence_bits(n)) - percent * 0x20000000000000;
            -200 <= off <= 200
        }),
{
}

/// The patterns of the thresholds stand for three tenths, six tenths and six fifths, but for the
/// rounding to a double.
pub proof fn thresholds_are_what_they_say()
    ensures
        -5 <= 10 * (THREE_TENTHS - 0x3fd0000000000000 + 0x10000000000000) - 3 * 0x40000000000000
            <= 5,
        -5 <= 10 * units(SIX_TENTHS) - 6 * 0x20000000000000 <= 5,
        -5 <= 10 * (SIX_FIFTHS - 0x3ff0000000000000 + 0x10000000000000) - 12 * 0x10000000000000
            <= 5,
        ONE == 0x3ff0000000000000,
{
}

/// A fraction stays what it is, a number above one becomes one, a negative number becomes zero,
/// and what is no number stays that.
pub proof fn clamping_brings_into_range(b: u64)
    ensures
        b <= 0x3ff0000000000000 ==> clamp_fraction(b) == b,
        0x3ff0000000000000 < b <= 0x7ff0000000000000 ==> clamp_fraction(b) == 0x3ff0000000000000,
        0x8000000000000000 <= b <= 0xfff0000000000000 ==> clamp_fraction(b) == 0,
        0x7ff0000000000000 < b < 0x8000000000000000 ==> clamp_fraction(b) == b,
        0xfff0000000000000 < b ==> clamp_fraction(b) == b,
        is_positive(b) <==> 0 < b <= 0x7ff0000000000000,
{
}

/// A confidence that was set replaces that of every boundary, and where none was set each keeps
/// its own.
pub proof fn set_confidence_replaces(
    p: DynamicShapeProfile,
    a: FusionBoundary,
    b: FusionBoundary,
)
    ensures
        p.confidence_override matches Some(c) ==> p.swap_confidence(&a) == c && p.swap_confidence(&b)
            == c,
        p.confidence_override is None ==> p.swap_confidence(&a) == a@.confidence
            && p.swap_confidence(&b) == b@.confidence,
{
}

/// A kernel is swapped from a speedup of six fifths on, whatever was observed; nothing below it, no
/// negative number and nothing that is no number swaps one.
pub proof fn swapped_from_six_fifths_on(p: DynamicShapeProfile, speedup: u64)
    ensures
        p.hot_swap_kernel(SIX_FIFTHS),
        p.hot_swap_kernel(0x7ff0000000000000),
        SIX_FIFTHS < speedup < 0x7ff0000000000000 ==> p.hot_swap_kernel(speedup),
        speedup < SIX_FIFTHS ==> !p.hot_swap_kernel(speedup),
        speedup > 0x7ff0000000000000 ==> !p.hot_swap_kernel(speedup),
{
}

} // verus!
