//! Estimates of what a fusion saves, and how sure it is to be worth it.

use vstd::prelude::*;
use crate::ieee::ONE;
use super::classify::{find_first, OpClass};
use super::op::{FusionOp, OpType};
use super::pattern::FusionPattern;

verus! {

/// Memory traffic in bytes that stands for the overhead of one kernel launch.
pub const KERNEL_LAUNCH_OVERHEAD_BYTES: i64 = 5000;

/// Intermediates larger than this many bytes count as large.
pub const LARGE_INTERMEDIATE_BYTES: i64 = 1048576;

/// Output bytes of the operations in the first `k` places, added up.
pub open spec fn bytes_before(ops: Seq<FusionOp>, k: int) -> int
    decreases k,
{
    if k <= 0 {
        0
    } else {
        bytes_before(ops, k - 1) + ops[k - 1].memory_bytes
    }
}

/// Output bytes of the first operation of class `c`, or none where there is no such operation.
pub open spec fn first_bytes(ops: Seq<FusionOp>, c: OpClass) -> int {
    let i = super::classify::first_op(ops, 0, c);
    if i < ops.len() {
        ops[i].memory_bytes as int
    } else {
        0
    }
}

/// Bytes of memory traffic that fusing the operations saves, before they are cut off: each
/// intermediate that the pattern keeps out of memory is written once and read once less.
pub open spec fn exact_traffic(pattern: FusionPattern, ops: Seq<FusionOp>) -> int {
    let n = ops.len() as int;
    if n == 0 {
        0
    } else {
        match pattern {
            FusionPattern::MatMulBiasReLU => 2 * bytes_before(ops, n - 1),
            FusionPattern::AttentionBlock => 2 * (ops[0].memory_bytes + (if n >= 2 {
                first_bytes(ops, OpClass::Only(OpType::Softmax))
            } else {
                0
            })),
            FusionPattern::NormResidualActivation => 2 * bytes_before(ops, n - 1),
            FusionPattern::OptimizerStepFusion => 2 * bytes_before(ops, n - 1),
            FusionPattern::BackwardPassChain => 2 * bytes_before(ops, n - 1),
            FusionPattern::CommunicationComputeOverlap => first_bytes(
                ops,
                OpClass::Communication,
            ),
            FusionPattern::PersistentKernel => 2 * ops[0].memory_bytes,
            FusionPattern::ElementwiseChain => 2 * bytes_before(ops, n - 1),
            FusionPattern::ReductionFusion => 2 * first_bytes(ops, OpClass::Only(OpType::Reduce)),
            FusionPattern::HorizontalElementwise => (n - 1) * KERNEL_LAUNCH_OVERHEAD_BYTES,
        }
    }
}

/// Bytes of memory traffic that fusing the operations saves, cut off to the range of `i64`.
pub open spec fn traffic_saved(pattern: FusionPattern, ops: Seq<FusionOp>) -> int {
    super::dtype::saturated(exact_traffic(pattern, ops))
}

/// A number cut off to the range of `i64`.
pub fn cut_off(x: i128) -> (r: i64)
    ensures
        r == super::dtype::saturated(x as int),
{
    if x > i64::MAX as i128 {
        i64::MAX
    } else if x < i64::MIN as i128 {
        i64::MIN
    } else {
        x as i64
    }
}

fn bytes_of_first(ops: &[FusionOp], c: OpClass) -> (r: i64)
    ensures
        r == first_bytes(ops@, c),
{
    let i: usize = find_first(ops, c);
    if i < ops.len() {
        ops[i].memory_bytes
    } else {
        0
    }
}

/// Output bytes of all operations but the last, added up and doubled.
fn chain_bytes(ops: &[FusionOp]) -> (r: i64)
    requires
        ops@.len() > 0,
    ensures
        r == super::dtype::saturated(2 * bytes_before(ops@, ops@.len() - 1)),
{
    let last: usize = ops.len() - 1;
    let mut total: i128 = 0;
    let mut k: usize = 0;
    while k < last
        invariant
            last == ops@.len() - 1,
            k <= last,
            -(k * 0x8000_0000_0000_0000) <= total <= k * 0x8000_0000_0000_0000,
            total == bytes_before(ops@, k as int),
        decreases last - k,
    {
        total = total + ops[k].memory_bytes as i128;
        k += 1;
    }
    cut_off(2 * cut_off(total) as i128)
}

/// Traffic that stands for the launches that fusing `n` kernels into one saves.
pub fn launch_savings(n: usize) -> (r: i64)
    requires
        n > 0,
    ensures
        r == super::dtype::saturated((n - 1) * KERNEL_LAUNCH_OVERHEAD_BYTES),
        r >= 0,
{
    cut_off((n - 1) as i128 * KERNEL_LAUNCH_OVERHEAD_BYTES as i128)
}

/// Bytes of memory traffic that fusing the operations saves.
pub fn memory_savings(pattern: FusionPattern, ops: &[FusionOp]) -> (r: i64)
    ensures
        r == traffic_saved(pattern, ops@),
{
    let n: usize = ops.len();
    if n == 0 {
        return 0;
    }
    match pattern {
        FusionPattern::MatMulBiasReLU => chain_bytes(ops),
        FusionPattern::AttentionBlock => {
            let softmax: i64 = if n >= 2 {
                bytes_of_first(ops, OpClass::Only(OpType::Softmax))
            } else {
                0
            };
            cut_off(2 * (ops[0].memory_bytes as i128 + softmax as i128))
        },
        FusionPattern::NormResidualActivation => chain_bytes(ops),
        FusionPattern::OptimizerStepFusion => chain_bytes(ops),
        FusionPattern::BackwardPassChain => chain_bytes(ops),
        FusionPattern::CommunicationComputeOverlap => bytes_of_first(ops, OpClass::Communication),
        FusionPattern::PersistentKernel => cut_off(2 * ops[0].memory_bytes as i128),
        FusionPattern::ElementwiseChain => chain_bytes(ops),
        FusionPattern::ReductionFusion => cut_off(
            2 * bytes_of_first(ops, OpClass::Only(OpType::Reduce)) as i128,
        ),
        FusionPattern::HorizontalElementwise => launch_savings(n),
    }
}

/// The bits of the ratio of operations before and after fusing the pattern.
#[verifier::allow_in_spec]
pub fn compute_savings(pattern: FusionPattern) -> (r: u64)
    returns
        (match pattern {
            FusionPattern::MatMulBiasReLU => 0x3ff199999999999au64,
            FusionPattern::AttentionBlock => 0x3ff4cccccccccccd,
            FusionPattern::NormResidualActivation => 0x3ff0cccccccccccd,
            FusionPattern::OptimizerStepFusion => 0x3ff3333333333333,
            FusionPattern::BackwardPassChain => 0x3ff199999999999a,
            FusionPattern::CommunicationComputeOverlap => 0x3ff0000000000000,
            FusionPattern::PersistentKernel => 0x3ff2666666666666,
            FusionPattern::ElementwiseChain => 0x3ff0000000000000,
            FusionPattern::ReductionFusion => 0x3ff199999999999a,
            FusionPattern::HorizontalElementwise => 0x3ff0000000000000,
        }),
{
    match pattern {
        FusionPattern::MatMulBiasReLU => 0x3ff199999999999a,  // 1.1
        FusionPattern::AttentionBlock => 0x3ff4cccccccccccd,  // 1.3
        FusionPattern::NormResidualActivation => 0x3ff0cccccccccccd,  // 1.05
        FusionPattern::OptimizerStepFusion => 0x3ff3333333333333,  // 1.2
        FusionPattern::BackwardPassChain => 0x3ff199999999999a,  // 1.1
        FusionPattern::CommunicationComputeOverlap => 0x3ff0000000000000,  // 1.0
        FusionPattern::PersistentKernel => 0x3ff2666666666666,  // 1.15
        FusionPattern::ElementwiseChain => 0x3ff0000000000000,  // 1.0
        FusionPattern::ReductionFusion => 0x3ff199999999999a,  // 1.1
        FusionPattern::HorizontalElementwise => 0x3ff0000000000000,  // 1.0
    }
}

/// The outputs that are not scalars all have one rank, and there is such an output.
pub open spec fn one_rank(ops: Seq<FusionOp>) -> bool {
    exists|r: nat|
        r > 0 && #[trigger] only_rank(ops, r) && exists|i: int|
            0 <= i < ops.len() && (#[trigger] ops[i]).output_shape@.len() > 0
}

/// The outputs that are not scalars all have rank `r`.
pub open spec fn only_rank(ops: Seq<FusionOp>, r: nat) -> bool {
    forall|i: int|
        0 <= i < ops.len() && (#[trigger] ops[i]).output_shape@.len() > 0
            ==> ops[i].output_shape@.len() == r
}

/// All operations have the element type of the first.
pub open spec fn one_dtype(ops: Seq<FusionOp>) -> bool {
    forall|i: int| 0 <= i < ops.len() ==> (#[trigger] ops[i]).dtype == ops[0].dtype
}

/// Some output but the last is large.
pub open spec fn has_large_intermediate(ops: Seq<FusionOp>) -> bool {
    exists|i: int|
        0 <= i < ops.len() - 1 && (#[trigger] ops[i]).memory_bytes > LARGE_INTERMEDIATE_BYTES
}

/// No operation overwrites its input.
pub open spec fn none_inplace(ops: Seq<FusionOp>) -> bool {
    forall|i: int| 0 <= i < ops.len() ==> !(#[trigger] ops[i]).is_inplace
}

/// How many of the three minor conditions that speak for a fusion hold: one element type, a
/// large intermediate, nothing in place.
pub open spec fn minor_bonuses(ops: Seq<FusionOp>) -> int {
    (if ops.len() >= 2 && one_dtype(ops) { 1int } else { 0 }) + (if has_large_intermediate(ops) {
        1int
    } else {
        0
    }) + (if none_inplace(ops) { 1int } else { 0 })
}

/// The entry of a table row for a number of bonuses.
#[verifier::allow_in_spec]
pub fn entry(bonuses: u8, none: u64, one: u64, two: u64, three: u64) -> (r: u64)
    returns
        (if bonuses == 0 {
            none
        } else if bonuses == 1 {
            one
        } else if bonuses == 2 {
            two
        } else {
            three
        }),
{
    if bonuses == 0 {
        none
    } else if bonuses == 1 {
        one
    } else if bonuses == 2 {
        two
    } else {
        three
    }
}

/// The bits of the confidence in a pattern: its base, plus 0.1 where the ranks agree, plus 0.05
/// for each minor bonus, and at most 1. Each sum is rounded to a double before the next.
#[verifier::allow_in_spec]
pub fn confidence_bits(pattern: FusionPattern, ranks_agree: bool, bonuses: u8) -> (r: u64)
    returns
        (match (pattern, ranks_agree) {
            (FusionPattern::MatMulBiasReLU, false)
            | (FusionPattern::NormResidualActivation, false) => entry(
                bonuses,
                0x3feccccccccccccd,
                0x3fee666666666667,
                ONE,
                ONE,
            ),
            (FusionPattern::AttentionBlock, false) => entry(
                bonuses,
                0x3feb333333333333,
                0x3feccccccccccccd,
                0x3fee666666666667,
                ONE,
            ),
            (FusionPattern::AttentionBlock, true) => entry(
                bonuses,
                0x3fee666666666666,
                ONE,
                ONE,
                ONE,
            ),
            (FusionPattern::OptimizerStepFusion, false)
            | (FusionPattern::ReductionFusion, false) => entry(
                bonuses,
                0x3fe999999999999a,
                0x3feb333333333334,
                0x3fecccccccccccce,
                0x3fee666666666668,
            ),
            (FusionPattern::OptimizerStepFusion, true)
            | (FusionPattern::ReductionFusion, true) => entry(
                bonuses,
                0x3feccccccccccccd,
                0x3fee666666666667,
                ONE,
                ONE,
            ),
            (FusionPattern::BackwardPassChain, false)
            | (FusionPattern::HorizontalElementwise, false) => entry(
                bonuses,
                0x3fe6666666666666,
                0x3fe8000000000000,
                0x3fe999999999999a,
                0x3feb333333333334,
            ),
            (FusionPattern::BackwardPassChain, true)
            | (FusionPattern::HorizontalElementwise, true) => entry(
                bonuses,
                0x3fe9999999999999,
                0x3feb333333333333,
                0x3feccccccccccccd,
                0x3fee666666666667,
            ),
            (FusionPattern::CommunicationComputeOverlap, false) => entry(
                bonuses,
                0x3fe3333333333333,
                0x3fe4cccccccccccd,
                0x3fe6666666666667,
                0x3fe8000000000001,
            ),
            (FusionPattern::CommunicationComputeOverlap, true) => entry(
                bonuses,
                0x3fe6666666666666,
                0x3fe8000000000000,
                0x3fe999999999999a,
                0x3feb333333333334,
            ),
            (FusionPattern::PersistentKernel, false) => entry(
                bonuses,
                0x3fe0000000000000,
                0x3fe199999999999a,
                0x3fe3333333333334,
                0x3fe4ccccccccccce,
            ),
            (FusionPattern::PersistentKernel, true) => entry(
                bonuses,
                0x3fe3333333333333,
                0x3fe4cccccccccccd,
                0x3fe6666666666667,
                0x3fe8000000000001,
            ),
            (FusionPattern::ElementwiseChain, false) => entry(
                bonuses,
                0x3fee666666666666,
                ONE,
                ONE,
                ONE,
            ),
            _ => ONE,
        }),
{
    match (pattern, ranks_agree) {
        // 0.9, 0.95, 1, 1
        (FusionPattern::MatMulBiasReLU, false)
        | (FusionPattern::NormResidualActivation, false) => entry(
            bonuses,
            0x3feccccccccccccd,
            0x3fee666666666667,
            ONE,
            ONE,
        ),
        // 0.85, 0.9, 0.95, 1
        (FusionPattern::AttentionBlock, false) => entry(
            bonuses,
            0x3feb333333333333,
            0x3feccccccccccccd,
            0x3fee666666666667,
            ONE,
        ),
        // 0.95, 1, 1, 1
        (FusionPattern::AttentionBlock, true) => entry(bonuses, 0x3fee666666666666, ONE, ONE, ONE),
        // 0.8, 0.85, 0.9, 0.95
        (FusionPattern::OptimizerStepFusion, false)
        | (FusionPattern::ReductionFusion, false) => entry(
            bonuses,
            0x3fe999999999999a,
            0x3feb333333333334,
            0x3fecccccccccccce,
            0x3fee666666666668,
        ),
        // 0.9, 0.95, 1, 1
        (FusionPattern::OptimizerStepFusion, true)
        | (FusionPattern::ReductionFusion, true) => entry(
            bonuses,
            0x3feccccccccccccd,
            0x3fee666666666667,
            ONE,
            ONE,
        ),
        // 0.7, 0.75, 0.8, 0.85
        (FusionPattern::BackwardPassChain, false)
        | (FusionPattern::HorizontalElementwise, false) => entry(
            bonuses,
            0x3fe6666666666666,
            0x3fe8000000000000,
            0x3fe999999999999a,
            0x3feb333333333334,
        ),
        // 0.8, 0.85, 0.9, 0.95
        (FusionPattern::BackwardPassChain, true)
        | (FusionPattern::HorizontalElementwise, true) => entry(
            bonuses,
            0x3fe9999999999999,
            0x3feb333333333333,
            0x3feccccccccccccd,
            0x3fee666666666667,
        ),
        // 0.6, 0.65, 0.7, 0.75
        (FusionPattern::CommunicationComputeOverlap, false) => entry(
            bonuses,
            0x3fe3333333333333,
            0x3fe4cccccccccccd,
            0x3fe6666666666667,
            0x3fe8000000000001,
        ),
        // 0.7, 0.75, 0.8, 0.85
        (FusionPattern::CommunicationComputeOverlap, true) => entry(
            bonuses,
            0x3fe6666666666666,
            0x3fe8000000000000,
            0x3fe999999999999a,
            0x3feb333333333334,
        ),
        // 0.5, 0.55, 0.6, 0.65
        (FusionPattern::PersistentKernel, false) => entry(
            bonuses,
            0x3fe0000000000000,
            0x3fe199999999999a,
            0x3fe3333333333334,
            0x3fe4ccccccccccce,
        ),
        // 0.6, 0.65, 0.7, 0.75
        (FusionPattern::PersistentKernel, true) => entry(
            bonuses,
            0x3fe3333333333333,
            0x3fe4cccccccccccd,
            0x3fe6666666666667,
            0x3fe8000000000001,
        ),
        // 0.95, 1, 1, 1
        (FusionPattern::ElementwiseChain, false) => entry(
            bonuses,
            0x3fee666666666666,
            ONE,
            ONE,
            ONE,
        ),
        _ => ONE,
    }
}

/// The bits of four fifths of a confidence that `confidence_bits` yields.
#[verifier::allow_in_spec]
pub fn four_fifths(confidence: u64) -> (r: u64)
    returns
        (match confidence {
            0x3fe0000000000000 => 0x3fd999999999999au64,
            0x3fe199999999999a => 0x3fdc28f5c28f5c2a,
            0x3fe3333333333333 => 0x3fdeb851eb851eb8,
            0x3fe3333333333334 => 0x3fdeb851eb851eba,
            0x3fe4cccccccccccd => 0x3fe0a3d70a3d70a4,
            0x3fe4ccccccccccce => 0x3fe0a3d70a3d70a5,
            0x3fe6666666666666 => 0x3fe1eb851eb851eb,
            0x3fe6666666666667 => 0x3fe1eb851eb851ec,
            0x3fe8000000000000 => 0x3fe3333333333334,
            0x3fe8000000000001 => 0x3fe3333333333334,
            0x3fe9999999999999 => 0x3fe47ae147ae147b,
            0x3fe999999999999a => 0x3fe47ae147ae147c,
            0x3feb333333333333 => 0x3fe5c28f5c28f5c3,
            0x3feb333333333334 => 0x3fe5c28f5c28f5c4,
            0x3feccccccccccccd => 0x3fe70a3d70a3d70b,
            0x3fecccccccccccce => 0x3fe70a3d70a3d70c,
            0x3fee666666666666 => 0x3fe851eb851eb852,
            0x3fee666666666667 => 0x3fe851eb851eb853,
            0x3fee666666666668 => 0x3fe851eb851eb854,
            _ => 0x3fe999999999999a,
        }),
{
    match confidence {
        0x3fe0000000000000 => 0x3fd999999999999a,  // 0.5 to 0.4
        0x3fe199999999999a => 0x3fdc28f5c28f5c2a,  // 0.55 to 0.44
        0x3fe3333333333333 => 0x3fdeb851eb851eb8,  // 0.6 to 0.48
        0x3fe3333333333334 => 0x3fdeb851eb851eba,
        0x3fe4cccccccccccd => 0x3fe0a3d70a3d70a4,  // 0.65 to 0.52
        0x3fe4ccccccccccce => 0x3fe0a3d70a3d70a5,
        0x3fe6666666666666 => 0x3fe1eb851eb851eb,  // 0.7 to 0.56
        0x3fe6666666666667 => 0x3fe1eb851eb851ec,
        0x3fe8000000000000 => 0x3fe3333333333334,  // 0.75 to 0.6
        0x3fe8000000000001 => 0x3fe3333333333334,
        0x3fe9999999999999 => 0x3fe47ae147ae147b,  // 0.8 to 0.64
        0x3fe999999999999a => 0x3fe47ae147ae147c,
        0x3feb333333333333 => 0x3fe5c28f5c28f5c3,  // 0.85 to 0.68
        0x3feb333333333334 => 0x3fe5c28f5c28f5c4,
        0x3feccccccccccccd => 0x3fe70a3d70a3d70b,  // 0.9 to 0.72
        0x3fecccccccccccce => 0x3fe70a3d70a3d70c,
        0x3fee666666666666 => 0x3fe851eb851eb852,  // 0.95 to 0.76
        0x3fee666666666667 => 0x3fe851eb851eb853,
        0x3fee666666666668 => 0x3fe851eb851eb854,
        _ => 0x3fe999999999999a,  // 1 to 0.8
    }
}

/// The confidence that the engine puts in a window of operations that forms `pattern`.
pub open spec fn window_confidence(pattern: FusionPattern, ops: Seq<FusionOp>) -> u64 {
    confidence_bits(pattern, ops.len() >= 2 && one_rank(ops), minor_bonuses(ops) as u8)
}

/// Whether the outputs that are not scalars all have one rank, and there is such an output.
pub fn ranks_agree(ops: &[FusionOp]) -> (r: bool)
    ensures
        r == one_rank(ops@),
{
    let mut rank: usize = 0;
    let mut i: usize = 0;
    while i < ops.len()
        invariant
            i <= ops@.len(),
            rank == 0 ==> forall|j: int|
                0 <= j < i ==> (#[trigger] ops@[j]).output_shape@.len() == 0,
            rank > 0 ==> exists|j: int|
                0 <= j < i && (#[trigger] ops@[j]).output_shape@.len() == rank,
            rank > 0 ==> forall|j: int|
                0 <= j < i && (#[trigger] ops@[j]).output_shape@.len() > 0
                    ==> ops@[j].output_shape@.len() == rank,
        decreases ops.len() - i,
    {
        let r: usize = ops[i].output_shape.len();
        if r > 0 {
            if rank == 0 {
                rank = r;
                assert(ops@[i as int].output_shape@.len() == rank);
            } else if r != rank {
                proof {
                    let j = choose|j: int|
                        0 <= j < i && (#[trigger] ops@[j]).output_shape@.len() == rank;
                    assert(ops@[i as int].output_shape@.len() == r);
                    assert(forall|q: nat| !#[trigger] only_rank(ops@, q)) by {
                        assert forall|q: nat| !#[trigger] only_rank(ops@, q) by {
                            assert(ops@[j].output_shape@.len() != q
                                || ops@[i as int].output_shape@.len() != q);
                        }
                    }
                }
                return false;
            }
        }
        i += 1;
    }
    proof {
        if rank > 0 {
            assert(only_rank(ops@, rank as nat));
        }
    }
    rank > 0
}

fn dtypes_agree(ops: &[FusionOp]) -> (r: bool)
    ensures
        r == one_dtype(ops@),
{
    let mut i: usize = 0;
    while i < ops.len()
        invariant
            i <= ops@.len(),
            forall|j: int| 0 <= j < i ==> (#[trigger] ops@[j]).dtype == ops@[0].dtype,
        decreases ops.len() - i,
    {
        if ops[i].dtype != ops[0].dtype {
            assert(ops@[i as int].dtype != ops@[0].dtype);
            return false;
        }
        i += 1;
    }
    true
}

fn any_large_intermediate(ops: &[FusionOp]) -> (r: bool)
    ensures
        r == has_large_intermediate(ops@),
{
    let mut i: usize = 0;
    while ops.len() > 0 && i < ops.len() - 1
        invariant
            i <= ops@.len(),
            forall|j: int|
                0 <= j < i ==> (#[trigger] ops@[j]).memory_bytes <= LARGE_INTERMEDIATE_BYTES,
        decreases ops.len() - i,
    {
        if ops[i].memory_bytes > LARGE_INTERMEDIATE_BYTES {
            assert(ops@[i as int].memory_bytes > LARGE_INTERMEDIATE_BYTES);
            return true;
        }
        i += 1;
    }
    false
}

fn nothing_inplace(ops: &[FusionOp]) -> (r: bool)
    ensures
        r == none_inplace(ops@),
{
    let mut i: usize = 0;
    while i < ops.len()
        invariant
            i <= ops@.len(),
            forall|j: int| 0 <= j < i ==> !(#[trigger] ops@[j]).is_inplace,
        decreases ops.len() - i,
    {
        if ops[i].is_inplace {
            assert(ops@[i as int].is_inplace);
            return false;
        }
        i += 1;
    }
    true
}

/// The confidence that the engine puts in a window of operations that forms `pattern`.
pub fn compute_confidence(pattern: FusionPattern, ops: &[FusionOp]) -> (r: u64)
    ensures
        r == window_confidence(pattern, ops@),
{
    let mut bonuses: u8 = 0;
    if ops.len() >= 2 && dtypes_agree(ops) {
        bonuses = bonuses + 1;
    }
    if any_large_intermediate(ops) {
        bonuses = bonuses + 1;
    }
    if nothing_inplace(ops) {
        bonuses = bonuses + 1;
    }
    confidence_bits(pattern, ops.len() >= 2 && ranks_agree(ops), bonuses)
}

/// A confidence lies between 0 and 1, each bonus that comes in leaves it no smaller, and its
/// four fifths are smaller but not zero.
pub proof fn confidence_is_monotone(pattern: FusionPattern, ranks: bool, bonuses: u8)
    requires
        bonuses <= 3,
    ensures
        0 < confidence_bits(pattern, ranks, bonuses) <= ONE,
        confidence_bits(pattern, false, bonuses) <= confidence_bits(pattern, true, bonuses),
        bonuses < 3 ==> confidence_bits(pattern, ranks, bonuses) <= confidence_bits(
            pattern,
            ranks,
            (bonuses + 1) as u8,
        ),
        0 < four_fifths(confidence_bits(pattern, ranks, bonuses)) < confidence_bits(
            pattern,
            ranks,
            bonuses,
        ),
{
}

/// Fusing never makes the computation larger.
pub proof fn compute_savings_is_factor(pattern: FusionPattern)
    ensures
        crate::ieee::is_factor(compute_savings(pattern)),
{
}

} // verus!
