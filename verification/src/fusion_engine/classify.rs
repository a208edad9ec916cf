//! Recognition of fusion patterns in sequences of operations.

use vstd::prelude::*;
use super::dtype::TensorShape;
use super::op::{FusionOp, OpType};
use super::pattern::FusionPattern;

verus! {

/// A set of operation types that a place in a pattern admits.
#[derive(Debug, Clone, Copy, PartialEq, Eq, Structural)]
pub enum OpClass {
    /// Exactly one type.
    Only(OpType),
    /// Element-wise operations.
    Elementwise,
    /// Activation functions.
    Activation,
    /// Normalizations.
    Normalization,
    /// Collectives across devices.
    Communication,
    /// Operations that do not communicate.
    Compute,
    /// Matrix products, batched or not.
    MatrixProduct,
    /// Softmax and its logarithm.
    AnySoftmax,
    /// What may stand between the two matrix products of an attention block.
    AttentionMiddle,
    /// Addition, multiplication and subtraction.
    Arithmetic,
    /// Multiplication and addition.
    Gradient,
    /// What may follow a reduction.
    ReductionTail,
}

impl OpClass {
    /// Whether `t` belongs to this class.
    #[verifier::allow_in_spec]
    pub fn admits(self, t: OpType) -> (r: bool)
        returns
            (match self {
                OpClass::Only(u) => t == u,
                OpClass::Elementwise => t.is_elementwise(),
                OpClass::Activation => t.is_activation(),
                OpClass::Normalization => t.is_normalization(),
                OpClass::Communication => t.is_communication(),
                OpClass::Compute => !t.is_communication(),
                OpClass::MatrixProduct => t == OpType::MatMul || t == OpType::BatchMatMul,
                OpClass::AnySoftmax => t == OpType::Softmax || t == OpType::LogSoftmax,
                OpClass::AttentionMiddle => t == OpType::Mul || t == OpType::Softmax || t
                    == OpType::LogSoftmax || t == OpType::Div,
                OpClass::Arithmetic => t == OpType::Add || t == OpType::Mul || t == OpType::Sub,
                OpClass::Gradient => t == OpType::Mul || t == OpType::Add,
                OpClass::ReductionTail => t.is_elementwise() || t == OpType::Broadcast,
            }),
    {
        match self {
            OpClass::Only(u) => t == u,
            OpClass::Elementwise => t.is_elementwise(),
            OpClass::Activation => t.is_activation(),
            OpClass::Normalization => t.is_normalization(),
            OpClass::Communication => t.is_communication(),
            OpClass::Compute => !t.is_communication(),
            OpClass::MatrixProduct => t == OpType::MatMul || t == OpType::BatchMatMul,
            OpClass::AnySoftmax => t == OpType::Softmax || t == OpType::LogSoftmax,
            OpClass::AttentionMiddle => t == OpType::Mul || t == OpType::Softmax || t
                == OpType::LogSoftmax || t == OpType::Div,
            OpClass::Arithmetic => t == OpType::Add || t == OpType::Mul || t == OpType::Sub,
            OpClass::Gradient => t == OpType::Mul || t == OpType::Add,
            OpClass::ReductionTail => t.is_elementwise() || t == OpType::Broadcast,
        }
    }
}

/// Whether the operation at place `i` belongs to class `c`.
pub open spec fn op_at(ops: Seq<FusionOp>, i: int, c: OpClass) -> bool {
    c.admits(ops[i].op_type)
}

/// Whether some operation in the places `lo..hi` belongs to class `c`.
pub open spec fn any_op(ops: Seq<FusionOp>, lo: int, hi: int, c: OpClass) -> bool {
    exists|i: int| lo <= i < hi && #[trigger] op_at(ops, i, c)
}

/// Whether every operation in the places `lo..hi` belongs to class `c`.
pub open spec fn all_ops(ops: Seq<FusionOp>, lo: int, hi: int, c: OpClass) -> bool {
    forall|i: int| lo <= i < hi ==> #[trigger] op_at(ops, i, c)
}

/// First place from `from` on whose operation belongs to class `c`, or the length if there is
/// none.
pub open spec fn first_op(ops: Seq<FusionOp>, from: int, c: OpClass) -> int
    decreases ops.len() - from,
{
    if from >= ops.len() {
        ops.len() as int
    } else if op_at(ops, from, c) {
        from
    } else {
        first_op(ops, from + 1, c)
    }
}

/// A matrix product followed by a bias add, an activation or both, with an optional scaling.
pub open spec fn is_matmul_bias_activation(ops: Seq<FusionOp>) -> bool {
    let n = ops.len();
    let add = OpClass::Only(OpType::Add);
    &&& 2 <= n <= 4
    &&& op_at(ops, 0, OpClass::MatrixProduct)
    &&& n == 2 ==> op_at(ops, 1, add) || op_at(ops, 1, OpClass::Activation)
    &&& n == 3 ==> (op_at(ops, 1, add) || op_at(ops, 1, OpClass::Activation)) && op_at(
        ops,
        2,
        OpClass::Activation,
    )
    &&& n == 4 ==> op_at(ops, 1, OpClass::Only(OpType::Mul)) && op_at(ops, 2, add) && op_at(
        ops,
        3,
        OpClass::Activation,
    )
}

/// Two matrix products around a softmax, with nothing but scalings beside it.
pub open spec fn is_attention_block(ops: Seq<FusionOp>) -> bool {
    let n = ops.len() as int;
    &&& 3 <= n <= 6
    &&& op_at(ops, 0, OpClass::MatrixProduct)
    &&& op_at(ops, n - 1, OpClass::MatrixProduct)
    &&& any_op(ops, 1, n - 1, OpClass::AnySoftmax)
    &&& all_ops(ops, 1, n - 1, OpClass::AttentionMiddle)
}

/// A normalization next to an addition at the front, in either order, with nothing but activations
/// behind them.
pub open spec fn is_norm_residual(ops: Seq<FusionOp>) -> bool {
    let add = OpClass::Only(OpType::Add);
    &&& 2 <= ops.len() <= 4
    &&& ((op_at(ops, 0, OpClass::Normalization) && op_at(ops, 1, add)) || (op_at(ops, 0, add)
        && op_at(ops, 1, OpClass::Normalization)))
    &&& all_ops(ops, 2, ops.len() as int, OpClass::Activation)
}

/// Three to six additions, multiplications and subtractions, the first two kinds both present.
pub open spec fn is_optimizer_step(ops: Seq<FusionOp>) -> bool {
    let n = ops.len() as int;
    &&& 3 <= n <= 6
    &&& all_ops(ops, 0, n, OpClass::Arithmetic)
    &&& any_op(ops, 0, n, OpClass::Only(OpType::Add))
    &&& any_op(ops, 0, n, OpClass::Only(OpType::Mul))
}

/// At least three multiplications and additions whose outputs have one rank.
pub open spec fn is_backward_chain(ops: Seq<FusionOp>) -> bool {
    let n = ops.len() as int;
    &&& 3 <= n
    &&& all_ops(ops, 0, n, OpClass::Gradient)
    &&& forall|i: int|
        0 <= i < n ==> (#[trigger] ops[i]).output_shape@.len() == ops[0].output_shape@.len()
}

/// A collective beside an operation that does not communicate.
pub open spec fn is_comm_compute_overlap(ops: Seq<FusionOp>) -> bool {
    &&& ops.len() == 2
    &&& any_op(ops, 0, 2, OpClass::Communication)
    &&& any_op(ops, 0, 2, OpClass::Compute)
}

/// A reduction followed by element-wise operations and broadcasts.
pub open spec fn is_reduction_fusion(ops: Seq<FusionOp>) -> bool {
    &&& 2 <= ops.len()
    &&& op_at(ops, 0, OpClass::Only(OpType::Reduce))
    &&& all_ops(ops, 1, ops.len() as int, OpClass::ReductionTail)
}

/// Same operation on outputs of the same rank.
pub open spec fn alike(a: FusionOp, b: FusionOp) -> bool {
    a.op_type == b.op_type && a.output_shape@.len() == b.output_shape@.len()
}

/// The operations are a whole number of copies of their first `period`.
pub open spec fn repeats(ops: Seq<FusionOp>, period: int) -> bool {
    &&& ops.len() as int % period == 0
    &&& forall|i: int| period <= i < ops.len() ==> alike(ops[i % period], #[trigger] ops[i])
}

/// At least two copies of a block of two or more operations.
pub open spec fn is_persistent_kernel(ops: Seq<FusionOp>) -> bool {
    ops.len() >= 3 && exists|period: int|
        2 <= period <= ops.len() as int / 2 && #[trigger] repeats(ops, period)
}

/// Two or more element-wise operations.
pub open spec fn is_elementwise_chain(ops: Seq<FusionOp>) -> bool {
    2 <= ops.len() && all_ops(ops, 0, ops.len() as int, OpClass::Elementwise)
}

/// The pattern that the operations form: the first in order of benefit that fits them. An unknown
/// operation is part of none.
pub open spec fn pattern_of(ops: Seq<FusionOp>) -> Option<FusionPattern> {
    if any_op(ops, 0, ops.len() as int, OpClass::Only(OpType::Custom)) {
        None
    } else if is_attention_block(ops) {
        Some(FusionPattern::AttentionBlock)
    } else if is_matmul_bias_activation(ops) {
        Some(FusionPattern::MatMulBiasReLU)
    } else if is_norm_residual(ops) {
        Some(FusionPattern::NormResidualActivation)
    } else if is_optimizer_step(ops) {
        Some(FusionPattern::OptimizerStepFusion)
    } else if is_backward_chain(ops) {
        Some(FusionPattern::BackwardPassChain)
    } else if is_comm_compute_overlap(ops) {
        Some(FusionPattern::CommunicationComputeOverlap)
    } else if is_reduction_fusion(ops) {
        Some(FusionPattern::ReductionFusion)
    } else if is_persistent_kernel(ops) {
        Some(FusionPattern::PersistentKernel)
    } else if is_elementwise_chain(ops) {
        Some(FusionPattern::ElementwiseChain)
    } else {
        None
    }
}

/// Whether all outputs have the same shape.
pub open spec fn one_output_shape(ops: Seq<FusionOp>) -> bool {
    forall|i: int|
        1 <= i < ops.len() ==> (#[trigger] ops[i]).output_shape@ == ops[0].output_shape@
}

/// The pattern that the operations form, with their shapes telling an optimizer step from a
/// backward chain: where all outputs have one shape, four operations or more are an optimizer
/// step and fewer are a backward chain.
pub open spec fn pattern_by_shapes(ops: Seq<FusionOp>) -> Option<FusionPattern> {
    match pattern_of(ops) {
        Some(FusionPattern::OptimizerStepFusion) | Some(FusionPattern::BackwardPassChain) => {
            if !one_output_shape(ops) {
                pattern_of(ops)
            } else if ops.len() >= 4 {
                Some(FusionPattern::OptimizerStepFusion)
            } else {
                Some(FusionPattern::BackwardPassChain)
            }
        },
        p => p,
    }
}

/// Whether some operation in the places `lo..hi` belongs to class `c`.
pub fn has_any(ops: &[FusionOp], lo: usize, hi: usize, c: OpClass) -> (r: bool)
    requires
        lo <= hi <= ops@.len(),
    ensures
        r == any_op(ops@, lo as int, hi as int, c),
{
    let mut i: usize = lo;
    while i < hi
        invariant
            lo <= i <= hi <= ops@.len(),
            forall|j: int| lo <= j < i ==> !#[trigger] op_at(ops@, j, c),
        decreases hi - i,
    {
        if c.admits(ops[i].op_type) {
            assert(op_at(ops@, i as int, c));
            return true;
        }
        i += 1;
    }
    false
}

/// Whether every operation in the places `lo..hi` belongs to class `c`.
pub fn has_all(ops: &[FusionOp], lo: usize, hi: usize, c: OpClass) -> (r: bool)
    requires
        lo <= hi <= ops@.len(),
    ensures
        r == all_ops(ops@, lo as int, hi as int, c),
{
    let mut i: usize = lo;
    while i < hi
        invariant
            lo <= i <= hi <= ops@.len(),
            forall|j: int| lo <= j < i ==> #[trigger] op_at(ops@, j, c),
        decreases hi - i,
    {
        if !c.admits(ops[i].op_type) {
            assert(!op_at(ops@, i as int, c));
            return false;
        }
        i += 1;
    }
    true
}

/// First place whose operation belongs to class `c`, or the length if there is none.
pub fn find_first(ops: &[FusionOp], c: OpClass) -> (r: usize)
    ensures
        r == first_op(ops@, 0, c),
        r <= ops@.len(),
{
    let mut i: usize = 0;
    while i < ops.len()
        invariant
            i <= ops@.len(),
            first_op(ops@, 0, c) == first_op(ops@, i as int, c),
        decreases ops.len() - i,
    {
        if c.admits(ops[i].op_type) {
            return i;
        }
        i += 1;
    }
    i
}

/// Whether two shapes are equal.
pub fn same_shape(a: &TensorShape, b: &TensorShape) -> (r: bool)
    ensures
        r == (a@ == b@),
{
    if a.len() != b.len() {
        return false;
    }
    let mut i: usize = 0;
    while i < a.len()
        invariant
            a@.len() == b@.len(),
            i <= a@.len(),
            forall|j: int| 0 <= j < i ==> a@[j] == b@[j],
        decreases a.len() - i,
    {
        if a[i] != b[i] {
            assert(a@[i as int] != b@[i as int]);
            return false;
        }
        i += 1;
    }
    assert(a@ =~= b@);
    true
}

fn matches_matmul_bias_activation(ops: &[FusionOp]) -> (r: bool)
    ensures
        r == is_matmul_bias_activation(ops@),
{
    let n: usize = ops.len();
    if n < 2 || n > 4 {
        return false;
    }
    if !OpClass::MatrixProduct.admits(ops[0].op_type) {
        return false;
    }
    if n == 2 {
        ops[1].op_type == OpType::Add || ops[1].op_type.is_activation()
    } else if n == 3 {
        (ops[1].op_type == OpType::Add || ops[1].op_type.is_activation())
            && ops[2].op_type.is_activation()
    } else {
        ops[1].op_type == OpType::Mul && ops[2].op_type == OpType::Add
            && ops[3].op_type.is_activation()
    }
}

fn matches_attention_block(ops: &[FusionOp]) -> (r: bool)
    ensures
        r == is_attention_block(ops@),
{
    let n: usize = ops.len();
    if n < 3 || n > 6 {
        return false;
    }
    OpClass::MatrixProduct.admits(ops[0].op_type) && OpClass::MatrixProduct.admits(
        ops[n - 1].op_type,
    ) && has_any(ops, 1, n - 1, OpClass::AnySoftmax) && has_all(
        ops,
        1,
        n - 1,
        OpClass::AttentionMiddle,
    )
}

fn matches_norm_residual(ops: &[FusionOp]) -> (r: bool)
    ensures
        r == is_norm_residual(ops@),
{
    let n: usize = ops.len();
    if n < 2 || n > 4 {
        return false;
    }
    let pair: bool = (ops[0].op_type.is_normalization() && ops[1].op_type == OpType::Add) || (
    ops[0].op_type == OpType::Add && ops[1].op_type.is_normalization());
    pair && has_all(ops, 2, n, OpClass::Activation)
}

fn matches_optimizer_step(ops: &[FusionOp]) -> (r: bool)
    ensures
        r == is_optimizer_step(ops@),
{
    let n: usize = ops.len();
    if n < 3 || n > 6 {
        return false;
    }
    has_all(ops, 0, n, OpClass::Arithmetic) && has_any(ops, 0, n, OpClass::Only(OpType::Add))
        && has_any(ops, 0, n, OpClass::Only(OpType::Mul))
}

fn matches_backward_chain(ops: &[FusionOp]) -> (r: bool)
    ensures
        r == is_backward_chain(ops@),
{
    let n: usize = ops.len();
    if n < 3 || !has_all(ops, 0, n, OpClass::Gradient) {
        return false;
    }
    let rank: usize = ops[0].output_shape.len();
    let mut i: usize = 0;
    while i < n
        invariant
            n == ops@.len(),
            n >= 3,
            i <= n,
            rank == ops@[0].output_shape@.len(),
            forall|j: int| 0 <= j < i ==> (#[trigger] ops@[j]).output_shape@.len() == rank,
        decreases n - i,
    {
        if ops[i].output_shape.len() != rank {
            assert(ops@[i as int].output_shape@.len() != rank);
            return false;
        }
        i += 1;
    }
    true
}

fn matches_comm_compute_overlap(ops: &[FusionOp]) -> (r: bool)
    ensures
        r == is_comm_compute_overlap(ops@),
{
    ops.len() == 2 && has_any(ops, 0, 2, OpClass::Communication) && has_any(
        ops,
        0,
        2,
        OpClass::Compute,
    )
}

fn matches_reduction_fusion(ops: &[FusionOp]) -> (r: bool)
    ensures
        r == is_reduction_fusion(ops@),
{
    let n: usize = ops.len();
    n >= 2 && ops[0].op_type == OpType::Reduce && has_all(ops, 1, n, OpClass::ReductionTail)
}

/// Whether the operations are a whole number of copies of their first `period`.
fn has_period(ops: &[FusionOp], period: usize) -> (r: bool)
    requires
        0 < period <= ops@.len(),
    ensures
        r == repeats(ops@, period as int),
{
    let n: usize = ops.len();
    if n % period != 0 {
        return false;
    }
    let mut i: usize = period;
    while i < n
        invariant
            n == ops@.len(),
            0 < period <= i <= n,
            forall|j: int|
                period <= j < i ==> alike(ops@[j % (period as int)], #[trigger] ops@[j]),
        decreases n - i,
    {
        let base: usize = i % period;
        assert(base == (i as int) % (period as int));
        if ops[base].op_type != ops[i].op_type || ops[base].output_shape.len()
            != ops[i].output_shape.len() {
            assert(!alike(ops@[(i as int) % (period as int)], ops@[i as int]));
            return false;
        }
        i += 1;
    }
    true
}

fn matches_persistent_kernel(ops: &[FusionOp]) -> (r: bool)
    ensures
        r == is_persistent_kernel(ops@),
{
    let n: usize = ops.len();
    if n < 3 {
        return false;
    }
    let mut period: usize = 2;
    while period <= n / 2
        invariant
            n == ops@.len(),
            n >= 3,
            2 <= period <= n / 2 + 1,
            forall|p: int| 2 <= p < period ==> !#[trigger] repeats(ops@, p),
        decreases n / 2 + 1 - period,
    {
        if has_period(ops, period) {
            assert(repeats(ops@, period as int));
            return true;
        }
        period += 1;
    }
    false
}

fn matches_elementwise_chain(ops: &[FusionOp]) -> (r: bool)
    ensures
        r == is_elementwise_chain(ops@),
{
    ops.len() >= 2 && has_all(ops, 0, ops.len(), OpClass::Elementwise)
}

/// The pattern that the operations form, if they form one. Specific patterns are tried before
/// general ones.
pub fn classify(ops: &[FusionOp]) -> (r: Option<FusionPattern>)
    ensures
        r == pattern_of(ops@),
{
    if has_any(ops, 0, ops.len(), OpClass::Only(OpType::Custom)) {
        None
    } else if matches_attention_block(ops) {
        Some(FusionPattern::AttentionBlock)
    } else if matches_matmul_bias_activation(ops) {
        Some(FusionPattern::MatMulBiasReLU)
    } else if matches_norm_residual(ops) {
        Some(FusionPattern::NormResidualActivation)
    } else if matches_optimizer_step(ops) {
        Some(FusionPattern::OptimizerStepFusion)
    } else if matches_backward_chain(ops) {
        Some(FusionPattern::BackwardPassChain)
    } else if matches_comm_compute_overlap(ops) {
        Some(FusionPattern::CommunicationComputeOverlap)
    } else if matches_reduction_fusion(ops) {
        Some(FusionPattern::ReductionFusion)
    } else if matches_persistent_kernel(ops) {
        Some(FusionPattern::PersistentKernel)
    } else if matches_elementwise_chain(ops) {
        Some(FusionPattern::ElementwiseChain)
    } else {
        None
    }
}

/// Whether all outputs have the same shape.
fn has_one_output_shape(ops: &[FusionOp]) -> (r: bool)
    ensures
        r == one_output_shape(ops@),
{
    let n: usize = ops.len();
    if n == 0 {
        return true;
    }
    let mut i: usize = 1;
    while i < n
        invariant
            n == ops@.len(),
            1 <= i <= n,
            forall|j: int|
                1 <= j < i ==> (#[trigger] ops@[j]).output_shape@ == ops@[0].output_shape@,
        decreases n - i,
    {
        if !same_shape(&ops[i - 1].output_shape, &ops[i].output_shape) {
            assert(i - 1 >= 1 ==> ops@[i - 1].output_shape@ == ops@[0].output_shape@);
            assert(ops@[i as int].output_shape@ != ops@[0].output_shape@);
            return false;
        }
        assert(i - 1 >= 1 ==> ops@[i - 1].output_shape@ == ops@[0].output_shape@);
        i += 1;
    }
    true
}

/// Classification that also looks at the shapes: it tells an optimizer step from a backward
/// chain where the operation types fit both.
pub fn classify_pattern_with_shapes(ops: &[FusionOp]) -> (r: Option<FusionPattern>)
    ensures
        r == pattern_by_shapes(ops@),
{
    match classify(ops) {
        Some(FusionPattern::OptimizerStepFusion) => {
            if !has_one_output_shape(ops) {
                Some(FusionPattern::OptimizerStepFusion)
            } else if ops.len() >= 4 {
                Some(FusionPattern::OptimizerStepFusion)
            } else {
                Some(FusionPattern::BackwardPassChain)
            }
        },
        Some(FusionPattern::BackwardPassChain) => {
            if !has_one_output_shape(ops) {
                Some(FusionPattern::BackwardPassChain)
            } else if ops.len() >= 4 {
                Some(FusionPattern::OptimizerStepFusion)
            } else {
                Some(FusionPattern::BackwardPassChain)
            }
        },
        p => p,
    }
}

/// Fewer than two operations form no pattern, and no sequence is taken for a horizontal group:
/// those are found by `detect_horizontal_fusion` alone.
pub proof fn pattern_takes_two(ops: Seq<FusionOp>)
    ensures
        pattern_of(ops) is Some ==> ops.len() >= 2,
        pattern_of(ops) != Some(FusionPattern::HorizontalElementwise),
{
}

/// Looking at the shapes neither finds a pattern where the types show none nor loses one.
pub proof fn shapes_keep_recognition(ops: Seq<FusionOp>)
    ensures
        pattern_by_shapes(ops) is Some <==> pattern_of(ops) is Some,
{
}

/// Looking at the shapes changes nothing but which of an optimizer step and a backward chain the
/// operations are: where all outputs have one shape, four operations or more are a step and fewer
/// are a chain; where they do not, the types decide.
pub proof fn shapes_tell_steps_from_chains(ops: Seq<FusionOp>)
    ensures
        ({
            let c = pattern_of(ops);
            let either = c == Some(FusionPattern::OptimizerStepFusion) || c == Some(
                FusionPattern::BackwardPassChain,
            );
            let same = forall|i: int, j: int|
                0 <= i < ops.len() && 0 <= j < ops.len() ==> (#[trigger] ops[i]).output_shape@ == (
                #[trigger] ops[j]).output_shape@;
            &&& !either ==> pattern_by_shapes(ops) == c
            &&& either && !same ==> pattern_by_shapes(ops) == c
            &&& either && same && ops.len() >= 4 ==> pattern_by_shapes(ops) == Some(
                FusionPattern::OptimizerStepFusion,
            )
            &&& either && same && ops.len() < 4 ==> pattern_by_shapes(ops) == Some(
                FusionPattern::BackwardPassChain,
            )
        }),
{
    if one_output_shape(ops) {
        assert forall|i: int, j: int| 0 <= i < ops.len() && 0 <= j < ops.len() implies (
        #[trigger] ops[i]).output_shape@ == (#[trigger] ops[j]).output_shape@ by {
            assert(i >= 1 ==> ops[i].output_shape@ == ops[0].output_shape@);
            assert(j >= 1 ==> ops[j].output_shape@ == ops[0].output_shape@);
        }
    } else {
        let i = choose|i: int|
            1 <= i < ops.len() && (#[trigger] ops[i]).output_shape@ != ops[0].output_shape@;
        let first = ops[0];
    }
}

/// Element-wise operations, two or more, always form some pattern.
pub proof fn elementwise_always_recognised(ops: Seq<FusionOp>)
    requires
        is_elementwise_chain(ops),
    ensures
        pattern_of(ops) is Some,
{
    assert forall|i: int| 0 <= i < ops.len() implies !#[trigger] op_at(
        ops,
        i,
        OpClass::Only(OpType::Custom),
    ) by {
        assert(op_at(ops, i, OpClass::Elementwise));
    }
}

/// An operation of unknown meaning keeps every window that holds it from forming a pattern.
pub proof fn custom_op_bars_fusion(ops: Seq<FusionOp>, i: int)
    requires
        0 <= i < ops.len(),
        ops[i].op_type == OpType::Custom,
    ensures
        pattern_of(ops) is None,
        pattern_by_shapes(ops) is None,
{
    assert(op_at(ops, i, OpClass::Only(OpType::Custom)));
}

} // verus!
