//! Which operations form which pattern, said of the operations themselves.

use vstd::prelude::*;
use super::classify::OpClass;
use super::op::{FusionOp, OpType};
use super::pattern::FusionPattern;

verus! {

/// A matrix product, batched or not.
pub open spec fn product(t: OpType) -> bool {
    t == OpType::MatMul || t == OpType::BatchMatMul
}

/// One of the five activation functions.
pub open spec fn activation(t: OpType) -> bool {
    t == OpType::ReLU || t == OpType::GELU || t == OpType::Sigmoid || t == OpType::Tanh || t
        == OpType::SiLU
}

/// One of the two normalizations.
pub open spec fn normalization(t: OpType) -> bool {
    t == OpType::LayerNorm || t == OpType::RMSNorm
}

/// One of the three collectives.
pub open spec fn collective(t: OpType) -> bool {
    t == OpType::AllReduce || t == OpType::AllGather || t == OpType::ReduceScatter
}

/// An operation that treats each element by itself.
pub open spec fn per_element(t: OpType) -> bool {
    t == OpType::Add || t == OpType::Mul || t == OpType::Sub || t == OpType::Div || activation(t)
        || t == OpType::Exp || t == OpType::Sqrt || t == OpType::Reciprocal || t == OpType::Neg
        || t == OpType::Abs
}

/// The type of the operation at a place.
pub open spec fn kind(ops: Seq<FusionOp>, i: int) -> OpType {
    ops[i].op_type
}

proof fn lemma_any(ops: Seq<FusionOp>, lo: int, hi: int, c: OpClass)
    ensures
        super::classify::any_op(ops, lo, hi, c) <==> exists|i: int|
            lo <= i < hi && c.admits(#[trigger] kind(ops, i)),
        super::classify::all_ops(ops, lo, hi, c) <==> forall|i: int|
            lo <= i < hi ==> c.admits(#[trigger] kind(ops, i)),
{
    assert forall|i: int| c.admits(#[trigger] kind(ops, i)) == super::classify::op_at(
        ops,
        i,
        c,
    ) by {}
    assert forall|i: int| c.admits(kind(ops, i)) == #[trigger] super::classify::op_at(
        ops,
        i,
        c,
    ) by {}
}

/// A normalization and an addition at the front form one pattern in either order, alone and with
/// one or two activations behind them.
pub proof fn norm_and_sum_fuse_in_either_order(a: FusionOp, b: FusionOp, tail: Seq<FusionOp>)
    requires
        normalization(a.op_type),
        b.op_type == OpType::Add,
        tail.len() <= 2,
        forall|i: int| 0 <= i < tail.len() ==> activation((#[trigger] tail[i]).op_type),
    ensures
        super::classify::pattern_of(seq![a, b] + tail) == Some(
            FusionPattern::NormResidualActivation,
        ),
        super::classify::pattern_of(seq![b, a] + tail) == Some(
            FusionPattern::NormResidualActivation,
        ),
        super::classify::pattern_of(seq![a, b]) == super::classify::pattern_of(seq![b, a]),
        super::classify::pattern_of(seq![a, b]) == Some(FusionPattern::NormResidualActivation),
{
    norm_residual_exactly(seq![a, b] + tail);
    norm_residual_exactly(seq![b, a] + tail);
    norm_residual_exactly(seq![a, b]);
    norm_residual_exactly(seq![b, a]);
    let x = seq![a, b] + tail;
    let y = seq![b, a] + tail;
    assert forall|i: int| 2 <= i < x.len() implies activation(#[trigger] kind(x, i)) by {
        assert(x[i] == tail[i - 2]);
    }
    assert forall|i: int| 2 <= i < y.len() implies activation(#[trigger] kind(y, i)) by {
        assert(y[i] == tail[i - 2]);
    }
}

/// Operations form a normalization with a residual exactly if there are two to four of them, the
/// first two are a normalization and an addition, whichever comes first, and the others are
/// activations.
pub proof fn norm_residual_exactly(ops: Seq<FusionOp>)
    ensures
        super::classify::pattern_of(ops) == Some(FusionPattern::NormResidualActivation) <==> {
            &&& 2 <= ops.len() <= 4
            &&& (normalization(kind(ops, 0)) && kind(ops, 1) == OpType::Add) || (kind(ops, 0)
                == OpType::Add && normalization(kind(ops, 1)))
            &&& forall|i: int| 2 <= i < ops.len() ==> activation(#[trigger] kind(ops, i))
        },
{
    let n = ops.len() as int;
    lemma_any(ops, 2, n, OpClass::Activation);
    lemma_any(ops, 0, n, OpClass::Only(OpType::Custom));
    assert forall|t: OpType| #[trigger] OpClass::Activation.admits(t) == activation(t) by {}
    assert forall|t: OpType| #[trigger] OpClass::Normalization.admits(t) == normalization(t) by {}
    assert(super::classify::op_at(ops, 0, OpClass::Normalization) == normalization(kind(ops, 0)));
    assert(super::classify::op_at(ops, 1, OpClass::Normalization) == normalization(kind(ops, 1)));
    if super::classify::any_op(ops, 0, n, OpClass::Only(OpType::Custom)) {
        let i = choose|i: int|
            0 <= i < n && OpClass::Only(OpType::Custom).admits(#[trigger] kind(ops, i));
        assert(kind(ops, i) == OpType::Custom);
    }
}

/// Operations form an attention block exactly if there are three to six of them, the first and the
/// last are matrix products, those between are softmaxes and scalings, and one of those is a
/// softmax.
pub proof fn attention_exactly(ops: Seq<FusionOp>)
    ensures
        super::classify::pattern_of(ops) == Some(FusionPattern::AttentionBlock) <==> {
            &&& 3 <= ops.len() <= 6
            &&& product(kind(ops, 0))
            &&& product(kind(ops, ops.len() - 1))
            &&& forall|i: int|
                0 < i < ops.len() - 1 ==> {
                    let t = #[trigger] kind(ops, i);
                    t == OpType::Softmax || t == OpType::LogSoftmax || t == OpType::Mul || t
                        == OpType::Div
                }
            &&& exists|i: int|
                0 < i < ops.len() - 1 && {
                    let t = #[trigger] kind(ops, i);
                    t == OpType::Softmax || t == OpType::LogSoftmax
                }
        },
{
    let n = ops.len() as int;
    lemma_any(ops, 1, n - 1, OpClass::AnySoftmax);
    lemma_any(ops, 1, n - 1, OpClass::AttentionMiddle);
    lemma_any(ops, 0, n, OpClass::Only(OpType::Custom));
    assert(super::classify::op_at(ops, 0, OpClass::MatrixProduct) == product(kind(ops, 0)));
    assert(super::classify::op_at(ops, n - 1, OpClass::MatrixProduct) == product(
        kind(ops, n - 1),
    ));
    if super::classify::any_op(ops, 0, n, OpClass::Only(OpType::Custom)) {
        let i = choose|i: int|
            0 <= i < n && OpClass::Only(OpType::Custom).admits(#[trigger] kind(ops, i));
        assert(kind(ops, i) == OpType::Custom);
    }
}

/// Operations form a product with bias and activation exactly if a matrix product is followed by
/// an addition, by an activation, by an activation behind either of these, or by a
/// multiplication, an addition and an activation.
pub proof fn product_with_activation_exactly(ops: Seq<FusionOp>)
    ensures
        super::classify::pattern_of(ops) == Some(FusionPattern::MatMulBiasReLU) <==> {
            let t = |i: int| kind(ops, i);
            product(t(0)) && ((ops.len() == 2 && (t(1) == OpType::Add || activation(t(1)))) || (
            ops.len() == 3 && (t(1) == OpType::Add || activation(t(1))) && activation(t(2))) || (
            ops.len() == 4 && t(1) == OpType::Mul && t(2) == OpType::Add && activation(t(3))))
        },
{
    let n = ops.len() as int;
    lemma_any(ops, 0, n, OpClass::Only(OpType::Custom));
    assert(super::classify::op_at(ops, 0, OpClass::MatrixProduct) == product(kind(ops, 0)));
    assert(super::classify::op_at(ops, n - 1, OpClass::MatrixProduct) == product(
        kind(ops, n - 1),
    ));
    assert forall|i: int| #[trigger]
        super::classify::op_at(ops, i, OpClass::Activation) == activation(kind(ops, i)) by {}
    if super::classify::any_op(ops, 0, n, OpClass::Only(OpType::Custom)) {
        let i = choose|i: int|
            0 <= i < n && OpClass::Only(OpType::Custom).admits(#[trigger] kind(ops, i));
        assert(kind(ops, i) == OpType::Custom);
    }
}

/// Operations form an optimizer step exactly if there are three to six of them, all additions,
/// multiplications and subtractions, with at least one addition and one multiplication.
pub proof fn optimizer_step_exactly(ops: Seq<FusionOp>)
    ensures
        super::classify::pattern_of(ops) == Some(FusionPattern::OptimizerStepFusion) <==> {
            &&& 3 <= ops.len() <= 6
            &&& forall|i: int|
                0 <= i < ops.len() ==> {
                    let t = #[trigger] kind(ops, i);
                    t == OpType::Add || t == OpType::Mul || t == OpType::Sub
                }
            &&& exists|i: int| 0 <= i < ops.len() && #[trigger] kind(ops, i) == OpType::Add
            &&& exists|i: int| 0 <= i < ops.len() && #[trigger] kind(ops, i) == OpType::Mul
        },
{
    let n = ops.len() as int;
    lemma_any(ops, 0, n, OpClass::Arithmetic);
    lemma_any(ops, 0, n, OpClass::Only(OpType::Add));
    lemma_any(ops, 0, n, OpClass::Only(OpType::Mul));
    lemma_any(ops, 0, n, OpClass::Only(OpType::Custom));
    let first = kind(ops, 0);
    let second = kind(ops, 1);
    if super::classify::any_op(ops, 0, n, OpClass::Only(OpType::Custom)) {
        let i = choose|i: int|
            0 <= i < n && OpClass::Only(OpType::Custom).admits(#[trigger] kind(ops, i));
        assert(kind(ops, i) == OpType::Custom);
    }
}

/// Operations form a backward chain exactly if there are three or more of them, all additions and
/// multiplications with outputs of one rank, and they are not three to six with both kinds, which
/// are an optimizer step.
pub proof fn backward_chain_exactly(ops: Seq<FusionOp>)
    ensures
        super::classify::pattern_of(ops) == Some(FusionPattern::BackwardPassChain) <==> {
            &&& 3 <= ops.len()
            &&& forall|i: int|
                0 <= i < ops.len() ==> {
                    let t = #[trigger] kind(ops, i);
                    t == OpType::Add || t == OpType::Mul
                }
            &&& forall|i: int, j: int|
                0 <= i < ops.len() && 0 <= j < ops.len() ==> (#[trigger] ops[i]).output_shape@.len()
                    == (#[trigger] ops[j]).output_shape@.len()
            &&& !(ops.len() <= 6 && (exists|i: int|
                0 <= i < ops.len() && #[trigger] kind(ops, i) == OpType::Add) && (exists|i: int|
                0 <= i < ops.len() && #[trigger] kind(ops, i) == OpType::Mul))
        },
{
    let n = ops.len() as int;
    optimizer_step_exactly(ops);
    lemma_any(ops, 0, n, OpClass::Gradient);
    lemma_any(ops, 0, n, OpClass::Arithmetic);
    lemma_any(ops, 0, n, OpClass::Only(OpType::Add));
    lemma_any(ops, 0, n, OpClass::Only(OpType::Mul));
    lemma_any(ops, 0, n, OpClass::Only(OpType::Custom));
    let first = kind(ops, 0);
    let second = kind(ops, 1);
    let head = ops[0];
    if super::classify::any_op(ops, 0, n, OpClass::Only(OpType::Custom)) {
        let i = choose|i: int|
            0 <= i < n && OpClass::Only(OpType::Custom).admits(#[trigger] kind(ops, i));
        assert(kind(ops, i) == OpType::Custom);
    }
    if super::classify::is_backward_chain(ops) {
        assert forall|i: int, j: int| 0 <= i < ops.len() && 0 <= j < ops.len() implies (
        #[trigger] ops[i]).output_shape@.len() == (#[trigger] ops[j]).output_shape@.len() by {
            assert(ops[i].output_shape@.len() == ops[0].output_shape@.len());
        }
    }
}

/// Two operations overlap communication with computation exactly if one of them, whichever comes
/// first, is a collective and the other is neither a collective nor of unknown meaning.
pub proof fn overlap_exactly(ops: Seq<FusionOp>)
    ensures
        super::classify::pattern_of(ops) == Some(FusionPattern::CommunicationComputeOverlap) <==> {
            &&& ops.len() == 2
            &&& collective(kind(ops, 0)) != collective(kind(ops, 1))
            &&& kind(ops, 0) != OpType::Custom
            &&& kind(ops, 1) != OpType::Custom
        },
{
    let n = ops.len() as int;
    lemma_any(ops, 0, 2, OpClass::Communication);
    lemma_any(ops, 0, 2, OpClass::Compute);
    lemma_any(ops, 0, n, OpClass::Only(OpType::Custom));
    assert forall|t: OpType| #[trigger] OpClass::Communication.admits(t) == collective(t) by {}
    assert forall|t: OpType| #[trigger] OpClass::Compute.admits(t) == !collective(t) by {}
    let first = kind(ops, 0);
    let second = kind(ops, 1);
    if n == 2 && collective(first) != collective(second) {
        assert(!super::classify::is_matmul_bias_activation(ops));
        assert(!super::classify::is_norm_residual(ops));
    }
    if super::classify::any_op(ops, 0, n, OpClass::Only(OpType::Custom)) {
        let i = choose|i: int|
            0 <= i < n && OpClass::Only(OpType::Custom).admits(#[trigger] kind(ops, i));
        assert(kind(ops, i) == OpType::Custom);
    }
}

/// Operations form a fused reduction exactly if the first of two or more is a reduction and all
/// others are broadcasts or treat each element by itself.
pub proof fn reduction_exactly(ops: Seq<FusionOp>)
    ensures
        super::classify::pattern_of(ops) == Some(FusionPattern::ReductionFusion) <==> {
            &&& 2 <= ops.len()
            &&& kind(ops, 0) == OpType::Reduce
            &&& forall|i: int|
                0 < i < ops.len() ==> per_element(#[trigger] kind(ops, i)) || kind(ops, i)
                    == OpType::Broadcast
        },
{
    let n = ops.len() as int;
    lemma_any(ops, 1, n, OpClass::ReductionTail);
    lemma_any(ops, 0, n, OpClass::Arithmetic);
    lemma_any(ops, 0, n, OpClass::Gradient);
    lemma_any(ops, 0, 2, OpClass::Communication);
    lemma_any(ops, 0, n, OpClass::Only(OpType::Custom));
    assert forall|t: OpType| #[trigger]
        OpClass::ReductionTail.admits(t) == (per_element(t) || t == OpType::Broadcast) by {}
    assert forall|t: OpType| #[trigger] OpClass::Communication.admits(t) == collective(t) by {}
    let first = kind(ops, 0);
    let second = kind(ops, 1);
    if super::classify::any_op(ops, 0, n, OpClass::Only(OpType::Custom)) {
        let i = choose|i: int|
            0 <= i < n && OpClass::Only(OpType::Custom).admits(#[trigger] kind(ops, i));
        assert(kind(ops, i) == OpType::Custom);
    }
    if super::classify::any_op(ops, 0, 2, OpClass::Communication) {
        let i = choose|i: int|
            0 <= i < 2 && OpClass::Communication.admits(#[trigger] kind(ops, i));
        assert(collective(kind(ops, i)));
    }
}

/// A block of two or more known operations, followed by a copy of itself, always forms some
/// pattern; a copy has the same operations in the same order with outputs of the same ranks.
pub proof fn repeated_block_is_recognised(block: Seq<FusionOp>, copy: Seq<FusionOp>)
    requires
        2 <= block.len(),
        copy.len() == block.len(),
        forall|i: int|
            0 <= i < block.len() ==> (#[trigger] block[i]).op_type == copy[i].op_type
                && block[i].output_shape@.len() == copy[i].output_shape@.len() && block[i].op_type
                != OpType::Custom,
    ensures
        super::classify::pattern_of(block + copy) is Some,
{
    let ops = block + copy;
    let p = block.len() as int;
    let n = ops.len() as int;
    assert(n == 2 * p);
    assert(n % p == 0) by (nonlinear_arith)
        requires
            n == 2 * p,
            p > 0,
    ;
    assert forall|i: int| p <= i < n implies super::classify::alike(
        ops[i % p],
        #[trigger] ops[i],
    ) by {
        assert(i % p == i - p) by (nonlinear_arith)
            requires
                p <= i < 2 * p,
        ;
        assert(ops[i] == copy[i - p] && ops[i - p] == block[i - p]);
    }
    assert(super::classify::repeats(ops, p));
    lemma_any(ops, 0, n, OpClass::Only(OpType::Custom));
    if super::classify::any_op(ops, 0, n, OpClass::Only(OpType::Custom)) {
        let i = choose|i: int|
            0 <= i < n && OpClass::Only(OpType::Custom).admits(#[trigger] kind(ops, i));
        assert(kind(ops, i) == OpType::Custom);
        if i < p {
            assert(ops[i] == block[i]);
        } else {
            assert(ops[i] == copy[i - p] && block[i - p].op_type == copy[i - p].op_type);
        }
    }
}

/// What is taken for a persistent kernel consists of copies of a block: moved on by the length of
/// the block, which is at least two and at most half of all, every operation meets its like.
pub proof fn persistent_kernel_is_periodic(ops: Seq<FusionOp>)
    requires
        super::classify::pattern_of(ops) == Some(FusionPattern::PersistentKernel),
    ensures
        exists|p: int|
            #![trigger super::classify::repeats(ops, p)]
            2 <= p && 2 * p <= ops.len() && ops.len() as int % p == 0 && forall|i: int, j: int|
                0 <= i < ops.len() && 0 <= j < ops.len() && i % p == j % p ==> (
                #[trigger] ops[i]).op_type == (#[trigger] ops[j]).op_type
                    && ops[i].output_shape@.len() == ops[j].output_shape@.len(),
{
    let p = choose|p: int|
        2 <= p <= ops.len() as int / 2 && #[trigger] super::classify::repeats(ops, p);
    assert forall|i: int, j: int|
        0 <= i < ops.len() && 0 <= j < ops.len() && i % p == j % p implies (
    #[trigger] ops[i]).op_type == (#[trigger] ops[j]).op_type && ops[i].output_shape@.len()
        == ops[j].output_shape@.len() by {
        lemma_like_its_base(ops, p, i);
        lemma_like_its_base(ops, p, j);
    }
}

proof fn lemma_like_its_base(ops: Seq<FusionOp>, p: int, i: int)
    requires
        2 <= p,
        super::classify::repeats(ops, p),
        0 <= i < ops.len(),
    ensures
        ops[i].op_type == ops[i % p].op_type,
        ops[i].output_shape@.len() == ops[i % p].output_shape@.len(),
{
    if i < p {
        assert(i % p == i) by (nonlinear_arith)
            requires
                0 <= i < p,
        ;
    } else {
        assert(super::classify::alike(ops[i % p], ops[i]));
    }
}

/// Operations form a chain of element-wise operations exactly if there are two or more, all of
/// which treat each element by itself, and they form none of the patterns that are tried before.
pub proof fn elementwise_chain_exactly(ops: Seq<FusionOp>)
    ensures
        super::classify::pattern_of(ops) == Some(FusionPattern::ElementwiseChain) <==> {
            &&& 2 <= ops.len()
            &&& forall|i: int| 0 <= i < ops.len() ==> per_element(#[trigger] kind(ops, i))
            &&& super::classify::pattern_of(ops) != Some(FusionPattern::OptimizerStepFusion)
            &&& super::classify::pattern_of(ops) != Some(FusionPattern::BackwardPassChain)
            &&& super::classify::pattern_of(ops) != Some(FusionPattern::PersistentKernel)
        },
{
    let n = ops.len() as int;
    attention_exactly(ops);
    product_with_activation_exactly(ops);
    norm_residual_exactly(ops);
    overlap_exactly(ops);
    reduction_exactly(ops);
    lemma_any(ops, 0, n, OpClass::Elementwise);
    lemma_any(ops, 0, n, OpClass::Only(OpType::Custom));
    assert forall|t: OpType| #[trigger] OpClass::Elementwise.admits(t) == per_element(t) by {}
    let first = kind(ops, 0);
    let second = kind(ops, 1);
    if super::classify::any_op(ops, 0, n, OpClass::Only(OpType::Custom)) {
        let i = choose|i: int|
            0 <= i < n && OpClass::Only(OpType::Custom).admits(#[trigger] kind(ops, i));
        assert(kind(ops, i) == OpType::Custom);
    }
}

/// What pattern operations form depends on nothing but their types and the ranks of their
/// outputs.
pub proof fn pattern_depends_on_types_and_ranks(a: Seq<FusionOp>, b: Seq<FusionOp>)
    requires
        a.len() == b.len(),
        forall|i: int|
            0 <= i < a.len() ==> (#[trigger] a[i]).op_type == (#[trigger] b[i]).op_type
                && a[i].output_shape@.len() == b[i].output_shape@.len(),
    ensures
        super::classify::pattern_of(a) == super::classify::pattern_of(b),
{
    lemma_pattern_carries(a, b);
    lemma_pattern_carries(b, a);
}

proof fn lemma_pattern_carries(a: Seq<FusionOp>, b: Seq<FusionOp>)
    requires
        a.len() == b.len(),
        forall|i: int|
            0 <= i < a.len() ==> (#[trigger] a[i]).op_type == (#[trigger] b[i]).op_type
                && a[i].output_shape@.len() == b[i].output_shape@.len(),
    ensures
        super::classify::is_attention_block(a) ==> super::classify::is_attention_block(b),
        super::classify::is_matmul_bias_activation(a)
            ==> super::classify::is_matmul_bias_activation(b),
        super::classify::is_norm_residual(a) ==> super::classify::is_norm_residual(b),
        super::classify::is_optimizer_step(a) ==> super::classify::is_optimizer_step(b),
        super::classify::is_backward_chain(a) ==> super::classify::is_backward_chain(b),
        super::classify::is_comm_compute_overlap(a) ==> super::classify::is_comm_compute_overlap(b),
        super::classify::is_reduction_fusion(a) ==> super::classify::is_reduction_fusion(b),
        super::classify::is_persistent_kernel(a) ==> super::classify::is_persistent_kernel(b),
        super::classify::is_elementwise_chain(a) ==> super::classify::is_elementwise_chain(b),
        super::classify::any_op(a, 0, a.len() as int, OpClass::Only(OpType::Custom))
            ==> super::classify::any_op(b, 0, b.len() as int, OpClass::Only(OpType::Custom)),
{
    let n = a.len() as int;
    assert forall|lo: int, hi: int, c: OpClass|
        0 <= lo && hi <= n && #[trigger] super::classify::any_op(
            a,
            lo,
            hi,
            c,
        ) implies super::classify::any_op(b, lo, hi, c) by {
        let i = choose|i: int| lo <= i < hi && #[trigger] super::classify::op_at(a, i, c);
        assert(a[i].op_type == b[i].op_type);
        assert(super::classify::op_at(b, i, c));
    }
    assert forall|lo: int, hi: int, c: OpClass|
        0 <= lo && hi <= n && #[trigger] super::classify::all_ops(
            a,
            lo,
            hi,
            c,
        ) implies super::classify::all_ops(b, lo, hi, c) by {
        assert forall|i: int| lo <= i < hi implies #[trigger] super::classify::op_at(b, i, c) by {
            assert(super::classify::op_at(a, i, c));
            assert(a[i].op_type == b[i].op_type);
        }
    }
    assert forall|i: int, c: OpClass|
        0 <= i < n && #[trigger] super::classify::op_at(a, i, c) implies super::classify::op_at(
        b,
        i,
        c,
    ) by {
        assert(a[i].op_type == b[i].op_type);
    }
    if super::classify::is_backward_chain(a) {
        assert forall|i: int| 0 <= i < n implies (#[trigger] b[i]).output_shape@.len()
            == b[0].output_shape@.len() by {
            assert(a[i].output_shape@.len() == a[0].output_shape@.len());
            assert(a[0].op_type == b[0].op_type);
        }
    }
    if super::classify::is_persistent_kernel(a) {
        let p = choose|p: int| 2 <= p <= n / 2 && #[trigger] super::classify::repeats(a, p);
        assert forall|i: int| p <= i < n implies super::classify::alike(
            b[i % p],
            #[trigger] b[i],
        ) by {
            assert(0 <= i % p < p) by (nonlinear_arith)
                requires
                    p >= 2,
            ;
            assert(super::classify::alike(a[i % p], a[i]));
            assert(a[i % p].op_type == b[i % p].op_type);
        }
        assert(super::classify::repeats(b, p));
    }
}

} // verus!
