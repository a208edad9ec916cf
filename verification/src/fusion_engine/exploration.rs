//! What an exploration looks at and finds.

use vstd::prelude::*;
use super::boundary::BoundaryView;
use super::explorer::explored_confidence_bits;
use super::expr::{BinaryOp, FusionExpr, Meaning, NormOp, UnaryOp};
use super::op::{FusionOp, OpType};
use super::pattern::FusionPattern;
use super::savings::compute_savings;

verus! {

/// The operation of one argument that an operation of the graph is written as, if it is one.
pub open spec fn as_unary(t: OpType) -> Option<UnaryOp> {
    match t {
        OpType::GELU => Some(UnaryOp::GELU),
        OpType::Sigmoid => Some(UnaryOp::Sigmoid),
        OpType::Tanh => Some(UnaryOp::Tanh),
        OpType::SiLU => Some(UnaryOp::SiLU),
        OpType::Exp => Some(UnaryOp::Exp),
        OpType::Abs => Some(UnaryOp::Abs),
        OpType::Sqrt => Some(UnaryOp::Sqrt),
        _ => None,
    }
}

/// The expression of a chain computes what its operations do, one after another: whatever the
/// operations before it give, an addition adds its operand to that, a multiplication multiplies
/// by its operand, a subtraction subtracts it, a negation changes the sign, a rectifier cuts off
/// below zero, and so on.
pub proof fn chain_computes_step_by_step(ops: Seq<FusionOp>, k: nat, m: Meaning)
    requires
        k < ops.len() <= usize::MAX,
    ensures
        ({
            let x = super::expr::value(super::explorer::chain_expr(ops, k), m);
            let y = super::expr::value(super::explorer::chain_expr(ops, (k + 1) as nat), m);
            let own = |name: Seq<char>| (m.operand)(name, k as int);
            let t = ops[k as int].op_type;
            let first = ops[0].op_type;
            let bias = if k == 1 && (first == OpType::MatMul || first == OpType::BatchMatMul) {
                (m.operand)("?bias"@, -1)
            } else {
                own("?bias"@)
            };
            &&& t == OpType::Add ==> y == x + bias
            &&& t == OpType::Mul ==> y == x * own("?scale"@)
            &&& t == OpType::Sub ==> y == x - own("?sub"@)
            &&& t == OpType::Div ==> y == (m.binary)(BinaryOp::Div, x, own("?div"@))
            &&& t == OpType::ReLU ==> y == if x < 0 {
                0
            } else {
                x
            }
            &&& t == OpType::Neg ==> y == -x
            &&& as_unary(t) is Some ==> y == (m.unary)(as_unary(t).unwrap(), x)
            &&& t == OpType::MatMul || t == OpType::BatchMatMul ==> y == (m.product)(
                x,
                if k == 0 {
                    (m.operand)("?b"@, -1)
                } else {
                    own("?weight"@)
                },
            )
            &&& t == OpType::Softmax ==> y == (m.binary)(
                BinaryOp::Div,
                (m.unary)(UnaryOp::Exp, x),
                own("?softmax_norm"@),
            )
            &&& t == OpType::LayerNorm ==> y == (m.norm)(
                NormOp::LayerNorm,
                x,
                own("?ln_scale"@),
                own("?ln_bias"@),
            )
            &&& t == OpType::RMSNorm ==> y == (m.norm)(
                NormOp::RMSNorm,
                x,
                own("?rn_scale"@),
                own("?rn_bias"@),
            )
            &&& t == OpType::Reduce ==> y == (m.binary)(BinaryOp::ReduceSum, x, own("?axis"@))
        }),
{
    reveal_with_fuel(super::expr::value, 4);
    let inner = super::explorer::chain_expr(ops, k);
    let outer = super::explorer::chain_expr(ops, (k + 1) as nat);
    assert(outer == super::explorer::applied(ops, inner, k as usize));
}

/// An empty chain is its input: the left factor where it begins with a matrix product.
pub proof fn chain_begins_with_its_input(ops: Seq<FusionOp>, m: Meaning)
    ensures
        ops.len() > 0 && (ops[0].op_type == OpType::MatMul || ops[0].op_type == OpType::BatchMatMul)
            ==> super::expr::value(super::explorer::chain_expr(ops, 0), m) == (m.operand)(
            "?a"@,
            -1,
        ),
        ops.len() == 0 || (ops[0].op_type != OpType::MatMul && ops[0].op_type
            != OpType::BatchMatMul) ==> super::expr::value(
            super::explorer::chain_expr(ops, 0),
            m,
        ) == (m.operand)("?input"@, -1),
{
}

/// An expression is written in round brackets with the name of its operation first and its
/// operands behind it in their order.
pub proof fn expressions_are_written_in_prefix_form(
    a: FusionExpr,
    b: FusionExpr,
    c: FusionExpr,
    i: usize,
)
    ensures
        FusionExpr::Operand("?a").written() == "?a"@,
        FusionExpr::Numbered("?scale", i).written() == "?scale"@ + crate::text::decimal(i as nat),
        FusionExpr::Unary(UnaryOp::ReLU, Box::new(a)).written() == "("@ + "relu"@ + " "@
            + a.written() + ")"@,
        FusionExpr::Unary(UnaryOp::Neg, Box::new(a)).written() == "("@ + "neg"@ + " "@ + a.written()
            + ")"@,
        FusionExpr::Unary(UnaryOp::Exp, Box::new(a)).written() == "("@ + "exp"@ + " "@ + a.written()
            + ")"@,
        FusionExpr::Binary(BinaryOp::Add, Box::new(a), Box::new(b)).written() == "("@ + "add"@
            + " "@ + a.written() + " "@ + b.written() + ")"@,
        FusionExpr::Binary(BinaryOp::Sub, Box::new(a), Box::new(b)).written() == "("@ + "sub"@
            + " "@ + a.written() + " "@ + b.written() + ")"@,
        FusionExpr::Binary(BinaryOp::Mul, Box::new(a), Box::new(b)).written() == "("@ + "mul"@
            + " "@ + a.written() + " "@ + b.written() + ")"@,
        FusionExpr::Binary(BinaryOp::Div, Box::new(a), Box::new(b)).written() == "("@ + "div"@
            + " "@ + a.written() + " "@ + b.written() + ")"@,
        FusionExpr::Binary(BinaryOp::MatMul, Box::new(a), Box::new(b)).written() == "("@
            + "matmul"@ + " "@ + a.written() + " "@ + b.written() + ")"@,
        FusionExpr::Binary(BinaryOp::ReduceSum, Box::new(a), Box::new(b)).written() == "("@
            + "reducesum"@ + " "@ + a.written() + " "@ + b.written() + ")"@,
        FusionExpr::Norm(NormOp::LayerNorm, Box::new(a), Box::new(b), Box::new(c)).written() == "("@
            + "layernorm"@ + " "@ + a.written() + " "@ + b.written() + " "@ + c.written() + ")"@,
        FusionExpr::Norm(NormOp::RMSNorm, Box::new(a), Box::new(b), Box::new(c)).written() == "("@
            + "rmsnorm"@ + " "@ + a.written() + " "@ + b.written() + " "@ + c.written() + ")"@,
{
    reveal_with_fuel(FusionExpr::written, 2);
}

/// Confidence of an exploration in a pattern is, but for rounding, its base in percent plus five
/// where the ranks agree.
pub proof fn explored_confidence_adds_up(p: FusionPattern, ranks: bool)
    ensures
        ({
            let base = match p {
                FusionPattern::MatMulBiasReLU => 75int,
                FusionPattern::AttentionBlock => 65,
                FusionPattern::NormResidualActivation => 70,
                FusionPattern::OptimizerStepFusion => 65,
                FusionPattern::BackwardPassChain => 60,
                FusionPattern::CommunicationComputeOverlap => 50,
                FusionPattern::PersistentKernel => 45,
                FusionPattern::ElementwiseChain => 80,
                FusionPattern::ReductionFusion => 65,
                FusionPattern::HorizontalElementwise => 55,
            };
            let percent = base + if ranks {
                5int
            } else {
                0
            };
            let b = explored_confidence_bits(p, ranks);
            let twice = if b >= 0x3fe0000000000000 {
                2 * super::estimates::units(b)
            } else {
                b - 0x3fd0000000000000 + 0x10000000000000
            };
            let off = 100 * twice - percent * 0x40000000000000;
            -400 <= off <= 400
        }),
{
}

/// A window that forms a pattern gives a boundary over exactly its places with that pattern, the
/// savings of the pattern unless they are negative, and its factor.
pub proof fn explored_boundary_of_a_window(ops: Seq<FusionOp>, start: int, size: int, i: int)
    requires
        0 <= start,
        0 <= i < size,
        start + size <= ops.len() <= usize::MAX,
    ensures
        ({
            let w = ops.subrange(start, start + size);
            match super::explorer::explored_boundary(ops, start, size) {
                Some(b) => {
                    &&& super::classify::pattern_of(w) == Some(b.pattern)
                    &&& b.indices.len() == size
                    &&& b.indices[i] == start + i
                    &&& super::savings::traffic_saved(b.pattern, w) >= 0 ==> b.savings
                        == super::savings::traffic_saved(b.pattern, w)
                    &&& super::savings::traffic_saved(b.pattern, w) < 0 ==> b.savings == 0
                    &&& b.factor == compute_savings(b.pattern)
                    &&& b.confidence == explored_confidence_bits(
                        b.pattern,
                        size >= 2 && super::savings::one_rank(w),
                    )
                },
                None => super::classify::pattern_of(w) is None,
            }
        }),
{
}

/// Whether one list begins with another.
spec fn begins_with(v: Seq<BoundaryView>, head: Seq<BoundaryView>) -> bool {
    head.len() <= v.len() && forall|i: int| 0 <= i < head.len() ==> #[trigger] v[i] == head[i]
}

proof fn lemma_held_stays(v: Seq<BoundaryView>, w: Seq<BoundaryView>, b: BoundaryView)
    requires
        begins_with(w, v),
        super::explorer::holds_fusion(v, b),
    ensures
        super::explorer::holds_fusion(w, b),
{
    let i = choose|i: int| 0 <= i < v.len() && super::boundary::same_fusion(#[trigger] v[i], b);
    assert(w[i] == v[i]);
    assert(super::boundary::same_fusion(w[i], b));
}

proof fn lemma_new_is_held(v: Seq<BoundaryView>, b: BoundaryView)
    ensures
        begins_with(super::explorer::with_new(v, Some(b)), v),
        super::explorer::holds_fusion(super::explorer::with_new(v, Some(b)), b),
{
    let w = super::explorer::with_new(v, Some(b));
    if !super::explorer::holds_fusion(v, b) {
        assert(super::boundary::same_fusion(w[v.len() as int], b));
    }
}

proof fn lemma_window_is_held(
    ops: Seq<FusionOp>,
    start: int,
    size: int,
    z: int,
    k: int,
)
    requires
        2 <= size <= z <= ops.len(),
        0 <= start,
        start + size <= ops.len(),
        size == z ==> start < k,
        k <= super::engine::window_count(ops, z),
        super::explorer::explored_boundary(ops, start, size) is Some,
    ensures
        super::explorer::holds_fusion(
            super::explorer::explored_windows(ops, z, k),
            super::explorer::explored_boundary(ops, start, size).unwrap(),
        ),
    decreases z, k,
{
    let wanted = super::explorer::explored_boundary(ops, start, size).unwrap();
    if k > 0 {
        let before = super::explorer::explored_windows(ops, z, k - 1);
        if size == z && start == k - 1 {
            lemma_new_is_held(before, wanted);
        } else {
            lemma_window_is_held(ops, start, size, z, k - 1);
            match super::explorer::explored_boundary(ops, k - 1, z) {
                Some(b) => {
                    lemma_new_is_held(before, b);
                    lemma_held_stays(before, super::explorer::explored_windows(ops, z, k), wanted);
                },
                None => {},
            }
        }
    } else {
        lemma_window_is_held(
            ops,
            start,
            size,
            z - 1,
            super::engine::window_count(ops, z - 1),
        );
    }
}

proof fn lemma_factorings_keep(ops: Seq<FusionOp>, found: Seq<BoundaryView>, k: int)
    ensures
        begins_with(super::explorer::explored_factorings(ops, found, k), found),
    decreases k,
{
    if k > 0 {
        lemma_factorings_keep(ops, found, k - 1);
    }
}

proof fn lemma_factoring_is_held(ops: Seq<FusionOp>, found: Seq<BoundaryView>, i: int, k: int)
    requires
        0 <= i < k,
        super::explorer::factorable(ops, i),
    ensures
        super::explorer::holds_indices(
            super::explorer::explored_factorings(ops, found, k),
            super::explorer::factored_boundary(ops, i),
        ),
    decreases k,
{
    let before = super::explorer::explored_factorings(ops, found, k - 1);
    let all = super::explorer::explored_factorings(ops, found, k);
    let b = super::explorer::factored_boundary(ops, i);
    if i < k - 1 {
        lemma_factoring_is_held(ops, found, i, k - 1);
        let j = choose|j: int| 0 <= j < before.len() && (#[trigger] before[j]).indices == b.indices;
        assert(all[j].indices == b.indices);
    } else if !super::explorer::holds_indices(before, b) {
        assert(all[before.len() as int].indices == b.indices);
    } else {
        let j = choose|j: int| 0 <= j < before.len() && (#[trigger] before[j]).indices == b.indices;
        assert(all[j].indices == b.indices);
    }
}

/// An exploration finds the fusion of every window of two to eight operations that forms a
/// pattern, and that of all operations together.
pub proof fn every_window_is_explored(ops: Seq<FusionOp>, start: int, size: int)
    requires
        0 <= start,
        2 <= size,
        size <= 8 || (start == 0 && size == ops.len()),
        start + size <= ops.len(),
        super::explorer::explored_boundary(ops, start, size) is Some,
    ensures
        super::explorer::holds_fusion(
            super::explorer::explored(ops),
            super::explorer::explored_boundary(ops, start, size).unwrap(),
        ),
{
    let wanted = super::explorer::explored_boundary(ops, start, size).unwrap();
    let largest = super::explorer::explored_largest(ops);
    let count = super::engine::window_count(ops, largest);
    let windows = super::explorer::explored_windows(ops, largest, count);
    if size <= largest {
        lemma_window_is_held(ops, start, size, largest, count);
    } else {
        lemma_whole_stays(ops, largest, count);
        assert(super::explorer::explored_whole(ops)[0] == wanted);
        assert(super::boundary::same_fusion(super::explorer::explored_whole(ops)[0], wanted));
        lemma_held_stays(super::explorer::explored_whole(ops), windows, wanted);
    }
    lemma_factorings_keep(ops, windows, ops.len() - 2);
    lemma_held_stays(windows, super::explorer::explored(ops), wanted);
}

proof fn lemma_whole_stays(ops: Seq<FusionOp>, z: int, k: int)
    ensures
        begins_with(
            super::explorer::explored_windows(ops, z, k),
            super::explorer::explored_whole(ops),
        ),
    decreases z, k,
{
    if k > 0 {
        lemma_whole_stays(ops, z, k - 1);
    } else if z > 2 {
        lemma_whole_stays(ops, z - 1, super::engine::window_count(ops, z - 1));
    }
}

/// Two matrix products in a row with left factors of one shape, and an addition behind them, are
/// found as one fusion of the three: `A * B + A * C` is `A * (B + C)`.
pub proof fn common_factors_are_found(ops: Seq<FusionOp>, i: int)
    requires
        0 <= i,
        i + 2 < ops.len() <= usize::MAX,
        ops[i].op_type == OpType::MatMul,
        ops[i + 1].op_type == OpType::MatMul,
        ops[i + 2].op_type == OpType::Add,
        ops[i].input_shapes@.len() > 0,
        ops[i + 1].input_shapes@.len() > 0,
        ops[i].input_shapes@[0]@ == ops[i + 1].input_shapes@[0]@,
    ensures
        exists|j: int|
            0 <= j < super::explorer::explored(ops).len() && (#[trigger] super::explorer::explored(
                ops,
            )[j]).indices == seq![i as usize, (i + 1) as usize, (i + 2) as usize],
{
    let largest = super::explorer::explored_largest(ops);
    let windows = super::explorer::explored_windows(
        ops,
        largest,
        super::engine::window_count(ops, largest),
    );
    lemma_factoring_is_held(ops, windows, i, ops.len() - 2);
    let b = super::explorer::factored_boundary(ops, i);
    assert(b.indices =~= seq![i as usize, (i + 1) as usize, (i + 2) as usize]);
    let all = super::explorer::explored(ops);
    let j = choose|j: int| 0 <= j < all.len() && (#[trigger] all[j]).indices == b.indices;
    assert(super::explorer::explored(ops)[j].indices == b.indices);
}

/// A factoring is a product over three operations in a row that saves what a product over them
/// saves, unless that is negative, with a factor of 1.2 and a confidence of 0.6.
pub proof fn factoring_is_a_product(ops: Seq<FusionOp>, i: int)
    requires
        0 <= i,
        i + 2 < ops.len() <= usize::MAX,
    ensures
        ({
            let b = super::explorer::factored_boundary(ops, i);
            let saved = super::savings::traffic_saved(
                FusionPattern::MatMulBiasReLU,
                ops.subrange(i, i + 3),
            );
            &&& b.indices == seq![i as usize, (i + 1) as usize, (i + 2) as usize]
            &&& b.pattern == FusionPattern::MatMulBiasReLU
            &&& saved >= 0 ==> b.savings == saved
            &&& saved < 0 ==> b.savings == 0
            &&& b.factor == 0x3ff3333333333333
            &&& b.confidence == 0x3fe3333333333333
        }),
{
    let b = super::explorer::factored_boundary(ops, i);
    assert(b.indices =~= seq![i as usize, (i + 1) as usize, (i + 2) as usize]);
}

/// Merging loses no fusion: what was in the first list stays in front in its order, and every
/// fusion of the second is in the result.
pub proof fn merging_loses_nothing(
    v: Seq<BoundaryView>,
    more: Seq<BoundaryView>,
    k: nat,
    i: int,
)
    requires
        k <= more.len(),
    ensures
        0 <= i < v.len() ==> i < super::explorer::merged(v, more, k).len()
            && super::explorer::merged(v, more, k)[i] == v[i],
        0 <= i < k ==> super::explorer::holds_fusion(super::explorer::merged(v, more, k), more[i]),
    decreases k,
{
    if k > 0 {
        merging_loses_nothing(v, more, (k - 1) as nat, i);
        let before = super::explorer::merged(v, more, (k - 1) as nat);
        lemma_new_is_held(before, more[k - 1]);
        if 0 <= i < k - 1 {
            lemma_held_stays(before, super::explorer::merged(v, more, k), more[i]);
        }
    }
}

} // verus!
