//! Exploration of rewritten forms of a computation.

use vstd::prelude::*;
use vstd::slice::slice_subrange;
use crate::ieee::{SIX_FIFTHS, SIX_TENTHS};
use super::boundary;
use super::boundary::{BoundaryView, FusionBoundary, FusionDecision};
use super::classify;
use super::classify::{classify, same_shape, OpClass};
use super::engine;
use super::engine::FusionEngine;
use super::expr::{rewrite_rules, BinaryOp, FusionExpr, NormOp, RewriteRule, UnaryOp};
use super::ilp;
use super::ilp::ilp_select_boundaries;
use super::op::{FusionOp, OpType};
use super::pattern::FusionPattern;
use super::ranking;
use super::savings;
use super::savings::{compute_savings, memory_savings, ranks_agree};

verus! {

/// Finds fusions in the forms that a computation can be rewritten to.
#[derive(Debug, Clone, Copy)]
pub struct EgraphFusionExplorer {
    /// Number of nodes at which rewriting stops.
    node_limit: usize,
    /// Number of rounds after which rewriting stops.
    iteration_limit: usize,
}

/// Whether a chain begins with a matrix product.
pub open spec fn starts_with_product(ops: Seq<FusionOp>) -> bool {
    ops.len() > 0 && classify::op_at(ops, 0, OpClass::MatrixProduct)
}

/// What a chain is applied to: the left factor where it begins with a matrix product.
pub open spec fn chain_input(ops: Seq<FusionOp>) -> FusionExpr {
    if starts_with_product(ops) {
        FusionExpr::Operand("?a")
    } else {
        FusionExpr::Operand("?input")
    }
}

/// What the addition at place `i` adds. Right behind a product at the front it is the bias.
pub open spec fn addend(ops: Seq<FusionOp>, i: usize) -> FusionExpr {
    if i == 1 && starts_with_product(ops) {
        FusionExpr::Operand("?bias")
    } else {
        FusionExpr::Numbered("?bias", i)
    }
}

/// The right factor of the matrix product at place `i`.
pub open spec fn right_factor(i: usize) -> FusionExpr {
    if i == 0 {
        FusionExpr::Operand("?b")
    } else {
        FusionExpr::Numbered("?weight", i)
    }
}

/// The expression of the operation at place `i` applied to `inner`. Operations without a symbol
/// of their own are written as the addition of a placeholder.
pub open spec fn applied(ops: Seq<FusionOp>, inner: FusionExpr, i: usize) -> FusionExpr {
    let a = Box::new(inner);
    match ops[i as int].op_type {
        OpType::Add => FusionExpr::Binary(
            BinaryOp::Add,
            a,
            Box::new(addend(ops, i)),
        ),
        OpType::Mul => FusionExpr::Binary(
            BinaryOp::Mul,
            a,
            Box::new(FusionExpr::Numbered("?scale", i)),
        ),
        OpType::Sub => FusionExpr::Binary(
            BinaryOp::Sub,
            a,
            Box::new(FusionExpr::Numbered("?sub", i)),
        ),
        OpType::Div => FusionExpr::Binary(
            BinaryOp::Div,
            a,
            Box::new(FusionExpr::Numbered("?div", i)),
        ),
        OpType::MatMul | OpType::BatchMatMul => FusionExpr::Binary(
            BinaryOp::MatMul,
            a,
            Box::new(right_factor(i)),
        ),
        OpType::ReLU => FusionExpr::Unary(UnaryOp::ReLU, a),
        OpType::GELU => FusionExpr::Unary(UnaryOp::GELU, a),
        OpType::Sigmoid => FusionExpr::Unary(UnaryOp::Sigmoid, a),
        OpType::Tanh => FusionExpr::Unary(UnaryOp::Tanh, a),
        OpType::SiLU => FusionExpr::Unary(UnaryOp::SiLU, a),
        OpType::Neg => FusionExpr::Unary(UnaryOp::Neg, a),
        OpType::Exp => FusionExpr::Unary(UnaryOp::Exp, a),
        OpType::Abs => FusionExpr::Unary(UnaryOp::Abs, a),
        OpType::Sqrt => FusionExpr::Unary(UnaryOp::Sqrt, a),
        OpType::Softmax => FusionExpr::Binary(
            BinaryOp::Div,
            Box::new(FusionExpr::Unary(UnaryOp::Exp, a)),
            Box::new(FusionExpr::Numbered("?softmax_norm", i)),
        ),
        OpType::LayerNorm => FusionExpr::Norm(
            NormOp::LayerNorm,
            a,
            Box::new(FusionExpr::Numbered("?ln_scale", i)),
            Box::new(FusionExpr::Numbered("?ln_bias", i)),
        ),
        OpType::RMSNorm => FusionExpr::Norm(
            NormOp::RMSNorm,
            a,
            Box::new(FusionExpr::Numbered("?rn_scale", i)),
            Box::new(FusionExpr::Numbered("?rn_bias", i)),
        ),
        OpType::Reduce => FusionExpr::Binary(
            BinaryOp::ReduceSum,
            a,
            Box::new(FusionExpr::Numbered("?axis", i)),
        ),
        _ => FusionExpr::Binary(BinaryOp::Add, a, Box::new(FusionExpr::Numbered("?extra", i))),
    }
}

/// The expression of the first `k` operations, each applied to the result of the one before it.
pub open spec fn chain_expr(ops: Seq<FusionOp>, k: nat) -> FusionExpr
    decreases k,
{
    if k == 0 {
        chain_input(ops)
    } else {
        applied(ops, chain_expr(ops, (k - 1) as nat), (k - 1) as usize)
    }
}

/// Bits of the confidence in a pattern found while exploring: its base, plus 0.05 where the
/// ranks agree.
#[verifier::allow_in_spec]
pub fn explored_confidence_bits(pattern: FusionPattern, ranks: bool) -> (r: u64)
    returns
        (match (pattern, ranks) {
            (FusionPattern::MatMulBiasReLU, false) => 0x3fe8000000000000u64,
            (FusionPattern::MatMulBiasReLU, true) => 0x3fe999999999999a,
            (FusionPattern::AttentionBlock, false) => 0x3fe4cccccccccccd,
            (FusionPattern::AttentionBlock, true) => 0x3fe6666666666667,
            (FusionPattern::NormResidualActivation, false) => 0x3fe6666666666666,
            (FusionPattern::NormResidualActivation, true) => 0x3fe8000000000000,
            (FusionPattern::OptimizerStepFusion, false) => 0x3fe4cccccccccccd,
            (FusionPattern::OptimizerStepFusion, true) => 0x3fe6666666666667,
            (FusionPattern::BackwardPassChain, false) => 0x3fe3333333333333,
            (FusionPattern::BackwardPassChain, true) => 0x3fe4cccccccccccd,
            (FusionPattern::CommunicationComputeOverlap, false) => 0x3fe0000000000000,
            (FusionPattern::CommunicationComputeOverlap, true) => 0x3fe199999999999a,
            (FusionPattern::PersistentKernel, false) => 0x3fdccccccccccccd,
            (FusionPattern::PersistentKernel, true) => 0x3fe0000000000000,
            (FusionPattern::ElementwiseChain, false) => 0x3fe999999999999a,
            (FusionPattern::ElementwiseChain, true) => 0x3feb333333333334,
            (FusionPattern::ReductionFusion, false) => 0x3fe4cccccccccccd,
            (FusionPattern::ReductionFusion, true) => 0x3fe6666666666667,
            (FusionPattern::HorizontalElementwise, false) => 0x3fe199999999999a,
            (FusionPattern::HorizontalElementwise, true) => 0x3fe3333333333334,
        }),
{
    match (pattern, ranks) {
        (FusionPattern::MatMulBiasReLU, false) => 0x3fe8000000000000,  // 0.75
        (FusionPattern::MatMulBiasReLU, true) => 0x3fe999999999999a,  // 0.8
        (FusionPattern::AttentionBlock, false) => 0x3fe4cccccccccccd,  // 0.65
        (FusionPattern::AttentionBlock, true) => 0x3fe6666666666667,  // 0.7
        (FusionPattern::NormResidualActivation, false) => 0x3fe6666666666666,  // 0.7
        (FusionPattern::NormResidualActivation, true) => 0x3fe8000000000000,  // 0.75
        (FusionPattern::OptimizerStepFusion, false) => 0x3fe4cccccccccccd,  // 0.65
        (FusionPattern::OptimizerStepFusion, true) => 0x3fe6666666666667,  // 0.7
        (FusionPattern::BackwardPassChain, false) => 0x3fe3333333333333,  // 0.6
        (FusionPattern::BackwardPassChain, true) => 0x3fe4cccccccccccd,  // 0.65
        (FusionPattern::CommunicationComputeOverlap, false) => 0x3fe0000000000000,  // 0.5
        (FusionPattern::CommunicationComputeOverlap, true) => 0x3fe199999999999a,  // 0.55
        (FusionPattern::PersistentKernel, false) => 0x3fdccccccccccccd,  // 0.45
        (FusionPattern::PersistentKernel, true) => 0x3fe0000000000000,  // 0.5
        (FusionPattern::ElementwiseChain, false) => 0x3fe999999999999a,  // 0.8
        (FusionPattern::ElementwiseChain, true) => 0x3feb333333333334,  // 0.85
        (FusionPattern::ReductionFusion, false) => 0x3fe4cccccccccccd,  // 0.65
        (FusionPattern::ReductionFusion, true) => 0x3fe6666666666667,  // 0.7
        (FusionPattern::HorizontalElementwise, false) => 0x3fe199999999999a,  // 0.55
        (FusionPattern::HorizontalElementwise, true) => 0x3fe3333333333334,  // 0.6
    }
}

/// The boundary that fuses the `size` operations from place `start` on, with the confidence of
/// an exploration, if they form a pattern.
pub open spec fn explored_boundary(ops: Seq<FusionOp>, start: int, size: int) -> Option<
    BoundaryView,
> {
    let w = engine::window(ops, start, size);
    match classify::pattern_of(w) {
        Some(p) => Some(
            BoundaryView {
                indices: engine::places(start, size),
                pattern: p,
                savings: boundary::at_least_zero(savings::traffic_saved(p, w) as i64),
                factor: compute_savings(p),
                confidence: explored_confidence_bits(p, w.len() >= 2 && savings::one_rank(w)),
            },
        ),
        None => None,
    }
}

/// Whether `v` holds the fusion of `b`.
pub open spec fn holds_fusion(v: Seq<BoundaryView>, b: BoundaryView) -> bool {
    exists|i: int| 0 <= i < v.len() && boundary::same_fusion(#[trigger] v[i], b)
}

/// Whether `v` holds a fusion of the same operations as `b`.
pub open spec fn holds_indices(v: Seq<BoundaryView>, b: BoundaryView) -> bool {
    exists|i: int| 0 <= i < v.len() && (#[trigger] v[i]).indices == b.indices
}

/// `v` with the boundary at its end, if there is one and its fusion is new.
pub open spec fn with_new(v: Seq<BoundaryView>, b: Option<BoundaryView>) -> Seq<BoundaryView> {
    match b {
        Some(c) => if holds_fusion(v, c) {
            v
        } else {
            v.push(c)
        },
        None => v,
    }
}

/// What is found first: the fusion of all operations.
pub open spec fn explored_whole(ops: Seq<FusionOp>) -> Seq<BoundaryView> {
    match explored_boundary(ops, 0, ops.len() as int) {
        Some(c) => seq![c],
        None => Seq::empty(),
    }
}

/// Largest window that an exploration looks at.
pub open spec fn explored_largest(ops: Seq<FusionOp>) -> int {
    if ops.len() < 8 {
        ops.len() as int
    } else {
        8
    }
}

/// What is found next: the new fusions in the windows of fewer than `size` operations, and in
/// those of `size` operations that start before place `k`.
pub open spec fn explored_windows(ops: Seq<FusionOp>, size: int, k: int) -> Seq<BoundaryView>
    decreases size, k,
{
    if k > 0 {
        with_new(explored_windows(ops, size, k - 1), explored_boundary(ops, k - 1, size))
    } else if size > 2 {
        explored_windows(ops, size - 1, engine::window_count(ops, size - 1))
    } else {
        explored_whole(ops)
    }
}

/// Whether the operations at `i`, `i + 1` and `i + 2` are two matrix products with one left
/// operand shape and their sum: one product of a sum can replace them.
pub open spec fn factorable(ops: Seq<FusionOp>, i: int) -> bool {
    &&& ops[i].op_type == OpType::MatMul
    &&& ops[i + 1].op_type == OpType::MatMul
    &&& ops[i + 2].op_type == OpType::Add
    &&& same_first_input(ops[i], ops[i + 1])
}

/// Whether the first inputs of both operations have one shape, or neither has an input.
pub open spec fn same_first_input(a: FusionOp, b: FusionOp) -> bool {
    if a.input_shapes@.len() == 0 || b.input_shapes@.len() == 0 {
        a.input_shapes@.len() == b.input_shapes@.len()
    } else {
        a.input_shapes@[0]@ == b.input_shapes@[0]@
    }
}

/// The boundary that replaces two matrix products and their sum by one product.
pub open spec fn factored_boundary(ops: Seq<FusionOp>, i: int) -> BoundaryView {
    BoundaryView {
        indices: engine::places(i, 3),
        pattern: FusionPattern::MatMulBiasReLU,
        savings: boundary::at_least_zero(
            savings::traffic_saved(
                FusionPattern::MatMulBiasReLU,
                engine::window(ops, i, 3),
            ) as i64,
        ),
        factor: SIX_FIFTHS,
        confidence: SIX_TENTHS,
    }
}

/// What is found last: the factorings that start before place `k`.
pub open spec fn explored_factorings(
    ops: Seq<FusionOp>,
    found: Seq<BoundaryView>,
    k: int,
) -> Seq<BoundaryView>
    decreases k,
{
    if k <= 0 {
        found
    } else {
        let before = explored_factorings(ops, found, k - 1);
        let b = factored_boundary(ops, k - 1);
        if factorable(ops, k - 1) && !holds_indices(before, b) {
            before.push(b)
        } else {
            before
        }
    }
}

/// Everything that an exploration of `ops` finds.
pub open spec fn explored(ops: Seq<FusionOp>) -> Seq<BoundaryView> {
    let largest = explored_largest(ops);
    let windows = if largest < 2 {
        explored_whole(ops)
    } else {
        explored_windows(ops, largest, engine::window_count(ops, largest))
    };
    explored_factorings(ops, windows, ops.len() - 2)
}

fn find_explored(ops: &[FusionOp], start: usize, size: usize) -> (r: Option<FusionBoundary>)
    requires
        start + size <= ops@.len(),
    ensures
        match r {
            Some(b) => explored_boundary(ops@, start as int, size as int) == Some(b@),
            None => explored_boundary(ops@, start as int, size as int) is None,
        },
{
    let n: usize = ops.len();
    assert(start + size <= n);
    let w: &[FusionOp] = slice_subrange(ops, start, start + size);
    assert(w@ == engine::window(ops@, start as int, size as int));
    match classify(w) {
        Some(p) => {
            proof {
                classify::pattern_takes_two(w@);
                engine::lemma_places_ascend(start as int, size as int);
                savings::compute_savings_is_factor(p);
            }
            let saved: i64 = memory_savings(p, w);
            let confidence: u64 = explored_confidence_bits(p, w.len() >= 2 && ranks_agree(w));
            Some(
                FusionBoundary::new(
                    engine::place_list(start, size),
                    p,
                    saved,
                    compute_savings(p),
                    confidence,
                ),
            )
        },
        None => None,
    }
}

pub(crate) fn has_fusion(v: &Vec<FusionBoundary>, b: &FusionBoundary) -> (r: bool)
    ensures
        r == holds_fusion(boundary::views(v@), b@),
{
    let mut i: usize = 0;
    while i < v.len()
        invariant
            i <= v@.len(),
            forall|j: int|
                0 <= j < i ==> !boundary::same_fusion(#[trigger] boundary::views(v@)[j], b@),
        decreases v.len() - i,
    {
        assert(boundary::views(v@)[i as int] == v@[i as int]@);
        if v[i].is_same_fusion(b) {
            return true;
        }
        i += 1;
    }
    false
}

fn has_indices(v: &Vec<FusionBoundary>, b: &FusionBoundary) -> (r: bool)
    ensures
        r == holds_indices(boundary::views(v@), b@),
{
    let mut i: usize = 0;
    while i < v.len()
        invariant
            i <= v@.len(),
            forall|j: int| 0 <= j < i ==> (#[trigger] boundary::views(v@)[j]).indices != b@.indices,
        decreases v.len() - i,
    {
        assert(boundary::views(v@)[i as int] == v@[i as int]@);
        if boundary::same_indices(&v[i].op_indices, &b.op_indices) {
            return true;
        }
        i += 1;
    }
    false
}

fn first_inputs_agree(a: &FusionOp, b: &FusionOp) -> (r: bool)
    ensures
        r == same_first_input(*a, *b),
{
    if a.input_shapes.len() == 0 || b.input_shapes.len() == 0 {
        a.input_shapes.len() == b.input_shapes.len()
    } else {
        same_shape(&a.input_shapes[0], &b.input_shapes[0])
    }
}

/// Adds the new fusions of all windows.
fn push_windows(ops: &[FusionOp], found: &mut Vec<FusionBoundary>)
    requires
        explored_largest(ops@) >= 2,
        boundary::views(old(found)@) == explored_whole(ops@),
    ensures
        boundary::views(final(found)@) == explored_windows(
            ops@,
            explored_largest(ops@),
            engine::window_count(ops@, explored_largest(ops@)),
        ),
{
    let largest: usize = if ops.len() < 8 {
        ops.len()
    } else {
        8
    };
    assert(largest == explored_largest(ops@));
    let mut size: usize = 1;
    assert(boundary::views(found@) == explored_windows(ops@, 2, 0));
    while size < largest
        invariant
            1 <= size <= largest <= ops@.len(),
            largest == explored_largest(ops@),
            size == 1 ==> boundary::views(found@) == explored_windows(ops@, 2, 0),
            size >= 2 ==> boundary::views(found@) == explored_windows(
                ops@,
                size as int,
                engine::window_count(ops@, size as int),
            ),
        decreases largest - size,
    {
        size += 1;
        let count: usize = ops.len() - size + 1;
        let mut start: usize = 0;
        while start < count
            invariant
                start <= count,
                2 <= size <= largest,
                count == engine::window_count(ops@, size as int),
                largest == explored_largest(ops@),
                boundary::views(found@) == explored_windows(ops@, size as int, start as int),
            decreases count - start,
        {
            if let Some(b) = find_explored(ops, start, size) {
                if !has_fusion(found, &b) {
                    let ghost held = found@;
                    let ghost c = b@;
                    found.push(b);
                    assert(boundary::views(found@) =~= boundary::views(held).push(c));
                }
            }
            start += 1;
        }
    }
}

/// Adds the factorings of two matrix products and their sum.
fn push_factorings(ops: &[FusionOp], found: &mut Vec<FusionBoundary>)
    ensures
        boundary::views(final(found)@) == explored_factorings(
            ops@,
            boundary::views(old(found)@),
            ops@.len() - 2,
        ),
{
    let ghost base = boundary::views(found@);
    let n: usize = ops.len();
    if n < 3 {
        return;
    }
    let mut i: usize = 0;
    while i < n - 2
        invariant
            n == ops@.len(),
            n >= 3,
            i <= n - 2,
            boundary::views(found@) == explored_factorings(ops@, base, i as int),
        decreases n - i,
    {
        if ops[i].op_type == OpType::MatMul && ops[i + 1].op_type == OpType::MatMul && ops[i
            + 2].op_type == OpType::Add && first_inputs_agree(&ops[i], &ops[i + 1]) {
            assert(factorable(ops@, i as int));
            let w: &[FusionOp] = slice_subrange(ops, i, i + 3);
            assert(w@ == engine::window(ops@, i as int, 3));
            let saved: i64 = memory_savings(FusionPattern::MatMulBiasReLU, w);
            proof {
                engine::lemma_places_ascend(i as int, 3);
            }
            let b = FusionBoundary::new(
                engine::place_list(i, 3),
                FusionPattern::MatMulBiasReLU,
                saved,
                SIX_FIFTHS,
                SIX_TENTHS,
            );
            assert(b@ == factored_boundary(ops@, i as int));
            if !has_indices(found, &b) {
                let ghost held = found@;
                let ghost c = b@;
                found.push(b);
                assert(boundary::views(found@) =~= boundary::views(held).push(c));
            }
        }
        i += 1;
    }
}

impl EgraphFusionExplorer {
    /// Number of nodes at which rewriting stops.
    pub closed spec fn nodes(&self) -> usize {
        self.node_limit
    }

    /// Number of rounds after which rewriting stops.
    pub closed spec fn rounds(&self) -> usize {
        self.iteration_limit
    }

    /// An explorer that stops at 10000 nodes or after 30 rounds.
    pub fn new() -> (r: Self)
        ensures
            r.nodes() == 10000,
            r.rounds() == 30,
    {
        EgraphFusionExplorer { node_limit: 10000, iteration_limit: 30 }
    }

    /// An explorer with the given limits.
    pub fn with_limits(node_limit: usize, iteration_limit: usize) -> (r: Self)
        ensures
            r.nodes() == node_limit,
            r.rounds() == iteration_limit,
    {
        EgraphFusionExplorer { node_limit, iteration_limit }
    }

    /// Number of nodes at which rewriting stops.
    pub fn node_limit(&self) -> (r: usize)
        ensures
            r == self.nodes(),
    {
        self.node_limit
    }

    /// Number of rounds after which rewriting stops.
    pub fn iteration_limit(&self) -> (r: usize)
        ensures
            r == self.rounds(),
    {
        self.iteration_limit
    }

    /// The identities by which expressions are rewritten.
    pub fn rewrite_rules() -> (r: Vec<RewriteRule>)
        ensures
            r@ == super::expr::standard_rules(),
    {
        rewrite_rules()
    }

    /// The expression of a chain of operations, each applied to the result of the one before it.
    pub fn build_expr_string(ops: &[FusionOp]) -> (r: String)
        ensures
            r@ == chain_expr(ops@, ops@.len()).written(),
    {
        let product: bool = ops.len() > 0 && OpClass::MatrixProduct.admits(ops[0].op_type);
        let mut inner: FusionExpr = if product {
            FusionExpr::Operand("?a")
        } else {
            FusionExpr::Operand("?input")
        };
        let mut i: usize = 0;
        while i < ops.len()
            invariant
                i <= ops@.len(),
                product == starts_with_product(ops@),
                inner == chain_expr(ops@, i as nat),
            decreases ops.len() - i,
        {
            let a: Box<FusionExpr> = Box::new(inner);
            inner = match ops[i].op_type {
                OpType::Add => FusionExpr::Binary(
                    BinaryOp::Add,
                    a,
                    Box::new(
                        if i == 1 && product {
                            FusionExpr::Operand("?bias")
                        } else {
                            FusionExpr::Numbered("?bias", i)
                        },
                    ),
                ),
                OpType::Mul => FusionExpr::Binary(
                    BinaryOp::Mul,
                    a,
                    Box::new(FusionExpr::Numbered("?scale", i)),
                ),
                OpType::Sub => FusionExpr::Binary(
                    BinaryOp::Sub,
                    a,
                    Box::new(FusionExpr::Numbered("?sub", i)),
                ),
                OpType::Div => FusionExpr::Binary(
                    BinaryOp::Div,
                    a,
                    Box::new(FusionExpr::Numbered("?div", i)),
                ),
                OpType::MatMul | OpType::BatchMatMul => FusionExpr::Binary(
                    BinaryOp::MatMul,
                    a,
                    Box::new(
                        if i == 0 {
                            FusionExpr::Operand("?b")
                        } else {
                            FusionExpr::Numbered("?weight", i)
                        },
                    ),
                ),
                OpType::ReLU => FusionExpr::Unary(UnaryOp::ReLU, a),
                OpType::GELU => FusionExpr::Unary(UnaryOp::GELU, a),
                OpType::Sigmoid => FusionExpr::Unary(UnaryOp::Sigmoid, a),
                OpType::Tanh => FusionExpr::Unary(UnaryOp::Tanh, a),
                OpType::SiLU => FusionExpr::Unary(UnaryOp::SiLU, a),
                OpType::Neg => FusionExpr::Unary(UnaryOp::Neg, a),
                OpType::Exp => FusionExpr::Unary(UnaryOp::Exp, a),
                OpType::Abs => FusionExpr::Unary(UnaryOp::Abs, a),
                OpType::Sqrt => FusionExpr::Unary(UnaryOp::Sqrt, a),
                OpType::Softmax => FusionExpr::Binary(
                    BinaryOp::Div,
                    Box::new(FusionExpr::Unary(UnaryOp::Exp, a)),
                    Box::new(FusionExpr::Numbered("?softmax_norm", i)),
                ),
                OpType::LayerNorm => FusionExpr::Norm(
                    NormOp::LayerNorm,
                    a,
                    Box::new(FusionExpr::Numbered("?ln_scale", i)),
                    Box::new(FusionExpr::Numbered("?ln_bias", i)),
                ),
                OpType::RMSNorm => FusionExpr::Norm(
                    NormOp::RMSNorm,
                    a,
                    Box::new(FusionExpr::Numbered("?rn_scale", i)),
                    Box::new(FusionExpr::Numbered("?rn_bias", i)),
                ),
                OpType::Reduce => FusionExpr::Binary(
                    BinaryOp::ReduceSum,
                    a,
                    Box::new(FusionExpr::Numbered("?axis", i)),
                ),
                _ => FusionExpr::Binary(
                    BinaryOp::Add,
                    a,
                    Box::new(FusionExpr::Numbered("?extra", i)),
                ),
            };
            i += 1;
        }
        inner.to_text()
    }

    /// Everything that an exploration of `ops` finds: the fusion of all operations, the fusions
    /// of their windows, and the factorings of two matrix products with one left operand.
    ///
    /// `parsed` says whether the rewriter accepted the expression of `build_expr_string`. Where
    /// it did not, the boundaries that the standard engine chooses stand in; `speedups` then
    /// holds the bits of the speedups of its candidates.
    pub fn explore(&self, ops: &[FusionOp], parsed: bool, speedups: &[u64]) -> (r: Vec<
        FusionBoundary,
    >)
        requires
            !parsed ==> forall|e: FusionEngine| #[trigger]
                engine::is_standard(e) ==> speedups@.len() == e.candidates(ops@).len(),
        ensures
            parsed ==> boundary::views(r@) == explored(ops@),
            !parsed ==> exists|e: FusionEngine| #[trigger]
                engine::is_standard(e) && boundary::views(r@) == ranking::greedy_choice(
                    e.candidates(ops@),
                    speedups@,
                ),
    {
        if !parsed {
            let e: FusionEngine = FusionEngine::new();
            assert(engine::is_standard(e));
            assert(e.largest_in(ops@) == explored_largest(ops@));
            return e.discover_fusion_boundaries(ops, speedups).boundaries;
        }
        let n: usize = ops.len();
        let mut found: Vec<FusionBoundary> = Vec::new();
        assert(engine::window(ops@, 0, n as int) =~= ops@);
        if let Some(b) = find_explored(ops, 0, n) {
            found.push(b);
        }
        assert(boundary::views(found@) =~= explored_whole(ops@));
        if n >= 2 {
            push_windows(ops, &mut found);
        }
        push_factorings(ops, &mut found);
        found
    }
}

impl Default for EgraphFusionExplorer {
    fn default() -> (r: Self)
        ensures
            r.nodes() == 10000,
            r.rounds() == 30,
    {
        EgraphFusionExplorer::new()
    }
}

/// `v` with those of the first `k` boundaries of `more` behind it whose fusion is new.
pub open spec fn merged(v: Seq<BoundaryView>, more: Seq<BoundaryView>, k: nat) -> Seq<BoundaryView>
    decreases k,
{
    if k == 0 {
        v
    } else {
        with_new(merged(v, more, (k - 1) as nat), Some(more[k - 1]))
    }
}

/// What a choice over the merged candidates starts from: what the exploration finds, and behind
/// it what the engine chooses without a confidence threshold.
pub open spec fn merged_candidates(
    e: FusionEngine,
    ops: Seq<FusionOp>,
    speedups: Seq<u64>,
) -> Seq<BoundaryView> {
    let standard = ranking::greedy_choice(e.candidates(ops), speedups);
    merged(explored(ops), standard, standard.len())
}

/// The boundaries of `found`, and behind them those of `standard` that name a new fusion.
pub fn merge_candidates(found: Vec<FusionBoundary>, standard: &Vec<FusionBoundary>) -> (r: Vec<
    FusionBoundary,
>)
    ensures
        boundary::views(r@) == merged(
            boundary::views(found@),
            boundary::views(standard@),
            standard@.len(),
        ),
{
    let mut all: Vec<FusionBoundary> = found;
    let ghost base = boundary::views(all@);
    let ghost more = boundary::views(standard@);
    let mut k: usize = 0;
    while k < standard.len()
        invariant
            k <= standard@.len(),
            more == boundary::views(standard@),
            boundary::views(all@) == merged(base, more, k as nat),
        decreases standard.len() - k,
    {
        assert(more[k as int] == standard@[k as int]@);
        if !has_fusion(&all, &standard[k]) {
            let ghost held = all@;
            all.push(standard[k].clone());
            assert(boundary::views(all@) =~= boundary::views(held).push(more[k as int]));
        }
        k += 1;
    }
    all
}

impl FusionEngine {
    /// The candidates for a choice by the solver: what an exploration finds, and behind it what
    /// this engine chooses without a confidence threshold, each fusion once.
    ///
    /// `speedups` holds the bits of the speedups of the candidates of the engine that
    /// `speculative` gives.
    pub fn candidates_with_egraph(&self, ops: &[FusionOp], speedups: &[u64]) -> (r: Vec<
        FusionBoundary,
    >)
        requires
            forall|e: FusionEngine| #[trigger]
                engine::is_speculative(e, *self) ==> speedups@.len() == e.candidates(ops@).len(),
        ensures
            exists|e: FusionEngine| #[trigger]
                engine::is_speculative(e, *self) && boundary::views(r@) == merged_candidates(
                    e,
                    ops@,
                    speedups@,
                ),
    {
        let explorer: EgraphFusionExplorer = EgraphFusionExplorer::new();
        let found: Vec<FusionBoundary> = explorer.explore(ops, true, speedups);
        let e: FusionEngine = self.speculative();
        assert(engine::is_speculative(e, *self));
        assert(e.largest_in(ops@) == self.largest_in(ops@));
        let standard: Vec<FusionBoundary> = e.discover_fusion_boundaries(ops, speedups).boundaries;
        merge_candidates(found, &standard)
    }

    /// The decision over the merged candidates of `candidates_with_egraph`: what the solver
    /// chose, or the greedy choice where it failed.
    ///
    /// `solution` holds for each merged candidate whether the solver set its variable, and is
    /// `None` where the solver failed; `merged_speedups` holds the bits of their speedups.
    pub fn discover_with_egraph_ilp(
        &self,
        ops: &[FusionOp],
        candidates: &Vec<FusionBoundary>,
        solution: Option<&[bool]>,
        merged_speedups: &[u64],
    ) -> (r: FusionDecision)
        requires
            merged_speedups@.len() == candidates@.len(),
            solution matches Some(s) ==> s@.len() == candidates@.len(),
        ensures
            r.chosen() == (if ops@.len() == 0 {
                Seq::empty()
            } else {
                ilp::selection(boundary::views(candidates@), solution, merged_speedups@)
            }),
            r.consistent(),
    {
        if ops.len() == 0 {
            return FusionDecision::empty();
        }
        let selected: Vec<FusionBoundary> = ilp_select_boundaries(
            candidates,
            solution,
            merged_speedups,
        );
        FusionDecision::from_boundaries(selected)
    }
}

/// An exploration names no fusion twice.
pub open spec fn no_fusion_twice(v: Seq<BoundaryView>) -> bool {
    forall|i: int, j: int| 0 <= i < j < v.len() ==> !boundary::same_fusion(v[i], v[j])
}

pub(crate) proof fn lemma_with_new(v: Seq<BoundaryView>, b: Option<BoundaryView>)
    requires
        no_fusion_twice(v),
    ensures
        no_fusion_twice(with_new(v, b)),
{
    if let Some(c) = b {
        if !holds_fusion(v, c) {
            assert forall|i: int, j: int| 0 <= i < j < v.push(c).len() implies
                !boundary::same_fusion(v.push(c)[i], v.push(c)[j]) by {
                if j == v.len() {
                    assert(!boundary::same_fusion(v[i], c));
                }
            }
        }
    }
}

proof fn lemma_windows_once(ops: Seq<FusionOp>, size: int, k: int)
    ensures
        no_fusion_twice(explored_windows(ops, size, k)),
    decreases size, k,
{
    if k > 0 {
        lemma_windows_once(ops, size, k - 1);
        lemma_with_new(explored_windows(ops, size, k - 1), explored_boundary(ops, k - 1, size));
    } else if size > 2 {
        lemma_windows_once(ops, size - 1, engine::window_count(ops, size - 1));
    }
}

proof fn lemma_factorings_once(ops: Seq<FusionOp>, found: Seq<BoundaryView>, k: int)
    requires
        no_fusion_twice(found),
    ensures
        no_fusion_twice(explored_factorings(ops, found, k)),
    decreases k,
{
    if k > 0 {
        lemma_factorings_once(ops, found, k - 1);
        let before = explored_factorings(ops, found, k - 1);
        let b = factored_boundary(ops, k - 1);
        if factorable(ops, k - 1) && !holds_indices(before, b) {
            assert forall|i: int, j: int| 0 <= i < j < before.push(b).len() implies
                !boundary::same_fusion(before.push(b)[i], before.push(b)[j]) by {
                if j == before.len() {
                    assert(before[i].indices != b.indices);
                }
            }
        }
    }
}

/// An exploration names no fusion twice, and neither do the candidates merged behind it.
pub proof fn exploration_names_once(ops: Seq<FusionOp>, more: Seq<BoundaryView>, k: nat)
    requires
        k <= more.len(),
    ensures
        no_fusion_twice(explored(ops)),
        no_fusion_twice(merged(explored(ops), more, k)),
    decreases k,
{
    let largest = explored_largest(ops);
    lemma_windows_once(ops, largest, engine::window_count(ops, largest));
    let windows = if largest < 2 {
        explored_whole(ops)
    } else {
        explored_windows(ops, largest, engine::window_count(ops, largest))
    };
    lemma_factorings_once(ops, windows, ops.len() - 2);
    if k > 0 {
        exploration_names_once(ops, more, (k - 1) as nat);
        lemma_with_new(merged(explored(ops), more, (k - 1) as nat), Some(more[k - 1]));
    }
}

} // verus!
