use symplex_engine::fusion_engine::engine::find_boundary;
use symplex_engine::fusion_engine::explorer::merge_candidates;
use symplex_engine::fusion_engine::savings::compute_confidence;
use symplex_engine::fusion_engine::{
    classify_pattern_with_shapes, compute_coverage_report, detect_horizontal_fusion,
    ilp_select_boundaries, selection_constraints, shape_memory_bytes, shape_num_elements,
    shapes_broadcast_compatible, speculative_handshake, validate_fusion_legality_detailed, DType,
    DynamicShapeProfile, EgraphFusionExplorer, FusionBoundary, FusionDecision, FusionEngine,
    FusionOp, FusionPattern, OpType, TensorShape,
};

fn bits(x: f64) -> u64 {
    x.to_bits()
}

/// The speedup of a boundary: compute savings, memory savings with diminishing returns and
/// confidence.
fn estimated_speedup(b: &FusionBoundary) -> f64 {
    let mut speedup = f64::from_bits(b.compute_savings_factor);
    let savings_mb = b.memory_traffic_savings_bytes as f64 / (1024.0 * 1024.0);
    if savings_mb > 0.0 {
        speedup *= 1.0 + (savings_mb / (savings_mb + 10.0));
    }
    speedup * f64::from_bits(b.confidence)
}

fn speedups(v: &[FusionBoundary]) -> Vec<u64> {
    v.iter().map(|b| bits(estimated_speedup(b))).collect()
}

fn discover(engine: &FusionEngine, ops: &[FusionOp]) -> FusionDecision {
    let s = speedups(&engine.fusion_candidates(ops));
    engine.discover_fusion_boundaries(ops, &s)
}

/// The product of the speedups, and one without boundaries.
fn total_estimated_speedup(d: &FusionDecision) -> f64 {
    d.boundaries.iter().map(estimated_speedup).product()
}

fn op(t: OpType, out: Vec<i64>, ins: Vec<Vec<i64>>, d: DType) -> FusionOp {
    FusionOp::new(t, out, ins, d, false)
}

fn matmul_bias_relu() -> Vec<FusionOp> {
    vec![
        op(OpType::MatMul, vec![128, 256], vec![vec![128, 512], vec![512, 256]], DType::FP16),
        op(OpType::Add, vec![128, 256], vec![vec![128, 256], vec![256]], DType::FP16),
        op(OpType::ReLU, vec![128, 256], vec![vec![128, 256]], DType::FP16),
    ]
}

#[test]
fn test_dtype_size_bytes() {
    assert_eq!(DType::FP32.size_bytes(), 4);
    assert_eq!(DType::FP16.size_bytes(), 2);
    assert_eq!(DType::BF16.size_bytes(), 2);
    assert_eq!(DType::FP8.size_bytes(), 1);
    assert_eq!(DType::INT8.size_bytes(), 1);
    assert_eq!(DType::INT4.size_bytes(), 1);
}

#[test]
fn test_dtype_classification() {
    assert!(DType::FP32.is_float());
    assert!(DType::BF16.is_float());
    assert!(!DType::INT8.is_float());
    assert!(DType::INT8.is_quantized());
    assert!(DType::INT4.is_quantized());
    assert!(!DType::FP16.is_quantized());
}

#[test]
fn test_optype_classification() {
    assert!(OpType::ReLU.is_elementwise());
    assert!(OpType::GELU.is_elementwise());
    assert!(OpType::Add.is_elementwise());
    assert!(OpType::ReLU.is_activation());
    assert!(!OpType::Add.is_activation());
    assert!(OpType::LayerNorm.is_normalization());
    assert!(OpType::RMSNorm.is_normalization());
    assert!(OpType::Transpose.is_structural());
    assert!(OpType::AllReduce.is_communication());
}

#[test]
fn test_fusion_op_construction() {
    let op = FusionOp::new(
        OpType::MatMul,
        vec![128, 256],
        vec![vec![128, 512], vec![512, 256]],
        DType::FP16,
        false,
    );
    assert_eq!(op.memory_bytes, 128 * 256 * 2);
    assert_eq!(op.num_output_elements(), 128 * 256);
    assert!(op.is_intermediate_eligible());
}

#[test]
fn test_fusion_op_inplace() {
    let op = FusionOp::new(OpType::ReLU, vec![128], vec![vec![128]], DType::FP32, true);
    assert!(!op.is_intermediate_eligible());
}

#[test]
fn test_shape_num_elements() {
    assert_eq!(shape_num_elements(&vec![]), 1);
    assert_eq!(shape_num_elements(&vec![128]), 128);
    assert_eq!(shape_num_elements(&vec![128, 256]), 32768);
    assert_eq!(shape_num_elements(&vec![0, 256]), 0);
}

#[test]
fn test_shapes_broadcast_compatible() {
    assert!(shapes_broadcast_compatible(&vec![3, 4], &vec![3, 4]));
    assert!(shapes_broadcast_compatible(&vec![3, 4], &vec![1, 4]));
    assert!(shapes_broadcast_compatible(&vec![3, 4], &vec![4]));
    assert!(!shapes_broadcast_compatible(&vec![3, 4], &vec![3, 5]));
}

#[test]
fn test_pattern_properties() {
    assert!(FusionPattern::MatMulBiasReLU.requires_polyhedral_validation());
    assert!(!FusionPattern::ElementwiseChain.requires_polyhedral_validation());
    assert_eq!(FusionPattern::MatMulBiasReLU.intermediates_eliminated(), 2);
}

#[test]
fn test_fusion_boundary_creation() {
    let boundary = FusionBoundary::new(
        vec![0, 1, 2],
        FusionPattern::MatMulBiasReLU,
        1024 * 1024,
        bits(1.1),
        bits(0.9),
    );
    assert_eq!(boundary.op_count(), 3);
    assert!(boundary.requires_polyhedral_validation());
    assert!(estimated_speedup(&boundary) > 1.0);
}

#[test]
fn test_discover_matmul_bias_relu() {
    let engine = FusionEngine::new();
    let ops = matmul_bias_relu();
    let decision = discover(&engine, &ops);

    assert_eq!(decision.boundary_count(), 1);
    assert_eq!(decision.boundaries[0].pattern, FusionPattern::MatMulBiasReLU);
    assert!(decision.total_hbm_traffic_reduction > 0);
    assert!(decision.requires_polyhedral_validation);
}

#[test]
fn test_discover_attention_block() {
    let engine = FusionEngine::new();
    let ops = vec![
        op(
            OpType::MatMul,
            vec![8, 128, 128],
            vec![vec![8, 128, 64], vec![8, 64, 128]],
            DType::FP16,
        ),
        op(OpType::Mul, vec![8, 128, 128], vec![vec![8, 128, 128], vec![]], DType::FP16),
        op(OpType::Softmax, vec![8, 128, 128], vec![vec![8, 128, 128]], DType::FP16),
        op(
            OpType::MatMul,
            vec![8, 128, 64],
            vec![vec![8, 128, 128], vec![8, 128, 64]],
            DType::FP16,
        ),
    ];
    let decision = discover(&engine, &ops);
    assert!(decision.boundaries.iter().any(|b| b.pattern == FusionPattern::AttentionBlock));
}

#[test]
fn test_discover_elementwise_chain() {
    let engine = FusionEngine::new();
    let ops = vec![
        op(OpType::Exp, vec![1024], vec![vec![1024]], DType::FP32),
        op(OpType::Add, vec![1024], vec![vec![1024], vec![1024]], DType::FP32),
        op(OpType::ReLU, vec![1024], vec![vec![1024]], DType::FP32),
    ];
    let decision = discover(&engine, &ops);
    assert!(decision.boundary_count() >= 1);
    let fused_ops = decision.total_fused_ops();
    assert!(fused_ops >= 2);
}

#[test]
fn test_discover_norm_residual() {
    let engine = FusionEngine::new();
    let ops = vec![
        op(OpType::LayerNorm, vec![128, 256], vec![vec![128, 256]], DType::FP32),
        op(OpType::Add, vec![128, 256], vec![vec![128, 256], vec![128, 256]], DType::FP32),
    ];
    let decision = discover(&engine, &ops);
    assert!(decision
        .boundaries
        .iter()
        .any(|b| b.pattern == FusionPattern::NormResidualActivation));
}

#[test]
fn test_discover_empty() {
    let engine = FusionEngine::new();
    let decision = discover(&engine, &[]);
    assert_eq!(decision.boundary_count(), 0);
    assert_eq!(total_estimated_speedup(&decision), 1.0);
}

#[test]
fn test_discover_single_op() {
    let engine = FusionEngine::new();
    let ops = vec![op(OpType::ReLU, vec![128], vec![vec![128]], DType::FP32)];
    let decision = discover(&engine, &ops);
    assert_eq!(decision.boundary_count(), 0);
}

#[test]
fn test_memory_savings_matmul_bias_relu() {
    let ops = matmul_bias_relu();
    let shapes: Vec<TensorShape> = ops.iter().map(|op| op.output_shape.clone()).collect();
    let savings =
        FusionEngine::estimate_memory_savings(&FusionPattern::MatMulBiasReLU, &shapes, &ops);
    assert_eq!(savings, 2 * 65536 + 2 * 65536);
}

#[test]
fn test_compute_savings() {
    let savings = |p: FusionPattern| f64::from_bits(FusionEngine::estimate_compute_savings(&p));
    assert!(savings(FusionPattern::MatMulBiasReLU) > 1.0);
    assert_eq!(savings(FusionPattern::ElementwiseChain), 1.0);
    assert!(savings(FusionPattern::AttentionBlock) > 1.0);
}

#[test]
fn test_validate_elementwise_legal() {
    let engine = FusionEngine::new();
    let boundary = FusionBoundary::new(
        vec![0, 1],
        FusionPattern::ElementwiseChain,
        1024,
        bits(1.0),
        bits(0.95),
    );
    assert!(engine.validate_fusion_legality(&boundary));
}

#[test]
fn test_detailed_validation_dtype_mismatch() {
    let ops = vec![
        op(OpType::Add, vec![128], vec![vec![128], vec![128]], DType::FP32),
        op(OpType::ReLU, vec![128], vec![vec![128]], DType::FP16),
    ];
    let boundary = FusionBoundary::new(
        vec![0, 1],
        FusionPattern::ElementwiseChain,
        512,
        bits(1.0),
        bits(0.8),
    );
    let result = validate_fusion_legality_detailed(&boundary, &ops);
    assert!(result.is_legal);
    assert!(!result.warnings.is_empty());
}

#[test]
fn test_detailed_validation_custom_op() {
    let ops = vec![
        op(OpType::Custom, vec![128], vec![vec![128]], DType::FP32),
        op(OpType::ReLU, vec![128], vec![vec![128]], DType::FP32),
    ];
    let boundary = FusionBoundary::new(
        vec![0, 1],
        FusionPattern::ElementwiseChain,
        512,
        bits(1.0),
        bits(0.5),
    );
    let result = validate_fusion_legality_detailed(&boundary, &ops);
    assert!(!result.is_legal);
}

#[test]
fn test_propose_alternatives() {
    let engine = FusionEngine::new();
    let ops = matmul_bias_relu();
    let s = speedups(&engine.fusion_alternatives(&ops));
    let alternatives = engine.propose_fusion_alternatives(&ops, &s);

    assert!(alternatives.iter().any(|a| a.pattern == FusionPattern::MatMulBiasReLU));
    assert!(alternatives.len() >= 1);
}

#[test]
fn test_coverage_report() {
    let engine = FusionEngine::new();
    let mut ops = matmul_bias_relu();
    ops.push(op(OpType::Custom, vec![64], vec![vec![64]], DType::FP32));
    let decision = discover(&engine, &ops);
    let report = compute_coverage_report(&decision, ops.len());
    let coverage_ratio = report.fused_ops as f64 / report.total_ops as f64;

    assert_eq!(report.total_ops, 4);
    assert!(coverage_ratio > 0.0);
    assert!(coverage_ratio <= 1.0);
    assert_eq!(report.orphaned_indices, vec![3]);
}

#[test]
fn test_fusion_decision_from_boundaries() {
    let boundaries = vec![
        FusionBoundary::new(
            vec![0, 1, 2],
            FusionPattern::MatMulBiasReLU,
            1000000,
            bits(1.1),
            bits(0.9),
        ),
        FusionBoundary::new(
            vec![3, 4],
            FusionPattern::ElementwiseChain,
            50000,
            bits(1.0),
            bits(0.95),
        ),
    ];
    let decision = FusionDecision::from_boundaries(boundaries);
    assert_eq!(decision.boundary_count(), 2);
    assert_eq!(decision.total_hbm_traffic_reduction, 1050000);
    assert!(decision.requires_polyhedral_validation);
    assert_eq!(decision.total_fused_ops(), 5);
}

#[test]
fn test_discover_reduction_fusion() {
    let engine = FusionEngine::new();
    let ops = vec![
        op(OpType::Reduce, vec![128], vec![vec![128, 256]], DType::FP32),
        op(OpType::Add, vec![128], vec![vec![128], vec![128]], DType::FP32),
    ];
    let decision = discover(&engine, &ops);
    assert!(decision.boundaries.iter().any(|b| b.pattern == FusionPattern::ReductionFusion));
}

#[test]
fn test_discover_comm_compute_overlap() {
    let engine = FusionEngine::new();
    let ops = vec![
        op(OpType::AllReduce, vec![1024], vec![vec![1024]], DType::FP32),
        op(OpType::MatMul, vec![128, 256], vec![vec![128, 512], vec![512, 256]], DType::FP16),
    ];
    let decision = discover(&engine, &ops);
    assert!(decision
        .boundaries
        .iter()
        .any(|b| b.pattern == FusionPattern::CommunicationComputeOverlap));
}

#[test]
fn test_persistent_kernel_detection() {
    let engine = FusionEngine::new();
    let matmul =
        || op(OpType::MatMul, vec![64, 64], vec![vec![64, 64], vec![64, 64]], DType::FP16);
    let add = || op(OpType::Add, vec![64, 64], vec![vec![64, 64], vec![64]], DType::FP16);
    let ops = vec![matmul(), add(), matmul(), add()];
    let decision = discover(&engine, &ops);
    assert!(decision.boundary_count() >= 1);
}

// The exact outcome of a discovery: savings, factor and confidence of the one boundary.
#[test]
fn discovered_boundary_is_exact() {
    let engine = FusionEngine::new();
    let ops = matmul_bias_relu();
    let decision = discover(&engine, &ops);
    let b = &decision.boundaries[0];
    // All three operations keep two outputs out of memory, the first two only one.
    assert_eq!(b.op_indices, vec![0, 1, 2]);
    assert_eq!(b.memory_traffic_savings_bytes, 4 * 65536);
    assert_eq!(b.confidence, compute_confidence(FusionPattern::MatMulBiasReLU, &ops));
    assert_eq!(b.confidence, bits(1.0));
    let part = find_boundary(&ops, 0, 2).unwrap();
    assert_eq!(part.op_indices, vec![0, 1]);
    assert_eq!(part.memory_traffic_savings_bytes, 2 * 65536);
    assert!(estimated_speedup(&part) < estimated_speedup(b));
    assert!(find_boundary(&ops, 0, 1).is_none());
}

#[test]
fn chosen_boundaries_share_no_operation() {
    let engine = FusionEngine::new();
    let mut ops = matmul_bias_relu();
    ops.extend(matmul_bias_relu());
    let decision = discover(&engine, &ops);
    let mut seen: Vec<usize> = Vec::new();
    for b in decision.boundaries.iter() {
        for i in b.op_indices.iter() {
            assert!(!seen.contains(i));
            seen.push(*i);
        }
    }
    assert!(seen.len() >= 4);
}

#[test]
fn overflowing_shapes_saturate() {
    assert_eq!(shape_num_elements(&vec![i64::MAX, 2]), i64::MAX);
    assert_eq!(shape_num_elements(&vec![-3, 7]), -21);
    assert_eq!(shape_memory_bytes(&vec![16, 16], DType::BF16), 512);
}

#[test]
fn horizontal_groups_share_a_shape() {
    let ops = vec![
        op(OpType::ReLU, vec![64], vec![vec![32]], DType::FP32),
        op(OpType::ReLU, vec![128], vec![vec![7]], DType::FP32),
        op(OpType::Exp, vec![64], vec![vec![33]], DType::FP32),
        op(OpType::MatMul, vec![64], vec![vec![64, 64], vec![64]], DType::FP32),
    ];
    let found = detect_horizontal_fusion(&ops);
    assert_eq!(found.len(), 1);
    assert_eq!(found[0].op_indices, vec![0, 2]);
    assert_eq!(found[0].pattern, FusionPattern::HorizontalElementwise);
}

#[test]
fn solver_choice_is_taken() {
    let a = FusionBoundary::new(
        vec![0, 1],
        FusionPattern::ElementwiseChain,
        10,
        bits(1.0),
        bits(0.9),
    );
    let b = FusionBoundary::new(
        vec![1, 2],
        FusionPattern::ElementwiseChain,
        20,
        bits(1.0),
        bits(0.8),
    );
    let v = vec![a, b];
    let constraints = selection_constraints(&v);
    assert_eq!(constraints, vec![vec![0], vec![0, 1], vec![1]]);
    let s = speedups(&v);
    let chosen = ilp_select_boundaries(&v, Some(&[false, true]), &s);
    assert_eq!(chosen.len(), 1);
    assert_eq!(chosen[0].op_indices, vec![1, 2]);
    let greedy = ilp_select_boundaries(&v, None, &s);
    assert_eq!(greedy.len(), 1);
    assert_eq!(greedy[0].op_indices, vec![0, 1]);
}

#[test]
fn exploration_covers_both_ways() {
    let explorer = EgraphFusionExplorer::new();
    let ops = matmul_bias_relu();
    assert_eq!(explorer.node_limit(), EgraphFusionExplorer::with_limits(explorer.node_limit(), 1).node_limit());
    assert_eq!(EgraphFusionExplorer::with_limits(5, 7).iteration_limit(), 7);
    let explored = explorer.explore(&ops, true, &[]);
    assert!(explored.iter().any(|b| b.pattern == FusionPattern::MatMulBiasReLU));
    let engine = FusionEngine::new();
    let s = speedups(&engine.fusion_candidates(&ops));
    let fallback = explorer.explore(&ops, false, &s);
    assert_eq!(fallback.len(), 1);
    assert!(!EgraphFusionExplorer::rewrite_rules().is_empty());
    assert!(!EgraphFusionExplorer::build_expr_string(&ops).is_empty());
}

#[test]
fn egraph_candidates_and_decision() {
    let engine = FusionEngine::new();
    let ops = matmul_bias_relu();
    let s = speedups(&engine.speculative().fusion_candidates(&ops));
    let merged = engine.candidates_with_egraph(&ops, &s);
    assert!(merged.len() >= 1);
    let m = speedups(&merged);
    let decision = engine.discover_with_egraph_ilp(&ops, &merged, None, &m);
    assert!(decision.boundary_count() >= 1);
}

#[test]
fn merging_keeps_the_first_of_a_fusion() {
    let boundary = |v: Vec<usize>, p: FusionPattern, saved: i64| {
        FusionBoundary::new(v, p, saved, bits(1.0), bits(0.9))
    };
    let found = vec![boundary(vec![0, 1], FusionPattern::ElementwiseChain, 7)];
    let standard = vec![
        boundary(vec![0, 1], FusionPattern::ElementwiseChain, 9),
        boundary(vec![1, 2], FusionPattern::ElementwiseChain, 5),
        boundary(vec![0, 1], FusionPattern::MatMulBiasReLU, 3),
    ];
    let merged = merge_candidates(found, &standard);
    let saved: Vec<i64> = merged.iter().map(|b| b.memory_traffic_savings_bytes).collect();
    assert_eq!(saved, vec![7, 5, 3]);
}

#[test]
fn profile_drives_the_swap() {
    let mut profile = DynamicShapeProfile::with_capacity(4);
    profile.update_from_runtime(&[vec![8, 8]]);
    let b = FusionBoundary::new(
        vec![0, 1],
        FusionPattern::ElementwiseChain,
        1 << 20,
        bits(1.0),
        bits(0.95),
    );
    let c = profile.swap_confidence(&b);
    assert!(f64::from_bits(c) <= 1.0);
    assert!(profile.hot_swap_kernel(bits(2.0)));
    assert!(!profile.hot_swap_kernel(bits(0.5)));
    assert!(profile.hot_swap_kernel(bits(1.2)));
    assert!(profile.hot_swap_kernel(bits(f64::INFINITY)));
    assert!(!profile.hot_swap_kernel(bits(-2.0)));
    assert!(!profile.hot_swap_kernel(bits(f64::NAN)));
    let refused = speculative_handshake(&b, false);
    let kept = speculative_handshake(&b, true);
    assert!(f64::from_bits(refused.confidence) < f64::from_bits(kept.confidence));
}

#[test]
fn shapes_refine_the_pattern() {
    let ops = matmul_bias_relu();
    assert_eq!(classify_pattern_with_shapes(&ops), Some(FusionPattern::MatMulBiasReLU));
    assert_eq!(classify_pattern_with_shapes(&ops[0..1]), None);
    let step = |outs: &[i64]| -> Vec<FusionOp> {
        let kinds = [OpType::Mul, OpType::Add, OpType::Mul, OpType::Add];
        outs.iter()
            .zip(kinds)
            .map(|(d, t)| op(t, vec![*d], vec![vec![*d]], DType::FP32))
            .collect()
    };
    let engine = FusionEngine::new();
    for outs in [&[8, 8, 8][..], &[8, 8, 8, 8], &[8, 8, 1], &[8, 8, 8, 1]] {
        assert_eq!(
            engine.classify_pattern(&step(outs)),
            Some(FusionPattern::OptimizerStepFusion)
        );
    }
    // One shape: the number of operations decides; several: the types do.
    assert_eq!(
        classify_pattern_with_shapes(&step(&[8, 8, 8])),
        Some(FusionPattern::BackwardPassChain)
    );
    for outs in [&[8, 8, 8, 8][..], &[8, 8, 1], &[8, 8, 8, 1]] {
        assert_eq!(
            classify_pattern_with_shapes(&step(outs)),
            Some(FusionPattern::OptimizerStepFusion)
        );
    }
}

#[test]
fn estimates_out_of_range_are_cut_off() {
    let sized = |t: OpType, bytes: i64| {
        let mut o = op(t, vec![2, 2], vec![vec![2, 2]], DType::FP32);
        o.memory_bytes = bytes;
        o
    };
    let saved = |p: FusionPattern, ops: &[FusionOp]| {
        let shapes: Vec<TensorShape> = ops.iter().map(|o| o.output_shape.clone()).collect();
        FusionEngine::estimate_memory_savings(&p, &shapes, ops)
    };
    let half = i64::MAX / 2;
    let chain = |a: i64, b: i64| vec![sized(OpType::Exp, a), sized(OpType::Exp, b)];
    // Only the intermediate counts, doubled.
    assert_eq!(saved(FusionPattern::ElementwiseChain, &chain(half, i64::MAX)), i64::MAX - 1);
    assert_eq!(saved(FusionPattern::ElementwiseChain, &chain(half + 1, 0)), i64::MAX);
    let product = vec![sized(OpType::MatMul, half), sized(OpType::Add, i64::MAX)];
    assert_eq!(saved(FusionPattern::MatMulBiasReLU, &product), i64::MAX - 1);
    // The sum counts only where an activation follows it.
    let mut normalized = vec![sized(OpType::LayerNorm, 8), sized(OpType::Add, i64::MAX)];
    assert_eq!(saved(FusionPattern::NormResidualActivation, &normalized), 16);
    normalized.push(sized(OpType::GELU, 8));
    assert_eq!(saved(FusionPattern::NormResidualActivation, &normalized), i64::MAX);
    // Discovery and exploration take any sizes.
    let engine = FusionEngine::new();
    let mut huge = chain(i64::MAX, i64::MAX);
    huge.extend(product);
    let decision = discover(&engine, &huge);
    assert!(decision.boundary_count() >= 1);
    assert!(!EgraphFusionExplorer::new().explore(&huge, true, &[]).is_empty());
    let boundary = |savings: i64| {
        FusionBoundary::new(
            vec![0, 1],
            FusionPattern::ElementwiseChain,
            savings,
            bits(1.0),
            bits(0.5),
        )
    };
    let total = |a: i64, b: i64| {
        FusionDecision::from_boundaries(vec![boundary(a), boundary(b)]).total_hbm_traffic_reduction
    };
    assert_eq!(total(i64::MAX, 1), i64::MAX);
    assert_eq!(total(40, 2), 42);
}

#[test]
fn last_output_is_not_saved() {
    let ops = matmul_bias_relu();
    let shapes: Vec<TensorShape> = ops.iter().map(|o| o.output_shape.clone()).collect();
    let saved = |n: usize| {
        FusionEngine::estimate_memory_savings(
            &FusionPattern::MatMulBiasReLU,
            &shapes[..n],
            &ops[..n],
        )
    };
    assert_eq!(saved(2), 131072);
    assert_eq!(saved(3), 262144);
}

#[test]
fn writes_in_place_do_not_meet() {
    let unary = |t: OpType, inplace: bool| {
        FusionOp::new(t, vec![8], vec![vec![8]], DType::FP32, inplace)
    };
    let boundary = FusionBoundary::new(
        vec![0, 1],
        FusionPattern::ElementwiseChain,
        64,
        bits(1.0),
        bits(0.9),
    );
    let legal = |a: bool, b: bool| {
        let ops = vec![unary(OpType::ReLU, a), unary(OpType::Tanh, b)];
        validate_fusion_legality_detailed(&boundary, &ops)
    };
    let clash = legal(true, true);
    assert!(!clash.is_legal);
    assert_eq!(clash.violations, vec!["In-place conflict between op 0 and op 1".to_string()]);
    assert!(legal(true, false).is_legal);
    assert!(legal(false, true).is_legal);
    assert!(legal(false, false).is_legal);
}

#[test]
fn rules_hold_the_reciprocal_root() {
    let rules = EgraphFusionExplorer::rewrite_rules();
    assert_eq!(rules.len(), 13);
    let texts: Vec<(String, String)> =
        rules.iter().map(|r| (r.lhs.to_text(), r.rhs.to_text())).collect();
    let root = ("(div ?a (sqrt ?b))".to_string(), "(mul ?a (rsqrt ?b))".to_string());
    assert!(texts.contains(&root));
}

#[test]
fn expressions_name_their_operands() {
    let text = |ops: &[FusionOp]| EgraphFusionExplorer::build_expr_string(ops);
    assert_eq!(text(&matmul_bias_relu()), "(relu (add (matmul ?a ?b) ?bias))");
    let exp = op(OpType::Exp, vec![4], vec![vec![4]], DType::FP32);
    assert_eq!(text(&[exp.clone()]), "(exp ?input)");
    let relu = op(OpType::ReLU, vec![4], vec![vec![4]], DType::FP32);
    assert_eq!(text(&[exp, relu]), "(relu (exp ?input))");
}

#[test]
fn any_computation_overlaps_communication() {
    let engine = FusionEngine::new();
    let of = |ts: &[OpType]| -> Vec<FusionOp> {
        ts.iter().map(|t| op(*t, vec![64, 64], vec![vec![64, 64]], DType::FP32)).collect()
    };
    for t in [OpType::Transpose, OpType::Exp, OpType::MatMul] {
        assert_eq!(
            engine.classify_pattern(&of(&[OpType::AllReduce, t])),
            Some(FusionPattern::CommunicationComputeOverlap)
        );
    }
    // An unknown operation fuses with nothing.
    for ts in [
        &[OpType::AllReduce, OpType::Custom][..],
        &[OpType::LayerNorm, OpType::Add, OpType::Custom],
        &[OpType::MatMul, OpType::ReLU, OpType::Custom],
    ] {
        assert_eq!(engine.classify_pattern(&of(ts)), None);
    }
    // Behind a normalized sum, and behind a product and its activation, stands an activation.
    let classify = |ts: &[OpType]| engine.classify_pattern(&of(ts));
    assert_eq!(
        classify(&[OpType::LayerNorm, OpType::Add, OpType::GELU]),
        Some(FusionPattern::NormResidualActivation)
    );
    assert_ne!(
        classify(&[OpType::LayerNorm, OpType::Add, OpType::Transpose]),
        Some(FusionPattern::NormResidualActivation)
    );
    assert_ne!(
        classify(&[OpType::MatMul, OpType::ReLU, OpType::Transpose]),
        Some(FusionPattern::MatMulBiasReLU)
    );
}

#[test]
fn boundaries_hold_their_places_in_order() {
    let b = FusionBoundary::new(
        vec![2, 0, 1],
        FusionPattern::ElementwiseChain,
        -5,
        bits(1.0),
        bits(0.5),
    );
    assert_eq!(b.op_indices, vec![0, 1, 2]);
    assert_eq!(b.memory_traffic_savings_bytes, 0);
}

#[test]
fn alternatives_name_each_fusion_once() {
    let engine = FusionEngine::new();
    let mut ops = matmul_bias_relu();
    ops.extend(matmul_bias_relu());
    let s = speedups(&engine.fusion_alternatives(&ops));
    let found = engine.propose_fusion_alternatives(&ops, &s);
    for i in 0..found.len() {
        for j in 0..i {
            assert!(!found[i].is_same_fusion(&found[j]));
        }
    }
}

const ALL_OPS: [OpType; 32] = [
    OpType::MatMul,
    OpType::BatchMatMul,
    OpType::Add,
    OpType::Mul,
    OpType::Sub,
    OpType::Div,
    OpType::ReLU,
    OpType::GELU,
    OpType::Sigmoid,
    OpType::Tanh,
    OpType::SiLU,
    OpType::LayerNorm,
    OpType::RMSNorm,
    OpType::Softmax,
    OpType::LogSoftmax,
    OpType::Transpose,
    OpType::Reshape,
    OpType::Broadcast,
    OpType::Permute,
    OpType::Concat,
    OpType::Slice,
    OpType::Reduce,
    OpType::ArgMax,
    OpType::Exp,
    OpType::Sqrt,
    OpType::Reciprocal,
    OpType::Neg,
    OpType::Abs,
    OpType::AllReduce,
    OpType::AllGather,
    OpType::ReduceScatter,
    OpType::Custom,
];

#[test]
fn operation_names_are_distinct() {
    for (i, a) in ALL_OPS.iter().enumerate() {
        assert!(!a.name().is_empty());
        assert!(a.name().chars().all(|c| c.is_ascii_lowercase() || c == '_'));
        for (j, b) in ALL_OPS.iter().enumerate() {
            assert_eq!(a.name() == b.name(), i == j);
        }
    }
    assert_eq!(OpType::LayerNorm.name(), "layer_norm");
    assert_eq!(OpType::ArgMax.name(), "argmax");
    assert_eq!(OpType::ReduceScatter.name(), "reduce_scatter");
}

#[test]
fn operation_classes_do_not_overlap() {
    let mut unclassed = Vec::new();
    for t in ALL_OPS {
        let classes = [
            t.is_elementwise(),
            t.is_normalization(),
            t.is_structural(),
            t.is_communication(),
        ];
        let count = classes.iter().filter(|c| **c).count();
        assert!(count <= 1);
        assert!(!t.is_activation() || t.is_elementwise());
        if count == 0 {
            unclassed.push(t);
        }
    }
    assert_eq!(
        unclassed,
        vec![
            OpType::MatMul,
            OpType::BatchMatMul,
            OpType::Softmax,
            OpType::LogSoftmax,
            OpType::Reduce,
            OpType::ArgMax,
            OpType::Custom,
        ]
    );
}

#[test]
fn tensor_sizes_saturate() {
    assert_eq!(shape_memory_bytes(&vec![], DType::FP32), 4);
    assert_eq!(shape_memory_bytes(&vec![0, i64::MAX, 9], DType::FP32), 0);
    assert_eq!(shape_memory_bytes(&vec![i64::MAX / 4], DType::FP32), i64::MAX - 3);
    assert_eq!(shape_memory_bytes(&vec![i64::MAX / 4 + 1], DType::FP32), i64::MAX);
    assert_eq!(shape_memory_bytes(&vec![i64::MAX, i64::MAX], DType::INT8), i64::MAX);
}

#[test]
fn symbolic_dimensions_count_as_one() {
    let inputs = vec![vec![-1, 8]];
    let dynamic = FusionOp::with_dynamic_shape(
        OpType::Add,
        vec![-1, 8],
        inputs.clone(),
        DType::FP32,
        false,
    );
    let known = FusionOp::new(OpType::Add, vec![1, 8], inputs.clone(), DType::FP32, false);
    assert_eq!(dynamic.memory_bytes, known.memory_bytes);
    assert_eq!(dynamic.memory_bytes, 32);
    assert_eq!(dynamic.output_shape, vec![-1, 8]);
    assert_eq!(dynamic.input_shapes, inputs);
    let same = FusionOp::with_dynamic_shape(
        OpType::Add,
        vec![1, 8],
        inputs.clone(),
        DType::FP32,
        false,
    );
    assert_eq!(same.output_shape, known.output_shape);
    assert_eq!(same.memory_bytes, known.memory_bytes);
}
