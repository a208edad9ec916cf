use symplex_engine::ffi::{
    build_profile_for_target, detect_simd_level_internal, hint_to_slot_bytes, parse_domain,
    parse_element_type, parse_target, poly_construct_adjoint, poly_optimize_specialized,
    poly_optimize_trace, poly_result, serialize_hints, sort_and_dedup, Adjoint, CpuFeatures,
    FfiElementType, FfiHardwareTarget, FfiPolyConfig, FfiPolyResult, FfiSimdLevel, FlashAttention,
    MicroKernelConfig, MixedPrecision, PolyBlock, SimdHintKind, StageResults, StreamDecoder,
};
use symplex_engine::types::{BinOpKind, Instr};

fn kernel() -> MicroKernelConfig {
    MicroKernelConfig {
        tile_m: 2,
        tile_n: 8,
        tile_k: 4,
        accumulator_registers: 12,
        prefetch_distance: 3,
        double_buffer_count: 2,
    }
}

fn all_off() -> FfiPolyConfig {
    let mut c = FfiPolyConfig::for_optimization();
    c.enable_flash_attention = false;
    c.enable_transcendental_fusion = false;
    c.enable_double_buffering = false;
    c.enable_mixed_precision = false;
    c.enable_ad = false;
    c
}

fn stages() -> StageResults {
    StageResults {
        flash: Some(FlashAttention {
            running_max_slot: 1,
            running_sum_slot: 2,
            accumulator_slot: 3,
            block_size: 64,
            tiles: vec![Instr::Nop],
        }),
        fusion: None,
        precision: MixedPrecision {
            storage_type: parse_element_type(0),
            accumulator_type: parse_element_type(0),
            pack: vec![],
        },
        adjoint: Some(Adjoint {
            slot_to_adjoint: vec![(4, 0x0105)],
            instrs: vec![Instr::Move(1, 2)],
        }),
    }
}

fn base() -> PolyBlock {
    PolyBlock { instrs: vec![Instr::LoadI64(0, 1), Instr::Return(0)], hints: vec![] }
}

#[test]
fn disabled_stages_leave_the_block() {
    let r = poly_optimize_trace(&all_off(), &kernel(), base(), stages());
    assert_eq!(r.instrs, base().instrs);
    assert!(r.hints.is_empty());
}

#[test]
fn stages_append_and_hints_are_tidied() {
    let mut c = all_off();
    c.enable_flash_attention = true;
    c.enable_ad = true;
    c.enable_double_buffering = true;
    let r = poly_optimize_trace(&c, &kernel(), base(), stages());
    assert_eq!(
        r.instrs,
        vec![Instr::LoadI64(0, 1), Instr::Return(0), Instr::Nop, Instr::Move(1, 2)]
    );
    // One hint for each place, the first that was given.
    let places: Vec<usize> = r.hints.iter().map(|h| h.0).collect();
    assert_eq!(places, vec![0, 2]);
    assert!(matches!(r.hints[0].1, SimdHintKind::OnlineSoftmaxReduction { block_size: 64, .. }));
    assert!(matches!(r.hints[1].1, SimdHintKind::AsyncPrefetch { slot: 0, distance: 3 }));
}

#[test]
fn specialised_blocks_swap_buffers() {
    let mut c = all_off();
    c.enable_double_buffering = true;
    let r = poly_optimize_specialized(&c, &kernel(), base(), parse_element_type(0), None);
    assert_eq!(r.hints.len(), 1);
    assert!(matches!(
        r.hints[0].1,
        SimdHintKind::DoubleBufferSwap { buffer_a: 6000, buffer_b: 6001 }
    ));
}

#[test]
fn results_carry_the_kernel() {
    let r = poly_result(&base(), vec![1, 2, 3], &kernel(), FfiSimdLevel::AVX2FMA, 77);
    assert_eq!(r.optimized_instrs, vec![1, 2, 3]);
    assert_eq!(r.instr_count, 2);
    assert_eq!(r.hint_count, 0);
    assert!(r.success);
    assert_eq!((r.tile_m, r.tile_n, r.tile_k), (2, 8, 4));
    assert_eq!(r.estimated_gflops, 77);
    assert_eq!(r.simd_level, FfiSimdLevel::AVX2FMA.code());
    let empty = FfiPolyResult::default();
    assert!(!empty.success);
    assert_eq!(empty.instr_count, 0);
}

#[test]
fn adjoints_link_their_slots() {
    let a = Adjoint { slot_to_adjoint: vec![(4, 0x0105)], instrs: vec![Instr::Nop] };
    let r = poly_construct_adjoint(Some(&a), vec![7], &kernel(), FfiSimdLevel::SSE2);
    assert!(r.success);
    assert_eq!(r.optimized_instrs, vec![7]);
    assert_eq!(r.hint_count, 1);
    assert_eq!(r.instr_count, 1);
    assert_eq!(r.hints[..5], [15, 4, 0, 5, 1]);
    // Without a loop nest there is no gradient, and nothing stands in for it.
    let r = poly_construct_adjoint(None, vec![7], &kernel(), FfiSimdLevel::SSE2);
    assert!(!r.success);
    assert!(r.optimized_instrs.is_empty());
    assert_eq!(r.instr_count, 0);
    assert!(r.hints.is_empty());
}

#[test]
fn slots_stand_low_byte_first() {
    let h = SimdHintKind::AdjointAccumulate {
        forward_slot: 0x1234,
        adjoint_slot: 0x5678,
        op: BinOpKind::Add,
    };
    assert_eq!(hint_to_slot_bytes(&h), [0x34, 0x12, 0x78, 0x56, 0, 0]);
    let h = SimdHintKind::ForceRegisterLock { slot: 7, physical_reg: 3 };
    assert_eq!(hint_to_slot_bytes(&h), [7, 0, 3, 0, 0, 0]);
    let one = serialize_hints(&vec![(5, h)]);
    let two = serialize_hints(&vec![(5, h), (6, h)]);
    assert_eq!(two.len(), 2 * one.len());
    assert_eq!(two[..one.len()], one[..]);
}

#[test]
fn hints_keep_the_first_at_a_place() {
    let lock = SimdHintKind::ForceRegisterUnlock { slot: 1 };
    let r = sort_and_dedup(&vec![
        (9, SimdHintKind::RegisterLock),
        (2, lock),
        (9, SimdHintKind::Other),
        (2, SimdHintKind::Other),
    ]);
    assert_eq!(r.len(), 2);
    assert_eq!(r[0].0, 2);
    assert!(matches!(r[0].1, SimdHintKind::ForceRegisterUnlock { slot: 1 }));
    assert!(matches!(r[1].1, SimdHintKind::RegisterLock));
}

#[test]
fn numbers_are_parsed() {
    for raw in 0..=255u8 {
        let d = parse_domain(raw);
        let t = parse_target(raw);
        let e = parse_element_type(raw);
        if raw > 20 {
            assert_eq!(d, parse_domain(255));
            assert_eq!(t, parse_target(255));
            assert_eq!(e, parse_element_type(255));
        }
    }
    assert!(matches!(parse_element_type(0), FfiElementType::FP64));
    assert!(matches!(parse_element_type(1), FfiElementType::FP32));
    assert!(matches!(parse_element_type(6), FfiElementType::FP32));
    assert!(matches!(parse_target(0), FfiHardwareTarget::ServerX86));
    let p = build_profile_for_target(&parse_target(0));
    assert_eq!(p.peak_gflops, 3072);
    assert_eq!(p.mem_bandwidth_gb_per_sec, 200);
    assert!(p.l2_cache_bytes > p.l1_cache_bytes);
    assert!(FfiPolyConfig::for_adjoint().enable_ad);
    assert!(FfiPolyConfig::for_optimization().element_size() > 0);
}

#[test]
fn features_choose_the_level() {
    let mut cpu =
        CpuFeatures { avx512f: false, avx2: false, fma: false, avx: false, sse2: false };
    assert_eq!(detect_simd_level_internal(cpu), FfiSimdLevel::NoSimd);
    cpu.sse2 = true;
    assert_eq!(detect_simd_level_internal(cpu), FfiSimdLevel::SSE2);
    cpu.avx = true;
    assert_eq!(detect_simd_level_internal(cpu), FfiSimdLevel::AVX);
    cpu.avx2 = true;
    cpu.fma = true;
    assert_eq!(detect_simd_level_internal(cpu), FfiSimdLevel::AVX2FMA);
    cpu.avx512f = true;
    assert_eq!(detect_simd_level_internal(cpu), FfiSimdLevel::AVX512);
}

#[test]
fn decoding_stops_at_bad_bytes() {
    let data = [1u8, 2, 0xFE];
    let mut d = StreamDecoder::new();
    assert!(d.wants_more(&data));
    assert!(d.accept(&data, Some((Instr::Nop, 2))).is_ok());
    assert_eq!(d.offset, 2);
    let e = d.accept(&data, None).unwrap_err();
    assert_eq!(e, "Failed to deserialize instruction at offset 2 (byte: 0xfe)");
    assert_eq!(d.instrs, vec![Instr::Nop]);
    assert!(d.wants_more(&data));
}
