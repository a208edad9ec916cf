use symplex_engine::disasm::{dump_lines, dump_title};
use symplex_engine::simd_math::{
    detect_elementwise_loops, find_fusion_candidates, loop_prefetch, ElementwiseLoopInfo,
    ElementwiseOp, FusedLoopPair, PrefetchConfig,
};
use symplex_engine::types::{BinOpKind, Instr};

fn counted_loop(extra: Instr) -> Vec<Instr> {
    vec![
        Instr::LoadI64(1, 1),
        extra,
        Instr::BinOp(5, BinOpKind::Mul, 6, 7),
        Instr::BinOp(0, BinOpKind::Add, 0, 1),
        Instr::BinOp(3, BinOpKind::Lt, 0, 2),
        Instr::Jump(-6),
    ]
}

#[test]
fn counted_loops_are_found() {
    let loops = detect_elementwise_loops(&counted_loop(Instr::LoadF64(6, 0)));
    assert_eq!(
        loops,
        vec![ElementwiseLoopInfo {
            base_slot: 0,
            iv_slot: 0,
            bound_slot: 2,
            op: ElementwiseOp::Mul,
            element_stride: 8,
            loop_start: 0,
            loop_end: 5,
        }]
    );
}

#[test]
fn loops_without_a_bound_are_none() {
    let mut code = counted_loop(Instr::Nop);
    code[4] = Instr::Nop;
    assert!(detect_elementwise_loops(&code).is_empty());
    code = counted_loop(Instr::Nop);
    code[5] = Instr::Jump(3);
    assert!(detect_elementwise_loops(&code).is_empty());
    code[5] = Instr::Jump(-100);
    assert!(detect_elementwise_loops(&code).is_empty());
}

#[test]
fn larger_steps_widen_the_stride() {
    let mut code = counted_loop(Instr::Nop);
    code[0] = Instr::LoadI32(1, 4);
    assert_eq!(detect_elementwise_loops(&code)[0].element_stride, 16);
}

#[test]
fn loops_that_hand_over_are_paired() {
    let mut code = counted_loop(Instr::Store(9, 5));
    let mut second = counted_loop(Instr::Load(6, 9));
    second[2] = Instr::BinOp(5, BinOpKind::Add, 6, 7);
    code.extend(second);
    let loops = detect_elementwise_loops(&code);
    assert_eq!(loops.len(), 2);
    let pairs = find_fusion_candidates(&loops, &code);
    assert_eq!(
        pairs,
        vec![FusedLoopPair {
            first: 0,
            second: 1,
            intermediate_slot: 9,
            fused_op: ElementwiseOp::Fma,
        }]
    );
    let mut other = loops.clone();
    other[1].bound_slot = 77;
    assert!(find_fusion_candidates(&other, &code).is_empty());
}

#[test]
fn prefetch_goes_ahead_by_lines() {
    let mut c = PrefetchConfig::default();
    assert_eq!(loop_prefetch(16, &c), (16 + 128, Some(16 + 512)));
    c.emit_l2_prefetch = false;
    assert_eq!(loop_prefetch(-8, &c), (120, None));
}

#[test]
fn listing_shows_every_byte() {
    let code: Vec<u8> = (0..18).collect();
    let lines = dump_lines(&code);
    assert_eq!(lines.len(), 2);
    assert_eq!(lines[0], "  0000: 00 01 02 03 04 05 06 07 08 09 0a 0b 0c 0d 0e 0f ");
    assert_eq!(lines[1], "  0010: 10 11 ");
    assert_eq!(dump_title(18), "Generated 18 bytes of machine code:");
    assert!(dump_lines(&[]).is_empty());
    let long = dump_lines(&vec![0xABu8; 0x10010]);
    assert!(long[0x1000].starts_with("  10000: ab ab"));
}
