use symplex_engine::tracing_jit::{
    CompilationTier, CompiledTrace, Guard, GuardMask, NativeCode, PolymorphicInlineCache,
    TierManager, TierState, TierUpgrade, Trace, TraceCompiler, TraceInstruction, TraceRecorder,
    TracingJIT, ValueType,
};
use symplex_engine::types::{BinOpKind, Instr, UnOpKind, Value};

#[test]
fn test_value_type_classification() {
    assert_eq!(Value::I64(42).value_type(), ValueType::I64);
    assert_eq!(Value::I32(42).value_type(), ValueType::I64);
    assert_eq!(Value::I8(42).value_type(), ValueType::I64);
    assert_eq!(Value::U64(42).value_type(), ValueType::I64);
    assert_eq!(Value::F64(f64::to_bits(3.14)).value_type(), ValueType::F64);
    assert_eq!(Value::F32(f32::to_bits(3.14)).value_type(), ValueType::F32);
    assert_eq!(Value::Bool(true).value_type(), ValueType::Bool);
    assert_eq!(Value::Unit.value_type(), ValueType::Unit);
    assert_eq!(Value::Tensor(vec![]).value_type(), ValueType::Tensor);
    assert_eq!(
        Value::TensorFast(Box::new([])).value_type(),
        ValueType::Tensor
    );
}

#[test]
fn test_value_type_from_u8() {
    assert_eq!(ValueType::from(0u8), ValueType::I64);
    assert_eq!(ValueType::from(1u8), ValueType::F64);
    assert_eq!(ValueType::from(2u8), ValueType::Bool);
    assert_eq!(ValueType::from(3u8), ValueType::Unit);
    assert_eq!(ValueType::from(4u8), ValueType::Tensor);
    assert_eq!(ValueType::from(5u8), ValueType::F32);
    assert_eq!(ValueType::from(255u8), ValueType::Unknown);
    assert_eq!(ValueType::from(99u8), ValueType::Unknown);
}

#[test]
fn test_trace_recorder_basic() {
    let mut recorder = TraceRecorder::new();

    // No trace initially
    assert!(recorder.finish_recording().is_none());

    // Start recording
    recorder.start_recording(100);
    recorder.record_instruction(&Instr::LoadI64(0, 42), 100);
    recorder.record_instruction(&Instr::LoadI64(1, 10), 101);
    recorder.record_instruction(&Instr::BinOp(2, BinOpKind::Add, 0, 1), 102);
    recorder.record_instruction(&Instr::Return(2), 103);

    let trace_id = recorder.finish_recording();
    assert!(trace_id.is_some());
    assert_eq!(trace_id.unwrap(), 0);

    // Verify trace contents
    let trace = recorder.get_trace(0).unwrap();
    assert_eq!(trace.entry_pc, 100);
    assert_eq!(trace.instructions.len(), 4);
    assert_eq!(trace.id, 0);

    // Verify per-slot type specialization
    assert_eq!(trace.slot_types[0], Some(ValueType::I64));
    assert_eq!(trace.slot_types[1], Some(ValueType::I64));
    assert_eq!(trace.slot_types[2], Some(ValueType::I64));

    // Verify unboxed offsets
    assert!(trace.unboxed_slots[0].is_some());
    assert!(trace.unboxed_slots[1].is_some());
    assert!(trace.unboxed_slots[2].is_some());
}

#[test]
fn test_trace_recorder_float_specialization() {
    let mut recorder = TraceRecorder::new();

    recorder.start_recording(200);
    recorder.record_instruction(&Instr::LoadF64(0, f64::to_bits(3.14)), 200);
    recorder.record_instruction(&Instr::LoadF64(1, f64::to_bits(2.72)), 201);
    recorder.record_instruction(&Instr::BinOp(2, BinOpKind::Add, 0, 1), 202);
    recorder.record_instruction(&Instr::Return(2), 203);

    let trace_id = recorder.finish_recording();
    assert!(trace_id.is_some());

    let trace = recorder.get_trace(trace_id.unwrap()).unwrap();
    assert_eq!(trace.slot_types[0], Some(ValueType::F64));
    assert_eq!(trace.slot_types[1], Some(ValueType::F64));
    assert_eq!(trace.slot_types[2], Some(ValueType::F64));
    assert_eq!(trace.specialized_type, Some(ValueType::F64));
}

#[test]
fn test_trace_recorder_mixed_types() {
    let mut recorder = TraceRecorder::new();

    recorder.start_recording(300);
    recorder.record_instruction(&Instr::LoadI64(0, 42), 300);
    recorder.record_instruction(&Instr::LoadF64(1, f64::to_bits(3.14)), 301);
    recorder.record_instruction(&Instr::BinOp(2, BinOpKind::Add, 0, 1), 302);
    recorder.record_instruction(&Instr::Return(2), 303);

    let trace_id = recorder.finish_recording();
    assert!(trace_id.is_some());

    let trace = recorder.get_trace(trace_id.unwrap()).unwrap();
    assert_eq!(trace.slot_types[0], Some(ValueType::I64));
    assert_eq!(trace.slot_types[1], Some(ValueType::F64));
    // BinOp with mixed float operand produces F64
    assert_eq!(trace.slot_types[2], Some(ValueType::F64));
    // Not all same type
    assert_eq!(trace.specialized_type, None);
}

#[test]
fn test_trace_recorder_comparison_produces_bool() {
    let mut recorder = TraceRecorder::new();

    recorder.start_recording(400);
    recorder.record_instruction(&Instr::LoadI64(0, 42), 400);
    recorder.record_instruction(&Instr::LoadI64(1, 10), 401);
    recorder.record_instruction(&Instr::BinOp(2, BinOpKind::Lt, 0, 1), 402);
    recorder.record_instruction(&Instr::Return(2), 403);

    let trace_id = recorder.finish_recording();
    let trace = recorder.get_trace(trace_id.unwrap()).unwrap();
    assert_eq!(trace.slot_types[2], Some(ValueType::Bool));
}

#[test]
fn test_trace_recorder_abort() {
    let mut recorder = TraceRecorder::new();

    recorder.start_recording(500);
    recorder.record_instruction(&Instr::LoadI64(0, 1), 500);
    recorder.abort_recording();

    assert!(recorder.finish_recording().is_none());
}

#[test]
fn test_trace_recorder_max_length() {
    let mut recorder = TraceRecorder::with_max_trace_length(4);

    recorder.start_recording(600);
    for i in 0..5 {
        recorder.record_instruction(&Instr::LoadI64(0, i), (600 + i) as usize);
    }
    assert!(recorder.should_abort_trace());
}

#[test]
fn test_guard_recording() {
    let mut recorder = TraceRecorder::new();

    recorder.start_recording(700);
    recorder.record_instruction(&Instr::LoadI64(0, 42), 700);
    recorder.record_guard(0, ValueType::I64);
    recorder.record_instruction(&Instr::Return(0), 701);

    let trace_id = recorder.finish_recording();
    let trace = recorder.get_trace(trace_id.unwrap()).unwrap();
    assert_eq!(trace.guards.len(), 1);
    assert_eq!(trace.guards[0].slot, 0);
    assert_eq!(trace.guards[0].expected_type, ValueType::I64);
    // Guard should be attached to the last instruction before it
    assert!(trace.instructions[0].guard.is_some());
}

#[test]
fn test_side_exit_recording() {
    let mut recorder = TraceRecorder::new();

    recorder.start_recording(800);
    recorder.record_instruction(&Instr::LoadI64(0, 42), 800);
    recorder.record_side_exit(100, true, Some(5));
    recorder.record_instruction(&Instr::Return(0), 801);

    let trace_id = recorder.finish_recording();
    let trace = recorder.get_trace(trace_id.unwrap()).unwrap();
    assert_eq!(trace.side_exits.len(), 1);
    assert_eq!(trace.side_exits[0].fallback_pc, 100);
    assert!(trace.side_exits[0].is_loop_exit);
    assert_eq!(trace.side_exits[0].target_trace_id, Some(5));
}

#[test]
fn test_polymorphic_inline_cache() {
    let mut pic = PolymorphicInlineCache::new(4);

    pic.add_side_exit(0, ValueType::F64, 10);
    pic.add_side_exit(1, ValueType::Bool, 20);

    assert_eq!(pic.lookup(0, ValueType::F64), Some(10));
    assert_eq!(pic.lookup(1, ValueType::Bool), Some(20));
    assert_eq!(pic.lookup(0, ValueType::Bool), None);
}

#[test]
fn test_polymorphic_inline_cache_max_entries() {
    let mut pic = PolymorphicInlineCache::new(2);

    pic.add_side_exit(0, ValueType::F64, 10);
    pic.add_side_exit(1, ValueType::Bool, 20);
    // This should be rejected (max entries = 2)
    pic.add_side_exit(2, ValueType::I64, 30);

    assert_eq!(pic.len(), 2);
    assert_eq!(pic.lookup(2, ValueType::I64), None);
}

#[test]
fn test_tracing_jit_hot_counters() {
    let mut jit = TracingJIT::new();

    assert_eq!(jit.hot_count(100), 0);

    let count = jit.increment_hot_counter(100);
    assert_eq!(count, 1);

    let count = jit.increment_hot_counter(100);
    assert_eq!(count, 2);
}

#[test]
fn test_tracing_jit_should_start_tracing() {
    let jit = TracingJIT::with_triggers(4, 2);

    assert!(!jit.should_start_tracing(3));
    assert!(jit.should_start_tracing(4));
    assert!(jit.should_start_tracing(100));
}

#[test]
fn test_tracing_jit_should_compile() {
    let jit = TracingJIT::with_triggers(4, 2);

    let mut trace = Trace {
        id: 0,
        entry_pc: 100,
        instructions: vec![],
        guards: vec![],
        side_exits: vec![],
        execution_count: 1,
        next_label_id: 1,
        specialized_type: None,
        unboxed_slots: vec![],
        slot_types: vec![],
        guard_mask: GuardMask::new(),
    };
    assert!(!jit.should_compile(&trace));

    trace.execution_count = 2;
    assert!(jit.should_compile(&trace));
}

#[test]
fn test_compilation_tier() {
    let mut jit = TracingJIT::new();
    assert_eq!(jit.tier(), CompilationTier::LinearScan);

    jit.set_tier(CompilationTier::Optimized);
    assert_eq!(jit.tier(), CompilationTier::Optimized);

    jit.set_tier(CompilationTier::Stencil);
    assert_eq!(jit.tier(), CompilationTier::Stencil);
}

#[test]
fn test_constant_folding_add() {
    let compiler = TraceCompiler::new();
    let instrs = vec![
        TraceInstruction { original_pc: 0, instruction: Instr::LoadI64(0, 10), guard: None },
        TraceInstruction { original_pc: 1, instruction: Instr::LoadI64(1, 20), guard: None },
        TraceInstruction { original_pc: 2, instruction: Instr::BinOp(2, BinOpKind::Add, 0, 1), guard: None },
    ];

    let optimized = compiler.optimize_trace(&instrs);
    assert_eq!(optimized.len(), 3);
    // The BinOp should be folded into LoadI64(2, 30)
    assert!(matches!(optimized[2].instruction, Instr::LoadI64(2, 30)));
}

#[test]
fn test_constant_folding_mul() {
    let compiler = TraceCompiler::new();
    let instrs = vec![
        TraceInstruction { original_pc: 0, instruction: Instr::LoadI64(0, 6), guard: None },
        TraceInstruction { original_pc: 1, instruction: Instr::LoadI64(1, 7), guard: None },
        TraceInstruction { original_pc: 2, instruction: Instr::BinOp(2, BinOpKind::Mul, 0, 1), guard: None },
    ];

    let optimized = compiler.optimize_trace(&instrs);
    assert!(matches!(optimized[2].instruction, Instr::LoadI64(2, 42)));
}

#[test]
fn test_constant_folding_no_fold() {
    let compiler = TraceCompiler::new();
    let instrs = vec![
        TraceInstruction { original_pc: 0, instruction: Instr::LoadI64(0, 10), guard: None },
        // Slot 1 is not a constant load
        TraceInstruction { original_pc: 1, instruction: Instr::BinOp(2, BinOpKind::Add, 0, 1), guard: None },
    ];

    let optimized = compiler.optimize_trace(&instrs);
    assert_eq!(optimized.len(), 2);
    // BinOp should NOT be folded (slot 1 is unknown)
    assert!(matches!(optimized[1].instruction, Instr::BinOp(2, BinOpKind::Add, 0, 1)));
}

#[test]
fn test_detect_guard_failure() {
    let trace = Trace {
        id: 0,
        entry_pc: 100,
        instructions: vec![],
        guards: vec![
            Guard { slot: 0, expected_type: ValueType::I64 },
            Guard { slot: 1, expected_type: ValueType::F64 },
        ],
        side_exits: vec![],
        execution_count: 0,
        next_label_id: 1,
        specialized_type: None,
        unboxed_slots: vec![],
        slot_types: vec![],
        guard_mask: GuardMask::new(),
    };

    // Guard 0 expects I64, we pass F64 -> failure on slot 0
    let args = vec![Value::F64(f64::to_bits(3.14)), Value::F64(f64::to_bits(2.72))];
    let failure = TracingJIT::detect_guard_failure(&trace, &args);
    assert!(failure.is_some());
    let (slot, vtype) = failure.unwrap();
    assert_eq!(slot, 0);
    assert_eq!(vtype, ValueType::F64);

    // Both guards pass
    let args = vec![Value::I64(42), Value::F64(f64::to_bits(3.14))];
    let failure = TracingJIT::detect_guard_failure(&trace, &args);
    assert!(failure.is_none());
}

#[test]
fn test_unboxed_size() {
    assert_eq!(TraceRecorder::unboxed_size(ValueType::I64), 8);
    assert_eq!(TraceRecorder::unboxed_size(ValueType::F64), 8);
    assert_eq!(TraceRecorder::unboxed_size(ValueType::F32), 4); // native bit-width
    assert_eq!(TraceRecorder::unboxed_size(ValueType::Bool), 1);
}

#[test]
fn test_unboxed_align() {
    assert_eq!(TraceRecorder::unboxed_align(ValueType::I64), 8);
    assert_eq!(TraceRecorder::unboxed_align(ValueType::F64), 8);
    assert_eq!(TraceRecorder::unboxed_align(ValueType::F32), 4);
    assert_eq!(TraceRecorder::unboxed_align(ValueType::Bool), 1);
}

#[test]
fn test_is_unboxable() {
    assert!(TraceRecorder::is_unboxable(ValueType::I64));
    assert!(TraceRecorder::is_unboxable(ValueType::F64));
    assert!(TraceRecorder::is_unboxable(ValueType::F32));
    assert!(TraceRecorder::is_unboxable(ValueType::Bool));
    assert!(!TraceRecorder::is_unboxable(ValueType::Unit));
    assert!(!TraceRecorder::is_unboxable(ValueType::Tensor));
    assert!(!TraceRecorder::is_unboxable(ValueType::Unknown));
}

#[test]
fn test_move_propagates_type() {
    let mut recorder = TraceRecorder::new();

    recorder.start_recording(900);
    recorder.record_instruction(&Instr::LoadF64(0, f64::to_bits(3.14)), 900);
    recorder.record_instruction(&Instr::Move(1, 0), 901);
    recorder.record_instruction(&Instr::Return(1), 902);

    let trace_id = recorder.finish_recording();
    let trace = recorder.get_trace(trace_id.unwrap()).unwrap();
    // Move should propagate F64 from slot 0 to slot 1
    assert_eq!(trace.slot_types[0], Some(ValueType::F64));
    assert_eq!(trace.slot_types[1], Some(ValueType::F64));
}

// ── Phase 1: Value Numbering Tests ────────────────────────────────

#[test]
fn test_value_numbering_cse() {
    let mut recorder = TraceRecorder::new();
    recorder.start_recording(1000);
    // Load x and y into slots 0, 1
    recorder.record_instruction(&Instr::LoadI64(0, 10), 1000);
    recorder.record_instruction(&Instr::LoadI64(1, 20), 1001);
    // First Add(2, Add, 0, 1) should be recorded as-is
    recorder.record_instruction(&Instr::BinOp(2, BinOpKind::Add, 0, 1), 1002);
    // Second identical Add(3, Add, 0, 1) should be replaced with Move(3, 2)
    recorder.record_instruction(&Instr::BinOp(3, BinOpKind::Add, 0, 1), 1003);
    recorder.record_instruction(&Instr::Return(2), 1004);

    let trace_id = recorder.finish_recording();
    let trace = recorder.get_trace(trace_id.unwrap()).unwrap();
    assert_eq!(trace.instructions.len(), 5);
    // First BinOp recorded as-is
    assert!(matches!(trace.instructions[2].instruction, Instr::BinOp(2, BinOpKind::Add, 0, 1)));
    // Second BinOp should be replaced with Move
    assert!(matches!(trace.instructions[3].instruction, Instr::Move(3, 2)));
}

#[test]
fn test_algebraic_identity_add_zero() {
    let mut recorder = TraceRecorder::new();
    recorder.start_recording(1100);
    recorder.record_instruction(&Instr::LoadI64(0, 42), 1100);
    recorder.record_instruction(&Instr::LoadI64(1, 0), 1101); // zero
    // x + 0 → Move(2, 0)
    recorder.record_instruction(&Instr::BinOp(2, BinOpKind::Add, 0, 1), 1102);
    // 0 + x → Move(3, 0)
    recorder.record_instruction(&Instr::BinOp(3, BinOpKind::Add, 1, 0), 1103);
    recorder.record_instruction(&Instr::Return(2), 1104);

    let trace_id = recorder.finish_recording();
    let trace = recorder.get_trace(trace_id.unwrap()).unwrap();
    assert!(matches!(trace.instructions[2].instruction, Instr::Move(2, 0)));
    assert!(matches!(trace.instructions[3].instruction, Instr::Move(3, 0)));
}

#[test]
fn test_algebraic_identity_mul_one() {
    let mut recorder = TraceRecorder::new();
    recorder.start_recording(1200);
    recorder.record_instruction(&Instr::LoadI64(0, 42), 1200);
    recorder.record_instruction(&Instr::LoadI64(1, 1), 1201); // one
    // x * 1 → Move(2, 0)
    recorder.record_instruction(&Instr::BinOp(2, BinOpKind::Mul, 0, 1), 1202);
    recorder.record_instruction(&Instr::Return(2), 1203);

    let trace_id = recorder.finish_recording();
    let trace = recorder.get_trace(trace_id.unwrap()).unwrap();
    assert!(matches!(trace.instructions[2].instruction, Instr::Move(2, 0)));
}

#[test]
fn test_algebraic_identity_mul_zero() {
    let mut recorder = TraceRecorder::new();
    recorder.start_recording(1300);
    recorder.record_instruction(&Instr::LoadI64(0, 42), 1300);
    recorder.record_instruction(&Instr::LoadI64(1, 0), 1301); // zero
    // x * 0 → LoadI64(2, 0)
    recorder.record_instruction(&Instr::BinOp(2, BinOpKind::Mul, 0, 1), 1302);
    recorder.record_instruction(&Instr::Return(2), 1303);

    let trace_id = recorder.finish_recording();
    let trace = recorder.get_trace(trace_id.unwrap()).unwrap();
    assert!(matches!(trace.instructions[2].instruction, Instr::LoadI64(2, 0)));
}

#[test]
fn test_algebraic_identity_xor_self() {
    let mut recorder = TraceRecorder::new();
    recorder.start_recording(1400);
    recorder.record_instruction(&Instr::LoadI64(0, 42), 1400);
    // x ^ x → LoadI64(1, 0)
    recorder.record_instruction(&Instr::BinOp(1, BinOpKind::BitXor, 0, 0), 1401);
    recorder.record_instruction(&Instr::Return(1), 1402);

    let trace_id = recorder.finish_recording();
    let trace = recorder.get_trace(trace_id.unwrap()).unwrap();
    assert!(matches!(trace.instructions[1].instruction, Instr::LoadI64(1, 0)));
}

#[test]
fn test_algebraic_identity_or_self() {
    let mut recorder = TraceRecorder::new();
    recorder.start_recording(1500);
    recorder.record_instruction(&Instr::LoadI64(0, 42), 1500);
    // x | x → Move(1, 0)
    recorder.record_instruction(&Instr::BinOp(1, BinOpKind::BitOr, 0, 0), 1501);
    recorder.record_instruction(&Instr::Return(1), 1502);

    let trace_id = recorder.finish_recording();
    let trace = recorder.get_trace(trace_id.unwrap()).unwrap();
    assert!(matches!(trace.instructions[1].instruction, Instr::Move(1, 0)));
}

#[test]
fn test_algebraic_identity_and_self() {
    let mut recorder = TraceRecorder::new();
    recorder.start_recording(1600);
    recorder.record_instruction(&Instr::LoadI64(0, 42), 1600);
    // x & x → Move(1, 0)
    recorder.record_instruction(&Instr::BinOp(1, BinOpKind::BitAnd, 0, 0), 1601);
    recorder.record_instruction(&Instr::Return(1), 1602);

    let trace_id = recorder.finish_recording();
    let trace = recorder.get_trace(trace_id.unwrap()).unwrap();
    assert!(matches!(trace.instructions[1].instruction, Instr::Move(1, 0)));
}

#[test]
fn test_algebraic_identity_sub_zero() {
    let mut recorder = TraceRecorder::new();
    recorder.start_recording(1700);
    recorder.record_instruction(&Instr::LoadI64(0, 42), 1700);
    recorder.record_instruction(&Instr::LoadI64(1, 0), 1701); // zero
    // x - 0 → Move(2, 0)
    recorder.record_instruction(&Instr::BinOp(2, BinOpKind::Sub, 0, 1), 1702);
    recorder.record_instruction(&Instr::Return(2), 1703);

    let trace_id = recorder.finish_recording();
    let trace = recorder.get_trace(trace_id.unwrap()).unwrap();
    assert!(matches!(trace.instructions[2].instruction, Instr::Move(2, 0)));
}

#[test]
fn test_value_cache_cleared_at_barrier() {
    let mut recorder = TraceRecorder::new();
    recorder.start_recording(1800);
    recorder.record_instruction(&Instr::LoadI64(0, 10), 1800);
    recorder.record_instruction(&Instr::LoadI64(1, 20), 1801);
    recorder.record_instruction(&Instr::BinOp(2, BinOpKind::Add, 0, 1), 1802);
    // Control flow barrier: value_cache should be cleared
    recorder.record_instruction(&Instr::Return(2), 1803);
    // This is a new recording after the barrier, but since Return ends the trace,
    // we need to test the value_cache clearing differently.
    // Let's use Jump instead.
    let mut recorder2 = TraceRecorder::new();
    recorder2.start_recording(1900);
    recorder2.record_instruction(&Instr::LoadI64(0, 10), 1900);
    recorder2.record_instruction(&Instr::LoadI64(1, 20), 1901);
    recorder2.record_instruction(&Instr::BinOp(2, BinOpKind::Add, 0, 1), 1902);
    // Jump acts as a barrier — value_cache is cleared
    recorder2.record_instruction(&Instr::Jump(0), 1903);
    // After Jump, the same BinOp should NOT be CSE'd (cache was cleared)
    recorder2.record_instruction(&Instr::BinOp(3, BinOpKind::Add, 0, 1), 1904);
    recorder2.record_instruction(&Instr::Return(3), 1905);

    let trace_id = recorder2.finish_recording();
    let trace = recorder2.get_trace(trace_id.unwrap()).unwrap();
    // The BinOp after Jump should NOT be replaced with Move (cache was cleared)
    assert!(matches!(trace.instructions[4].instruction, Instr::BinOp(3, BinOpKind::Add, 0, 1)));
}

// ── Phase 1: GuardMask Tests ──────────────────────────────────────

#[test]
fn test_guard_mask_basic() {
    let mut mask = GuardMask::new();
    assert!(mask.is_empty());
    assert_eq!(mask.mask(), 0);

    let bit0 = mask.add_type_guard(0, ValueType::I64);
    assert_eq!(bit0, 0);
    assert_eq!(mask.mask(), 1);

    let bit1 = mask.add_type_guard(1, ValueType::F64);
    assert_eq!(bit1, 1);
    assert_eq!(mask.mask(), 3); // bits 0 and 1 set

    assert_eq!(mask.len(), 2);
    assert_eq!(mask.invariants(), &[(0u16, ValueType::I64), (1u16, ValueType::F64)]);
}

#[test]
fn test_guard_mask_dedup() {
    let mut mask = GuardMask::new();
    let bit0 = mask.add_type_guard(0, ValueType::I64);
    let bit1 = mask.add_type_guard(0, ValueType::I64); // duplicate
    assert_eq!(bit0, bit1); // same bit position
    assert_eq!(mask.len(), 1);
}

#[test]
fn test_guard_mask_consolidated_in_trace() {
    let mut recorder = TraceRecorder::new();
    recorder.start_recording(2000);
    recorder.record_instruction(&Instr::LoadI64(0, 42), 2000);
    recorder.record_guard(0, ValueType::I64);
    recorder.record_instruction(&Instr::LoadF64(1, f64::to_bits(3.14)), 2001);
    recorder.record_guard(1, ValueType::F64);
    recorder.record_instruction(&Instr::Return(0), 2002);

    let trace_id = recorder.finish_recording();
    let trace = recorder.get_trace(trace_id.unwrap()).unwrap();
    // GuardMask should be populated from guards in finish_recording
    assert_eq!(trace.guard_mask.len(), 2);
    assert_eq!(trace.guard_mask.mask(), 3); // bits 0 and 1
    assert_eq!(trace.guard_mask.invariants()[0], (0u16, ValueType::I64));
    assert_eq!(trace.guard_mask.invariants()[1], (1u16, ValueType::F64));
}

#[test]
fn test_emit_guard_mask_check() {
    let mut recorder = TraceRecorder::new();
    recorder.start_recording(2100);
    recorder.record_instruction(&Instr::LoadI64(0, 42), 2100);
    recorder.record_guard(0, ValueType::I64);
    recorder.record_instruction(&Instr::LoadF64(1, f64::to_bits(3.14)), 2101);
    recorder.record_guard(1, ValueType::F64);
    recorder.record_instruction(&Instr::Return(0), 2102);

    let trace_id = recorder.finish_recording();
    let trace = recorder.get_trace(trace_id.unwrap()).unwrap();

    let compiler = TraceCompiler::new();
    let summary = compiler.emit_guard_mask_check(trace);
    assert!(summary.is_some());
    let s = summary.unwrap();
    assert_eq!(s.mask, 3); // bits 0 and 1
    assert_eq!(s.invariant_count, 2);
    assert_eq!(s.invariant_slots, vec![0u16, 1u16]);
}

#[test]
fn test_emit_guard_mask_check_no_guards() {
    let mut recorder = TraceRecorder::new();
    recorder.start_recording(2200);
    recorder.record_instruction(&Instr::LoadI64(0, 42), 2200);
    recorder.record_instruction(&Instr::Return(0), 2201);

    let trace_id = recorder.finish_recording();
    let trace = recorder.get_trace(trace_id.unwrap()).unwrap();

    let compiler = TraceCompiler::new();
    let summary = compiler.emit_guard_mask_check(trace);
    assert!(summary.is_none());
}

fn empty_trace(id: u32, execution_count: u64) -> Trace {
    Trace {
        id,
        entry_pc: 7,
        instructions: vec![
            TraceInstruction {
                original_pc: 0,
                instruction: Instr::LoadI64(0, 10),
                guard: None,
            },
            TraceInstruction { original_pc: 1, instruction: Instr::Return(0), guard: None },
        ],
        guards: vec![],
        side_exits: vec![],
        execution_count,
        next_label_id: 1,
        specialized_type: None,
        unboxed_slots: vec![],
        slot_types: vec![],
        guard_mask: GuardMask::new(),
    }
}

#[test]
fn codes_and_types_round_trip() {
    for t in [
        ValueType::I64,
        ValueType::F64,
        ValueType::Bool,
        ValueType::Unit,
        ValueType::Tensor,
        ValueType::F32,
        ValueType::Unknown,
    ] {
        assert_eq!(ValueType::from(t.code()), t);
    }
    for v in 6..=255u8 {
        assert_eq!(ValueType::from(v), ValueType::Unknown);
    }
}

#[test]
fn finished_traces_are_found() {
    let mut recorder = TraceRecorder::new();
    recorder.start_recording(40);
    recorder.record_instruction(&Instr::LoadI64(0, 1), 40);
    let id = recorder.finish_recording().unwrap();
    assert_eq!(recorder.find_trace(40), Some(id));
    assert_eq!(recorder.find_trace(41), None);
    assert_eq!(recorder.get_trace(id).unwrap().entry_pc, 40);
    recorder.get_trace_mut(id).unwrap().execution_count = 9;
    assert_eq!(recorder.get_trace(id).unwrap().execution_count, 9);
    assert_eq!(recorder.reserve_trace_id(), id + 1);
}

#[test]
fn traces_are_fetched_by_number() {
    let mut recorder = TraceRecorder::new();
    recorder.start_recording(10);
    recorder.abort_recording();
    recorder.start_recording(20);
    assert_eq!(recorder.finish_recording(), Some(1));
    assert!(recorder.get_trace(0).is_none());
    assert!(recorder.get_trace_mut(0).is_none());
    let t = recorder.get_trace(1).unwrap();
    assert_eq!((t.id, t.entry_pc), (1, 20));
    recorder.get_trace_mut(1).unwrap().execution_count = 3;
    assert_eq!(recorder.get_trace(1).unwrap().execution_count, 3);
    assert_eq!(recorder.find_trace(10), None);
    recorder.reserve_trace_id();
    recorder.start_recording(30);
    assert_eq!(recorder.finish_recording(), Some(3));
    assert_eq!(recorder.get_trace(3).unwrap().entry_pc, 30);
    assert_eq!(recorder.get_trace(1).unwrap().entry_pc, 20);
}

#[test]
fn unboxed_places_are_aligned_and_apart() {
    let mut recorder = TraceRecorder::new();
    recorder.start_recording(1);
    recorder.record_instruction(&Instr::LoadBool(0, true), 1);
    recorder.record_instruction(&Instr::LoadI64(1, 5), 2);
    recorder.record_instruction(&Instr::LoadUnit(2), 3);
    recorder.record_instruction(&Instr::LoadF32(3, f32::to_bits(1.5)), 4);
    let id = recorder.finish_recording().unwrap();
    let t = recorder.get_trace(id).unwrap();
    assert_eq!(t.unboxed_slots, vec![Some(0), Some(8), None, Some(16)]);
    assert_eq!(t.specialized_type, None);
}

#[test]
fn folding_wraps_and_divides_like_the_operators() {
    let c = TraceCompiler::new();
    let fold = |op: BinOpKind, a: i64, b: i64| {
        let instrs = vec![
            TraceInstruction { original_pc: 0, instruction: Instr::LoadI64(0, a), guard: None },
            TraceInstruction { original_pc: 1, instruction: Instr::LoadI64(1, b), guard: None },
            TraceInstruction {
                original_pc: 2,
                instruction: Instr::BinOp(2, op, 0, 1),
                guard: None,
            },
        ];
        c.optimize_trace(&instrs)[2].instruction
    };
    assert_eq!(fold(BinOpKind::Add, i64::MAX, 1), Instr::LoadI64(2, i64::MIN));
    assert_eq!(fold(BinOpKind::Sub, 3, 10), Instr::LoadI64(2, -7));
    assert_eq!(fold(BinOpKind::Div, 7, 0), Instr::BinOp(2, BinOpKind::Div, 0, 1));
}

#[test]
fn folding_forgets_what_was_overwritten() {
    let c = TraceCompiler::new();
    let at = |pc: usize, instruction: Instr| TraceInstruction {
        original_pc: pc,
        instruction,
        guard: None,
    };
    for over in [
        Instr::Move(0, 5),
        Instr::UnOp(0, UnOpKind::Neg, 1),
        Instr::LoadF64(0, f64::to_bits(2.5)),
        Instr::BinOp(0, BinOpKind::Div, 0, 1),
    ] {
        let instrs = vec![
            at(0, Instr::LoadI64(0, 10)),
            at(1, Instr::LoadI64(1, 20)),
            at(2, over),
            at(3, Instr::BinOp(2, BinOpKind::Add, 0, 1)),
        ];
        let out = c.optimize_trace(&instrs);
        assert_eq!(out[3].instruction, Instr::BinOp(2, BinOpKind::Add, 0, 1));
    }
    let instrs = vec![
        at(0, Instr::LoadI64(0, 10)),
        at(1, Instr::LoadI64(1, 20)),
        at(2, Instr::LoadI64(0, 4)),
        at(3, Instr::BinOp(2, BinOpKind::Add, 0, 1)),
    ];
    assert_eq!(c.optimize_trace(&instrs)[3].instruction, Instr::LoadI64(2, 24));
}

#[test]
fn numbering_forgets_what_was_overwritten() {
    let sum = |d: u16| Instr::BinOp(d, BinOpKind::Add, 0, 1);
    let recorded = |instrs: &[Instr]| {
        let mut recorder = TraceRecorder::new();
        recorder.start_recording(0);
        for (pc, i) in instrs.iter().enumerate() {
            recorder.record_instruction(i, pc);
        }
        let id = recorder.finish_recording().unwrap();
        let t = recorder.get_trace(id).unwrap();
        t.instructions.last().unwrap().instruction
    };
    let (a, b) = (Instr::LoadI64(0, 1), Instr::LoadI64(1, 2));
    // An operand has changed.
    assert_eq!(recorded(&[a, b, sum(2), Instr::LoadI64(0, 5), sum(3)]), sum(3));
    assert_eq!(recorded(&[a, b, sum(2), Instr::Move(1, 7), sum(3)]), sum(3));
    // The sum itself has changed its operand.
    assert_eq!(recorded(&[a, b, sum(0), sum(3)]), sum(3));
    // The value is gone.
    assert_eq!(recorded(&[a, b, sum(2), Instr::LoadI64(2, 9), sum(3)]), sum(3));
    // A zero that is no longer there.
    let zero = [Instr::LoadI64(1, 0), Instr::Move(1, 7), sum(3)];
    assert_eq!(recorded(&zero), sum(3));
    // What was left alone is known.
    assert_eq!(recorded(&[a, b, sum(2), Instr::LoadI64(4, 9), sum(3)]), Instr::Move(3, 2));
}

#[test]
fn tiers_rise_with_executions() {
    let mut m = TierManager::new();
    assert_eq!(m.hotness(3), 0);
    assert_eq!(m.current_tier(3), TierState::Tier1Baseline);
    for call in 1..=1200u64 {
        let expected = if call > 1000 {
            TierState::Tier4Global
        } else if call > 100 {
            TierState::Tier2Optimized
        } else {
            TierState::Tier1Baseline
        };
        assert_eq!(m.record_execution(3), expected);
    }
    assert_eq!(m.hotness(3), 1200);
    m.start_tier4_compilation(3);
    assert!(m.is_compiling_tier4(3));
    m.finish_tier4_compilation(3);
    assert!(!m.is_compiling_tier4(3));
    assert_eq!(m.current_tier(3), TierState::Tier4Global);
}

#[test]
fn native_code_checks_itself() {
    let good = NativeCode::new(vec![0x90, 0xC3]);
    assert_eq!(good.code_size(), 2);
    assert!(good.verify_integrity());
    let bad = NativeCode { code: vec![0x90, 0xC2], checksum: good.checksum };
    assert!(!bad.verify_integrity());
    // FNV-1a of the empty input.
    assert_eq!(NativeCode::new(vec![]).checksum, 0xcbf29ce484222325);
    assert_eq!(NativeCode::new(vec![b'a']).checksum, 0xaf63dc4c8601ec8c);
}

#[test]
fn compiled_traces_are_cached() {
    let mut jit = TracingJIT::with_triggers(2, 1);
    let trace = empty_trace(4, 5);
    let request = jit.compile_request(&trace, vec![]).unwrap();
    assert_eq!(request.trace_id, 4);
    assert_eq!(request.instrs, vec![Instr::LoadI64(0, 10), Instr::Return(0)]);
    let code = NativeCode::new(vec![0xC3]);
    assert_eq!(jit.compile_and_cache(&trace, vec![], Some(code)), Some(4));
    assert_eq!(jit.cached_trace_count(), 1);
    assert_eq!(jit.total_code_size(), 1);
    assert_eq!(jit.compiled(4).unwrap().code_size(), 1);
    assert!(jit.compiled(5).is_none());
    assert!(matches!(jit.execute_trace(4), TierUpgrade::Nothing));
    assert_eq!(jit.compile_and_cache(&empty_trace(6, 5), vec![], None), None);
    let made = CompiledTrace::from_request(&request, NativeCode::new(vec![1, 2]));
    assert!(made.verify_integrity());
    assert_eq!(made.param_count, request.param_count);
}

#[test]
fn parameter_counts_out_of_range_are_noticed() {
    let compiler = TraceCompiler::new();
    let mut trace = empty_trace(1, 0);
    assert!(compiler.params_in_range(&trace));
    trace.instructions = (0..=0xffffu16)
        .step_by(64)
        .map(|s| TraceInstruction { original_pc: 0, instruction: Instr::Return(s), guard: None })
        .collect();
    assert!(compiler.params_in_range(&trace));
    assert_eq!(compiler.compute_param_count(&trace), 1024);
}

#[test]
fn parameters_are_counted_once() {
    let compiler = TraceCompiler::new();
    let mut trace = empty_trace(1, 0);
    let at = |instruction: Instr| TraceInstruction { original_pc: 0, instruction, guard: None };
    trace.instructions = vec![at(Instr::Return(5))];
    assert_eq!(compiler.compute_param_count(&trace), 1);
    trace.instructions = vec![
        at(Instr::BinOp(2, BinOpKind::Add, 5, 9)),
        at(Instr::Move(3, 5)),
        at(Instr::Return(2)),
    ];
    assert_eq!(compiler.compute_param_count(&trace), 2);
    trace.instructions.push(at(Instr::LoadI64(9, 1)));
    assert_eq!(compiler.compute_param_count(&trace), 1);
    trace.instructions.clear();
    assert_eq!(compiler.compute_param_count(&trace), 0);
}

#[test]
fn guard_failures_reach_the_cache() {
    let mut jit = TracingJIT::new();
    assert_eq!(jit.lookup_pic(2, ValueType::F64), None);
    jit.record_guard_failure(2, ValueType::F64);
    assert!(jit.lookup_pic(2, ValueType::F64).is_some());
    assert_eq!(jit.traces_recorded, 1);
    assert_eq!(jit.deoptimizations, 1);
    assert_eq!(jit.traces_compiled, 0);
}

#[test]
fn upgrades_follow_the_number_of_a_trace() {
    let mut jit = TracingJIT::new();
    jit.recorder.start_recording(10);
    jit.recorder.abort_recording();
    jit.recorder.start_recording(20);
    jit.recorder.record_instruction(&Instr::LoadI64(0, 7), 20);
    let id = jit.recorder.finish_recording().unwrap();
    assert_eq!(id, 1);
    for _ in 0..100 {
        assert!(matches!(jit.execute_trace(id), TierUpgrade::Nothing));
    }
    match jit.execute_trace(id) {
        TierUpgrade::Optimize(v) => assert_eq!(v, vec![Instr::LoadI64(0, 7)]),
        other => panic!("{other:?}"),
    }
    jit.finish_upgrade(id, false, vec![], Some(NativeCode::new(vec![0xC3])));
    assert_eq!(jit.compiled(id).unwrap().trace_id, 1);
    // No trace was finished under this number.
    jit.finish_upgrade(0, false, vec![], Some(NativeCode::new(vec![0xC3])));
    assert!(jit.compiled(0).is_none());
    assert_eq!((jit.trace_trigger, jit.compile_trigger), (16, 4));
}

#[test]
fn barriers_and_unary_operators() {
    let mut recorder = TraceRecorder::new();
    recorder.start_recording(5);
    recorder.record_instruction(&Instr::LoadI64(0, 4), 5);
    recorder.record_instruction(&Instr::UnOp(1, UnOpKind::Neg, 0), 6);
    recorder.record_instruction(&Instr::Return(1), 7);
    let id = recorder.finish_recording().unwrap();
    let t = recorder.get_trace(id).unwrap();
    assert_eq!(t.instructions[1].instruction, Instr::UnOp(1, UnOpKind::Neg, 0));
    assert_eq!(t.instructions.len(), 3);
}

#[test]
fn masks_are_all_ones() {
    let mut m = GuardMask::new();
    assert_eq!(m.mask(), 0);
    for slot in 0..64u16 {
        assert_eq!(m.add_type_guard(slot, ValueType::F64), slot as u32);
        let ones = if slot == 63 { u64::MAX } else { (1u64 << (slot + 1)) - 1 };
        assert_eq!(m.mask(), ones);
        assert_eq!(m.add_type_guard(0, ValueType::F64), 0);
        assert_eq!(m.len(), slot as usize + 1);
    }
    // A full mask still knows its guards.
    assert_eq!(m.add_type_guard(63, ValueType::F64), 63);
    assert_eq!(m.invariants()[63], (63, ValueType::F64));
}

#[test]
fn compiled_traces_count_what_they_hold() {
    let compiler = TraceCompiler::new();
    let mut trace = empty_trace(9, 0);
    trace.guards.push(Guard { slot: 0, expected_type: ValueType::I64 });
    trace.instructions.insert(
        1,
        TraceInstruction {
            original_pc: 1,
            instruction: Instr::BinOp(1, BinOpKind::Add, 0, 3),
            guard: None,
        },
    );
    let code = || Some(NativeCode::new(vec![0xC3]));
    let made = compiler.compiled_trace(&trace, code()).unwrap();
    assert_eq!(made.trace_id, 9);
    assert_eq!(made.guard_count, 1);
    assert_eq!(made.instruction_count, compiler.optimize_trace(&trace.instructions).len());
    assert_eq!(made.instruction_count, 3);
    assert_eq!(made.param_count, compiler.compute_param_count(&trace));
    assert_eq!(made.param_count, 1);
    assert!(compiler.compiled_trace(&trace, None).is_none());
    trace.instructions.clear();
    assert!(compiler.compiled_trace(&trace, code()).is_none());
}
