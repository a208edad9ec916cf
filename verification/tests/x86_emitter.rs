use symplex_engine::x86_emitter::fused::{
    across, chunk_plan, eval_chain, fused_elementwise, fused_fold, fused_map, fused_ops,
    fused_partials, join_partials, reduce_of, Arithmetic, ChunkPlan, FusedOpDesc,
    FusedOutcome, Reduce, MAX_FUSED_OPS, REDUCE_NONE,
};
use symplex_engine::x86_emitter::inst::{Arith, Ins, JumpKind, Op, Reg};
use symplex_engine::x86_emitter::isa::{detect_isa_level, vector_width, ISALevel};
use symplex_engine::x86_emitter::kernel::{
    arith_of, exec_memory_size, reduce_arith_of, CompiledKernel, KernelCache,
};
use symplex_engine::x86_emitter::lower::{emit_align, emit_nop_padding, machine_code_of};
use symplex_engine::x86_emitter::program::Program;
use symplex_engine::x86_emitter::rows::{matmul_path, matmul_row, MatmulPath};

fn apply(a: Arith, x: f64, y: f64) -> f64 {
    match a {
        Arith::Add => x + y,
        Arith::Sub => x - y,
        Arith::Mul => x * y,
        Arith::Div => x / y,
        Arith::Min => x.min(y),
        Arith::Max => x.max(y),
    }
}

fn fold(r: Reduce, x: f64, y: f64) -> f64 {
    match r {
        Reduce::Sum => x + y,
        Reduce::Max => x.max(y),
        Reduce::Min => x.min(y),
    }
}

fn padding(n: usize) -> Vec<u8> {
    let mut p = Program::new();
    emit_nop_padding(&mut p, n);
    machine_code_of(&p).unwrap()
}

#[test]
fn padding_has_the_length_asked_for() {
    assert_eq!(padding(0), Vec::<u8>::new());
    assert_eq!(padding(1), vec![0x90]);
    assert_eq!(padding(2), vec![0x66, 0x90]);
    assert_eq!(padding(3), vec![0x0F, 0x1F, 0x00]);
    assert_eq!(padding(7), vec![0x0F, 0x1F, 0x80, 0, 0, 0, 0]);
    assert_eq!(padding(8), vec![0x0F, 0x1F, 0x84, 0, 0, 0, 0, 0]);
    assert_eq!(padding(9), vec![0x66, 0x0F, 0x1F, 0x84, 0, 0, 0, 0, 0]);
    for n in 0..64 {
        assert_eq!(padding(n).len(), n);
    }
    let long = padding(11);
    assert_eq!(long[9..], [0x66, 0x90]);
}

#[test]
fn alignment_fills_the_gap() {
    for current in 0..40 {
        let mut p = Program::new();
        emit_align(&mut p, 16, current);
        let len = machine_code_of(&p).unwrap().len();
        assert!(len < 16);
        assert_eq!((current + len) % 16, 0);
    }
}

#[test]
fn loops_place_their_labels() {
    let mut p = Program::new();
    p.enter(&vec![Reg::Rbx]);
    p.begin();
    p.exit_if_ge();
    p.end();
    p.begin();
    p.exit_if_ge();
    p.end();
    p.leave(&vec![Reg::Rbx]);
    let places: Vec<u64> = p
        .lines
        .iter()
        .filter_map(|l| if let Ins::Place(x) = l { Some(*x) } else { None })
        .collect();
    // The second loop starts at the label behind the first.
    assert_eq!(places, vec![0, 1, 2]);
    assert!(p.lines.contains(&Ins::Jump(JumpKind::Always, 1)));
    assert!(p.open.is_empty());
    assert!(machine_code_of(&p).is_some());
}

#[test]
fn a_jump_without_room_has_no_code() {
    let mut p = Program::new();
    p.emit(&vec![Op::Mov64(Reg::Rax, 1)]);
    let code = machine_code_of(&p).unwrap();
    assert_eq!(code, vec![0x48, 0xB8, 1, 0, 0, 0, 0, 0, 0, 0]);
}

#[test]
fn kernels_return() {
    let k = CompiledKernel::compile_elementwise(0).unwrap();
    assert_eq!(k.code.last(), Some(&0xC3));
    assert_eq!(k.compiled_dims(), (0, 0, 0));
    // push rbp; mov rbp, rsp; push rbx; push r12
    assert_eq!(k.code[..7], [0x55, 0x48, 0x89, 0xE5, 0x53, 0x41, 0x54]);
}

#[test]
fn levels_choose_kernels() {
    assert_eq!(detect_isa_level(true, true), ISALevel::AVX512);
    assert_eq!(detect_isa_level(false, true), ISALevel::AVX2);
    assert_eq!(detect_isa_level(false, false), ISALevel::SSE);
    assert_eq!(vector_width(ISALevel::SSE), 1);
    assert_eq!(vector_width(ISALevel::AVX2), 8);
    assert_eq!(vector_width(ISALevel::AVX512), 16);
    assert_eq!(ISALevel::AVX512.name(), "AVX-512");
    let code = |k: Option<CompiledKernel>| k.unwrap().code;
    assert_eq!(
        code(CompiledKernel::compile_matmul_best(ISALevel::AVX512)),
        code(CompiledKernel::compile_matmul_avx512(128, 128, 128))
    );
    assert_eq!(
        code(CompiledKernel::compile_matmul_best(ISALevel::SSE)),
        code(CompiledKernel::compile_matmul())
    );
    assert_eq!(
        code(CompiledKernel::compile_matmul_avx512_sized(0, 4, 4, ISALevel::SSE)),
        code(CompiledKernel::compile_matmul_avx2())
    );
    assert_eq!(
        code(CompiledKernel::compile_matmul_avx512_sized(4, 4, 4, ISALevel::SSE)),
        code(CompiledKernel::compile_matmul())
    );
    assert_eq!(
        code(CompiledKernel::compile_elementwise_best_f32(2, ISALevel::AVX512)),
        code(CompiledKernel::compile_elementwise_avx2(2))
    );
    assert_eq!(
        code(CompiledKernel::compile_elementwise_best_f64(2, ISALevel::AVX512)),
        code(CompiledKernel::compile_elementwise_avx512_f64(2))
    );
}

#[test]
fn operation_numbers() {
    assert_eq!(arith_of(3), Some(Arith::Div));
    assert_eq!(arith_of(6), None);
    assert_eq!(reduce_arith_of(1), Some(Arith::Max));
    assert_eq!(reduce_arith_of(3), None);
    assert_eq!(reduce_of(2), Some(Reduce::Min));
    assert_eq!(reduce_of(REDUCE_NONE), None);
    assert_eq!(MAX_FUSED_OPS, 8);
    assert_eq!(exec_memory_size(0), 0);
    assert_eq!(exec_memory_size(1), 4096);
    assert_eq!(exec_memory_size(4096), 4096);
    assert_eq!(exec_memory_size(4097), 8192);
}

#[test]
fn cache_keeps_the_first_kernel() {
    let mut c: KernelCache<u32> = KernelCache::new();
    assert_eq!(c.get(5), None);
    c.put(5, 50);
    c.put(2, 20);
    c.put(5, 51);
    assert_eq!(c.get(5), Some(&50));
    assert_eq!(c.get(2), Some(&20));
    assert_eq!(c.get(3), None);
    assert_eq!(c.get(200), None);
}

#[test]
fn chains_resolve_their_operands() {
    // (x * 2) + 1, then the first result again, then unknown places.
    let ops = fused_ops(&vec![
        (2, 0, 0, 1, 0),
        (0, 2, 0, 1, 1),
        (1, 2, 1, 2, 0),
        (0, 0, 9, 1, 9),
        (0, 2, 7, 3, 0),
        (9, 2, 1, 1, 0),
    ]);
    assert_eq!(
        ops[0],
        FusedOpDesc { op: 2, lhs_src: 0, lhs_idx: 0, rhs_src: 1, rhs_idx: 0 }
    );
    let vals = eval_chain(&ops, &vec![5.0], &vec![2.0, 1.0], 0.0, &apply);
    assert_eq!(vals, vec![10.0, 11.0, 1.0, 0.0, 0.0, 11.0]);
}

#[test]
fn chains_map_and_fold() {
    let ops = fused_ops(&vec![(2, 0, 0, 1, 0), (0, 2, 0, 0, 1)]);
    let inputs = vec![vec![1.0, -2.0, 3.0], vec![10.0, 20.0, 30.0]];
    let constants = vec![2.0];
    let mapped = fused_map(&ops, &inputs, &constants, 0, 3, 0.0, &apply);
    assert_eq!(mapped, vec![12.0, 16.0, 36.0]);
    assert_eq!(fused_map(&ops, &inputs, &constants, 2, 3, 0.0, &apply), vec![36.0]);
    let run = |r: Option<Reduce>| {
        fused_fold(&ops, &inputs, &constants, 0, 3, 0.0, &apply, &|x: f64| x, &fold, 0.0, r)
    };
    assert_eq!(run(Some(Reduce::Sum)), 64.0);
    assert_eq!(run(Some(Reduce::Max)), 36.0);
    assert_eq!(run(Some(Reduce::Min)), 12.0);
    assert_eq!(run(None), 0.0);
    assert!(fused_map(&vec![], &inputs, &constants, 0, 3, 0.0, &apply).is_empty());
    // The largest of negative elements is negative.
    let negative = vec![vec![-5.0, -3.0]];
    let ops = fused_ops(&vec![(0, 0, 0, 1, 0)]);
    let largest = fused_fold(
        &ops,
        &negative,
        &vec![0.0],
        0,
        2,
        0.0,
        &apply,
        &|x: f64| x,
        &fold,
        0.0,
        Some(Reduce::Max),
    );
    assert_eq!(largest, -3.0);
}

#[test]
fn plans_cover_every_element_once() {
    for n in 0..200usize {
        let p = chunk_plan(n, 8);
        assert_eq!(p.unrolled, n & !31);
        assert_eq!(p.vectors, n & !7);
        let mut count = 0;
        let mut base = 0;
        while base < p.vectors {
            count += 8;
            base += 8;
        }
        count += n - p.vectors;
        assert_eq!(count, n);
    }
}

#[test]
fn vectors_go_into_partials_in_turn() {
    let ops = fused_ops(&vec![(0, 0, 0, 1, 0)]);
    // The powers of two show which elements a sum holds.
    let inputs = vec![vec![1.0, 2.0, 4.0, 8.0, 16.0, 32.0, 64.0, 128.0, 256.0, 512.0]];
    let zero = vec![0.0];
    let sums = |count: usize, unrolled: usize| {
        fused_partials(&ops, &inputs, &zero, count, unrolled, 1, 0, 0.0, &apply, &fold, Reduce::Sum)
    };
    assert_eq!(sums(10, 8), [Some(785.0), Some(34.0), Some(68.0), Some(136.0)]);
    assert_eq!(sums(3, 0), [Some(7.0), None, None, None]);
    assert_eq!(sums(0, 0), [None, None, None, None]);
    assert_eq!(join_partials(&fold, Reduce::Sum, sums(10, 8)), Some(1023.0));
    assert_eq!(join_partials(&fold, Reduce::Sum, sums(0, 0)), None);
    let negative = vec![vec![-4.0, -9.0, -2.0, -7.0, -3.0]];
    let best = |r: Reduce| {
        let parts = fused_partials(&ops, &negative, &zero, 5, 4, 1, 0, 0.0, &apply, &fold, r);
        join_partials(&fold, r, parts)
    };
    assert_eq!(best(Reduce::Max), Some(-2.0));
    assert_eq!(best(Reduce::Min), Some(-9.0));
    // Place 1 of vectors of two.
    let second =
        fused_partials(&ops, &inputs, &zero, 5, 4, 2, 1, 0.0, &apply, &fold, Reduce::Sum);
    assert_eq!(second, [Some(514.0), Some(8.0), Some(32.0), Some(128.0)]);
}

#[test]
fn places_of_a_vector_are_combined_halves_first() {
    let minus = |_: Reduce, x: f64, y: f64| x - 2.0 * y;
    assert_eq!(across(&minus, Reduce::Sum, &vec![7.0]), 7.0);
    assert_eq!(across(&minus, Reduce::Sum, &vec![7.0, 1.0]), 5.0);
    // (1 - 2 * 3) - 2 * (2 - 2 * 4)
    assert_eq!(across(&minus, Reduce::Sum, &vec![1.0, 2.0, 3.0, 4.0]), 7.0);
}

#[test]
fn passes_store_or_reduce() {
    let by = Arithmetic {
        lane: apply,
        join: fold,
        single: apply,
        widen: |x: f64| x,
        fold,
    };
    // x * 2 + 1
    let ops = fused_ops(&vec![(2, 0, 0, 1, 0), (0, 2, 0, 1, 1)]);
    let constants = vec![2.0, 1.0];
    for n in [0usize, 1, 3, 4, 7, 16, 19, 37] {
        let x: Vec<f64> = (0..n).map(|i| i as f64 - 40.0).collect();
        let expected: Vec<f64> = x.iter().map(|v| v * 2.0 + 1.0).collect();
        let plan = chunk_plan(n, 4);
        let run = |ops: &Vec<FusedOpDesc>, op: u8| {
            let inputs = vec![x.clone()];
            fused_elementwise(&by, ops, &inputs, &constants, n, 4, plan, 0.0, 0.0, op)
        };
        assert_eq!(run(&vec![], REDUCE_NONE), FusedOutcome::Reduced(0.0));
        assert_eq!(run(&ops, 7), FusedOutcome::Reduced(0.0));
        if n == 0 {
            assert_eq!(run(&ops, REDUCE_NONE), FusedOutcome::Reduced(0.0));
            assert_eq!(run(&ops, 1), FusedOutcome::Reduced(0.0));
            continue;
        }
        assert_eq!(run(&ops, REDUCE_NONE), FusedOutcome::Stored(expected.clone()));
        let sum: f64 = expected.iter().sum();
        assert_eq!(run(&ops, 0), FusedOutcome::Reduced(sum));
        assert_eq!(run(&ops, 1), FusedOutcome::Reduced(expected[n - 1]));
        assert_eq!(run(&ops, 2), FusedOutcome::Reduced(expected[0]));
    }
}

#[test]
fn vectors_and_single_elements_give_the_same() {
    let by = Arithmetic {
        lane: apply,
        join: fold,
        single: apply,
        widen: |x: f64| x,
        fold,
    };
    // (x - y) / (x * y), where some of the results are not numbers
    let ops = fused_ops(&vec![(1, 0, 0, 0, 1), (2, 0, 0, 0, 1), (3, 2, 0, 2, 1)]);
    for n in [1usize, 4, 5, 16, 23] {
        let x: Vec<f64> = (0..n).map(|i| i as f64 - 2.0).collect();
        let y: Vec<f64> = (0..n).map(|i| 2.0 * i as f64 - 4.0).collect();
        let run = |plan: ChunkPlan| {
            let inputs = vec![x.clone(), y.clone()];
            match fused_elementwise(
                &by, &ops, &inputs, &vec![], n, 4, plan, 0.0, 0.0, REDUCE_NONE,
            ) {
                FusedOutcome::Stored(v) => v,
                FusedOutcome::Reduced(_) => panic!("nothing was to be reduced"),
            }
        };
        let by_vectors = run(chunk_plan(n, 4));
        let one_by_one = run(ChunkPlan { unrolled: 0, vectors: 0 });
        assert_eq!(by_vectors.len(), n);
        for i in 0..n {
            let (u, v) = (by_vectors[i], one_by_one[i]);
            assert!(u == v || (u.is_nan() && v.is_nan()));
            let w = (x[i] - y[i]) / (x[i] * y[i]);
            assert!(u == w || (u.is_nan() && w.is_nan()));
        }
    }
}

#[test]
fn rows_multiply() {
    let a = [1.0, 2.0, 3.0, 4.0, 5.0, 6.0];
    let b = [7.0, 8.0, 9.0, 10.0, 11.0, 12.0];
    let f = |c: f64, x: f64, y: f64| c + x * y;
    assert_eq!(matmul_row(&a, &b, 0, 2, 3, 0.0, &f), vec![58.0, 64.0]);
    assert_eq!(matmul_row(&a, &b, 1, 2, 3, 0.0, &f), vec![139.0, 154.0]);
    assert_eq!(matmul_path(ISALevel::AVX512, 0, 64, 1), MatmulPath::Nothing);
    assert_eq!(matmul_path(ISALevel::AVX512, 1, 64, 1), MatmulPath::Kernel);
    assert_eq!(matmul_path(ISALevel::AVX512, 1, 63, 1), MatmulPath::Rows);
    assert_eq!(matmul_path(ISALevel::AVX2, 1, 64, 1), MatmulPath::Rows);
}

#[test]
fn sums_of_negative_zeros_are_zero() {
    let by = Arithmetic {
        lane: apply,
        join: fold,
        single: apply,
        widen: |x: f64| x,
        fold,
    };
    // x * 1
    let ops = fused_ops(&vec![(2, 0, 0, 1, 0)]);
    for n in [1usize, 3, 4, 8, 9, 16, 21] {
        let inputs = vec![vec![-0.0; n]];
        let plan = chunk_plan(n, 4);
        let run = |op: u8| {
            match fused_elementwise(&by, &ops, &inputs, &vec![1.0], n, 4, plan, 0.0, 0.0, op) {
                FusedOutcome::Reduced(v) => f64::to_bits(v),
                FusedOutcome::Stored(_) => panic!("nothing was to be stored"),
            }
        };
        assert_eq!(run(0), 0);
        assert_eq!(run(1), f64::to_bits(-0.0));
    }
}
