//! What the numbers that callers pass stand for, and how kernels are chosen.

use vstd::prelude::*;
use crate::x86_emitter::fused::{reduce_of, FusedOpDesc, Reduce};
use crate::x86_emitter::inst::Arith;
use crate::x86_emitter::isa::{detect_isa_level, vector_width, ISALevel};
use crate::x86_emitter::kernel::{arith_of, reduce_arith_of, CompiledKernel};
use crate::x86_emitter::program;
use crate::x86_emitter::rows::{matmul_path, MatmulPath};

verus! {

/// Each operation of an elementwise kernel has one number, from zero in the order of addition,
/// subtraction, multiplication, division, minimum and maximum.
pub proof fn numbers_of_elementwise_operations(op: u8)
    ensures
        arith_of(op) == Some(Arith::Add) <==> op == 0,
        arith_of(op) == Some(Arith::Sub) <==> op == 1,
        arith_of(op) == Some(Arith::Mul) <==> op == 2,
        arith_of(op) == Some(Arith::Div) <==> op == 3,
        arith_of(op) == Some(Arith::Min) <==> op == 4,
        arith_of(op) == Some(Arith::Max) <==> op == 5,
        arith_of(op) is None <==> op > 5,
{
}

/// Each operation of a reduction has one number, the sum zero, the maximum one and the minimum
/// two, in kernels and in fused passes alike.
pub proof fn numbers_of_reductions(op: u8)
    ensures
        reduce_arith_of(op) == Some(Arith::Add) <==> op == 0,
        reduce_arith_of(op) == Some(Arith::Max) <==> op == 1,
        reduce_arith_of(op) == Some(Arith::Min) <==> op == 2,
        reduce_arith_of(op) is None <==> op > 2,
        reduce_of(op) == Some(Reduce::Sum) <==> op == 0,
        reduce_of(op) == Some(Reduce::Max) <==> op == 1,
        reduce_of(op) == Some(Reduce::Min) <==> op == 2,
        reduce_of(op) is None <==> op > 2,
{
}

/// A processor is put on the widest level that it has, and a vector of a level holds as many single
/// floats as its registers have four bytes: 64 bytes with AVX-512, 32 with AVX2, and one float
/// without either.
pub proof fn levels_and_their_vectors(avx512f: bool, avx2: bool)
    ensures
        detect_isa_level(avx512f, avx2) == ISALevel::AVX512 <==> avx512f,
        detect_isa_level(avx512f, avx2) == ISALevel::AVX2 <==> avx2 && !avx512f,
        detect_isa_level(avx512f, avx2) == ISALevel::SSE <==> !avx2 && !avx512f,
        4 * vector_width(ISALevel::AVX512) == 64,
        4 * vector_width(ISALevel::AVX2) == 32,
        vector_width(ISALevel::SSE) == 1,
{
}

/// Code takes whole pages of 4096 bytes: enough to hold it, and not one more.
pub proof fn code_takes_whole_pages(len: int)
    requires
        0 <= len,
    ensures
        super::kernel::whole_pages(len) % 4096 == 0,
        len <= super::kernel::whole_pages(len) < len + 4096,
{
}

/// A product is computed by a kernel exactly if no dimension is zero, the processor has AVX-512
/// and the result has at least 64 columns; where a dimension is zero there is nothing to compute.
pub proof fn products_by_kernel(level: ISALevel, m: usize, n: usize, k: usize)
    ensures
        matmul_path(level, m, n, k) == MatmulPath::Nothing <==> m == 0 || n == 0 || k == 0,
        matmul_path(level, m, n, k) == MatmulPath::Kernel <==> level == ISALevel::AVX512 && n >= 64
            && m > 0 && k > 0,
{
}

/// A kernel that was compiled holds the machine code of its program and the dimensions that were
/// built into it, each in its place.
pub proof fn compiled_kernel_holds_its_program(
    r: Option<CompiledKernel>,
    p: program::Asm,
    m: usize,
    n: usize,
    k: usize,
)
    requires
        super::kernel::compiles(r, p, m, n, k),
    ensures
        r matches Some(x) ==> x.m == m && x.n == n && x.k == k && super::assembler::machine_code(
            super::lower::lines_of(p.lines),
            super::lower::BASE_ADDRESS,
        ) == Some(x.code@),
        r is None ==> super::assembler::machine_code(
            super::lower::lines_of(p.lines),
            super::lower::BASE_ADDRESS,
        ) is None,
{
}

/// An operand comes from the inputs, the constants or the results before it, by its source, and a
/// place that its source does not have is zero. The left and the right operand of an operation
/// each go by their own source and place, and see only the results of the operations before.
pub proof fn operands_come_from_their_sources<T>(
    ops: Seq<FusedOpDesc>,
    k: int,
    inputs: Seq<T>,
    constants: Seq<T>,
    vals: Seq<T>,
    zero: T,
)
    requires
        0 <= k < ops.len(),
        vals.len() == ops.len(),
    ensures
        ({
            let o = ops[k];
            let l = super::fused::left(ops, k, inputs, constants, vals, zero);
            let r = super::fused::right(ops, k, inputs, constants, vals, zero);
            &&& o.lhs_src == 0 && o.lhs_idx < inputs.len() ==> l == inputs[o.lhs_idx as int]
            &&& o.lhs_src == 1 && o.lhs_idx < constants.len() ==> l == constants[o.lhs_idx as int]
            &&& o.lhs_src == 2 && o.lhs_idx < k ==> l == vals[o.lhs_idx as int]
            &&& o.lhs_src == 2 && o.lhs_idx >= k ==> l == zero
            &&& o.lhs_src > 2 ==> l == zero
            &&& o.rhs_src == 0 && o.rhs_idx < inputs.len() ==> r == inputs[o.rhs_idx as int]
            &&& o.rhs_src == 1 && o.rhs_idx < constants.len() ==> r == constants[o.rhs_idx as int]
            &&& o.rhs_src == 2 && o.rhs_idx < k ==> r == vals[o.rhs_idx as int]
            &&& o.rhs_src == 2 && o.rhs_idx >= k ==> r == zero
            &&& o.rhs_src > 2 ==> r == zero
        }),
{
}

/// An operation of a chain applies the arithmetic of its number to its left and its right operand,
/// in this order; one without a number gives its left operand.
pub proof fn operations_apply_their_number<T, F: Fn(Arith, T, T) -> T>(
    f: F,
    op: u8,
    l: T,
    r: T,
    v: T,
)
    requires
        super::fused::gives(f, op, l, r, v),
    ensures
        op == 0 ==> f.ensures((Arith::Add, l, r), v),
        op == 1 ==> f.ensures((Arith::Sub, l, r), v),
        op == 2 ==> f.ensures((Arith::Mul, l, r), v),
        op == 3 ==> f.ensures((Arith::Div, l, r), v),
        op == 4 ==> f.ensures((Arith::Min, l, r), v),
        op == 5 ==> f.ensures((Arith::Max, l, r), v),
        op > 5 ==> v == l,
{
}

/// A sum takes in every element by adding it, the first one too; an extreme starts with the first
/// element and compares the others; without a reduction the total stays.
pub proof fn totals_take_in_elements<A, G: Fn(Reduce, A, A) -> A>(
    g: G,
    reduce: Option<Reduce>,
    at_first: bool,
    total: A,
    x: A,
    next: A,
)
    requires
        super::fused::takes_in(g, reduce, at_first, total, x, next),
    ensures
        reduce == Some(Reduce::Sum) ==> g.ensures((Reduce::Sum, total, x), next),
        reduce == Some(Reduce::Max) && at_first ==> next == x,
        reduce == Some(Reduce::Min) && at_first ==> next == x,
        reduce == Some(Reduce::Max) && !at_first ==> g.ensures((Reduce::Max, total, x), next),
        reduce == Some(Reduce::Min) && !at_first ==> g.ensures((Reduce::Min, total, x), next),
        reduce is None ==> next == total,
{
}

/// Two partial results are combined in their order; where one is missing the other stands for
/// both.
pub proof fn missing_results_change_nothing<T, G: Fn(Reduce, T, T) -> T>(
    g: G,
    reduce: Reduce,
    a: Option<T>,
    b: Option<T>,
    r: Option<T>,
)
    requires
        super::fused::is_joined(g, reduce, a, b, r),
    ensures
        a is None ==> r == b,
        b is None ==> r == a,
        a is Some && b is Some ==> r is Some && g.ensures(
            (reduce, a.unwrap(), b.unwrap()),
            r.unwrap(),
        ),
{
}

/// Vectors go into the four partial results in turn within whole groups of four, and into the first
/// behind them.
pub proof fn vectors_go_in_turn(c: int, unrolled: int)
    requires
        0 <= c,
    ensures
        0 <= super::fused::goes_to(c, unrolled) < 4,
        c >= unrolled ==> super::fused::goes_to(c, unrolled) == 0,
        c < unrolled && c < 4 ==> super::fused::goes_to(c, unrolled) == c,
        c + 4 < unrolled ==> super::fused::goes_to(c + 4, unrolled) == super::fused::goes_to(
            c,
            unrolled,
        ),
{
}

} // verus!
