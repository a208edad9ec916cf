//! Kernels of the matrix product: `c = a * b`, single precision, in row order.
//!
//! A kernel is called with the addresses of `a`, `b` and `c` and the dimensions `m`, `n` and `k`.
//! It clears `c` and then adds one row of `b`, times one element of `a`, at a time.

use crate::x86_emitter::inst::{
    add_imm, add_reg, at, at_disp, bare, broadcast, clear, clear_low, compare, fma, imul, lea_sum,
    load, mov, packed, scalar, scale, store, sub_imm, vclear, vload, vstore, Arith, BareOp, Elem,
    Op, Reg, RmOp, Wide,
};
use crate::x86_emitter::kernel;
use crate::x86_emitter::kernel::CompiledKernel;
use crate::x86_emitter::lower;
use crate::x86_emitter::program;
use crate::x86_emitter::program::{Asm, Program};
use vstd::prelude::*;

verus! {

/// The registers that the kernels save.
pub open spec fn saved() -> Seq<Reg> {
    seq![Reg::Rbx, Reg::R12, Reg::R13, Reg::R14, Reg::R15]
}

fn saved_regs() -> (r: Vec<Reg>)
    ensures
        r@ == saved(),
{
    let r: Vec<Reg> = vec![Reg::Rbx, Reg::R12, Reg::R13, Reg::R14, Reg::R15];
    assert(r@ =~= saved());
    r
}

/// Keeps the arguments: dimensions in `r10`, `r15` and `r11`, addresses in `r12`, `r13` and `r14`.
pub open spec fn arguments() -> Seq<Op> {
    seq![
        mov(Reg::R10, Reg::Rcx),
        mov(Reg::R11, Reg::R9),
        mov(Reg::R12, Reg::Rdi),
        mov(Reg::R13, Reg::Rsi),
        mov(Reg::R14, Reg::Rdx),
        mov(Reg::R15, Reg::R8),
    ]
}

fn arguments_ops() -> (r: Vec<Op>)
    ensures
        r@ == arguments(),
{
    let r: Vec<Op> =
        vec![
            mov(Reg::R10, Reg::Rcx),
            mov(Reg::R11, Reg::R9),
            mov(Reg::R12, Reg::Rdi),
            mov(Reg::R13, Reg::Rsi),
            mov(Reg::R14, Reg::Rdx),
            mov(Reg::R15, Reg::R8),
        ];
    assert(r@ =~= arguments());
    r
}

/// Starts a counter.
pub open spec fn start(reg: Reg) -> Seq<Op> {
    seq![
        clear(reg),
    ]
}

fn start_ops(reg: Reg) -> (r: Vec<Op>)
    ensures
        r@ == start(reg),
{
    let r: Vec<Op> =
        vec![
            clear(reg),
        ];
    assert(r@ =~= start(reg));
    r
}

/// Advances a counter.
pub open spec fn step(reg: Reg, by: i32) -> Seq<Op> {
    seq![
        add_imm(reg, by),
    ]
}

fn step_ops(reg: Reg, by: i32) -> (r: Vec<Op>)
    ensures
        r@ == step(reg, by),
{
    let r: Vec<Op> =
        vec![
            add_imm(reg, by),
        ];
    assert(r@ =~= step(reg, by));
    r
}

/// Compares a counter with its limit.
pub open spec fn test(reg: Reg, limit: Reg) -> Seq<Op> {
    seq![
        compare(reg, limit),
    ]
}

fn test_ops(reg: Reg, limit: Reg) -> (r: Vec<Op>)
    ensures
        r@ == test(reg, limit),
{
    let r: Vec<Op> =
        vec![
            compare(reg, limit),
        ];
    assert(r@ =~= test(reg, limit));
    r
}

/// The address of element `row * width + col` of a matrix.
pub open spec fn element(row: Reg, width: Reg, col: Reg, base: Reg) -> Seq<Op> {
    seq![
        mov(Reg::Rax, row),
        imul(Reg::Rax, width),
        add_reg(Reg::Rax, col),
        scale(Reg::Rax, Elem::F32),
        add_reg(Reg::Rax, base),
    ]
}

fn element_ops(row: Reg, width: Reg, col: Reg, base: Reg) -> (r: Vec<Op>)
    ensures
        r@ == element(row, width, col, base),
{
    let r: Vec<Op> =
        vec![
            mov(Reg::Rax, row),
            imul(Reg::Rax, width),
            add_reg(Reg::Rax, col),
            scale(Reg::Rax, Elem::F32),
            add_reg(Reg::Rax, base),
        ];
    assert(r@ =~= element(row, width, col, base));
    r
}

/// The address of byte `r8` of a row of a matrix with rows of `r15` elements.
pub open spec fn row_offset(row: Reg, base: Reg) -> Seq<Op> {
    seq![
        mov(Reg::Rax, row),
        imul(Reg::Rax, Reg::R15),
        scale(Reg::Rax, Elem::F32),
        add_reg(Reg::Rax, Reg::R8),
        add_reg(Reg::Rax, base),
    ]
}

fn row_offset_ops(row: Reg, base: Reg) -> (r: Vec<Op>)
    ensures
        r@ == row_offset(row, base),
{
    let r: Vec<Op> =
        vec![
            mov(Reg::Rax, row),
            imul(Reg::Rax, Reg::R15),
            scale(Reg::Rax, Elem::F32),
            add_reg(Reg::Rax, Reg::R8),
            add_reg(Reg::Rax, base),
        ];
    assert(r@ =~= row_offset(row, base));
    r
}

/// Loads the element at `rax`.
pub open spec fn load_low(reg: Reg) -> Seq<Op> {
    seq![
        load(Elem::F32, reg, at(Reg::Rax)),
    ]
}

fn load_low_ops(reg: Reg) -> (r: Vec<Op>)
    ensures
        r@ == load_low(reg),
{
    let r: Vec<Op> =
        vec![
            load(Elem::F32, reg, at(Reg::Rax)),
        ];
    assert(r@ =~= load_low(reg));
    r
}

/// Stores the element at `rax`.
pub open spec fn store_low(reg: Reg) -> Seq<Op> {
    seq![
        store(Elem::F32, at(Reg::Rax), reg),
    ]
}

fn store_low_ops(reg: Reg) -> (r: Vec<Op>)
    ensures
        r@ == store_low(reg),
{
    let r: Vec<Op> =
        vec![
            store(Elem::F32, at(Reg::Rax), reg),
        ];
    assert(r@ =~= store_low(reg));
    r
}

/// Loads the vector at `rax`.
pub open spec fn load_wide(reg: Reg) -> Seq<Op> {
    seq![
        vload(Elem::F32, Wide::Y, reg, at(Reg::Rax)),
    ]
}

fn load_wide_ops(reg: Reg) -> (r: Vec<Op>)
    ensures
        r@ == load_wide(reg),
{
    let r: Vec<Op> =
        vec![
            vload(Elem::F32, Wide::Y, reg, at(Reg::Rax)),
        ];
    assert(r@ =~= load_wide(reg));
    r
}

/// Stores the vector at `rax`.
pub open spec fn store_wide(reg: Reg) -> Seq<Op> {
    seq![
        vstore(Elem::F32, Wide::Y, at(Reg::Rax), reg),
    ]
}

fn store_wide_ops(reg: Reg) -> (r: Vec<Op>)
    ensures
        r@ == store_wide(reg),
{
    let r: Vec<Op> =
        vec![
            vstore(Elem::F32, Wide::Y, at(Reg::Rax), reg),
        ];
    assert(r@ =~= store_wide(reg));
    r
}

/// Adds the product of the elements of `a` and `b`.
pub open spec fn multiply_add() -> Seq<Op> {
    seq![
        scalar(Arith::Mul, Elem::F32, Reg::Xmm2, Reg::Xmm0),
        scalar(Arith::Add, Elem::F32, Reg::Xmm1, Reg::Xmm2),
    ]
}

fn multiply_add_ops() -> (r: Vec<Op>)
    ensures
        r@ == multiply_add(),
{
    let r: Vec<Op> =
        vec![
            scalar(Arith::Mul, Elem::F32, Reg::Xmm2, Reg::Xmm0),
            scalar(Arith::Add, Elem::F32, Reg::Xmm1, Reg::Xmm2),
        ];
    assert(r@ =~= multiply_add());
    r
}

/// Adds the products of the element of `a` and the vector of `b`.
pub open spec fn multiply_add_wide() -> Seq<Op> {
    seq![
        fma(Wide::Y, Reg::Ymm1, Reg::Ymm0, Reg::Ymm2),
    ]
}

fn multiply_add_wide_ops() -> (r: Vec<Op>)
    ensures
        r@ == multiply_add_wide(),
{
    let r: Vec<Op> =
        vec![
            fma(Wide::Y, Reg::Ymm1, Reg::Ymm0, Reg::Ymm2),
        ];
    assert(r@ =~= multiply_add_wide());
    r
}

/// A single zero.
pub open spec fn zero() -> Seq<Op> {
    seq![
        clear_low(Reg::Xmm0),
    ]
}

fn zero_ops() -> (r: Vec<Op>)
    ensures
        r@ == zero(),
{
    let r: Vec<Op> =
        vec![
            clear_low(Reg::Xmm0),
        ];
    assert(r@ =~= zero());
    r
}

/// A vector of zeros, the number of elements of `c`, and byte offset 0.
pub open spec fn zero_wide() -> Seq<Op> {
    seq![
        vclear(Elem::F32, Wide::Y, Reg::Ymm0),
        mov(Reg::Rdi, Reg::R10),
        imul(Reg::Rdi, Reg::R15),
        clear(Reg::Rsi),
    ]
}

fn zero_wide_ops() -> (r: Vec<Op>)
    ensures
        r@ == zero_wide(),
{
    let r: Vec<Op> =
        vec![
            vclear(Elem::F32, Wide::Y, Reg::Ymm0),
            mov(Reg::Rdi, Reg::R10),
            imul(Reg::Rdi, Reg::R15),
            clear(Reg::Rsi),
        ];
    assert(r@ =~= zero_wide());
    r
}

/// The end of `c` in bytes.
pub open spec fn zero_limit() -> Seq<Op> {
    seq![
        mov(Reg::Rax, Reg::Rdi),
        scale(Reg::Rax, Elem::F32),
    ]
}

fn zero_limit_ops() -> (r: Vec<Op>)
    ensures
        r@ == zero_limit(),
{
    let r: Vec<Op> =
        vec![
            mov(Reg::Rax, Reg::Rdi),
            scale(Reg::Rax, Elem::F32),
        ];
    assert(r@ =~= zero_limit());
    r
}

/// Compares the byte offset with the last one of a whole vector in `c`.
pub open spec fn zero_wide_test() -> Seq<Op> {
    seq![
        mov(Reg::Rax, Reg::Rdi),
        scale(Reg::Rax, Elem::F32),
        sub_imm(Reg::Rax, 32),
        compare(Reg::Rsi, Reg::Rax),
    ]
}

fn zero_wide_test_ops() -> (r: Vec<Op>)
    ensures
        r@ == zero_wide_test(),
{
    let r: Vec<Op> =
        vec![
            mov(Reg::Rax, Reg::Rdi),
            scale(Reg::Rax, Elem::F32),
            sub_imm(Reg::Rax, 32),
            compare(Reg::Rsi, Reg::Rax),
        ];
    assert(r@ =~= zero_wide_test());
    r
}

/// Clears one vector of `c`.
pub open spec fn zero_wide_step() -> Seq<Op> {
    seq![
        lea_sum(Reg::Rax, Reg::R14, Reg::Rsi),
        vstore(Elem::F32, Wide::Y, at(Reg::Rax), Reg::Ymm0),
        add_imm(Reg::Rsi, 32),
    ]
}

fn zero_wide_step_ops() -> (r: Vec<Op>)
    ensures
        r@ == zero_wide_step(),
{
    let r: Vec<Op> =
        vec![
            lea_sum(Reg::Rax, Reg::R14, Reg::Rsi),
            vstore(Elem::F32, Wide::Y, at(Reg::Rax), Reg::Ymm0),
            add_imm(Reg::Rsi, 32),
        ];
    assert(r@ =~= zero_wide_step());
    r
}

/// Clears one element of `c`.
pub open spec fn zero_step(tmp: Reg) -> Seq<Op> {
    seq![
        lea_sum(tmp, Reg::R14, Reg::Rsi),
        store(Elem::F32, at(tmp), Reg::Xmm0),
        add_imm(Reg::Rsi, 4),
    ]
}

fn zero_step_ops(tmp: Reg) -> (r: Vec<Op>)
    ensures
        r@ == zero_step(tmp),
{
    let r: Vec<Op> =
        vec![
            lea_sum(tmp, Reg::R14, Reg::Rsi),
            store(Elem::F32, at(tmp), Reg::Xmm0),
            add_imm(Reg::Rsi, 4),
        ];
    assert(r@ =~= zero_step(tmp));
    r
}

/// Loads the element of `a` at `rax` into every place.
pub open spec fn spread() -> Seq<Op> {
    seq![
        broadcast(Wide::Y, Reg::Ymm0, at(Reg::Rax)),
    ]
}

fn spread_ops() -> (r: Vec<Op>)
    ensures
        r@ == spread(),
{
    let r: Vec<Op> =
        vec![
            broadcast(Wide::Y, Reg::Ymm0, at(Reg::Rax)),
        ];
    assert(r@ =~= spread());
    r
}

/// The length of a row in bytes, from byte offset 0.
pub open spec fn row_limit(limit: Reg) -> Seq<Op> {
    seq![
        clear(Reg::R8),
        mov(limit, Reg::R15),
        scale(limit, Elem::F32),
    ]
}

fn row_limit_ops(limit: Reg) -> (r: Vec<Op>)
    ensures
        r@ == row_limit(limit),
{
    let r: Vec<Op> =
        vec![
            clear(Reg::R8),
            mov(limit, Reg::R15),
            scale(limit, Elem::F32),
        ];
    assert(r@ =~= row_limit(limit));
    r
}

/// Compares the byte offset with the last one of a whole vector in a row.
pub open spec fn row_wide_test(limit: Reg) -> Seq<Op> {
    seq![
        mov(Reg::Rax, limit),
        sub_imm(Reg::Rax, 32),
        compare(Reg::R8, Reg::Rax),
    ]
}

fn row_wide_test_ops(limit: Reg) -> (r: Vec<Op>)
    ensures
        r@ == row_wide_test(limit),
{
    let r: Vec<Op> =
        vec![
            mov(Reg::Rax, limit),
            sub_imm(Reg::Rax, 32),
            compare(Reg::R8, Reg::Rax),
        ];
    assert(r@ =~= row_wide_test(limit));
    r
}

/// Takes the address of the bias from the stack.
pub open spec fn bias_pointer() -> Seq<Op> {
    seq![
        Op::Rm(RmOp::Mov, Reg::Rax, at_disp(Reg::Rbp, 16)),
        mov(Reg::Rbx, Reg::Rax),
    ]
}

fn bias_pointer_ops() -> (r: Vec<Op>)
    ensures
        r@ == bias_pointer(),
{
    let r: Vec<Op> =
        vec![
            Op::Rm(RmOp::Mov, Reg::Rax, at_disp(Reg::Rbp, 16)),
            mov(Reg::Rbx, Reg::Rax),
        ];
    assert(r@ =~= bias_pointer());
    r
}

/// A vector of zeros to compare with.
pub open spec fn bias_zero() -> Seq<Op> {
    seq![
        vclear(Elem::F32, Wide::Y, Reg::Ymm3),
    ]
}

fn bias_zero_ops() -> (r: Vec<Op>)
    ensures
        r@ == bias_zero(),
{
    let r: Vec<Op> =
        vec![
            vclear(Elem::F32, Wide::Y, Reg::Ymm3),
        ];
    assert(r@ =~= bias_zero());
    r
}

/// The address of the bias of this column.
pub open spec fn bias_address() -> Seq<Op> {
    seq![
        lea_sum(Reg::Rax, Reg::Rbx, Reg::R8),
    ]
}

fn bias_address_ops() -> (r: Vec<Op>)
    ensures
        r@ == bias_address(),
{
    let r: Vec<Op> =
        vec![
            lea_sum(Reg::Rax, Reg::Rbx, Reg::R8),
        ];
    assert(r@ =~= bias_address());
    r
}

/// Adds the bias and takes the larger of the sum and zero.
pub open spec fn bias_wide() -> Seq<Op> {
    seq![
        packed(Arith::Add, Elem::F32, Wide::Y, Reg::Ymm1, Reg::Ymm2, Reg::Ymm1),
        packed(Arith::Max, Elem::F32, Wide::Y, Reg::Ymm1, Reg::Ymm1, Reg::Ymm3),
    ]
}

fn bias_wide_ops() -> (r: Vec<Op>)
    ensures
        r@ == bias_wide(),
{
    let r: Vec<Op> =
        vec![
            packed(Arith::Add, Elem::F32, Wide::Y, Reg::Ymm1, Reg::Ymm2, Reg::Ymm1),
            packed(Arith::Max, Elem::F32, Wide::Y, Reg::Ymm1, Reg::Ymm1, Reg::Ymm3),
        ];
    assert(r@ =~= bias_wide());
    r
}

/// Adds the bias and takes the larger of the sum and zero.
pub open spec fn bias_low() -> Seq<Op> {
    seq![
        scalar(Arith::Add, Elem::F32, Reg::Xmm1, Reg::Xmm2),
        clear_low(Reg::Xmm2),
        scalar(Arith::Max, Elem::F32, Reg::Xmm1, Reg::Xmm2),
    ]
}

fn bias_low_ops() -> (r: Vec<Op>)
    ensures
        r@ == bias_low(),
{
    let r: Vec<Op> =
        vec![
            scalar(Arith::Add, Elem::F32, Reg::Xmm1, Reg::Xmm2),
            clear_low(Reg::Xmm2),
            scalar(Arith::Max, Elem::F32, Reg::Xmm1, Reg::Xmm2),
        ];
    assert(r@ =~= bias_low());
    r
}

/// The result is 0.
pub open spec fn succeed() -> Seq<Op> {
    seq![
        clear(Reg::Rax),
    ]
}

fn succeed_ops() -> (r: Vec<Op>)
    ensures
        r@ == succeed(),
{
    let r: Vec<Op> =
        vec![
            clear(Reg::Rax),
        ];
    assert(r@ =~= succeed());
    r
}

/// Leaves the vector registers clean.
pub open spec fn clear_upper() -> Seq<Op> {
    seq![
        bare(BareOp::Vzeroupper),
    ]
}

fn clear_upper_ops() -> (r: Vec<Op>)
    ensures
        r@ == clear_upper(),
{
    let r: Vec<Op> =
        vec![
            bare(BareOp::Vzeroupper),
        ];
    assert(r@ =~= clear_upper());
    r
}

/// Clears `c` element by element.
pub open spec fn clear_each(p: Asm) -> Asm {
    p.emit(zero())
        .emit(start(Reg::Rdi))
        .begin()
        .emit(test(Reg::Rdi, Reg::R10))
        .exit_if_ge()
        .emit(start(Reg::Rsi))
        .begin()
        .emit(test(Reg::Rsi, Reg::R15))
        .exit_if_ge()
        .emit(element(Reg::Rdi, Reg::R15, Reg::Rsi, Reg::R14))
        .emit(store_low(Reg::Xmm0))
        .emit(step(Reg::Rsi, 1))
        .end()
        .emit(step(Reg::Rdi, 1))
        .end()
}

proof fn clear_each_keeps(p: Asm)
    requires
        program::sound(p),
        p.next + 4 <= u64::MAX,
    ensures
        program::sound(clear_each(p)),
        clear_each(p).open == p.open,
        clear_each(p).next <= p.next + 4,
        program::stack_after(clear_each(p).lines) == program::stack_after(p.lines),
{
    let q1 = p.emit(zero());
    program::emit_keeps(p, zero());
    let q2 = q1.emit(start(Reg::Rdi));
    program::emit_keeps(q1, start(Reg::Rdi));
    let q3 = q2.begin();
    program::begin_keeps(q2);
    let q4 = q3.emit(test(Reg::Rdi, Reg::R10));
    program::emit_keeps(q3, test(Reg::Rdi, Reg::R10));
    let q5 = q4.exit_if_ge();
    program::exit_keeps(q4);
    let q6 = q5.emit(start(Reg::Rsi));
    program::emit_keeps(q5, start(Reg::Rsi));
    let q7 = q6.begin();
    program::begin_keeps(q6);
    let q8 = q7.emit(test(Reg::Rsi, Reg::R15));
    program::emit_keeps(q7, test(Reg::Rsi, Reg::R15));
    let q9 = q8.exit_if_ge();
    program::exit_keeps(q8);
    let q10 = q9.emit(element(Reg::Rdi, Reg::R15, Reg::Rsi, Reg::R14));
    program::emit_keeps(q9, element(Reg::Rdi, Reg::R15, Reg::Rsi, Reg::R14));
    let q11 = q10.emit(store_low(Reg::Xmm0));
    program::emit_keeps(q10, store_low(Reg::Xmm0));
    let q12 = q11.emit(step(Reg::Rsi, 1));
    program::emit_keeps(q11, step(Reg::Rsi, 1));
    let q13 = q12.end();
    program::end_keeps(q12);
    let q14 = q13.emit(step(Reg::Rdi, 1));
    program::emit_keeps(q13, step(Reg::Rdi, 1));
    let q15 = q14.end();
    program::end_keeps(q14);
}

fn emit_clear_each(p: &mut Program)
    requires
        old(p).next + 4 <= u64::MAX,
    ensures
        final(p)@ == clear_each(old(p)@),
        final(p).next <= old(p).next + 4,
        final(p).open@ == old(p).open@,
{
    p.emit(&zero_ops());
    p.emit(&start_ops(Reg::Rdi));
    p.begin();
    p.emit(&test_ops(Reg::Rdi, Reg::R10));
    p.exit_if_ge();
    p.emit(&start_ops(Reg::Rsi));
    p.begin();
    p.emit(&test_ops(Reg::Rsi, Reg::R15));
    p.exit_if_ge();
    p.emit(&element_ops(Reg::Rdi, Reg::R15, Reg::Rsi, Reg::R14));
    p.emit(&store_low_ops(Reg::Xmm0));
    p.emit(&step_ops(Reg::Rsi, 1));
    p.end();
    p.emit(&step_ops(Reg::Rdi, 1));
    p.end();
}

/// Adds a row of `b`, times the element of `a`, to a row of `c`.
pub open spec fn add_row_each(p: Asm) -> Asm {
    p.emit(start(Reg::R8))
        .begin()
        .emit(test(Reg::R8, Reg::R15))
        .exit_if_ge()
        .emit(element(Reg::Rdi, Reg::R15, Reg::R8, Reg::R14))
        .emit(load_low(Reg::Xmm1))
        .emit(element(Reg::R9, Reg::R15, Reg::R8, Reg::R13))
        .emit(load_low(Reg::Xmm2))
        .emit(multiply_add())
        .emit(element(Reg::Rdi, Reg::R15, Reg::R8, Reg::R14))
        .emit(store_low(Reg::Xmm1))
        .emit(step(Reg::R8, 1))
        .end()
}

proof fn add_row_each_keeps(p: Asm)
    requires
        program::sound(p),
        p.next + 2 <= u64::MAX,
    ensures
        program::sound(add_row_each(p)),
        add_row_each(p).open == p.open,
        add_row_each(p).next <= p.next + 2,
        program::stack_after(add_row_each(p).lines) == program::stack_after(p.lines),
{
    let q1 = p.emit(start(Reg::R8));
    program::emit_keeps(p, start(Reg::R8));
    let q2 = q1.begin();
    program::begin_keeps(q1);
    let q3 = q2.emit(test(Reg::R8, Reg::R15));
    program::emit_keeps(q2, test(Reg::R8, Reg::R15));
    let q4 = q3.exit_if_ge();
    program::exit_keeps(q3);
    let q5 = q4.emit(element(Reg::Rdi, Reg::R15, Reg::R8, Reg::R14));
    program::emit_keeps(q4, element(Reg::Rdi, Reg::R15, Reg::R8, Reg::R14));
    let q6 = q5.emit(load_low(Reg::Xmm1));
    program::emit_keeps(q5, load_low(Reg::Xmm1));
    let q7 = q6.emit(element(Reg::R9, Reg::R15, Reg::R8, Reg::R13));
    program::emit_keeps(q6, element(Reg::R9, Reg::R15, Reg::R8, Reg::R13));
    let q8 = q7.emit(load_low(Reg::Xmm2));
    program::emit_keeps(q7, load_low(Reg::Xmm2));
    let q9 = q8.emit(multiply_add());
    program::emit_keeps(q8, multiply_add());
    let q10 = q9.emit(element(Reg::Rdi, Reg::R15, Reg::R8, Reg::R14));
    program::emit_keeps(q9, element(Reg::Rdi, Reg::R15, Reg::R8, Reg::R14));
    let q11 = q10.emit(store_low(Reg::Xmm1));
    program::emit_keeps(q10, store_low(Reg::Xmm1));
    let q12 = q11.emit(step(Reg::R8, 1));
    program::emit_keeps(q11, step(Reg::R8, 1));
    let q13 = q12.end();
    program::end_keeps(q12);
}

fn emit_add_row_each(p: &mut Program)
    requires
        old(p).next + 2 <= u64::MAX,
    ensures
        final(p)@ == add_row_each(old(p)@),
        final(p).next <= old(p).next + 2,
        final(p).open@ == old(p).open@,
{
    p.emit(&start_ops(Reg::R8));
    p.begin();
    p.emit(&test_ops(Reg::R8, Reg::R15));
    p.exit_if_ge();
    p.emit(&element_ops(Reg::Rdi, Reg::R15, Reg::R8, Reg::R14));
    p.emit(&load_low_ops(Reg::Xmm1));
    p.emit(&element_ops(Reg::R9, Reg::R15, Reg::R8, Reg::R13));
    p.emit(&load_low_ops(Reg::Xmm2));
    p.emit(&multiply_add_ops());
    p.emit(&element_ops(Reg::Rdi, Reg::R15, Reg::R8, Reg::R14));
    p.emit(&store_low_ops(Reg::Xmm1));
    p.emit(&step_ops(Reg::R8, 1));
    p.end();
}

/// Goes through the rows of `c` and the rows of `b`.
pub open spec fn multiply_each(p: Asm) -> Asm {
    let p1 = p.emit(start(Reg::Rdi))
        .begin()
        .emit(test(Reg::Rdi, Reg::R10))
        .exit_if_ge()
        .emit(start(Reg::R9))
        .begin()
        .emit(test(Reg::R9, Reg::R11))
        .exit_if_ge()
        .emit(element(Reg::Rdi, Reg::R11, Reg::R9, Reg::R12))
        .emit(load_low(Reg::Xmm0));
    let p2 = add_row_each(p1);
    p2.emit(step(Reg::R9, 1))
        .end()
        .emit(step(Reg::Rdi, 1))
        .end()
}

proof fn multiply_each_keeps(p: Asm)
    requires
        program::sound(p),
        p.next + 6 <= u64::MAX,
    ensures
        program::sound(multiply_each(p)),
        multiply_each(p).open == p.open,
        multiply_each(p).next <= p.next + 6,
        program::stack_after(multiply_each(p).lines) == program::stack_after(p.lines),
{
    let q1 = p.emit(start(Reg::Rdi));
    program::emit_keeps(p, start(Reg::Rdi));
    let q2 = q1.begin();
    program::begin_keeps(q1);
    let q3 = q2.emit(test(Reg::Rdi, Reg::R10));
    program::emit_keeps(q2, test(Reg::Rdi, Reg::R10));
    let q4 = q3.exit_if_ge();
    program::exit_keeps(q3);
    let q5 = q4.emit(start(Reg::R9));
    program::emit_keeps(q4, start(Reg::R9));
    let q6 = q5.begin();
    program::begin_keeps(q5);
    let q7 = q6.emit(test(Reg::R9, Reg::R11));
    program::emit_keeps(q6, test(Reg::R9, Reg::R11));
    let q8 = q7.exit_if_ge();
    program::exit_keeps(q7);
    let q9 = q8.emit(element(Reg::Rdi, Reg::R11, Reg::R9, Reg::R12));
    program::emit_keeps(q8, element(Reg::Rdi, Reg::R11, Reg::R9, Reg::R12));
    let q10 = q9.emit(load_low(Reg::Xmm0));
    program::emit_keeps(q9, load_low(Reg::Xmm0));
    let q11 = add_row_each(q10);
    add_row_each_keeps(q10);
    let q12 = q11.emit(step(Reg::R9, 1));
    program::emit_keeps(q11, step(Reg::R9, 1));
    let q13 = q12.end();
    program::end_keeps(q12);
    let q14 = q13.emit(step(Reg::Rdi, 1));
    program::emit_keeps(q13, step(Reg::Rdi, 1));
    let q15 = q14.end();
    program::end_keeps(q14);
}

fn emit_multiply_each(p: &mut Program)
    requires
        old(p).next + 6 <= u64::MAX,
    ensures
        final(p)@ == multiply_each(old(p)@),
        final(p).next <= old(p).next + 6,
        final(p).open@ == old(p).open@,
{
    p.emit(&start_ops(Reg::Rdi));
    p.begin();
    p.emit(&test_ops(Reg::Rdi, Reg::R10));
    p.exit_if_ge();
    p.emit(&start_ops(Reg::R9));
    p.begin();
    p.emit(&test_ops(Reg::R9, Reg::R11));
    p.exit_if_ge();
    p.emit(&element_ops(Reg::Rdi, Reg::R11, Reg::R9, Reg::R12));
    p.emit(&load_low_ops(Reg::Xmm0));
    emit_add_row_each(p);
    p.emit(&step_ops(Reg::R9, 1));
    p.end();
    p.emit(&step_ops(Reg::Rdi, 1));
    p.end();
}

/// Clears `c` by vectors and then by elements.
pub open spec fn clear_wide(p: Asm, tmp: Reg) -> Asm {
    p.emit(zero_wide())
        .begin()
        .emit(zero_wide_test())
        .exit_if_ge()
        .emit(zero_wide_step())
        .end()
        .emit(zero_limit())
        .begin()
        .emit(test(Reg::Rsi, Reg::Rax))
        .exit_if_ge()
        .emit(zero_step(tmp))
        .end()
}

proof fn clear_wide_keeps(p: Asm, tmp: Reg)
    requires
        program::sound(p),
        p.next + 4 <= u64::MAX,
    ensures
        program::sound(clear_wide(p, tmp)),
        clear_wide(p, tmp).open == p.open,
        clear_wide(p, tmp).next <= p.next + 4,
        program::stack_after(clear_wide(p, tmp).lines) == program::stack_after(p.lines),
{
    let q1 = p.emit(zero_wide());
    program::emit_keeps(p, zero_wide());
    let q2 = q1.begin();
    program::begin_keeps(q1);
    let q3 = q2.emit(zero_wide_test());
    program::emit_keeps(q2, zero_wide_test());
    let q4 = q3.exit_if_ge();
    program::exit_keeps(q3);
    let q5 = q4.emit(zero_wide_step());
    program::emit_keeps(q4, zero_wide_step());
    let q6 = q5.end();
    program::end_keeps(q5);
    let q7 = q6.emit(zero_limit());
    program::emit_keeps(q6, zero_limit());
    let q8 = q7.begin();
    program::begin_keeps(q7);
    let q9 = q8.emit(test(Reg::Rsi, Reg::Rax));
    program::emit_keeps(q8, test(Reg::Rsi, Reg::Rax));
    let q10 = q9.exit_if_ge();
    program::exit_keeps(q9);
    let q11 = q10.emit(zero_step(tmp));
    program::emit_keeps(q10, zero_step(tmp));
    let q12 = q11.end();
    program::end_keeps(q11);
}

fn emit_clear_wide(p: &mut Program, tmp: Reg)
    requires
        old(p).next + 4 <= u64::MAX,
    ensures
        final(p)@ == clear_wide(old(p)@, tmp),
        final(p).next <= old(p).next + 4,
        final(p).open@ == old(p).open@,
{
    p.emit(&zero_wide_ops());
    p.begin();
    p.emit(&zero_wide_test_ops());
    p.exit_if_ge();
    p.emit(&zero_wide_step_ops());
    p.end();
    p.emit(&zero_limit_ops());
    p.begin();
    p.emit(&test_ops(Reg::Rsi, Reg::Rax));
    p.exit_if_ge();
    p.emit(&zero_step_ops(tmp));
    p.end();
}

/// Adds a row of `b`, times the element of `a`, to a row of `c`, by vectors and then by elements.
pub open spec fn add_row_wide(p: Asm, limit: Reg) -> Asm {
    p.emit(row_limit(limit))
        .begin()
        .emit(row_wide_test(limit))
        .exit_if_ge()
        .emit(row_offset(Reg::R9, Reg::R13))
        .emit(load_wide(Reg::Ymm2))
        .emit(row_offset(Reg::Rdi, Reg::R14))
        .emit(load_wide(Reg::Ymm1))
        .emit(multiply_add_wide())
        .emit(row_offset(Reg::Rdi, Reg::R14))
        .emit(store_wide(Reg::Ymm1))
        .emit(step(Reg::R8, 32))
        .end()
        .begin()
        .emit(test(Reg::R8, limit))
        .exit_if_ge()
        .emit(row_offset(Reg::R9, Reg::R13))
        .emit(load_low(Reg::Xmm2))
        .emit(row_offset(Reg::Rdi, Reg::R14))
        .emit(load_low(Reg::Xmm1))
        .emit(multiply_add())
        .emit(row_offset(Reg::Rdi, Reg::R14))
        .emit(store_low(Reg::Xmm1))
        .emit(step(Reg::R8, 4))
        .end()
}

proof fn add_row_wide_keeps(p: Asm, limit: Reg)
    requires
        program::sound(p),
        p.next + 4 <= u64::MAX,
    ensures
        program::sound(add_row_wide(p, limit)),
        add_row_wide(p, limit).open == p.open,
        add_row_wide(p, limit).next <= p.next + 4,
        program::stack_after(add_row_wide(p, limit).lines) == program::stack_after(p.lines),
{
    let q1 = p.emit(row_limit(limit));
    program::emit_keeps(p, row_limit(limit));
    let q2 = q1.begin();
    program::begin_keeps(q1);
    let q3 = q2.emit(row_wide_test(limit));
    program::emit_keeps(q2, row_wide_test(limit));
    let q4 = q3.exit_if_ge();
    program::exit_keeps(q3);
    let q5 = q4.emit(row_offset(Reg::R9, Reg::R13));
    program::emit_keeps(q4, row_offset(Reg::R9, Reg::R13));
    let q6 = q5.emit(load_wide(Reg::Ymm2));
    program::emit_keeps(q5, load_wide(Reg::Ymm2));
    let q7 = q6.emit(row_offset(Reg::Rdi, Reg::R14));
    program::emit_keeps(q6, row_offset(Reg::Rdi, Reg::R14));
    let q8 = q7.emit(load_wide(Reg::Ymm1));
    program::emit_keeps(q7, load_wide(Reg::Ymm1));
    let q9 = q8.emit(multiply_add_wide());
    program::emit_keeps(q8, multiply_add_wide());
    let q10 = q9.emit(row_offset(Reg::Rdi, Reg::R14));
    program::emit_keeps(q9, row_offset(Reg::Rdi, Reg::R14));
    let q11 = q10.emit(store_wide(Reg::Ymm1));
    program::emit_keeps(q10, store_wide(Reg::Ymm1));
    let q12 = q11.emit(step(Reg::R8, 32));
    program::emit_keeps(q11, step(Reg::R8, 32));
    let q13 = q12.end();
    program::end_keeps(q12);
    let q14 = q13.begin();
    program::begin_keeps(q13);
    let q15 = q14.emit(test(Reg::R8, limit));
    program::emit_keeps(q14, test(Reg::R8, limit));
    let q16 = q15.exit_if_ge();
    program::exit_keeps(q15);
    let q17 = q16.emit(row_offset(Reg::R9, Reg::R13));
    program::emit_keeps(q16, row_offset(Reg::R9, Reg::R13));
    let q18 = q17.emit(load_low(Reg::Xmm2));
    program::emit_keeps(q17, load_low(Reg::Xmm2));
    let q19 = q18.emit(row_offset(Reg::Rdi, Reg::R14));
    program::emit_keeps(q18, row_offset(Reg::Rdi, Reg::R14));
    let q20 = q19.emit(load_low(Reg::Xmm1));
    program::emit_keeps(q19, load_low(Reg::Xmm1));
    let q21 = q20.emit(multiply_add());
    program::emit_keeps(q20, multiply_add());
    let q22 = q21.emit(row_offset(Reg::Rdi, Reg::R14));
    program::emit_keeps(q21, row_offset(Reg::Rdi, Reg::R14));
    let q23 = q22.emit(store_low(Reg::Xmm1));
    program::emit_keeps(q22, store_low(Reg::Xmm1));
    let q24 = q23.emit(step(Reg::R8, 4));
    program::emit_keeps(q23, step(Reg::R8, 4));
    let q25 = q24.end();
    program::end_keeps(q24);
}

fn emit_add_row_wide(p: &mut Program, limit: Reg)
    requires
        old(p).next + 4 <= u64::MAX,
    ensures
        final(p)@ == add_row_wide(old(p)@, limit),
        final(p).next <= old(p).next + 4,
        final(p).open@ == old(p).open@,
{
    p.emit(&row_limit_ops(limit));
    p.begin();
    p.emit(&row_wide_test_ops(limit));
    p.exit_if_ge();
    p.emit(&row_offset_ops(Reg::R9, Reg::R13));
    p.emit(&load_wide_ops(Reg::Ymm2));
    p.emit(&row_offset_ops(Reg::Rdi, Reg::R14));
    p.emit(&load_wide_ops(Reg::Ymm1));
    p.emit(&multiply_add_wide_ops());
    p.emit(&row_offset_ops(Reg::Rdi, Reg::R14));
    p.emit(&store_wide_ops(Reg::Ymm1));
    p.emit(&step_ops(Reg::R8, 32));
    p.end();
    p.begin();
    p.emit(&test_ops(Reg::R8, limit));
    p.exit_if_ge();
    p.emit(&row_offset_ops(Reg::R9, Reg::R13));
    p.emit(&load_low_ops(Reg::Xmm2));
    p.emit(&row_offset_ops(Reg::Rdi, Reg::R14));
    p.emit(&load_low_ops(Reg::Xmm1));
    p.emit(&multiply_add_ops());
    p.emit(&row_offset_ops(Reg::Rdi, Reg::R14));
    p.emit(&store_low_ops(Reg::Xmm1));
    p.emit(&step_ops(Reg::R8, 4));
    p.end();
}

/// Adds all rows of `b`, each times its element of `a`, to a row of `c`.
pub open spec fn add_rows_wide(p: Asm, limit: Reg) -> Asm {
    let p1 = p.emit(start(Reg::R9))
        .begin()
        .emit(test(Reg::R9, Reg::R11))
        .exit_if_ge()
        .emit(element(Reg::Rdi, Reg::R11, Reg::R9, Reg::R12))
        .emit(spread());
    let p2 = add_row_wide(p1, limit);
    p2.emit(step(Reg::R9, 1))
        .end()
}

proof fn add_rows_wide_keeps(p: Asm, limit: Reg)
    requires
        program::sound(p),
        p.next + 6 <= u64::MAX,
    ensures
        program::sound(add_rows_wide(p, limit)),
        add_rows_wide(p, limit).open == p.open,
        add_rows_wide(p, limit).next <= p.next + 6,
        program::stack_after(add_rows_wide(p, limit).lines) == program::stack_after(p.lines),
{
    let q1 = p.emit(start(Reg::R9));
    program::emit_keeps(p, start(Reg::R9));
    let q2 = q1.begin();
    program::begin_keeps(q1);
    let q3 = q2.emit(test(Reg::R9, Reg::R11));
    program::emit_keeps(q2, test(Reg::R9, Reg::R11));
    let q4 = q3.exit_if_ge();
    program::exit_keeps(q3);
    let q5 = q4.emit(element(Reg::Rdi, Reg::R11, Reg::R9, Reg::R12));
    program::emit_keeps(q4, element(Reg::Rdi, Reg::R11, Reg::R9, Reg::R12));
    let q6 = q5.emit(spread());
    program::emit_keeps(q5, spread());
    let q7 = add_row_wide(q6, limit);
    add_row_wide_keeps(q6, limit);
    let q8 = q7.emit(step(Reg::R9, 1));
    program::emit_keeps(q7, step(Reg::R9, 1));
    let q9 = q8.end();
    program::end_keeps(q8);
}

fn emit_add_rows_wide(p: &mut Program, limit: Reg)
    requires
        old(p).next + 6 <= u64::MAX,
    ensures
        final(p)@ == add_rows_wide(old(p)@, limit),
        final(p).next <= old(p).next + 6,
        final(p).open@ == old(p).open@,
{
    p.emit(&start_ops(Reg::R9));
    p.begin();
    p.emit(&test_ops(Reg::R9, Reg::R11));
    p.exit_if_ge();
    p.emit(&element_ops(Reg::Rdi, Reg::R11, Reg::R9, Reg::R12));
    p.emit(&spread_ops());
    emit_add_row_wide(p, limit);
    p.emit(&step_ops(Reg::R9, 1));
    p.end();
}

/// Adds the bias to a row of `c` and raises what is below zero to zero.
pub open spec fn bias_row(p: Asm) -> Asm {
    p.emit(bias_zero())
        .emit(row_limit(Reg::Rcx))
        .begin()
        .emit(row_wide_test(Reg::Rcx))
        .exit_if_ge()
        .emit(row_offset(Reg::Rdi, Reg::R14))
        .emit(load_wide(Reg::Ymm1))
        .emit(bias_address())
        .emit(load_wide(Reg::Ymm2))
        .emit(bias_wide())
        .emit(row_offset(Reg::Rdi, Reg::R14))
        .emit(store_wide(Reg::Ymm1))
        .emit(step(Reg::R8, 32))
        .end()
        .begin()
        .emit(test(Reg::R8, Reg::Rcx))
        .exit_if_ge()
        .emit(row_offset(Reg::Rdi, Reg::R14))
        .emit(load_low(Reg::Xmm1))
        .emit(bias_address())
        .emit(load_low(Reg::Xmm2))
        .emit(bias_low())
        .emit(row_offset(Reg::Rdi, Reg::R14))
        .emit(store_low(Reg::Xmm1))
        .emit(step(Reg::R8, 4))
        .end()
}

proof fn bias_row_keeps(p: Asm)
    requires
        program::sound(p),
        p.next + 4 <= u64::MAX,
    ensures
        program::sound(bias_row(p)),
        bias_row(p).open == p.open,
        bias_row(p).next <= p.next + 4,
        program::stack_after(bias_row(p).lines) == program::stack_after(p.lines),
{
    let q1 = p.emit(bias_zero());
    program::emit_keeps(p, bias_zero());
    let q2 = q1.emit(row_limit(Reg::Rcx));
    program::emit_keeps(q1, row_limit(Reg::Rcx));
    let q3 = q2.begin();
    program::begin_keeps(q2);
    let q4 = q3.emit(row_wide_test(Reg::Rcx));
    program::emit_keeps(q3, row_wide_test(Reg::Rcx));
    let q5 = q4.exit_if_ge();
    program::exit_keeps(q4);
    let q6 = q5.emit(row_offset(Reg::Rdi, Reg::R14));
    program::emit_keeps(q5, row_offset(Reg::Rdi, Reg::R14));
    let q7 = q6.emit(load_wide(Reg::Ymm1));
    program::emit_keeps(q6, load_wide(Reg::Ymm1));
    let q8 = q7.emit(bias_address());
    program::emit_keeps(q7, bias_address());
    let q9 = q8.emit(load_wide(Reg::Ymm2));
    program::emit_keeps(q8, load_wide(Reg::Ymm2));
    let q10 = q9.emit(bias_wide());
    program::emit_keeps(q9, bias_wide());
    let q11 = q10.emit(row_offset(Reg::Rdi, Reg::R14));
    program::emit_keeps(q10, row_offset(Reg::Rdi, Reg::R14));
    let q12 = q11.emit(store_wide(Reg::Ymm1));
    program::emit_keeps(q11, store_wide(Reg::Ymm1));
    let q13 = q12.emit(step(Reg::R8, 32));
    program::emit_keeps(q12, step(Reg::R8, 32));
    let q14 = q13.end();
    program::end_keeps(q13);
    let q15 = q14.begin();
    program::begin_keeps(q14);
    let q16 = q15.emit(test(Reg::R8, Reg::Rcx));
    program::emit_keeps(q15, test(Reg::R8, Reg::Rcx));
    let q17 = q16.exit_if_ge();
    program::exit_keeps(q16);
    let q18 = q17.emit(row_offset(Reg::Rdi, Reg::R14));
    program::emit_keeps(q17, row_offset(Reg::Rdi, Reg::R14));
    let q19 = q18.emit(load_low(Reg::Xmm1));
    program::emit_keeps(q18, load_low(Reg::Xmm1));
    let q20 = q19.emit(bias_address());
    program::emit_keeps(q19, bias_address());
    let q21 = q20.emit(load_low(Reg::Xmm2));
    program::emit_keeps(q20, load_low(Reg::Xmm2));
    let q22 = q21.emit(bias_low());
    program::emit_keeps(q21, bias_low());
    let q23 = q22.emit(row_offset(Reg::Rdi, Reg::R14));
    program::emit_keeps(q22, row_offset(Reg::Rdi, Reg::R14));
    let q24 = q23.emit(store_low(Reg::Xmm1));
    program::emit_keeps(q23, store_low(Reg::Xmm1));
    let q25 = q24.emit(step(Reg::R8, 4));
    program::emit_keeps(q24, step(Reg::R8, 4));
    let q26 = q25.end();
    program::end_keeps(q25);
}

fn emit_bias_row(p: &mut Program)
    requires
        old(p).next + 4 <= u64::MAX,
    ensures
        final(p)@ == bias_row(old(p)@),
        final(p).next <= old(p).next + 4,
        final(p).open@ == old(p).open@,
{
    p.emit(&bias_zero_ops());
    p.emit(&row_limit_ops(Reg::Rcx));
    p.begin();
    p.emit(&row_wide_test_ops(Reg::Rcx));
    p.exit_if_ge();
    p.emit(&row_offset_ops(Reg::Rdi, Reg::R14));
    p.emit(&load_wide_ops(Reg::Ymm1));
    p.emit(&bias_address_ops());
    p.emit(&load_wide_ops(Reg::Ymm2));
    p.emit(&bias_wide_ops());
    p.emit(&row_offset_ops(Reg::Rdi, Reg::R14));
    p.emit(&store_wide_ops(Reg::Ymm1));
    p.emit(&step_ops(Reg::R8, 32));
    p.end();
    p.begin();
    p.emit(&test_ops(Reg::R8, Reg::Rcx));
    p.exit_if_ge();
    p.emit(&row_offset_ops(Reg::Rdi, Reg::R14));
    p.emit(&load_low_ops(Reg::Xmm1));
    p.emit(&bias_address_ops());
    p.emit(&load_low_ops(Reg::Xmm2));
    p.emit(&bias_low_ops());
    p.emit(&row_offset_ops(Reg::Rdi, Reg::R14));
    p.emit(&store_low_ops(Reg::Xmm1));
    p.emit(&step_ops(Reg::R8, 4));
    p.end();
}

/// Goes through the rows of `c`.
pub open spec fn multiply_wide(p: Asm) -> Asm {
    let p1 = p.emit(start(Reg::Rdi))
        .begin()
        .emit(test(Reg::Rdi, Reg::R10))
        .exit_if_ge();
    let p2 = add_rows_wide(p1, Reg::Rbx);
    p2.emit(step(Reg::Rdi, 1))
        .end()
}

proof fn multiply_wide_keeps(p: Asm)
    requires
        program::sound(p),
        p.next + 8 <= u64::MAX,
    ensures
        program::sound(multiply_wide(p)),
        multiply_wide(p).open == p.open,
        multiply_wide(p).next <= p.next + 8,
        program::stack_after(multiply_wide(p).lines) == program::stack_after(p.lines),
{
    let q1 = p.emit(start(Reg::Rdi));
    program::emit_keeps(p, start(Reg::Rdi));
    let q2 = q1.begin();
    program::begin_keeps(q1);
    let q3 = q2.emit(test(Reg::Rdi, Reg::R10));
    program::emit_keeps(q2, test(Reg::Rdi, Reg::R10));
    let q4 = q3.exit_if_ge();
    program::exit_keeps(q3);
    let q5 = add_rows_wide(q4, Reg::Rbx);
    add_rows_wide_keeps(q4, Reg::Rbx);
    let q6 = q5.emit(step(Reg::Rdi, 1));
    program::emit_keeps(q5, step(Reg::Rdi, 1));
    let q7 = q6.end();
    program::end_keeps(q6);
}

fn emit_multiply_wide(p: &mut Program)
    requires
        old(p).next + 8 <= u64::MAX,
    ensures
        final(p)@ == multiply_wide(old(p)@),
        final(p).next <= old(p).next + 8,
        final(p).open@ == old(p).open@,
{
    p.emit(&start_ops(Reg::Rdi));
    p.begin();
    p.emit(&test_ops(Reg::Rdi, Reg::R10));
    p.exit_if_ge();
    emit_add_rows_wide(p, Reg::Rbx);
    p.emit(&step_ops(Reg::Rdi, 1));
    p.end();
}

/// Goes through the rows of `c`, finishing each with the bias.
pub open spec fn multiply_bias(p: Asm) -> Asm {
    let p1 = p.emit(start(Reg::Rdi))
        .begin()
        .emit(test(Reg::Rdi, Reg::R10))
        .exit_if_ge();
    let p2 = add_rows_wide(p1, Reg::Rcx);
    let p3 = bias_row(p2);
    p3.emit(step(Reg::Rdi, 1))
        .end()
}

proof fn multiply_bias_keeps(p: Asm)
    requires
        program::sound(p),
        p.next + 12 <= u64::MAX,
    ensures
        program::sound(multiply_bias(p)),
        multiply_bias(p).open == p.open,
        multiply_bias(p).next <= p.next + 12,
        program::stack_after(multiply_bias(p).lines) == program::stack_after(p.lines),
{
    let q1 = p.emit(start(Reg::Rdi));
    program::emit_keeps(p, start(Reg::Rdi));
    let q2 = q1.begin();
    program::begin_keeps(q1);
    let q3 = q2.emit(test(Reg::Rdi, Reg::R10));
    program::emit_keeps(q2, test(Reg::Rdi, Reg::R10));
    let q4 = q3.exit_if_ge();
    program::exit_keeps(q3);
    let q5 = add_rows_wide(q4, Reg::Rcx);
    add_rows_wide_keeps(q4, Reg::Rcx);
    let q6 = bias_row(q5);
    bias_row_keeps(q5);
    let q7 = q6.emit(step(Reg::Rdi, 1));
    program::emit_keeps(q6, step(Reg::Rdi, 1));
    let q8 = q7.end();
    program::end_keeps(q7);
}

fn emit_multiply_bias(p: &mut Program)
    requires
        old(p).next + 12 <= u64::MAX,
    ensures
        final(p)@ == multiply_bias(old(p)@),
        final(p).next <= old(p).next + 12,
        final(p).open@ == old(p).open@,
{
    p.emit(&start_ops(Reg::Rdi));
    p.begin();
    p.emit(&test_ops(Reg::Rdi, Reg::R10));
    p.exit_if_ge();
    emit_add_rows_wide(p, Reg::Rcx);
    emit_bias_row(p);
    p.emit(&step_ops(Reg::Rdi, 1));
    p.end();
}

/// The kernel that takes single elements only.
pub open spec fn scalar_kernel() -> Asm {
    let p1 = Asm::empty()
        .enter(saved())
        .emit(arguments());
    let p2 = clear_each(p1);
    let p3 = multiply_each(p2);
    p3.emit(succeed())
        .leave(saved())
}

/// The kernel has sound labels and keeps the registers that it saved.
pub proof fn scalar_kernel_is_sound()
    ensures
        lower::is_complete(scalar_kernel()),
{
    let q0 = Asm::empty();
    program::empty_is_sound();
    let q1 = q0.enter(saved());
    program::enter_keeps(q0, saved());
    let q2 = q1.emit(arguments());
    program::emit_keeps(q1, arguments());
    let q3 = clear_each(q2);
    clear_each_keeps(q2);
    let q4 = multiply_each(q3);
    multiply_each_keeps(q3);
    let q5 = q4.emit(succeed());
    program::emit_keeps(q4, succeed());
    let q6 = q5.leave(saved());
    program::leave_keeps(q5, saved());
    lower::complete(q6);
}

fn build_scalar_kernel() -> (r: Program)
    ensures
        r@ == scalar_kernel(),
        lower::is_complete(r@),
{
    proof {
        scalar_kernel_is_sound();
    }
    let mut p = Program::new();
    p.enter(&saved_regs());
    p.emit(&arguments_ops());
    emit_clear_each(&mut p);
    emit_multiply_each(&mut p);
    p.emit(&succeed_ops());
    p.leave(&saved_regs());
    p
}

/// The kernel that takes 256-bit vectors.
pub open spec fn vector_kernel() -> Asm {
    let p1 = Asm::empty()
        .enter(saved())
        .emit(arguments());
    let p2 = clear_wide(p1, Reg::Rbx);
    let p3 = multiply_wide(p2);
    p3.emit(succeed())
        .emit(clear_upper())
        .leave(saved())
}

/// The kernel has sound labels and keeps the registers that it saved.
pub proof fn vector_kernel_is_sound()
    ensures
        lower::is_complete(vector_kernel()),
{
    let q0 = Asm::empty();
    program::empty_is_sound();
    let q1 = q0.enter(saved());
    program::enter_keeps(q0, saved());
    let q2 = q1.emit(arguments());
    program::emit_keeps(q1, arguments());
    let q3 = clear_wide(q2, Reg::Rbx);
    clear_wide_keeps(q2, Reg::Rbx);
    let q4 = multiply_wide(q3);
    multiply_wide_keeps(q3);
    let q5 = q4.emit(succeed());
    program::emit_keeps(q4, succeed());
    let q6 = q5.emit(clear_upper());
    program::emit_keeps(q5, clear_upper());
    let q7 = q6.leave(saved());
    program::leave_keeps(q6, saved());
    lower::complete(q7);
}

fn build_vector_kernel() -> (r: Program)
    ensures
        r@ == vector_kernel(),
        lower::is_complete(r@),
{
    proof {
        vector_kernel_is_sound();
    }
    let mut p = Program::new();
    p.enter(&saved_regs());
    p.emit(&arguments_ops());
    emit_clear_wide(&mut p, Reg::Rbx);
    emit_multiply_wide(&mut p);
    p.emit(&succeed_ops());
    p.emit(&clear_upper_ops());
    p.leave(&saved_regs());
    p
}

/// The kernel that adds a bias to every row and raises what is below zero to zero.
pub open spec fn bias_relu_kernel() -> Asm {
    let p1 = Asm::empty()
        .enter(saved())
        .emit(bias_pointer())
        .emit(arguments());
    let p2 = clear_wide(p1, Reg::Rcx);
    let p3 = multiply_bias(p2);
    p3.emit(succeed())
        .emit(clear_upper())
        .leave(saved())
}

/// The kernel has sound labels and keeps the registers that it saved.
pub proof fn bias_relu_kernel_is_sound()
    ensures
        lower::is_complete(bias_relu_kernel()),
{
    let q0 = Asm::empty();
    program::empty_is_sound();
    let q1 = q0.enter(saved());
    program::enter_keeps(q0, saved());
    let q2 = q1.emit(bias_pointer());
    program::emit_keeps(q1, bias_pointer());
    let q3 = q2.emit(arguments());
    program::emit_keeps(q2, arguments());
    let q4 = clear_wide(q3, Reg::Rcx);
    clear_wide_keeps(q3, Reg::Rcx);
    let q5 = multiply_bias(q4);
    multiply_bias_keeps(q4);
    let q6 = q5.emit(succeed());
    program::emit_keeps(q5, succeed());
    let q7 = q6.emit(clear_upper());
    program::emit_keeps(q6, clear_upper());
    let q8 = q7.leave(saved());
    program::leave_keeps(q7, saved());
    lower::complete(q8);
}

fn build_bias_relu_kernel() -> (r: Program)
    ensures
        r@ == bias_relu_kernel(),
        lower::is_complete(r@),
{
    proof {
        bias_relu_kernel_is_sound();
    }
    let mut p = Program::new();
    p.enter(&saved_regs());
    p.emit(&bias_pointer_ops());
    p.emit(&arguments_ops());
    emit_clear_wide(&mut p, Reg::Rcx);
    emit_multiply_bias(&mut p);
    p.emit(&succeed_ops());
    p.emit(&clear_upper_ops());
    p.leave(&saved_regs());
    p
}

impl CompiledKernel {
    /// The product by single elements.
    pub fn compile_matmul() -> (r: Option<CompiledKernel>)
        ensures
            kernel::compiles(r, scalar_kernel(), 0, 0, 0),
    {
        CompiledKernel::finalize(&build_scalar_kernel(), 0, 0, 0)
    }

    /// The product by 256-bit vectors.
    pub fn compile_matmul_avx2() -> (r: Option<CompiledKernel>)
        ensures
            kernel::compiles(r, vector_kernel(), 0, 0, 0),
    {
        CompiledKernel::finalize(&build_vector_kernel(), 0, 0, 0)
    }

    /// The product, a bias on every row, and zero for what is below it.
    pub fn compile_fused_matmul_bias_relu() -> (r: Option<CompiledKernel>)
        ensures
            kernel::compiles(r, bias_relu_kernel(), 0, 0, 0),
    {
        CompiledKernel::finalize(&build_bias_relu_kernel(), 0, 0, 0)
    }
}

} // verus!
