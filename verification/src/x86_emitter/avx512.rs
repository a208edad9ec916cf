//! The matrix product by 512-bit vectors, with the dimensions built into the code.
//!
//! The columns of the result are taken in blocks of 64, each with four running sums, then in
//! blocks of 16, then one by one. The code is called with the addresses of `a`, `b` and `c`.

use crate::x86_emitter::inst::{
    add_imm, add_reg, at, at_disp, bare, broadcast, clear, clear_low, compare, compare_imm, fma,
    imul, lea_sum, load, mov, mov_imm, mov_imm32, scalar, scale, store, sub_imm, vclear, vload,
    vstore, Arith, BareOp, Elem, Op, Reg, RrOp, Wide,
};
use crate::x86_emitter::isa::ISALevel;
use crate::x86_emitter::kernel;
use crate::x86_emitter::kernel::CompiledKernel;
use crate::x86_emitter::lower;
use crate::x86_emitter::matmul;
use crate::x86_emitter::program;
use crate::x86_emitter::program::{Asm, Program};
use vstd::prelude::*;

verus! {

/// The registers that the kernel saves.
pub open spec fn saved() -> Seq<Reg> {
    seq![Reg::Rbx, Reg::R12, Reg::R13, Reg::R14, Reg::R15]
}

fn saved_regs() -> (r: Vec<Reg>)
    ensures
        r@ == saved(),
{
    let r: Vec<Reg> = vec![Reg::Rbx, Reg::R12, Reg::R13, Reg::R14, Reg::R15];
    assert(r@ =~= saved());
    r
}

/// The dimensions give sizes that fit: `c` in bytes a 64-bit word, a row in bytes a `usize`.
pub open spec fn dims_fit(m: usize, n: usize) -> bool {
    m * n * 4 <= u64::MAX && n * 4 <= usize::MAX
}

/// First column behind the blocks of 64.
pub open spec fn after_blocks(n: usize) -> int {
    n / 64 * 64
}

/// Blocks of 16 columns behind the blocks of 64.
pub open spec fn small_blocks(n: usize) -> nat {
    ((n % 64) / 16) as nat
}

/// The byte offset of a block of 16 columns, as it stands in the code.
pub open spec fn small_offset(n: usize, j: int) -> i32 {
    ((after_blocks(n) + j * 16) * 4) as i32
}

/// Every column lies in exactly one part: a block of 64, a block of 16 or the single columns.
pub proof fn columns_are_covered(n: usize)
    ensures
        after_blocks(n) + small_blocks(n) * 16 + n % 16 == n,
        small_blocks(n) <= 3,
{
}

/// Makes room on the stack, keeps the addresses and the length of a row in bytes.
pub open spec fn arguments(row_bytes: i64) -> Seq<Op> {
    seq![
        sub_imm(Reg::Rsp, 64),
        mov(Reg::R12, Reg::Rdi),
        mov(Reg::R13, Reg::Rsi),
        mov(Reg::R14, Reg::Rdx),
        mov_imm(Reg::R15, row_bytes),
    ]
}

fn arguments_ops(row_bytes: i64) -> (r: Vec<Op>)
    ensures
        r@ == arguments(row_bytes),
{
    let r: Vec<Op> =
        vec![
            sub_imm(Reg::Rsp, 64),
            mov(Reg::R12, Reg::Rdi),
            mov(Reg::R13, Reg::Rsi),
            mov(Reg::R14, Reg::Rdx),
            mov_imm(Reg::R15, row_bytes),
        ];
    assert(r@ =~= arguments(row_bytes));
    r
}

/// A vector of zeros and byte offset 0.
pub open spec fn zero_wide() -> Seq<Op> {
    seq![
        vclear(Elem::F32, Wide::Z, Reg::Zmm0),
        clear(Reg::Rsi),
    ]
}

fn zero_wide_ops() -> (r: Vec<Op>)
    ensures
        r@ == zero_wide(),
{
    let r: Vec<Op> =
        vec![
            vclear(Elem::F32, Wide::Z, Reg::Zmm0),
            clear(Reg::Rsi),
        ];
    assert(r@ =~= zero_wide());
    r
}

/// Compares the byte offset with the last one of a whole vector in `c`.
pub open spec fn zero_wide_test(total: i64) -> Seq<Op> {
    seq![
        mov_imm(Reg::Rax, total),
        sub_imm(Reg::Rax, 64),
        compare(Reg::Rsi, Reg::Rax),
    ]
}

fn zero_wide_test_ops(total: i64) -> (r: Vec<Op>)
    ensures
        r@ == zero_wide_test(total),
{
    let r: Vec<Op> =
        vec![
            mov_imm(Reg::Rax, total),
            sub_imm(Reg::Rax, 64),
            compare(Reg::Rsi, Reg::Rax),
        ];
    assert(r@ =~= zero_wide_test(total));
    r
}

/// Clears one vector of `c`.
pub open spec fn zero_wide_step() -> Seq<Op> {
    seq![
        lea_sum(Reg::Rax, Reg::R14, Reg::Rsi),
        vstore(Elem::F32, Wide::Z, at(Reg::Rax), Reg::Zmm0),
        add_imm(Reg::Rsi, 64),
    ]
}

fn zero_wide_step_ops() -> (r: Vec<Op>)
    ensures
        r@ == zero_wide_step(),
{
    let r: Vec<Op> =
        vec![
            lea_sum(Reg::Rax, Reg::R14, Reg::Rsi),
            vstore(Elem::F32, Wide::Z, at(Reg::Rax), Reg::Zmm0),
            add_imm(Reg::Rsi, 64),
        ];
    assert(r@ =~= zero_wide_step());
    r
}

/// A single zero and the end of `c` in bytes.
pub open spec fn zero_limit(total: i64) -> Seq<Op> {
    seq![
        clear_low(Reg::Xmm0),
        mov_imm(Reg::Rax, total),
    ]
}

fn zero_limit_ops(total: i64) -> (r: Vec<Op>)
    ensures
        r@ == zero_limit(total),
{
    let r: Vec<Op> =
        vec![
            clear_low(Reg::Xmm0),
            mov_imm(Reg::Rax, total),
        ];
    assert(r@ =~= zero_limit(total));
    r
}

/// Compares the byte offset with the end of `c`.
pub open spec fn zero_test() -> Seq<Op> {
    seq![
        compare(Reg::Rsi, Reg::Rax),
    ]
}

fn zero_test_ops() -> (r: Vec<Op>)
    ensures
        r@ == zero_test(),
{
    let r: Vec<Op> =
        vec![
            compare(Reg::Rsi, Reg::Rax),
        ];
    assert(r@ =~= zero_test());
    r
}

/// Clears one element of `c`.
pub open spec fn zero_step() -> Seq<Op> {
    seq![
        lea_sum(Reg::Rbx, Reg::R14, Reg::Rsi),
        store(Elem::F32, at(Reg::Rbx), Reg::Xmm0),
        add_imm(Reg::Rsi, 4),
    ]
}

fn zero_step_ops() -> (r: Vec<Op>)
    ensures
        r@ == zero_step(),
{
    let r: Vec<Op> =
        vec![
            lea_sum(Reg::Rbx, Reg::R14, Reg::Rsi),
            store(Elem::F32, at(Reg::Rbx), Reg::Xmm0),
            add_imm(Reg::Rsi, 4),
        ];
    assert(r@ =~= zero_step());
    r
}

/// The number of rows and the length of the inner dimension, from row 0.
pub open spec fn dimensions(m: u32, k: u32) -> Seq<Op> {
    seq![
        mov_imm32(Reg::R10d, m),
        mov_imm32(Reg::R11d, k),
        clear(Reg::Rdi),
    ]
}

fn dimensions_ops(m: u32, k: u32) -> (r: Vec<Op>)
    ensures
        r@ == dimensions(m, k),
{
    let r: Vec<Op> =
        vec![
            mov_imm32(Reg::R10d, m),
            mov_imm32(Reg::R11d, k),
            clear(Reg::Rdi),
        ];
    assert(r@ =~= dimensions(m, k));
    r
}

/// Compares the row with the number of rows.
pub open spec fn row_test() -> Seq<Op> {
    seq![
        compare(Reg::Rdi, Reg::R10),
    ]
}

fn row_test_ops() -> (r: Vec<Op>)
    ensures
        r@ == row_test(),
{
    let r: Vec<Op> =
        vec![
            compare(Reg::Rdi, Reg::R10),
        ];
    assert(r@ =~= row_test());
    r
}

/// The byte offset of the row of `a`, and column offset 0.
pub open spec fn row_of_a() -> Seq<Op> {
    seq![
        mov(Reg::Rdx, Reg::Rdi),
        imul(Reg::Rdx, Reg::R11),
        scale(Reg::Rdx, Elem::F32),
        clear(Reg::R8),
    ]
}

fn row_of_a_ops() -> (r: Vec<Op>)
    ensures
        r@ == row_of_a(),
{
    let r: Vec<Op> =
        vec![
            mov(Reg::Rdx, Reg::Rdi),
            imul(Reg::Rdx, Reg::R11),
            scale(Reg::Rdx, Elem::F32),
            clear(Reg::R8),
        ];
    assert(r@ =~= row_of_a());
    r
}

/// Four running sums, from inner index 0.
pub open spec fn four_sums() -> Seq<Op> {
    seq![
        vclear(Elem::F32, Wide::Z, Reg::Zmm0),
        vclear(Elem::F32, Wide::Z, Reg::Zmm1),
        vclear(Elem::F32, Wide::Z, Reg::Zmm2),
        vclear(Elem::F32, Wide::Z, Reg::Zmm3),
        clear(Reg::R9),
    ]
}

fn four_sums_ops() -> (r: Vec<Op>)
    ensures
        r@ == four_sums(),
{
    let r: Vec<Op> =
        vec![
            vclear(Elem::F32, Wide::Z, Reg::Zmm0),
            vclear(Elem::F32, Wide::Z, Reg::Zmm1),
            vclear(Elem::F32, Wide::Z, Reg::Zmm2),
            vclear(Elem::F32, Wide::Z, Reg::Zmm3),
            clear(Reg::R9),
        ];
    assert(r@ =~= four_sums());
    r
}

/// One running sum, from inner index 0.
pub open spec fn one_sum() -> Seq<Op> {
    seq![
        vclear(Elem::F32, Wide::Z, Reg::Zmm0),
        clear(Reg::R9),
    ]
}

fn one_sum_ops() -> (r: Vec<Op>)
    ensures
        r@ == one_sum(),
{
    let r: Vec<Op> =
        vec![
            vclear(Elem::F32, Wide::Z, Reg::Zmm0),
            clear(Reg::R9),
        ];
    assert(r@ =~= one_sum());
    r
}

/// Compares the inner index with its limit.
pub open spec fn inner_test() -> Seq<Op> {
    seq![
        compare(Reg::R9, Reg::R11),
    ]
}

fn inner_test_ops() -> (r: Vec<Op>)
    ensures
        r@ == inner_test(),
{
    let r: Vec<Op> =
        vec![
            compare(Reg::R9, Reg::R11),
        ];
    assert(r@ =~= inner_test());
    r
}

/// Advances the inner index.
pub open spec fn inner_step() -> Seq<Op> {
    seq![
        add_imm(Reg::R9, 1),
    ]
}

fn inner_step_ops() -> (r: Vec<Op>)
    ensures
        r@ == inner_step(),
{
    let r: Vec<Op> =
        vec![
            add_imm(Reg::R9, 1),
        ];
    assert(r@ =~= inner_step());
    r
}

/// The address of the element of `a`.
pub open spec fn address_of_a() -> Seq<Op> {
    seq![
        mov(Reg::Rax, Reg::R9),
        scale(Reg::Rax, Elem::F32),
        add_reg(Reg::Rax, Reg::Rdx),
        add_reg(Reg::Rax, Reg::R12),
    ]
}

fn address_of_a_ops() -> (r: Vec<Op>)
    ensures
        r@ == address_of_a(),
{
    let r: Vec<Op> =
        vec![
            mov(Reg::Rax, Reg::R9),
            scale(Reg::Rax, Elem::F32),
            add_reg(Reg::Rax, Reg::Rdx),
            add_reg(Reg::Rax, Reg::R12),
        ];
    assert(r@ =~= address_of_a());
    r
}

/// Loads the element of `a` into every place, and the byte offset of the row of `b`.
pub open spec fn spread() -> Seq<Op> {
    seq![
        broadcast(Wide::Z, Reg::Zmm8, at(Reg::Rax)),
        mov(Reg::Rbx, Reg::R9),
        imul(Reg::Rbx, Reg::R15),
    ]
}

fn spread_ops() -> (r: Vec<Op>)
    ensures
        r@ == spread(),
{
    let r: Vec<Op> =
        vec![
            broadcast(Wide::Z, Reg::Zmm8, at(Reg::Rax)),
            mov(Reg::Rbx, Reg::R9),
            imul(Reg::Rbx, Reg::R15),
        ];
    assert(r@ =~= spread());
    r
}

/// Adds the products with four vectors of `b`, loads and sums in turn.
pub open spec fn four_products() -> Seq<Op> {
    seq![
        lea_sum(Reg::Rax, Reg::R13, Reg::Rbx),
        add_reg(Reg::Rax, Reg::R8),
        vload(Elem::F32, Wide::Z, Reg::Zmm4, at(Reg::Rax)),
        vload(Elem::F32, Wide::Z, Reg::Zmm5, at_disp(Reg::Rax, 64)),
        fma(Wide::Z, Reg::Zmm0, Reg::Zmm8, Reg::Zmm4),
        vload(Elem::F32, Wide::Z, Reg::Zmm6, at_disp(Reg::Rax, 128)),
        fma(Wide::Z, Reg::Zmm1, Reg::Zmm8, Reg::Zmm5),
        vload(Elem::F32, Wide::Z, Reg::Zmm7, at_disp(Reg::Rax, 192)),
        fma(Wide::Z, Reg::Zmm2, Reg::Zmm8, Reg::Zmm6),
        fma(Wide::Z, Reg::Zmm3, Reg::Zmm8, Reg::Zmm7),
    ]
}

fn four_products_ops() -> (r: Vec<Op>)
    ensures
        r@ == four_products(),
{
    let r: Vec<Op> =
        vec![
            lea_sum(Reg::Rax, Reg::R13, Reg::Rbx),
            add_reg(Reg::Rax, Reg::R8),
            vload(Elem::F32, Wide::Z, Reg::Zmm4, at(Reg::Rax)),
            vload(Elem::F32, Wide::Z, Reg::Zmm5, at_disp(Reg::Rax, 64)),
            fma(Wide::Z, Reg::Zmm0, Reg::Zmm8, Reg::Zmm4),
            vload(Elem::F32, Wide::Z, Reg::Zmm6, at_disp(Reg::Rax, 128)),
            fma(Wide::Z, Reg::Zmm1, Reg::Zmm8, Reg::Zmm5),
            vload(Elem::F32, Wide::Z, Reg::Zmm7, at_disp(Reg::Rax, 192)),
            fma(Wide::Z, Reg::Zmm2, Reg::Zmm8, Reg::Zmm6),
            fma(Wide::Z, Reg::Zmm3, Reg::Zmm8, Reg::Zmm7),
        ];
    assert(r@ =~= four_products());
    r
}

/// Stores the four sums, goes on by 64 columns and compares with the end of the blocks.
pub open spec fn store_four(limit: i32) -> Seq<Op> {
    seq![
        mov(Reg::Rax, Reg::Rdi),
        imul(Reg::Rax, Reg::R15),
        add_reg(Reg::Rax, Reg::R8),
        add_reg(Reg::Rax, Reg::R14),
        vstore(Elem::F32, Wide::Z, at(Reg::Rax), Reg::Zmm0),
        vstore(Elem::F32, Wide::Z, at_disp(Reg::Rax, 64), Reg::Zmm1),
        vstore(Elem::F32, Wide::Z, at_disp(Reg::Rax, 128), Reg::Zmm2),
        vstore(Elem::F32, Wide::Z, at_disp(Reg::Rax, 192), Reg::Zmm3),
        add_imm(Reg::R8, 256),
        compare_imm(Reg::R8, limit),
    ]
}

fn store_four_ops(limit: i32) -> (r: Vec<Op>)
    ensures
        r@ == store_four(limit),
{
    let r: Vec<Op> =
        vec![
            mov(Reg::Rax, Reg::Rdi),
            imul(Reg::Rax, Reg::R15),
            add_reg(Reg::Rax, Reg::R8),
            add_reg(Reg::Rax, Reg::R14),
            vstore(Elem::F32, Wide::Z, at(Reg::Rax), Reg::Zmm0),
            vstore(Elem::F32, Wide::Z, at_disp(Reg::Rax, 64), Reg::Zmm1),
            vstore(Elem::F32, Wide::Z, at_disp(Reg::Rax, 128), Reg::Zmm2),
            vstore(Elem::F32, Wide::Z, at_disp(Reg::Rax, 192), Reg::Zmm3),
            add_imm(Reg::R8, 256),
            compare_imm(Reg::R8, limit),
        ];
    assert(r@ =~= store_four(limit));
    r
}

/// Adds the products with one vector of `b`.
pub open spec fn one_product(offset: i32) -> Seq<Op> {
    seq![
        add_imm(Reg::Rbx, offset),
        add_reg(Reg::Rbx, Reg::R13),
        vload(Elem::F32, Wide::Z, Reg::Zmm4, at(Reg::Rbx)),
        fma(Wide::Z, Reg::Zmm0, Reg::Zmm8, Reg::Zmm4),
    ]
}

fn one_product_ops(offset: i32) -> (r: Vec<Op>)
    ensures
        r@ == one_product(offset),
{
    let r: Vec<Op> =
        vec![
            add_imm(Reg::Rbx, offset),
            add_reg(Reg::Rbx, Reg::R13),
            vload(Elem::F32, Wide::Z, Reg::Zmm4, at(Reg::Rbx)),
            fma(Wide::Z, Reg::Zmm0, Reg::Zmm8, Reg::Zmm4),
        ];
    assert(r@ =~= one_product(offset));
    r
}

/// Stores the sum.
pub open spec fn store_one(offset: i32) -> Seq<Op> {
    seq![
        mov(Reg::Rax, Reg::Rdi),
        imul(Reg::Rax, Reg::R15),
        add_imm(Reg::Rax, offset),
        add_reg(Reg::Rax, Reg::R14),
        vstore(Elem::F32, Wide::Z, at(Reg::Rax), Reg::Zmm0),
    ]
}

fn store_one_ops(offset: i32) -> (r: Vec<Op>)
    ensures
        r@ == store_one(offset),
{
    let r: Vec<Op> =
        vec![
            mov(Reg::Rax, Reg::Rdi),
            imul(Reg::Rax, Reg::R15),
            add_imm(Reg::Rax, offset),
            add_reg(Reg::Rax, Reg::R14),
            vstore(Elem::F32, Wide::Z, at(Reg::Rax), Reg::Zmm0),
        ];
    assert(r@ =~= store_one(offset));
    r
}

/// The number of single columns, from the first.
pub open spec fn single_start(count: u32) -> Seq<Op> {
    seq![
        clear(Reg::R8),
        mov_imm32(Reg::Ecx, count),
    ]
}

fn single_start_ops(count: u32) -> (r: Vec<Op>)
    ensures
        r@ == single_start(count),
{
    let r: Vec<Op> =
        vec![
            clear(Reg::R8),
            mov_imm32(Reg::Ecx, count),
        ];
    assert(r@ =~= single_start(count));
    r
}

/// Compares the column with the number of single columns.
pub open spec fn single_test() -> Seq<Op> {
    seq![
        Op::Rr(RrOp::Cmp32, Reg::R8d, Reg::Ecx),
    ]
}

fn single_test_ops() -> (r: Vec<Op>)
    ensures
        r@ == single_test(),
{
    let r: Vec<Op> =
        vec![
            Op::Rr(RrOp::Cmp32, Reg::R8d, Reg::Ecx),
        ];
    assert(r@ =~= single_test());
    r
}

/// A single sum, from inner index 0.
pub open spec fn single_sum() -> Seq<Op> {
    seq![
        clear_low(Reg::Xmm0),
        clear(Reg::R9),
    ]
}

fn single_sum_ops() -> (r: Vec<Op>)
    ensures
        r@ == single_sum(),
{
    let r: Vec<Op> =
        vec![
            clear_low(Reg::Xmm0),
            clear(Reg::R9),
        ];
    assert(r@ =~= single_sum());
    r
}

/// Adds one product.
pub open spec fn single_product(offset: i32) -> Seq<Op> {
    seq![
        load(Elem::F32, Reg::Xmm1, at(Reg::Rax)),
        mov(Reg::Rbx, Reg::R9),
        imul(Reg::Rbx, Reg::R15),
        add_imm(Reg::Rbx, offset),
        mov(Reg::Rax, Reg::R8),
        scale(Reg::Rax, Elem::F32),
        add_reg(Reg::Rbx, Reg::Rax),
        add_reg(Reg::Rbx, Reg::R13),
        load(Elem::F32, Reg::Xmm2, at(Reg::Rbx)),
        scalar(Arith::Mul, Elem::F32, Reg::Xmm2, Reg::Xmm1),
        scalar(Arith::Add, Elem::F32, Reg::Xmm0, Reg::Xmm2),
    ]
}

fn single_product_ops(offset: i32) -> (r: Vec<Op>)
    ensures
        r@ == single_product(offset),
{
    let r: Vec<Op> =
        vec![
            load(Elem::F32, Reg::Xmm1, at(Reg::Rax)),
            mov(Reg::Rbx, Reg::R9),
            imul(Reg::Rbx, Reg::R15),
            add_imm(Reg::Rbx, offset),
            mov(Reg::Rax, Reg::R8),
            scale(Reg::Rax, Elem::F32),
            add_reg(Reg::Rbx, Reg::Rax),
            add_reg(Reg::Rbx, Reg::R13),
            load(Elem::F32, Reg::Xmm2, at(Reg::Rbx)),
            scalar(Arith::Mul, Elem::F32, Reg::Xmm2, Reg::Xmm1),
            scalar(Arith::Add, Elem::F32, Reg::Xmm0, Reg::Xmm2),
        ];
    assert(r@ =~= single_product(offset));
    r
}

/// Stores the sum and goes on by one column.
pub open spec fn single_store(offset: i32) -> Seq<Op> {
    seq![
        mov(Reg::Rax, Reg::Rdi),
        imul(Reg::Rax, Reg::R15),
        add_imm(Reg::Rax, offset),
        mov(Reg::Rbx, Reg::R8),
        scale(Reg::Rbx, Elem::F32),
        add_reg(Reg::Rax, Reg::Rbx),
        add_reg(Reg::Rax, Reg::R14),
        store(Elem::F32, at(Reg::Rax), Reg::Xmm0),
        add_imm(Reg::R8, 1),
    ]
}

fn single_store_ops(offset: i32) -> (r: Vec<Op>)
    ensures
        r@ == single_store(offset),
{
    let r: Vec<Op> =
        vec![
            mov(Reg::Rax, Reg::Rdi),
            imul(Reg::Rax, Reg::R15),
            add_imm(Reg::Rax, offset),
            mov(Reg::Rbx, Reg::R8),
            scale(Reg::Rbx, Elem::F32),
            add_reg(Reg::Rax, Reg::Rbx),
            add_reg(Reg::Rax, Reg::R14),
            store(Elem::F32, at(Reg::Rax), Reg::Xmm0),
            add_imm(Reg::R8, 1),
        ];
    assert(r@ =~= single_store(offset));
    r
}

/// Advances the row.
pub open spec fn row_step() -> Seq<Op> {
    seq![
        add_imm(Reg::Rdi, 1),
    ]
}

fn row_step_ops() -> (r: Vec<Op>)
    ensures
        r@ == row_step(),
{
    let r: Vec<Op> =
        vec![
            add_imm(Reg::Rdi, 1),
        ];
    assert(r@ =~= row_step());
    r
}

/// Clears the vector registers, gives the room on the stack back; the result is 0.
pub open spec fn succeed() -> Seq<Op> {
    seq![
        bare(BareOp::Vzeroall),
        add_imm(Reg::Rsp, 64),
        clear(Reg::Rax),
    ]
}

fn succeed_ops() -> (r: Vec<Op>)
    ensures
        r@ == succeed(),
{
    let r: Vec<Op> =
        vec![
            bare(BareOp::Vzeroall),
            add_imm(Reg::Rsp, 64),
            clear(Reg::Rax),
        ];
    assert(r@ =~= succeed());
    r
}

/// Clears `c` by vectors and then by elements.
pub open spec fn clear_result(p: Asm, total: i64) -> Asm {
    p.emit(zero_wide())
        .begin()
        .emit(zero_wide_test(total))
        .exit_if_ge()
        .emit(zero_wide_step())
        .end()
        .emit(zero_limit(total))
        .begin()
        .emit(zero_test())
        .exit_if_ge()
        .emit(zero_step())
        .end()
}

proof fn clear_result_keeps(p: Asm, total: i64)
    requires
        program::sound(p),
        p.next + 4 <= u64::MAX,
    ensures
        program::sound(clear_result(p, total)),
        clear_result(p, total).open == p.open,
        clear_result(p, total).next <= p.next + 4,
        program::stack_after(clear_result(p, total).lines) == program::stack_after(p.lines),
{
    let q1 = p.emit(zero_wide());
    program::emit_keeps(p, zero_wide());
    let q2 = q1.begin();
    program::begin_keeps(q1);
    let q3 = q2.emit(zero_wide_test(total));
    program::emit_keeps(q2, zero_wide_test(total));
    let q4 = q3.exit_if_ge();
    program::exit_keeps(q3);
    let q5 = q4.emit(zero_wide_step());
    program::emit_keeps(q4, zero_wide_step());
    let q6 = q5.end();
    program::end_keeps(q5);
    let q7 = q6.emit(zero_limit(total));
    program::emit_keeps(q6, zero_limit(total));
    let q8 = q7.begin();
    program::begin_keeps(q7);
    let q9 = q8.emit(zero_test());
    program::emit_keeps(q8, zero_test());
    let q10 = q9.exit_if_ge();
    program::exit_keeps(q9);
    let q11 = q10.emit(zero_step());
    program::emit_keeps(q10, zero_step());
    let q12 = q11.end();
    program::end_keeps(q11);
}

fn emit_clear_result(p: &mut Program, total: i64)
    requires
        old(p).next + 4 <= u64::MAX,
    ensures
        final(p)@ == clear_result(old(p)@, total),
        final(p).next <= old(p).next + 4,
        final(p).open@ == old(p).open@,
{
    p.emit(&zero_wide_ops());
    p.begin();
    p.emit(&zero_wide_test_ops(total));
    p.exit_if_ge();
    p.emit(&zero_wide_step_ops());
    p.end();
    p.emit(&zero_limit_ops(total));
    p.begin();
    p.emit(&zero_test_ops());
    p.exit_if_ge();
    p.emit(&zero_step_ops());
    p.end();
}

/// The blocks of 64 columns of a row.
pub open spec fn wide_blocks(p: Asm, limit: i32) -> Asm {
    p.begin_tail_tested()
        .emit(four_sums())
        .begin()
        .emit(inner_test())
        .exit_if_ge()
        .emit(address_of_a())
        .emit(spread())
        .emit(four_products())
        .emit(inner_step())
        .end()
        .emit(store_four(limit))
        .end_tail_tested()
}

proof fn wide_blocks_keeps(p: Asm, limit: i32)
    requires
        program::sound(p),
        !p.at_label(),
        p.next + 3 <= u64::MAX,
    ensures
        program::sound(wide_blocks(p, limit)),
        wide_blocks(p, limit).open == p.open,
        wide_blocks(p, limit).next <= p.next + 3,
        program::stack_after(wide_blocks(p, limit).lines) == program::stack_after(p.lines),
{
    let q1 = p.begin_tail_tested();
    program::begin_tail_tested_keeps(p);
    let q2 = q1.emit(four_sums());
    program::emit_keeps(q1, four_sums());
    let q3 = q2.begin();
    program::begin_keeps(q2);
    let q4 = q3.emit(inner_test());
    program::emit_keeps(q3, inner_test());
    let q5 = q4.exit_if_ge();
    program::exit_keeps(q4);
    let q6 = q5.emit(address_of_a());
    program::emit_keeps(q5, address_of_a());
    let q7 = q6.emit(spread());
    program::emit_keeps(q6, spread());
    let q8 = q7.emit(four_products());
    program::emit_keeps(q7, four_products());
    let q9 = q8.emit(inner_step());
    program::emit_keeps(q8, inner_step());
    let q10 = q9.end();
    program::end_keeps(q9);
    let q11 = q10.emit(store_four(limit));
    program::emit_keeps(q10, store_four(limit));
    let q12 = q11.end_tail_tested();
    program::end_tail_tested_keeps(q11);
}

fn emit_wide_blocks(p: &mut Program, limit: i32)
    requires
        old(p).next + 3 <= u64::MAX,
    ensures
        final(p)@ == wide_blocks(old(p)@, limit),
        final(p).next <= old(p).next + 3,
        final(p).open@ == old(p).open@,
{
    p.begin_tail_tested();
    p.emit(&four_sums_ops());
    p.begin();
    p.emit(&inner_test_ops());
    p.exit_if_ge();
    p.emit(&address_of_a_ops());
    p.emit(&spread_ops());
    p.emit(&four_products_ops());
    p.emit(&inner_step_ops());
    p.end();
    p.emit(&store_four_ops(limit));
    p.end_tail_tested();
}

/// A block of 16 columns of a row.
pub open spec fn small_block(p: Asm, offset: i32) -> Asm {
    p.emit(one_sum())
        .begin()
        .emit(inner_test())
        .exit_if_ge()
        .emit(address_of_a())
        .emit(spread())
        .emit(one_product(offset))
        .emit(inner_step())
        .end()
        .emit(store_one(offset))
}

proof fn small_block_keeps(p: Asm, offset: i32)
    requires
        program::sound(p),
        p.next + 2 <= u64::MAX,
    ensures
        program::sound(small_block(p, offset)),
        small_block(p, offset).open == p.open,
        small_block(p, offset).next <= p.next + 2,
        program::stack_after(small_block(p, offset).lines) == program::stack_after(p.lines),
{
    let q1 = p.emit(one_sum());
    program::emit_keeps(p, one_sum());
    let q2 = q1.begin();
    program::begin_keeps(q1);
    let q3 = q2.emit(inner_test());
    program::emit_keeps(q2, inner_test());
    let q4 = q3.exit_if_ge();
    program::exit_keeps(q3);
    let q5 = q4.emit(address_of_a());
    program::emit_keeps(q4, address_of_a());
    let q6 = q5.emit(spread());
    program::emit_keeps(q5, spread());
    let q7 = q6.emit(one_product(offset));
    program::emit_keeps(q6, one_product(offset));
    let q8 = q7.emit(inner_step());
    program::emit_keeps(q7, inner_step());
    let q9 = q8.end();
    program::end_keeps(q8);
    let q10 = q9.emit(store_one(offset));
    program::emit_keeps(q9, store_one(offset));
}

fn emit_small_block(p: &mut Program, offset: i32)
    requires
        old(p).next + 2 <= u64::MAX,
    ensures
        final(p)@ == small_block(old(p)@, offset),
        final(p).next <= old(p).next + 2,
        final(p).open@ == old(p).open@,
{
    p.emit(&one_sum_ops());
    p.begin();
    p.emit(&inner_test_ops());
    p.exit_if_ge();
    p.emit(&address_of_a_ops());
    p.emit(&spread_ops());
    p.emit(&one_product_ops(offset));
    p.emit(&inner_step_ops());
    p.end();
    p.emit(&store_one_ops(offset));
}

/// The single columns of a row.
pub open spec fn single_columns(p: Asm, offset: i32, count: u32) -> Asm {
    p.emit(single_start(count))
        .begin()
        .emit(single_test())
        .exit_if_ge()
        .emit(single_sum())
        .begin()
        .emit(inner_test())
        .exit_if_ge()
        .emit(address_of_a())
        .emit(single_product(offset))
        .emit(inner_step())
        .end()
        .emit(single_store(offset))
        .end()
}

proof fn single_columns_keeps(p: Asm, offset: i32, count: u32)
    requires
        program::sound(p),
        p.next + 4 <= u64::MAX,
    ensures
        program::sound(single_columns(p, offset, count)),
        single_columns(p, offset, count).open == p.open,
        single_columns(p, offset, count).next <= p.next + 4,
        program::stack_after(single_columns(p, offset, count).lines) == program::stack_after(p.lines),
{
    let q1 = p.emit(single_start(count));
    program::emit_keeps(p, single_start(count));
    let q2 = q1.begin();
    program::begin_keeps(q1);
    let q3 = q2.emit(single_test());
    program::emit_keeps(q2, single_test());
    let q4 = q3.exit_if_ge();
    program::exit_keeps(q3);
    let q5 = q4.emit(single_sum());
    program::emit_keeps(q4, single_sum());
    let q6 = q5.begin();
    program::begin_keeps(q5);
    let q7 = q6.emit(inner_test());
    program::emit_keeps(q6, inner_test());
    let q8 = q7.exit_if_ge();
    program::exit_keeps(q7);
    let q9 = q8.emit(address_of_a());
    program::emit_keeps(q8, address_of_a());
    let q10 = q9.emit(single_product(offset));
    program::emit_keeps(q9, single_product(offset));
    let q11 = q10.emit(inner_step());
    program::emit_keeps(q10, inner_step());
    let q12 = q11.end();
    program::end_keeps(q11);
    let q13 = q12.emit(single_store(offset));
    program::emit_keeps(q12, single_store(offset));
    let q14 = q13.end();
    program::end_keeps(q13);
}

fn emit_single_columns(p: &mut Program, offset: i32, count: u32)
    requires
        old(p).next + 4 <= u64::MAX,
    ensures
        final(p)@ == single_columns(old(p)@, offset, count),
        final(p).next <= old(p).next + 4,
        final(p).open@ == old(p).open@,
{
    p.emit(&single_start_ops(count));
    p.begin();
    p.emit(&single_test_ops());
    p.exit_if_ge();
    p.emit(&single_sum_ops());
    p.begin();
    p.emit(&inner_test_ops());
    p.exit_if_ge();
    p.emit(&address_of_a_ops());
    p.emit(&single_product_ops(offset));
    p.emit(&inner_step_ops());
    p.end();
    p.emit(&single_store_ops(offset));
    p.end();
}

/// The first `count` blocks of 16 columns of a row.
pub open spec fn small_run(p: Asm, n: usize, count: nat) -> Asm
    decreases count,
{
    if count == 0 {
        p
    } else {
        small_block(small_run(p, n, (count - 1) as nat), small_offset(n, count - 1))
    }
}

proof fn small_run_keeps(p: Asm, n: usize, count: nat)
    requires
        program::sound(p),
        p.next + 2 * count <= u64::MAX,
    ensures
        program::sound(small_run(p, n, count)),
        small_run(p, n, count).open == p.open,
        small_run(p, n, count).next <= p.next + 2 * count,
        program::stack_after(small_run(p, n, count).lines) == program::stack_after(p.lines),
    decreases count,
{
    if count > 0 {
        small_run_keeps(p, n, (count - 1) as nat);
        small_block_keeps(small_run(p, n, (count - 1) as nat), small_offset(n, count - 1));
    }
}

fn emit_small_run(p: &mut Program, n: usize)
    requires
        old(p).next + 6 <= u64::MAX,
        n * 4 <= usize::MAX,
    ensures
        final(p)@ == small_run(old(p)@, n, small_blocks(n)),
        final(p).next <= old(p).next + 6,
        final(p).open@ == old(p).open@,
{
    let count: usize = (n % 64) / 16;
    let mut j: usize = 0;
    while j < count
        invariant
            j <= count <= 3,
            count == small_blocks(n),
            n * 4 <= usize::MAX,
            p@ == small_run(old(p)@, n, j as nat),
            p.next <= old(p).next + 2 * j,
            p.open@ == old(p).open@,
            old(p).next + 6 <= u64::MAX,
        decreases count - j,
    {
        assert(after_blocks(n) + j * 16 <= n);
        let offset: usize = (n / 64 * 64 + j * 16) * 4;
        emit_small_block(
            p,
            #[verifier::truncate]
            (offset as i32),
        );
        j += 1;
    }
}

/// All columns of a row.
pub open spec fn row_columns(p: Asm, n: usize) -> Asm {
    let p1 = if n / 64 > 0 {
        wide_blocks(p, ((n / 64 * 256) as u32) as i32)
    } else {
        p
    };
    let p2 = small_run(p1, n, small_blocks(n));
    if n % 16 > 0 {
        single_columns(p2, small_offset(n, small_blocks(n) as int), (n % 16) as u32)
    } else {
        p2
    }
}

proof fn row_columns_keeps(p: Asm, n: usize)
    requires
        program::sound(p),
        !p.at_label(),
        p.next + 13 <= u64::MAX,
    ensures
        program::sound(row_columns(p, n)),
        row_columns(p, n).open == p.open,
        row_columns(p, n).next <= p.next + 13,
        program::stack_after(row_columns(p, n).lines) == program::stack_after(p.lines),
{
    columns_are_covered(n);
    let limit = ((n / 64 * 256) as u32) as i32;
    let p1 = if n / 64 > 0 {
        wide_blocks_keeps(p, limit);
        wide_blocks(p, limit)
    } else {
        p
    };
    small_run_keeps(p1, n, small_blocks(n));
    let p2 = small_run(p1, n, small_blocks(n));
    if n % 16 > 0 {
        single_columns_keeps(p2, small_offset(n, small_blocks(n) as int), (n % 16) as u32);
    }
}

fn emit_row_columns(p: &mut Program, n: usize)
    requires
        old(p).next + 13 <= u64::MAX,
        n * 4 <= usize::MAX,
    ensures
        final(p)@ == row_columns(old(p)@, n),
        final(p).next <= old(p).next + 13,
        final(p).open@ == old(p).open@,
{
    proof {
        columns_are_covered(n);
    }
    let blocks: usize = n / 64;
    if blocks > 0 {
        assert(blocks * 256 <= n * 4);
        let limit: u32 = #[verifier::truncate]
        ((blocks * 256) as u32);
        emit_wide_blocks(
            p,
            #[verifier::truncate]
            (limit as i32),
        );
    }
    emit_small_run(p, n);
    let rest: usize = n % 16;
    if rest > 0 {
        let offset: usize = (blocks * 64 + (n % 64) / 16 * 16) * 4;
        emit_single_columns(
            p,
            #[verifier::truncate]
            (offset as i32),
            rest as u32,
        );
    }
}

/// All rows of the result.
pub open spec fn all_rows(p: Asm, n: usize) -> Asm {
    let p1 = p.begin()
        .emit(row_test())
        .exit_if_ge()
        .emit(row_of_a());
    let p2 = row_columns(p1, n);
    p2.emit(row_step())
        .end()
}

proof fn all_rows_keeps(p: Asm, n: usize)
    requires
        program::sound(p),
        p.next + 15 <= u64::MAX,
    ensures
        program::sound(all_rows(p, n)),
        all_rows(p, n).open == p.open,
        all_rows(p, n).next <= p.next + 15,
        program::stack_after(all_rows(p, n).lines) == program::stack_after(p.lines),
{
    let q1 = p.begin();
    program::begin_keeps(p);
    let q2 = q1.emit(row_test());
    program::emit_keeps(q1, row_test());
    let q3 = q2.exit_if_ge();
    program::exit_keeps(q2);
    let q4 = q3.emit(row_of_a());
    program::emit_keeps(q3, row_of_a());
    let q5 = row_columns(q4, n);
    row_columns_keeps(q4, n);
    let q6 = q5.emit(row_step());
    program::emit_keeps(q5, row_step());
    let q7 = q6.end();
    program::end_keeps(q6);
}

fn emit_all_rows(p: &mut Program, n: usize)
    requires
        n * 4 <= usize::MAX,
        old(p).next + 15 <= u64::MAX,
    ensures
        final(p)@ == all_rows(old(p)@, n),
        final(p).next <= old(p).next + 15,
        final(p).open@ == old(p).open@,
{
    p.begin();
    p.emit(&row_test_ops());
    p.exit_if_ge();
    p.emit(&row_of_a_ops());
    emit_row_columns(p, n);
    p.emit(&row_step_ops());
    p.end();
}

/// The length of a row in bytes, as it stands in the code.
pub open spec fn row_bytes(n: usize) -> i64 {
    ((n * 4) as u64) as i64
}

/// The length of `c` in bytes, as it stands in the code.
pub open spec fn total_bytes(m: usize, n: usize) -> i64 {
    ((m * n * 4) as u64) as i64
}

/// The kernel for the given dimensions.
pub open spec fn wide_kernel(m: usize, n: usize, k: usize) -> Asm {
    let p1 = Asm::empty()
        .enter(saved())
        .emit(arguments(row_bytes(n)));
    let p2 = clear_result(p1, total_bytes(m, n));
    let p3 = p2.emit(dimensions(m as u32, k as u32));
    let p4 = all_rows(p3, n);
    p4.emit(succeed())
        .leave(saved())
}

/// Every kernel of this form has sound labels and keeps the registers that it saved.
pub proof fn wide_kernel_is_sound(m: usize, n: usize, k: usize)
    ensures
        lower::is_complete(wide_kernel(m, n, k)),
{
    let q0 = Asm::empty();
    program::empty_is_sound();
    let q1 = q0.enter(saved());
    program::enter_keeps(q0, saved());
    let q2 = q1.emit(arguments(row_bytes(n)));
    program::emit_keeps(q1, arguments(row_bytes(n)));
    let q3 = clear_result(q2, total_bytes(m, n));
    clear_result_keeps(q2, total_bytes(m, n));
    let q4 = q3.emit(dimensions(m as u32, k as u32));
    program::emit_keeps(q3, dimensions(m as u32, k as u32));
    let q5 = all_rows(q4, n);
    all_rows_keeps(q4, n);
    let q6 = q5.emit(succeed());
    program::emit_keeps(q5, succeed());
    let q7 = q6.leave(saved());
    program::leave_keeps(q6, saved());
    lower::complete(q7);
}

/// The lengths in bytes as they stand in the code.
fn lengths(m: usize, n: usize) -> (r: (i64, i64))
    requires
        dims_fit(m, n),
    ensures
        r.0 == row_bytes(n),
        r.1 == total_bytes(m, n),
{
    assert(m * n >= 0) by (nonlinear_arith);
    let row: i64 = #[verifier::truncate]
    ((n as u64 * 4) as i64);
    let total: i64 = #[verifier::truncate]
    ((m as u64 * n as u64 * 4) as i64);
    (row, total)
}

#[verifier::spinoff_prover]
fn build_wide_kernel(m: usize, n: usize, k: usize) -> (r: Program)
    requires
        dims_fit(m, n),
    ensures
        r@ == wide_kernel(m, n, k),
        lower::is_complete(r@),
{
    proof {
        wide_kernel_is_sound(m, n, k);
    }
    let (row, total) = lengths(m, n);
    let rows: u32 = #[verifier::truncate]
    (m as u32);
    let inner: u32 = #[verifier::truncate]
    (k as u32);
    let mut p = Program::new();
    p.enter(&saved_regs());
    p.emit(&arguments_ops(row));
    emit_clear_result(&mut p, total);
    p.emit(&dimensions_ops(rows, inner));
    emit_all_rows(&mut p, n);
    p.emit(&succeed_ops());
    p.leave(&saved_regs());
    p
}

impl CompiledKernel {
    /// The product for the given dimensions by 512-bit vectors.
    pub fn compile_matmul_avx512(m: usize, n: usize, k: usize) -> (r: Option<CompiledKernel>)
        requires
            dims_fit(m, n),
        ensures
            kernel::compiles(r, wide_kernel(m, n, k), m, n, k),
    {
        CompiledKernel::finalize(&build_wide_kernel(m, n, k), m, n, k)
    }

    /// The product for an instruction set; with 512-bit vectors it is for 128 by 128 matrices.
    pub fn compile_matmul_best(level: ISALevel) -> (r: Option<CompiledKernel>)
        ensures
            level == ISALevel::AVX512 ==> kernel::compiles(
                r,
                wide_kernel(128, 128, 128),
                128,
                128,
                128,
            ),
            level == ISALevel::AVX2 ==> kernel::compiles(r, matmul::vector_kernel(), 0, 0, 0),
            level == ISALevel::SSE ==> kernel::compiles(r, matmul::scalar_kernel(), 0, 0, 0),
    {
        match level {
            ISALevel::AVX512 => Self::compile_matmul_avx512(128, 128, 128),
            ISALevel::AVX2 => Self::compile_matmul_avx2(),
            ISALevel::SSE => Self::compile_matmul(),
        }
    }

    /// The product for the given dimensions and instruction set. Without elements, and without
    /// 512-bit vectors, it is a kernel that takes any dimensions.
    pub fn compile_matmul_avx512_sized(m: usize, n: usize, k: usize, level: ISALevel) -> (r: Option<
        CompiledKernel,
    >)
        requires
            m != 0 && n != 0 && k != 0 && level == ISALevel::AVX512 ==> dims_fit(m, n),
        ensures
            (m == 0 || n == 0 || k == 0) ==> kernel::compiles(r, matmul::vector_kernel(), 0, 0, 0),
            m != 0 && n != 0 && k != 0 ==> match level {
                ISALevel::AVX512 => kernel::compiles(r, wide_kernel(m, n, k), m, n, k),
                ISALevel::AVX2 => kernel::compiles(r, matmul::vector_kernel(), 0, 0, 0),
                ISALevel::SSE => kernel::compiles(r, matmul::scalar_kernel(), 0, 0, 0),
            },
    {
        if m == 0 || n == 0 || k == 0 {
            return Self::compile_matmul_avx2();
        }
        match level {
            ISALevel::AVX512 => Self::compile_matmul_avx512(m, n, k),
            ISALevel::AVX2 => Self::compile_matmul_avx2(),
            ISALevel::SSE => Self::compile_matmul(),
        }
    }
}

} // verus!
