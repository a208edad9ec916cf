//! What the kernels of the matrix product with 512-bit vectors compute.

use crate::x86_emitter::assembler;
use crate::x86_emitter::avx512;
use crate::x86_emitter::inst::{
    add_imm, add_reg, at, at_disp, bare, broadcast, clear, clear_low, compare, compare_imm, fma,
    imul, lea_sum, load, mov, mov_imm, mov_imm32, scalar, scale, store, sub_imm, vclear, vload,
    vstore, Arith, BareOp, Elem, Ins, Op, Reg, Wide,
};
use crate::x86_emitter::kernel;
use crate::x86_emitter::kernel::CompiledKernel;
use crate::x86_emitter::lower;
use crate::x86_emitter::machine;
use crate::x86_emitter::machine::{Data, Floats, State};
use crate::x86_emitter::matmul_run;
use crate::x86_emitter::matmul_run::Call;
use crate::x86_emitter::matmul_wide_run;
use crate::x86_emitter::program;
use crate::x86_emitter::program::Asm;
use crate::x86_emitter::running;
use crate::x86_emitter::steps;
use vstd::prelude::*;

verus! {

/// The number of columns that are taken in vectors.
pub open spec fn wide_columns(n: int) -> int {
    n / 16 * 16
}

/// Elements in front of a column of `row` are finished.
#[verifier::opaque]
pub open spec fn has_columns(
    fl: Floats,
    mem: spec_fn(int) -> u8,
    before: spec_fn(int) -> u8,
    c: Call,
    row: int,
    col: int,
) -> bool {
    &&& matmul_run::rest_is_untouched(mem, before, c)
    &&& forall|t: int|
        0 <= t < c.m * c.n && t < row * c.n + col ==> #[trigger] matmul_run::entry(mem, c.c, t)
            == matmul_run::dot(fl, before, c, wide_columns(c.n), t / c.n, t % c.n, c.k)
}

/// A register holds the sums of the first terms of sixteen columns.
#[verifier::opaque]
pub open spec fn holds_sums(
    fl: Floats,
    v: Seq<u8>,
    before: spec_fn(int) -> u8,
    c: Call,
    row: int,
    col: int,
    terms: int,
) -> bool {
    forall|i: int|
        0 <= i < 16 ==> #[trigger] machine::lane(v, Elem::F32, i) == matmul_run::dot(
            fl,
            before,
            c,
            wide_columns(c.n),
            row,
            col + i,
            terms,
        )
}

/// Putting the sums of `w` columns into the product.
proof fn columns_are_put(
    fl: Floats,
    mem: spec_fn(int) -> u8,
    before: spec_fn(int) -> u8,
    c: Call,
    row: int,
    col: int,
    w: int,
    v: Seq<u8>,
)
    requires
        has_columns(fl, mem, before, c, row, col),
        0 <= row < c.m,
        0 <= col,
        0 < w,
        col + w <= c.n,
        v.len() == 4 * w,
        forall|i: int|
            0 <= i < w ==> #[trigger] matmul_wide_run::piece(v, i) == matmul_run::dot(
                fl,
                before,
                c,
                wide_columns(c.n),
                row,
                col + i,
                c.k,
            ),
    ensures
        has_columns(
            fl,
            machine::with_bytes(mem, c.c + 4 * (row * c.n + col), v),
            before,
            c,
            row,
            col + w,
        ),
{
    reveal(has_columns);
    let here = row * c.n + col;
    let after = machine::with_bytes(mem, c.c + 4 * here, v);
    matmul_run::place_is_inside(row, col, c.m, c.n);
    matmul_run::place_is_inside(row, col + w - 1, c.m, c.n);
    matmul_wide_run::rest_stays(mem, before, c, here, v);
    assert forall|t: int|
        0 <= t < c.m * c.n && t < row * c.n + (col + w) implies #[trigger] matmul_run::entry(
        after,
        c.c,
        t,
    ) == matmul_run::dot(fl, before, c, wide_columns(c.n), t / c.n, t % c.n, c.k) by {
        matmul_wide_run::pieces_are_put(mem, c.c, here, w, v, t);
        let old = matmul_run::entry(mem, c.c, t);
        if here <= t {
            let i = t - here;
            matmul_run::place_is_unique(row, col + i, c.n);
            assert(t == row * c.n + (col + i));
            let new = matmul_wide_run::piece(v, i);
        }
    }
}

/// Element `i` of the bytes that are stored of a register.
proof fn piece_is_lane(v: Seq<u8>, i: int)
    requires
        0 <= i < 16,
    ensures
        matmul_wide_run::piece(machine::low(v, 64), i) == machine::lane(v, Elem::F32, i),
{
    let w = matmul_wide_run::piece(machine::low(v, 64), i);
    let l = machine::lane(v, Elem::F32, i);
    assert forall|j: int| 0 <= j < 4 implies #[trigger] w[j] == l[j] by {
        assert(4 * i + j == i * 4 + j);
    }
    assert(w =~= l);
}

/// Putting the sums of sixteen columns into the product.
proof fn sums_are_put(
    fl: Floats,
    mem: spec_fn(int) -> u8,
    before: spec_fn(int) -> u8,
    c: Call,
    row: int,
    col: int,
    v: Seq<u8>,
)
    requires
        has_columns(fl, mem, before, c, row, col),
        0 <= row < c.m,
        0 <= col,
        col + 16 <= c.n,
        holds_sums(fl, v, before, c, row, col, c.k),
    ensures
        has_columns(
            fl,
            machine::with_bytes(mem, c.c + 4 * (row * c.n + col), machine::low(v, 64)),
            before,
            c,
            row,
            col + 16,
        ),
{
    let b = machine::low(v, 64);
    assert forall|i: int| 0 <= i < 16 implies #[trigger] matmul_wide_run::piece(b, i)
        == matmul_run::dot(fl, before, c, wide_columns(c.n), row, col + i, c.k) by {
        reveal(holds_sums);
        piece_is_lane(v, i);
    }
    columns_are_put(fl, mem, before, c, row, col, 16, b);
}

/// A row with all columns is followed by the next row.
proof fn next_row(
    fl: Floats,
    mem: spec_fn(int) -> u8,
    before: spec_fn(int) -> u8,
    c: Call,
    row: int,
)
    requires
        has_columns(fl, mem, before, c, row, c.n),
    ensures
        has_columns(fl, mem, before, c, row + 1, 0),
{
    reveal(has_columns);
    assert((row + 1) * c.n == row * c.n + c.n) by (nonlinear_arith);
}

/// The factors are as they were.
proof fn factors_are_untouched(
    fl: Floats,
    mem: spec_fn(int) -> u8,
    before: spec_fn(int) -> u8,
    c: Call,
    row: int,
    col: int,
    t: int,
)
    requires
        matmul_run::is_valid(c),
        has_columns(fl, mem, before, c, row, col),
    ensures
        0 <= t < c.m * c.k ==> matmul_run::entry(mem, c.a, t) == matmul_run::entry(before, c.a, t),
        0 <= t < c.k * c.n ==> matmul_run::entry(mem, c.b, t) == matmul_run::entry(before, c.b, t),
{
    reveal(has_columns);
    if 0 <= t < c.m * c.k {
        assert(matmul_run::entry(mem, c.a, t) =~= matmul_run::entry(before, c.a, t));
    }
    if 0 <= t < c.k * c.n {
        assert(matmul_run::entry(mem, c.b, t) =~= matmul_run::entry(before, c.b, t));
    }
}

/// Zeros are sums without terms.
proof fn zeros_are_sums(
    fl: Floats,
    before: spec_fn(int) -> u8,
    c: Call,
    row: int,
    col: int,
)
    ensures
        holds_sums(fl, machine::filled(machine::zeros(64)), before, c, row, col, 0),
{
    reveal(holds_sums);
    assert forall|i: int| 0 <= i < 16 implies #[trigger] machine::lane(
        machine::filled(machine::zeros(64)),
        Elem::F32,
        i,
    ) == matmul_run::dot(fl, before, c, wide_columns(c.n), row, col + i, 0) by {
        assert(machine::lane(machine::filled(machine::zeros(64)), Elem::F32, i) =~= machine::zeros(
            4,
        ));
    }
}

/// Element `i` of a register of fused terms.
proof fn lane_of_terms(fl: Floats, x: Seq<u8>, y: Seq<u8>, z: Seq<u8>, i: int)
    requires
        0 <= i < 16,
    ensures
        machine::lane(
            machine::filled(machine::lanewise_fma(fl, x, y, z, 64)),
            Elem::F32,
            i,
        ) == machine::low(
            (fl.fma)(
                machine::lane(x, Elem::F32, i),
                machine::lane(y, Elem::F32, i),
                machine::lane(z, Elem::F32, i),
            ),
            4,
        ),
{
    let w = machine::lane(
        machine::filled(machine::lanewise_fma(fl, x, y, z, 64)),
        Elem::F32,
        i,
    );
    let one = machine::low(
        (fl.fma)(
            machine::lane(x, Elem::F32, i),
            machine::lane(y, Elem::F32, i),
            machine::lane(z, Elem::F32, i),
        ),
        4,
    );
    assert forall|j: int| 0 <= j < 4 implies #[trigger] w[j] == one[j] by {
        assert((i * 4 + j) / 4 == i);
        assert((i * 4 + j) % 4 == j);
    }
    assert(w =~= one);
}

/// Every element of a register that repeats an element is that element.
proof fn lane_of_repeated(b: Seq<u8>, i: int)
    requires
        b.len() == 4,
        0 <= i < 16,
    ensures
        machine::lane(machine::filled(machine::repeated(b, 64)), Elem::F32, i) == b,
{
    let w = machine::lane(machine::filled(machine::repeated(b, 64)), Elem::F32, i);
    assert forall|j: int| 0 <= j < 4 implies #[trigger] w[j] == b[j] by {
        assert((i * 4 + j) % 4 == j);
    }
    assert(w =~= b);
}

/// Element `i` of a register loaded from a matrix.
proof fn lane_of_memory(mem: spec_fn(int) -> u8, at: int, t: int, i: int)
    requires
        0 <= i < 16,
    ensures
        machine::lane(
            machine::filled(machine::bytes(mem, at + 4 * t, 64)),
            Elem::F32,
            i,
        ) == matmul_run::entry(mem, at, t + i),
{
    let w = machine::lane(
        machine::filled(machine::bytes(mem, at + 4 * t, 64)),
        Elem::F32,
        i,
    );
    assert(w =~= matmul_run::entry(mem, at, t + i));
}

/// Sums with one more term.
proof fn term_is_added(
    fl: Floats,
    mem: spec_fn(int) -> u8,
    before: spec_fn(int) -> u8,
    c: Call,
    row: int,
    done: int,
    col: int,
    terms: int,
    v: Seq<u8>,
)
    requires
        matmul_run::is_valid(c),
        has_columns(fl, mem, before, c, row, done),
        holds_sums(fl, v, before, c, row, col, terms),
        0 <= terms < c.k,
        0 <= col,
        col + 16 <= wide_columns(c.n),
        wide_columns(c.n) <= c.n,
    ensures
        holds_sums(
            fl,
            machine::filled(
                machine::lanewise_fma(
                    fl,
                    machine::filled(
                        machine::repeated(
                            matmul_run::entry(before, c.a, row * c.k + terms),
                            64,
                        ),
                    ),
                    machine::filled(machine::bytes(mem, c.b + 4 * (terms * c.n + col), 64)),
                    v,
                    64,
                ),
            ),
            before,
            c,
            row,
            col,
            terms + 1,
        ),
{
    reveal(holds_sums);
    let a = matmul_run::entry(before, c.a, row * c.k + terms);
    let x = machine::filled(machine::repeated(a, 64));
    let y = machine::filled(machine::bytes(mem, c.b + 4 * (terms * c.n + col), 64));
    let new = machine::filled(machine::lanewise_fma(fl, x, y, v, 64));
    assert forall|i: int| 0 <= i < 16 implies #[trigger] machine::lane(new, Elem::F32, i)
        == matmul_run::dot(fl, before, c, wide_columns(c.n), row, col + i, terms + 1) by {
        let sum = machine::lane(v, Elem::F32, i);
        lane_of_terms(fl, x, y, v, i);
        lane_of_repeated(a, i);
        let t = terms * c.n + (col + i);
        lane_of_memory(mem, c.b, terms * c.n + col, i);
        matmul_run::place_is_inside(terms, col + i, c.k, c.n);
        factors_are_untouched(fl, mem, before, c, row, done, t);
        assert(col + i < wide_columns(c.n));
    }
}

/// The arguments of a call.
pub open spec fn is_called(d: Data, c: Call) -> bool {
    &&& d.reg(Reg::Rdi) == c.a
    &&& d.reg(Reg::Rsi) == c.b
    &&& d.reg(Reg::Rdx) == c.c
}

/// The dimensions of a call fit into the places that the kernel has for them.
pub open spec fn dims_fit(c: Call) -> bool {
    c.m <= u32::MAX && c.k <= u32::MAX && 4 * c.n <= i32::MAX
}

/// The registers inside a kernel: addresses, the bytes of a row, and the stack.
pub open spec fn is_inside(d: Data, caller: Data, c: Call) -> bool {
    &&& d.reg(Reg::R12) == c.a
    &&& d.reg(Reg::R13) == c.b
    &&& d.reg(Reg::R14) == c.c
    &&& d.reg(Reg::R15) == 4 * c.n
    &&& d.stack == caller.stack.push(caller.reg(Reg::Rbp)) + running::numbers(
        caller,
        avx512::saved(),
    )
    &&& d.reg(Reg::Rsp) == caller.reg(Reg::Rsp) - 112
}

/// The work is at a row, with the dimensions at hand.
pub open spec fn is_at_row(d: Data, caller: Data, c: Call, row: int) -> bool {
    &&& is_inside(d, caller, c)
    &&& d.reg(Reg::R10) == c.m
    &&& d.reg(Reg::R11) == c.k
    &&& d.reg(Reg::Rdi) == row
    &&& d.reg(Reg::Rdx) == 4 * (row * c.k)
    &&& 0 <= row < c.m
}

/// The work is at a term of a row.
pub open spec fn is_at_term(d: Data, caller: Data, c: Call, row: int, term: int) -> bool {
    &&& is_at_row(d, caller, c, row)
    &&& d.reg(Reg::R9) == term
    &&& 0 <= term <= c.k
}

/// The address of an element of the first factor.
proof fn element_is_addressed(fl: Floats, d: Data, caller: Data, c: Call, row: int, term: int) -> (t:
    Data)
    requires
        matmul_run::is_valid(c),
        is_at_term(d, caller, c, row, term),
        term < c.k,
    ensures
        running::goes_on(avx512::address_of_a()),
        t == machine::after_ops(fl, d, avx512::address_of_a(), avx512::address_of_a().len()),
        t == matmul_run::with_address(d, c.a + 4 * (row * c.k + term)),
{
    reveal_with_fuel(machine::after_ops, 5);
    matmul_run::place_is_inside(row, term, c.m, c.k);
    let ops = avx512::address_of_a();
    assert(ops[0] == mov(Reg::Rax, Reg::R9));
    assert(ops[1] == scale(Reg::Rax, Elem::F32));
    assert(ops[2] == add_reg(Reg::Rax, Reg::Rdx));
    assert(ops[3] == add_reg(Reg::Rax, Reg::R12));
    let d1 = d.put(Reg::Rax, term);
    let d2 = steps::with_reg(d1, Reg::Rax, term * 4);
    let d3 = steps::with_reg(d2, Reg::Rax, term * 4 + 4 * (row * c.k));
    let d4 = steps::with_reg(d3, Reg::Rax, term * 4 + 4 * (row * c.k) + c.a);
    steps::reg_is_set(fl, d, Reg::Rax, Reg::R9);
    steps::reg_is_scaled(fl, d1, Reg::Rax);
    steps::reg_is_increased(fl, d2, Reg::Rax, Reg::Rdx);
    steps::reg_is_increased(fl, d3, Reg::Rax, Reg::R12);
    assert(d4.gpr =~= d.gpr.insert(Reg::Rax, c.a + 4 * (row * c.k + term)));
    d4
}

/// The element is put into every place of a register, and the row of the second factor is found.
proof fn element_is_spread(fl: Floats, d: Data, caller: Data, c: Call, row: int, term: int) -> (t:
    Data)
    requires
        matmul_run::is_valid(c),
        is_at_term(d, caller, c, row, term),
        term < c.k,
        d.reg(Reg::Rax) == c.a + 4 * (row * c.k + term),
    ensures
        running::goes_on(avx512::spread()),
        t == machine::after_ops(fl, d, avx512::spread(), avx512::spread().len()),
        is_at_term(t, caller, c, row, term),
        t.reg(Reg::Rbx) == 4 * (term * c.n),
        t.reg(Reg::R8) == d.reg(Reg::R8),
        t.reg(Reg::Rcx) == d.reg(Reg::Rcx),
        t.mem == d.mem,
        t.vec == d.vec.insert(
            8,
            machine::filled(
                machine::repeated(matmul_run::entry(d.mem, c.a, row * c.k + term), 64),
            ),
        ),
{
    reveal_with_fuel(machine::after_ops, 4);
    matmul_run::place_is_inside(row, term, c.m, c.k);
    assert(0 <= term * c.n <= c.k * c.n && term * (4 * c.n) == 4 * (term * c.n))
        by (nonlinear_arith)
        requires
            0 <= term < c.k,
            0 <= c.n,
    ;
    let ops = avx512::spread();
    assert(ops[0] == broadcast(Wide::Z, Reg::Zmm8, at(Reg::Rax)));
    assert(ops[1] == mov(Reg::Rbx, Reg::R9));
    assert(ops[2] == imul(Reg::Rbx, Reg::R15));
    steps::register_is_filled(fl, d, Reg::Zmm8);
    let d1 = machine::after_op(fl, d, ops[0]);
    steps::reg_is_set(fl, d1, Reg::Rbx, Reg::R9);
    let d2 = machine::after_op(fl, d1, ops[1]);
    steps::reg_is_multiplied(fl, d2, Reg::Rbx, Reg::R15);
    machine::after_op(fl, d2, ops[2])
}

/// The register behind a term that is taken from the second factor at an address.
pub open spec fn summed(fl: Floats, d: Data, r: Reg, at: int) -> Seq<u8> {
    machine::filled(
        machine::lanewise_fma(
            fl,
            d.wide(Reg::Zmm8),
            machine::filled(machine::bytes(d.mem, at, 64)),
            d.wide(r),
            64,
        ),
    )
}

/// Four registers of products are added.
proof fn four_products_are_added(
    fl: Floats,
    d: Data,
    caller: Data,
    c: Call,
    row: int,
    term: int,
    col: int,
) -> (t: Data)
    requires
        matmul_run::is_valid(c),
        is_at_term(d, caller, c, row, term),
        term < c.k,
        d.reg(Reg::Rbx) == 4 * (term * c.n),
        d.reg(Reg::R8) == 4 * col,
        0 <= col,
        col + 64 <= c.n,
    ensures
        running::goes_on(avx512::four_products()),
        t == machine::after_ops(fl, d, avx512::four_products(), avx512::four_products().len()),
        is_at_term(t, caller, c, row, term),
        t.reg(Reg::R8) == d.reg(Reg::R8),
        t.mem == d.mem,
        t.wide(Reg::Zmm0) == summed(fl, d, Reg::Zmm0, c.b + 4 * (term * c.n + col)),
        t.wide(Reg::Zmm1) == summed(fl, d, Reg::Zmm1, c.b + 4 * (term * c.n + col + 16)),
        t.wide(Reg::Zmm2) == summed(fl, d, Reg::Zmm2, c.b + 4 * (term * c.n + col + 32)),
        t.wide(Reg::Zmm3) == summed(fl, d, Reg::Zmm3, c.b + 4 * (term * c.n + col + 48)),
{
    reveal_with_fuel(machine::after_ops, 11);
    matmul_run::place_is_inside(term, col, c.k, c.n);
    let ops = avx512::four_products();
    let at = c.b + 4 * (term * c.n + col);
    assert(ops[0] == lea_sum(Reg::Rax, Reg::R13, Reg::Rbx));
    assert(ops[1] == add_reg(Reg::Rax, Reg::R8));
    assert(ops[2] == vload(Elem::F32, Wide::Z, Reg::Zmm4, at_disp(Reg::Rax, 0)));
    assert(ops[3] == vload(Elem::F32, Wide::Z, Reg::Zmm5, at_disp(Reg::Rax, 64)));
    assert(ops[4] == fma(Wide::Z, Reg::Zmm0, Reg::Zmm8, Reg::Zmm4));
    assert(ops[5] == vload(Elem::F32, Wide::Z, Reg::Zmm6, at_disp(Reg::Rax, 128)));
    assert(ops[6] == fma(Wide::Z, Reg::Zmm1, Reg::Zmm8, Reg::Zmm5));
    assert(ops[7] == vload(Elem::F32, Wide::Z, Reg::Zmm7, at_disp(Reg::Rax, 192)));
    assert(ops[8] == fma(Wide::Z, Reg::Zmm2, Reg::Zmm8, Reg::Zmm6));
    assert(ops[9] == fma(Wide::Z, Reg::Zmm3, Reg::Zmm8, Reg::Zmm7));
    steps::sum_is_addressed(fl, d, Reg::Rax, Reg::R13, Reg::Rbx);
    let d0 = d.put(Reg::Rax, c.b + 4 * (term * c.n));
    steps::reg_is_increased(fl, d0, Reg::Rax, Reg::R8);
    let d1 = steps::with_reg(d0, Reg::Rax, at);
    let d2 = steps::register_is_loaded(fl, d1, Reg::Zmm4, Reg::Rax, 0);
    let d3 = steps::register_is_loaded(fl, d2, Reg::Zmm5, Reg::Rax, 64);
    let d4 = steps::register_is_summed(fl, d3, Reg::Zmm0, Reg::Zmm8, Reg::Zmm4);
    let d5 = steps::register_is_loaded(fl, d4, Reg::Zmm6, Reg::Rax, 128);
    let d6 = steps::register_is_summed(fl, d5, Reg::Zmm1, Reg::Zmm8, Reg::Zmm5);
    let d7 = steps::register_is_loaded(fl, d6, Reg::Zmm7, Reg::Rax, 192);
    let d8 = steps::register_is_summed(fl, d7, Reg::Zmm2, Reg::Zmm8, Reg::Zmm6);
    steps::register_is_summed(fl, d8, Reg::Zmm3, Reg::Zmm8, Reg::Zmm7)
}

/// One register of products is added.
proof fn one_product_is_added(
    fl: Floats,
    d: Data,
    caller: Data,
    c: Call,
    row: int,
    term: int,
    col: int,
    offset: i32,
) -> (t: Data)
    requires
        matmul_run::is_valid(c),
        is_at_term(d, caller, c, row, term),
        term < c.k,
        d.reg(Reg::Rbx) == 4 * (term * c.n),
        offset == 4 * col,
        0 <= col,
        col + 16 <= c.n,
    ensures
        running::goes_on(avx512::one_product(offset)),
        t == machine::after_ops(
            fl,
            d,
            avx512::one_product(offset),
            avx512::one_product(offset).len(),
        ),
        is_at_term(t, caller, c, row, term),
        t.mem == d.mem,
        t.wide(Reg::Zmm0) == summed(fl, d, Reg::Zmm0, c.b + 4 * (term * c.n + col)),
{
    reveal_with_fuel(machine::after_ops, 5);
    matmul_run::place_is_inside(term, col, c.k, c.n);
    let ops = avx512::one_product(offset);
    let at = c.b + 4 * (term * c.n + col);
    assert(ops[0] == add_imm(Reg::Rbx, offset));
    assert(ops[1] == add_reg(Reg::Rbx, Reg::R13));
    assert(ops[2] == vload(Elem::F32, Wide::Z, Reg::Zmm4, at_disp(Reg::Rbx, 0)));
    assert(ops[3] == fma(Wide::Z, Reg::Zmm0, Reg::Zmm8, Reg::Zmm4));
    steps::reg_is_advanced(fl, d, Reg::Rbx, offset);
    let d0 = steps::with_reg(d, Reg::Rbx, 4 * (term * c.n) + offset);
    steps::reg_is_increased(fl, d0, Reg::Rbx, Reg::R13);
    let d1 = steps::with_reg(d0, Reg::Rbx, at);
    let d2 = steps::register_is_loaded(fl, d1, Reg::Zmm4, Reg::Rbx, 0);
    steps::register_is_summed(fl, d2, Reg::Zmm0, Reg::Zmm8, Reg::Zmm4)
}

/// The next term.
proof fn term_is_advanced(fl: Floats, d: Data, caller: Data, c: Call, row: int, term: int) -> (t:
    Data)
    requires
        is_at_term(d, caller, c, row, term),
        matmul_run::is_valid(c),
        term < c.k,
    ensures
        running::goes_on(avx512::inner_step()),
        t == machine::after_ops(fl, d, avx512::inner_step(), avx512::inner_step().len()),
        is_at_term(t, caller, c, row, term + 1),
        t == steps::with_reg(d, Reg::R9, term + 1),
{
    reveal_with_fuel(machine::after_ops, 2);
    assert(avx512::inner_step()[0] == add_imm(Reg::R9, 1));
    steps::reg_is_advanced(fl, d, Reg::R9, 1);
    steps::with_reg(d, Reg::R9, term + 1)
}

/// Whether a term is left.
proof fn term_is_tested(fl: Floats, d: Data, caller: Data, c: Call, row: int, term: int) -> (t:
    Data)
    requires
        is_at_term(d, caller, c, row, term),
    ensures
        running::goes_on(avx512::inner_test()),
        t == machine::after_ops(fl, d, avx512::inner_test(), avx512::inner_test().len()),
        is_at_term(t, caller, c, row, term),
        t == (Data { less: Some(term < c.k), ..d }),
{
    reveal_with_fuel(machine::after_ops, 2);
    reveal(machine::after_op);
    machine::after_ops(fl, d, avx512::inner_test(), 1)
}

/// The body of the loop over terms of four registers, in runs.
pub open spec fn four_runs() -> Seq<Seq<Op>> {
    seq![
        avx512::address_of_a(),
        avx512::spread(),
        avx512::four_products(),
        avx512::inner_step(),
    ]
}

/// The body of the loop over terms of one register, in runs.
pub open spec fn one_runs(offset: i32) -> Seq<Seq<Op>> {
    seq![
        avx512::address_of_a(),
        avx512::spread(),
        avx512::one_product(offset),
        avx512::inner_step(),
    ]
}

/// Four registers hold sums.
pub open spec fn four_hold(
    fl: Floats,
    d: Data,
    before: spec_fn(int) -> u8,
    c: Call,
    row: int,
    col: int,
    term: int,
) -> bool {
    &&& holds_sums(fl, d.wide(Reg::Zmm0), before, c, row, col, term)
    &&& holds_sums(fl, d.wide(Reg::Zmm1), before, c, row, col + 16, term)
    &&& holds_sums(fl, d.wide(Reg::Zmm2), before, c, row, col + 32, term)
    &&& holds_sums(fl, d.wide(Reg::Zmm3), before, c, row, col + 48, term)
}

/// A round over the terms of four registers, in data.
proof fn four_data(
    fl: Floats,
    d: Data,
    caller: Data,
    c: Call,
    row: int,
    term: int,
    col: int,
) -> (t: Data)
    requires
        matmul_run::is_valid(c),
        is_at_term(d, caller, c, row, term),
        term < c.k,
        d.reg(Reg::R8) == 4 * col,
        0 <= col,
        col + 64 <= wide_columns(c.n),
        has_columns(fl, d.mem, caller.mem, c, row, col),
        four_hold(fl, d, caller.mem, c, row, col, term),
    ensures
        running::goes_on(running::joined(four_runs())),
        t == machine::after_ops(
            fl,
            d,
            running::joined(four_runs()),
            running::joined(four_runs()).len(),
        ),
        is_at_term(t, caller, c, row, term + 1),
        t.reg(Reg::R8) == d.reg(Reg::R8),
        t.mem == d.mem,
        four_hold(fl, t, caller.mem, c, row, col, term + 1),
{
    matmul_run::place_is_inside(row, term, c.m, c.k);
    factors_are_untouched(fl, d.mem, caller.mem, c, row, col, row * c.k + term);
    let d0 = element_is_addressed(fl, d, caller, c, row, term);
    let d1 = element_is_spread(fl, d0, caller, c, row, term);
    let d2 = four_products_are_added(fl, d1, caller, c, row, term, col);
    let d3 = term_is_advanced(fl, d2, caller, c, row, term);
    let after = seq![d0, d1, d2, d3];
    assert(running::all_follow(fl, d, four_runs(), after));
    running::all_ops_follow(fl, d, four_runs(), after);
    term_is_added(fl, d.mem, caller.mem, c, row, col, col, term, d.wide(Reg::Zmm0));
    term_is_added(fl, d.mem, caller.mem, c, row, col, col + 16, term, d.wide(Reg::Zmm1));
    term_is_added(fl, d.mem, caller.mem, c, row, col, col + 32, term, d.wide(Reg::Zmm2));
    term_is_added(fl, d.mem, caller.mem, c, row, col, col + 48, term, d.wide(Reg::Zmm3));
    d3
}

/// A round over the terms of one register, in data.
proof fn one_data(
    fl: Floats,
    d: Data,
    caller: Data,
    c: Call,
    row: int,
    term: int,
    col: int,
    offset: i32,
) -> (t: Data)
    requires
        matmul_run::is_valid(c),
        is_at_term(d, caller, c, row, term),
        term < c.k,
        offset == 4 * col,
        0 <= col,
        col + 16 <= wide_columns(c.n),
        has_columns(fl, d.mem, caller.mem, c, row, col),
        holds_sums(fl, d.wide(Reg::Zmm0), caller.mem, c, row, col, term),
    ensures
        running::goes_on(running::joined(one_runs(offset))),
        t == machine::after_ops(
            fl,
            d,
            running::joined(one_runs(offset)),
            running::joined(one_runs(offset)).len(),
        ),
        is_at_term(t, caller, c, row, term + 1),
        t.mem == d.mem,
        holds_sums(fl, t.wide(Reg::Zmm0), caller.mem, c, row, col, term + 1),
{
    matmul_run::place_is_inside(row, term, c.m, c.k);
    factors_are_untouched(fl, d.mem, caller.mem, c, row, col, row * c.k + term);
    let d0 = element_is_addressed(fl, d, caller, c, row, term);
    let d1 = element_is_spread(fl, d0, caller, c, row, term);
    let d2 = one_product_is_added(fl, d1, caller, c, row, term, col, offset);
    let d3 = term_is_advanced(fl, d2, caller, c, row, term);
    let after = seq![d0, d1, d2, d3];
    assert(running::all_follow(fl, d, one_runs(offset), after));
    running::all_ops_follow(fl, d, one_runs(offset), after);
    term_is_added(fl, d.mem, caller.mem, c, row, col, col, term, d.wide(Reg::Zmm0));
    d3
}

/// The loop over the terms of four registers.
proof fn four_run(
    fl: Floats,
    full: Seq<Ins>,
    p: Asm,
    d: Data,
    caller: Data,
    c: Call,
    row: int,
    term: int,
    col: int,
) -> (t: Data)
    requires
        program::places_are_single(full),
        running::starts(
            full,
            running::plain_loop(p, avx512::inner_test(), running::joined(four_runs())),
        ),
        matmul_run::is_valid(c),
        is_at_term(d, caller, c, row, term),
        d.reg(Reg::R8) == 4 * col,
        0 <= col,
        col + 64 <= wide_columns(c.n),
        has_columns(fl, d.mem, caller.mem, c, row, col),
        four_hold(fl, d, caller.mem, c, row, col, term),
    ensures
        machine::reaches(
            fl,
            full,
            running::behind(p.begin(), d),
            running::behind(
                running::plain_loop(p, avx512::inner_test(), running::joined(four_runs())),
                t,
            ),
        ),
        is_at_term(t, caller, c, row, c.k),
        t.reg(Reg::R8) == d.reg(Reg::R8),
        t.mem == d.mem,
        four_hold(fl, t, caller.mem, c, row, col, c.k),
    decreases c.k - term,
{
    let test = avx512::inner_test();
    let body = running::joined(four_runs());
    let d1 = term_is_tested(fl, d, caller, c, row, term);
    if term < c.k {
        let d2 = four_data(fl, d1, caller, c, row, term, col);
        running::plain_round(fl, full, p, test, body, d, d1, d2);
        let t = four_run(fl, full, p, d2, caller, c, row, term + 1, col);
        running::reaches_on(
            fl,
            full,
            running::behind(p.begin(), d),
            running::behind(p.begin(), d2),
            running::behind(running::plain_loop(p, test, body), t),
        );
        t
    } else {
        running::plain_loop_ends(fl, full, p, test, body, d, d1);
        d1
    }
}

/// The loop over the terms of one register.
proof fn one_run(
    fl: Floats,
    full: Seq<Ins>,
    p: Asm,
    d: Data,
    caller: Data,
    c: Call,
    row: int,
    term: int,
    col: int,
    offset: i32,
) -> (t: Data)
    requires
        program::places_are_single(full),
        running::starts(
            full,
            running::plain_loop(p, avx512::inner_test(), running::joined(one_runs(offset))),
        ),
        matmul_run::is_valid(c),
        is_at_term(d, caller, c, row, term),
        offset == 4 * col,
        0 <= col,
        col + 16 <= wide_columns(c.n),
        has_columns(fl, d.mem, caller.mem, c, row, col),
        holds_sums(fl, d.wide(Reg::Zmm0), caller.mem, c, row, col, term),
    ensures
        machine::reaches(
            fl,
            full,
            running::behind(p.begin(), d),
            running::behind(
                running::plain_loop(p, avx512::inner_test(), running::joined(one_runs(offset))),
                t,
            ),
        ),
        is_at_term(t, caller, c, row, c.k),
        t.mem == d.mem,
        holds_sums(fl, t.wide(Reg::Zmm0), caller.mem, c, row, col, c.k),
    decreases c.k - term,
{
    let test = avx512::inner_test();
    let body = running::joined(one_runs(offset));
    let d1 = term_is_tested(fl, d, caller, c, row, term);
    if term < c.k {
        let d2 = one_data(fl, d1, caller, c, row, term, col, offset);
        running::plain_round(fl, full, p, test, body, d, d1, d2);
        let t = one_run(fl, full, p, d2, caller, c, row, term + 1, col, offset);
        running::reaches_on(
            fl,
            full,
            running::behind(p.begin(), d),
            running::behind(p.begin(), d2),
            running::behind(running::plain_loop(p, test, body), t),
        );
        t
    } else {
        running::plain_loop_ends(fl, full, p, test, body, d, d1);
        d1
    }
}

/// Four runs of operations.
proof fn four_emits(p: Asm, runs: Seq<Seq<Op>>)
    requires
        runs.len() == 4,
    ensures
        p.emit(runs[0]).emit(runs[1]).emit(runs[2]).emit(runs[3]) == p.emit(running::joined(runs)),
{
    reveal_with_fuel(running::emit_all, 5);
    running::all_emits_join(p, runs);
}

/// Four sums start.
proof fn four_sums_are_started(
    fl: Floats,
    d: Data,
    caller: Data,
    c: Call,
    row: int,
    col: int,
) -> (t: Data)
    requires
        matmul_run::is_valid(c),
        is_at_row(d, caller, c, row),
    ensures
        running::goes_on(avx512::four_sums()),
        t == machine::after_ops(fl, d, avx512::four_sums(), avx512::four_sums().len()),
        is_at_term(t, caller, c, row, 0),
        t.reg(Reg::R8) == d.reg(Reg::R8),
        t.mem == d.mem,
        four_hold(fl, t, caller.mem, c, row, col, 0),
{
    reveal_with_fuel(machine::after_ops, 6);
    let ops = avx512::four_sums();
    assert(ops[0] == vclear(Elem::F32, Wide::Z, Reg::Zmm0));
    assert(ops[1] == vclear(Elem::F32, Wide::Z, Reg::Zmm1));
    assert(ops[2] == vclear(Elem::F32, Wide::Z, Reg::Zmm2));
    assert(ops[3] == vclear(Elem::F32, Wide::Z, Reg::Zmm3));
    assert(ops[4] == clear(Reg::R9));
    let z = machine::filled(machine::zeros(64));
    steps::register_is_cleared(fl, d, Elem::F32, Wide::Z, Reg::Zmm0);
    let d0 = d.put_wide(Reg::Zmm0, z);
    steps::register_is_cleared(fl, d0, Elem::F32, Wide::Z, Reg::Zmm1);
    let d1 = d0.put_wide(Reg::Zmm1, z);
    steps::register_is_cleared(fl, d1, Elem::F32, Wide::Z, Reg::Zmm2);
    let d2 = d1.put_wide(Reg::Zmm2, z);
    steps::register_is_cleared(fl, d2, Elem::F32, Wide::Z, Reg::Zmm3);
    let d3 = d2.put_wide(Reg::Zmm3, z);
    steps::reg_is_cleared(fl, d3, Reg::R9);
    zeros_are_sums(fl, caller.mem, c, row, col);
    zeros_are_sums(fl, caller.mem, c, row, col + 16);
    zeros_are_sums(fl, caller.mem, c, row, col + 32);
    zeros_are_sums(fl, caller.mem, c, row, col + 48);
    steps::with_reg(d3, Reg::R9, 0)
}

/// One sum starts.
proof fn one_sum_is_started(fl: Floats, d: Data, caller: Data, c: Call, row: int, col: int) -> (t:
    Data)
    requires
        matmul_run::is_valid(c),
        is_at_row(d, caller, c, row),
    ensures
        running::goes_on(avx512::one_sum()),
        t == machine::after_ops(fl, d, avx512::one_sum(), avx512::one_sum().len()),
        is_at_term(t, caller, c, row, 0),
        t.mem == d.mem,
        holds_sums(fl, t.wide(Reg::Zmm0), caller.mem, c, row, col, 0),
{
    reveal_with_fuel(machine::after_ops, 3);
    let ops = avx512::one_sum();
    assert(ops[0] == vclear(Elem::F32, Wide::Z, Reg::Zmm0));
    assert(ops[1] == clear(Reg::R9));
    steps::register_is_cleared(fl, d, Elem::F32, Wide::Z, Reg::Zmm0);
    let d0 = d.put_wide(Reg::Zmm0, machine::filled(machine::zeros(64)));
    steps::reg_is_cleared(fl, d0, Reg::R9);
    zeros_are_sums(fl, caller.mem, c, row, col);
    steps::with_reg(d0, Reg::R9, 0)
}

/// The bytes in front of a row.
proof fn row_bytes_are_scaled(row: int, col: int, c: Call)
    requires
        matmul_run::is_valid(c),
        0 <= row < c.m,
        0 <= col <= c.n,
    ensures
        row * (4 * c.n) == 4 * (row * c.n),
        0 <= row * c.n,
        row * c.n + col <= c.m * c.n,
{
    assert(row * (4 * c.n) == 4 * (row * c.n) && 0 <= row * c.n && row * c.n + c.n <= c.m * c.n)
        by (nonlinear_arith)
        requires
            0 <= row < c.m,
            0 <= c.n,
    ;
}

/// Four registers of sums are stored, and the next columns are tested.
proof fn four_sums_are_stored(
    fl: Floats,
    d: Data,
    caller: Data,
    c: Call,
    row: int,
    col: int,
    limit: i32,
) -> (t: Data)
    requires
        matmul_run::is_valid(c),
        is_at_row(d, caller, c, row),
        d.reg(Reg::R8) == 4 * col,
        0 <= col,
        col + 64 <= c.n,
        has_columns(fl, d.mem, caller.mem, c, row, col),
        four_hold(fl, d, caller.mem, c, row, col, c.k),
    ensures
        running::goes_on(avx512::store_four(limit)),
        t == machine::after_ops(
            fl,
            d,
            avx512::store_four(limit),
            avx512::store_four(limit).len(),
        ),
        is_at_row(t, caller, c, row),
        t.reg(Reg::R8) == 4 * (col + 64),
        t.less == Some(4 * (col + 64) < limit),
        has_columns(fl, t.mem, caller.mem, c, row, col + 64),
{
    reveal_with_fuel(machine::after_ops, 11);
    let ops = avx512::store_four(limit);
    let at = c.c + 4 * (row * c.n + col);
    assert(ops[0] == mov(Reg::Rax, Reg::Rdi));
    assert(ops[1] == imul(Reg::Rax, Reg::R15));
    assert(ops[2] == add_reg(Reg::Rax, Reg::R8));
    assert(ops[3] == add_reg(Reg::Rax, Reg::R14));
    assert(ops[4] == vstore(Elem::F32, Wide::Z, at_disp(Reg::Rax, 0), Reg::Zmm0));
    assert(ops[5] == vstore(Elem::F32, Wide::Z, at_disp(Reg::Rax, 64), Reg::Zmm1));
    assert(ops[6] == vstore(Elem::F32, Wide::Z, at_disp(Reg::Rax, 128), Reg::Zmm2));
    assert(ops[7] == vstore(Elem::F32, Wide::Z, at_disp(Reg::Rax, 192), Reg::Zmm3));
    assert(ops[8] == add_imm(Reg::R8, 256));
    assert(ops[9] == compare_imm(Reg::R8, limit));
    row_bytes_are_scaled(row, col, c);
    steps::reg_is_set(fl, d, Reg::Rax, Reg::Rdi);
    let d0 = d.put(Reg::Rax, row);
    steps::reg_is_multiplied(fl, d0, Reg::Rax, Reg::R15);
    let d1 = steps::with_reg(d0, Reg::Rax, 4 * (row * c.n));
    steps::reg_is_increased(fl, d1, Reg::Rax, Reg::R8);
    let d2 = steps::with_reg(d1, Reg::Rax, 4 * (row * c.n) + 4 * col);
    steps::reg_is_increased(fl, d2, Reg::Rax, Reg::R14);
    let d3 = steps::with_reg(d2, Reg::Rax, at);
    let d4 = steps::register_is_stored(fl, d3, Reg::Zmm0, Reg::Rax, 0);
    let d5 = steps::register_is_stored(fl, d4, Reg::Zmm1, Reg::Rax, 64);
    let d6 = steps::register_is_stored(fl, d5, Reg::Zmm2, Reg::Rax, 128);
    let d7 = steps::register_is_stored(fl, d6, Reg::Zmm3, Reg::Rax, 192);
    sums_are_put(fl, d.mem, caller.mem, c, row, col, d.wide(Reg::Zmm0));
    sums_are_put(fl, d4.mem, caller.mem, c, row, col + 16, d.wide(Reg::Zmm1));
    sums_are_put(fl, d5.mem, caller.mem, c, row, col + 32, d.wide(Reg::Zmm2));
    sums_are_put(fl, d6.mem, caller.mem, c, row, col + 48, d.wide(Reg::Zmm3));
    steps::reg_is_advanced(fl, d7, Reg::R8, 256);
    let d8 = steps::with_reg(d7, Reg::R8, 4 * (col + 64));
    steps::reg_is_compared(fl, d8, Reg::R8, limit);
    Data { less: Some(4 * (col + 64) < limit), ..d8 }
}

/// One register of sums is stored.
proof fn one_sum_is_stored(
    fl: Floats,
    d: Data,
    caller: Data,
    c: Call,
    row: int,
    col: int,
    offset: i32,
) -> (t: Data)
    requires
        matmul_run::is_valid(c),
        is_at_row(d, caller, c, row),
        offset == 4 * col,
        0 <= col,
        col + 16 <= c.n,
        has_columns(fl, d.mem, caller.mem, c, row, col),
        holds_sums(fl, d.wide(Reg::Zmm0), caller.mem, c, row, col, c.k),
    ensures
        running::goes_on(avx512::store_one(offset)),
        t == machine::after_ops(
            fl,
            d,
            avx512::store_one(offset),
            avx512::store_one(offset).len(),
        ),
        is_at_row(t, caller, c, row),
        has_columns(fl, t.mem, caller.mem, c, row, col + 16),
{
    reveal_with_fuel(machine::after_ops, 6);
    let ops = avx512::store_one(offset);
    let at = c.c + 4 * (row * c.n + col);
    assert(ops[0] == mov(Reg::Rax, Reg::Rdi));
    assert(ops[1] == imul(Reg::Rax, Reg::R15));
    assert(ops[2] == add_imm(Reg::Rax, offset));
    assert(ops[3] == add_reg(Reg::Rax, Reg::R14));
    assert(ops[4] == vstore(Elem::F32, Wide::Z, at_disp(Reg::Rax, 0), Reg::Zmm0));
    row_bytes_are_scaled(row, col, c);
    steps::reg_is_set(fl, d, Reg::Rax, Reg::Rdi);
    let d0 = d.put(Reg::Rax, row);
    steps::reg_is_multiplied(fl, d0, Reg::Rax, Reg::R15);
    let d1 = steps::with_reg(d0, Reg::Rax, 4 * (row * c.n));
    steps::reg_is_advanced(fl, d1, Reg::Rax, offset);
    let d2 = steps::with_reg(d1, Reg::Rax, 4 * (row * c.n) + 4 * col);
    steps::reg_is_increased(fl, d2, Reg::Rax, Reg::R14);
    let d3 = steps::with_reg(d2, Reg::Rax, at);
    sums_are_put(fl, d.mem, caller.mem, c, row, col, d.wide(Reg::Zmm0));
    steps::register_is_stored(fl, d3, Reg::Zmm0, Reg::Rax, 0)
}

/// What stands behind the terms of a block, in the loop over blocks behind `p`.
pub open spec fn block_terms(p: Asm) -> Asm {
    running::plain_loop(
        p.begin_tail_tested().emit(avx512::four_sums()),
        avx512::inner_test(),
        running::joined(four_runs()),
    )
}

/// The loop over blocks is what it was built from.
proof fn blocks_have_terms(p: Asm, limit: i32)
    ensures
        avx512::wide_blocks(p, limit) == block_terms(p).emit(
            avx512::store_four(limit),
        ).end_tail_tested(),
{
    let q = p.begin_tail_tested().emit(avx512::four_sums());
    four_emits(q.begin().emit(avx512::inner_test()).exit_if_ge(), four_runs());
}

/// The pieces of the loop over blocks stand where they were built.
proof fn before_blocks(full: Seq<Ins>, p: Asm, limit: i32)
    requires
        running::starts(full, avx512::wide_blocks(p, limit)),
    ensures
        running::starts(full, p),
        running::starts(full, p.begin_tail_tested()),
        running::starts(full, p.begin_tail_tested().emit(avx512::four_sums()).begin()),
        running::starts(full, block_terms(p)),
        running::starts(full, block_terms(p).emit(avx512::store_four(limit))),
        block_terms(p).open == p.begin_tail_tested().open,
        avx512::wide_blocks(p, limit).open == p.open,
{
    let h = p.begin_tail_tested();
    blocks_have_terms(p, limit);
    running::before_loop(full, block_terms(p).emit(avx512::store_four(limit)));
    running::before_ops(full, block_terms(p), avx512::store_four(limit));
    running::before_plain_loop(
        full,
        h.emit(avx512::four_sums()),
        avx512::inner_test(),
        running::joined(four_runs()),
    );
    running::before_ops(full, h, avx512::four_sums());
    running::before_loop(full, p);
    assert(avx512::wide_blocks(p, limit).open =~= p.open);
}

/// The loop over blocks computes all blocks of 64 columns that are left.
proof fn blocks_run(
    fl: Floats,
    full: Seq<Ins>,
    p: Asm,
    limit: i32,
    d: Data,
    caller: Data,
    c: Call,
    row: int,
    col: int,
) -> (t: Data)
    requires
        program::places_are_single(full),
        running::starts(full, avx512::wide_blocks(p, limit)),
        matmul_run::is_valid(c),
        is_at_row(d, caller, c, row),
        d.reg(Reg::R8) == 4 * col,
        limit == 4 * (c.n / 64 * 64),
        0 <= col,
        col % 64 == 0,
        col + 64 <= c.n / 64 * 64,
        has_columns(fl, d.mem, caller.mem, c, row, col),
    ensures
        machine::reaches(
            fl,
            full,
            running::behind(p.begin_tail_tested(), d),
            running::behind(avx512::wide_blocks(p, limit), t),
        ),
        is_at_row(t, caller, c, row),
        has_columns(fl, t.mem, caller.mem, c, row, c.n / 64 * 64),
    decreases c.n - col,
{
    let h = p.begin_tail_tested();
    let q = h.emit(avx512::four_sums());
    let r = block_terms(p);
    let last = r.emit(avx512::store_four(limit));
    let start = running::behind(h, d);
    before_blocks(full, p, limit);
    blocks_have_terms(p, limit);
    let d1 = four_sums_are_started(fl, d, caller, c, row, col);
    running::loop_opens(fl, full, h, avx512::four_sums(), d, d1);
    let d2 = four_run(fl, full, q, d1, caller, c, row, 0, col);
    running::reaches_on(fl, full, start, running::behind(q.begin(), d1), running::behind(r, d2));
    let d3 = four_sums_are_stored(fl, d2, caller, c, row, col, limit);
    running::runs_ops(fl, full, start, r, avx512::store_four(limit), d2, d3);
    running::tail_tested_loop_is_decided(fl, full, p, last, d3);
    if 4 * (col + 64) < limit {
        running::reaches_on(fl, full, start, running::behind(last, d3), running::behind(h, d3));
        let t = blocks_run(fl, full, p, limit, d3, caller, c, row, col + 64);
        running::reaches_on(
            fl,
            full,
            start,
            running::behind(h, d3),
            running::behind(avx512::wide_blocks(p, limit), t),
        );
        t
    } else {
        running::reaches_on(
            fl,
            full,
            start,
            running::behind(last, d3),
            running::behind(last.end_tail_tested(), d3),
        );
        d3
    }
}

/// What stands behind the terms of a small block.
pub open spec fn small_terms(p: Asm, offset: i32) -> Asm {
    running::plain_loop(
        p.emit(avx512::one_sum()),
        avx512::inner_test(),
        running::joined(one_runs(offset)),
    )
}

/// A small block is what it was built from, and its pieces stand where they were built.
proof fn before_small_block(full: Seq<Ins>, p: Asm, offset: i32)
    requires
        running::starts(full, avx512::small_block(p, offset)),
    ensures
        avx512::small_block(p, offset) == small_terms(p, offset).emit(avx512::store_one(offset)),
        running::starts(full, p),
        running::starts(full, p.emit(avx512::one_sum()).begin()),
        running::starts(full, small_terms(p, offset)),
        avx512::small_block(p, offset).open == p.open,
{
    let q = p.emit(avx512::one_sum());
    four_emits(q.begin().emit(avx512::inner_test()).exit_if_ge(), one_runs(offset));
    running::before_ops(full, small_terms(p, offset), avx512::store_one(offset));
    running::before_plain_loop(full, q, avx512::inner_test(), running::joined(one_runs(offset)));
    running::before_ops(full, p, avx512::one_sum());
}

/// A small block computes sixteen columns.
proof fn small_block_runs(
    fl: Floats,
    full: Seq<Ins>,
    p: Asm,
    offset: i32,
    d: Data,
    caller: Data,
    c: Call,
    row: int,
    col: int,
) -> (t: Data)
    requires
        program::places_are_single(full),
        running::starts(full, avx512::small_block(p, offset)),
        matmul_run::is_valid(c),
        is_at_row(d, caller, c, row),
        offset == 4 * col,
        0 <= col,
        col + 16 <= wide_columns(c.n),
        has_columns(fl, d.mem, caller.mem, c, row, col),
    ensures
        machine::reaches(
            fl,
            full,
            running::behind(p, d),
            running::behind(avx512::small_block(p, offset), t),
        ),
        is_at_row(t, caller, c, row),
        has_columns(fl, t.mem, caller.mem, c, row, col + 16),
{
    let q = p.emit(avx512::one_sum());
    let r = small_terms(p, offset);
    let start = running::behind(p, d);
    before_small_block(full, p, offset);
    let d1 = one_sum_is_started(fl, d, caller, c, row, col);
    running::loop_opens(fl, full, p, avx512::one_sum(), d, d1);
    let d2 = one_run(fl, full, q, d1, caller, c, row, 0, col, offset);
    running::reaches_on(fl, full, start, running::behind(q.begin(), d1), running::behind(r, d2));
    let d3 = one_sum_is_stored(fl, d2, caller, c, row, col, offset);
    running::runs_ops(fl, full, start, r, avx512::store_one(offset), d2, d3);
    d3
}

/// What stands in front of small blocks was built before them.
proof fn before_small_blocks(full: Seq<Ins>, p: Asm, n: usize, count: nat)
    requires
        running::starts(full, avx512::small_run(p, n, count)),
    ensures
        running::starts(full, p),
        avx512::small_run(p, n, count).open == p.open,
    decreases count,
{
    if count > 0 {
        let j = (count - 1) as nat;
        before_small_block(
            full,
            avx512::small_run(p, n, j),
            avx512::small_offset(n, count - 1),
        );
        before_small_blocks(full, p, n, j);
    }
}

/// Small blocks compute sixteen columns each.
proof fn small_blocks_run(
    fl: Floats,
    full: Seq<Ins>,
    p: Asm,
    n: usize,
    count: nat,
    d: Data,
    caller: Data,
    c: Call,
    row: int,
) -> (t: Data)
    requires
        program::places_are_single(full),
        running::starts(full, avx512::small_run(p, n, count)),
        matmul_run::is_valid(c),
        c.n == n,
        4 * n <= i32::MAX,
        count <= avx512::small_blocks(n),
        is_at_row(d, caller, c, row),
        has_columns(fl, d.mem, caller.mem, c, row, avx512::after_blocks(n)),
    ensures
        machine::reaches(
            fl,
            full,
            running::behind(p, d),
            running::behind(avx512::small_run(p, n, count), t),
        ),
        is_at_row(t, caller, c, row),
        has_columns(fl, t.mem, caller.mem, c, row, avx512::after_blocks(n) + 16 * count),
    decreases count,
{
    if count == 0 {
        running::reaches_itself(fl, full, running::behind(p, d));
        d
    } else {
        let j = (count - 1) as nat;
        let q = avx512::small_run(p, n, j);
        let offset = avx512::small_offset(n, count - 1);
        let col = avx512::after_blocks(n) + 16 * j;
        before_small_block(full, q, offset);
        let d1 = small_blocks_run(fl, full, p, n, j, d, caller, c, row);
        assert(offset == 4 * col);
        assert(col + 16 <= wide_columns(c.n));
        let t = small_block_runs(fl, full, q, offset, d1, caller, c, row, col);
        running::reaches_on(
            fl,
            full,
            running::behind(p, d),
            running::behind(q, d1),
            running::behind(avx512::small_run(p, n, count), t),
        );
        t
    }
}

/// The work is at a single column, `i` of `count` behind `first`.
pub open spec fn is_at_single(
    d: Data,
    caller: Data,
    c: Call,
    row: int,
    i: int,
    count: int,
) -> bool {
    &&& is_at_row(d, caller, c, row)
    &&& d.reg(Reg::R8) == i
    &&& d.reg(Reg::Rcx) == count
    &&& 0 <= i <= count < 16
}

/// The single columns start.
proof fn singles_are_started(
    fl: Floats,
    d: Data,
    caller: Data,
    c: Call,
    row: int,
    count: u32,
) -> (t: Data)
    requires
        is_at_row(d, caller, c, row),
        count < 16,
    ensures
        running::goes_on(avx512::single_start(count)),
        t == machine::after_ops(
            fl,
            d,
            avx512::single_start(count),
            avx512::single_start(count).len(),
        ),
        is_at_single(t, caller, c, row, 0, count as int),
        t.mem == d.mem,
{
    reveal_with_fuel(machine::after_ops, 3);
    let ops = avx512::single_start(count);
    assert(ops[0] == clear(Reg::R8));
    steps::reg_is_cleared(fl, d, Reg::R8);
    let s1 = steps::with_reg(d, Reg::R8, 0);
    assert(ops[1] == mov_imm32(Reg::Ecx, count));
    steps::low_half_is_loaded(fl, s1, Reg::Ecx, count);
    let s2 = s1.put(Reg::Ecx, count as int);
    s2
}

/// Whether a single column is left.
proof fn single_is_tested(
    fl: Floats,
    d: Data,
    caller: Data,
    c: Call,
    row: int,
    i: int,
    count: int,
) -> (t: Data)
    requires
        is_at_single(d, caller, c, row, i, count),
    ensures
        running::goes_on(avx512::single_test()),
        t == machine::after_ops(fl, d, avx512::single_test(), avx512::single_test().len()),
        is_at_single(t, caller, c, row, i, count),
        t.mem == d.mem,
        t.less == Some(i < count),
{
    reveal_with_fuel(machine::after_ops, 2);
    reveal(machine::after_op);
    machine::after_ops(fl, d, avx512::single_test(), 1)
}

/// A single sum starts.
proof fn single_sum_is_started(
    fl: Floats,
    d: Data,
    caller: Data,
    c: Call,
    row: int,
    i: int,
    count: int,
) -> (t: Data)
    requires
        is_at_single(d, caller, c, row, i, count),
        matmul_run::is_valid(c),
    ensures
        running::goes_on(avx512::single_sum()),
        t == machine::after_ops(fl, d, avx512::single_sum(), avx512::single_sum().len()),
        is_at_single(t, caller, c, row, i, count),
        is_at_term(t, caller, c, row, 0),
        t.mem == d.mem,
        machine::lane(t.wide(Reg::Xmm0), Elem::F32, 0) == machine::zeros(4),
{
    reveal_with_fuel(machine::after_ops, 3);
    let ops = avx512::single_sum();
    assert(ops[0] == clear_low(Reg::Xmm0));
    assert(ops[1] == clear(Reg::R9));
    let d1 = steps::low_is_cleared(fl, d, Reg::Xmm0);
    steps::reg_is_cleared(fl, d1, Reg::R9);
    steps::with_reg(d1, Reg::R9, 0)
}

/// The address of an element of the second factor.
proof fn single_factor_is_addressed(
    fl: Floats,
    d: Data,
    caller: Data,
    c: Call,
    row: int,
    term: int,
    i: int,
    col: int,
    offset: i32,
    ops: Seq<Op>,
) -> (t: Data)
    requires
        matmul_run::is_valid(c),
        is_at_term(d, caller, c, row, term),
        term < c.k,
        d.reg(Reg::R8) == i,
        0 <= i < 16,
        offset == 4 * (col - i),
        i <= col < c.n,
        ops == avx512::single_product(offset),
        0 <= d.reg(Reg::Rax) < 0x8000_0000_0000_0000,
    ensures
        t == machine::after_ops(fl, d, ops, 8),
        t.reg(Reg::Rbx) == c.b + 4 * (term * c.n + col),
        is_at_term(t, caller, c, row, term),
        t.reg(Reg::R8) == d.reg(Reg::R8),
        t.reg(Reg::Rcx) == d.reg(Reg::Rcx),
        t.mem == d.mem,
        t.wide(Reg::Xmm0) == d.wide(Reg::Xmm0),
        machine::lane(t.wide(Reg::Xmm1), Elem::F32, 0) == machine::bytes(
            d.mem,
            d.reg(Reg::Rax),
            4,
        ),
{
    reveal_with_fuel(machine::after_ops, 9);
    matmul_run::place_is_inside(term, col, c.k, c.n);
    assert(term * (4 * c.n) == 4 * (term * c.n)) by (nonlinear_arith);
    assert(ops[0] == load(Elem::F32, Reg::Xmm1, at(Reg::Rax)));
    assert(ops[1] == mov(Reg::Rbx, Reg::R9));
    assert(ops[2] == imul(Reg::Rbx, Reg::R15));
    assert(ops[3] == add_imm(Reg::Rbx, offset));
    assert(ops[4] == mov(Reg::Rax, Reg::R8));
    assert(ops[5] == scale(Reg::Rax, Elem::F32));
    assert(ops[6] == add_reg(Reg::Rbx, Reg::Rax));
    assert(ops[7] == add_reg(Reg::Rbx, Reg::R13));
    let d1 = steps::low_is_loaded(fl, d, Elem::F32, Reg::Xmm1, Reg::Rax);
    steps::reg_is_set(fl, d1, Reg::Rbx, Reg::R9);
    let d2 = d1.put(Reg::Rbx, term);
    steps::reg_is_multiplied(fl, d2, Reg::Rbx, Reg::R15);
    let d3 = steps::with_reg(d2, Reg::Rbx, 4 * (term * c.n));
    steps::reg_is_advanced(fl, d3, Reg::Rbx, offset);
    let d4 = steps::with_reg(d3, Reg::Rbx, 4 * (term * c.n) + offset);
    steps::reg_is_set(fl, d4, Reg::Rax, Reg::R8);
    let d5 = d4.put(Reg::Rax, i);
    steps::reg_is_scaled(fl, d5, Reg::Rax);
    let d6 = steps::with_reg(d5, Reg::Rax, i * 4);
    steps::reg_is_increased(fl, d6, Reg::Rbx, Reg::Rax);
    let d7 = steps::with_reg(d6, Reg::Rbx, 4 * (term * c.n + col));
    steps::reg_is_increased(fl, d7, Reg::Rbx, Reg::R13);
    steps::with_reg(d7, Reg::Rbx, c.b + 4 * (term * c.n + col))
}

/// A single product is added.
proof fn single_product_is_added(
    fl: Floats,
    d: Data,
    caller: Data,
    c: Call,
    row: int,
    term: int,
    i: int,
    col: int,
    offset: i32,
) -> (t: Data)
    requires
        matmul_run::is_valid(c),
        is_at_term(d, caller, c, row, term),
        term < c.k,
        d.reg(Reg::R8) == i,
        0 <= i < 16,
        offset == 4 * (col - i),
        i <= col < c.n,
        d.reg(Reg::Rax) == c.a + 4 * (row * c.k + term),
    ensures
        running::goes_on(avx512::single_product(offset)),
        t == machine::after_ops(
            fl,
            d,
            avx512::single_product(offset),
            avx512::single_product(offset).len(),
        ),
        is_at_term(t, caller, c, row, term),
        t.reg(Reg::R8) == d.reg(Reg::R8),
        t.reg(Reg::Rcx) == d.reg(Reg::Rcx),
        t.mem == d.mem,
        machine::lane(t.wide(Reg::Xmm0), Elem::F32, 0) == matmul_run::with_term(
            fl,
            false,
            machine::lane(d.wide(Reg::Xmm0), Elem::F32, 0),
            matmul_run::entry(d.mem, c.a, row * c.k + term),
            matmul_run::entry(d.mem, c.b, term * c.n + col),
        ),
{
    let ops = avx512::single_product(offset);
    matmul_run::place_is_inside(term, col, c.k, c.n);
    matmul_run::place_is_inside(row, term, c.m, c.k);
    let d8 = single_factor_is_addressed(fl, d, caller, c, row, term, i, col, offset, ops);
    reveal_with_fuel(machine::after_ops, 4);
    assert(ops[8] == load(Elem::F32, Reg::Xmm2, at(Reg::Rbx)));
    assert(ops[9] == scalar(Arith::Mul, Elem::F32, Reg::Xmm2, Reg::Xmm1));
    assert(ops[10] == scalar(Arith::Add, Elem::F32, Reg::Xmm0, Reg::Xmm2));
    let d9 = steps::low_is_loaded(fl, d8, Elem::F32, Reg::Xmm2, Reg::Rbx);
    let d10 = steps::scalar_is_applied(fl, d9, Arith::Mul, Reg::Xmm2, Reg::Xmm1);
    let t = steps::scalar_is_applied(fl, d10, Arith::Add, Reg::Xmm0, Reg::Xmm2);
    assert(d9.wide(Reg::Xmm0) == d8.wide(Reg::Xmm0));
    assert(d10.wide(Reg::Xmm0) == d9.wide(Reg::Xmm0));
    assert(d9.wide(Reg::Xmm1) == d8.wide(Reg::Xmm1));
    t
}

/// The body of the loop over the terms of a single column, in runs.
pub open spec fn single_runs(offset: i32) -> Seq<Seq<Op>> {
    seq![avx512::address_of_a(), avx512::single_product(offset), avx512::inner_step()]
}

/// The work is at a term of a single column, with the sum of the terms in front of it.
pub open spec fn is_at_single_term(
    fl: Floats,
    d: Data,
    caller: Data,
    c: Call,
    row: int,
    term: int,
    i: int,
    count: int,
    col: int,
) -> bool {
    &&& is_at_single(d, caller, c, row, i, count)
    &&& is_at_term(d, caller, c, row, term)
    &&& i < count
    &&& i <= col < c.n
    &&& wide_columns(c.n) <= col
    &&& machine::lane(d.wide(Reg::Xmm0), Elem::F32, 0) == matmul_run::dot(
        fl,
        caller.mem,
        c,
        wide_columns(c.n),
        row,
        col,
        term,
    )
}

/// A round over the terms of a single column, in data.
proof fn single_data(
    fl: Floats,
    d: Data,
    caller: Data,
    c: Call,
    row: int,
    term: int,
    i: int,
    count: int,
    col: int,
    offset: i32,
) -> (t: Data)
    requires
        matmul_run::is_valid(c),
        is_at_single_term(fl, d, caller, c, row, term, i, count, col),
        term < c.k,
        offset == 4 * (col - i),
        has_columns(fl, d.mem, caller.mem, c, row, col),
    ensures
        running::goes_on(running::joined(single_runs(offset))),
        t == machine::after_ops(
            fl,
            d,
            running::joined(single_runs(offset)),
            running::joined(single_runs(offset)).len(),
        ),
        is_at_single_term(fl, t, caller, c, row, term + 1, i, count, col),
        t.mem == d.mem,
{
    matmul_run::place_is_inside(row, term, c.m, c.k);
    matmul_run::place_is_inside(term, col, c.k, c.n);
    factors_are_untouched(fl, d.mem, caller.mem, c, row, col, row * c.k + term);
    factors_are_untouched(fl, d.mem, caller.mem, c, row, col, term * c.n + col);
    let d0 = element_is_addressed(fl, d, caller, c, row, term);
    let d1 = single_product_is_added(fl, d0, caller, c, row, term, i, col, offset);
    let d2 = term_is_advanced(fl, d1, caller, c, row, term);
    let after = seq![d0, d1, d2];
    assert(running::all_follow(fl, d, single_runs(offset), after));
    running::all_ops_follow(fl, d, single_runs(offset), after);
    d2
}

/// The loop over the terms of a single column.
proof fn single_run(
    fl: Floats,
    full: Seq<Ins>,
    p: Asm,
    d: Data,
    caller: Data,
    c: Call,
    row: int,
    term: int,
    i: int,
    count: int,
    col: int,
    offset: i32,
) -> (t: Data)
    requires
        program::places_are_single(full),
        running::starts(
            full,
            running::plain_loop(p, avx512::inner_test(), running::joined(single_runs(offset))),
        ),
        matmul_run::is_valid(c),
        is_at_single_term(fl, d, caller, c, row, term, i, count, col),
        offset == 4 * (col - i),
        has_columns(fl, d.mem, caller.mem, c, row, col),
    ensures
        machine::reaches(
            fl,
            full,
            running::behind(p.begin(), d),
            running::behind(
                running::plain_loop(p, avx512::inner_test(), running::joined(single_runs(offset))),
                t,
            ),
        ),
        is_at_single_term(fl, t, caller, c, row, c.k, i, count, col),
        t.mem == d.mem,
    decreases c.k - term,
{
    let test = avx512::inner_test();
    let body = running::joined(single_runs(offset));
    let d1 = term_is_tested(fl, d, caller, c, row, term);
    if term < c.k {
        let d2 = single_data(fl, d1, caller, c, row, term, i, count, col, offset);
        running::plain_round(fl, full, p, test, body, d, d1, d2);
        let t = single_run(fl, full, p, d2, caller, c, row, term + 1, i, count, col, offset);
        running::reaches_on(
            fl,
            full,
            running::behind(p.begin(), d),
            running::behind(p.begin(), d2),
            running::behind(running::plain_loop(p, test, body), t),
        );
        t
    } else {
        running::plain_loop_ends(fl, full, p, test, body, d, d1);
        d1
    }
}

/// A single sum is stored.
proof fn single_sum_is_stored(
    fl: Floats,
    d: Data,
    caller: Data,
    c: Call,
    row: int,
    i: int,
    count: int,
    col: int,
    offset: i32,
) -> (t: Data)
    requires
        matmul_run::is_valid(c),
        is_at_single(d, caller, c, row, i, count),
        i < count,
        i <= col < c.n,
        offset == 4 * (col - i),
    ensures
        running::goes_on(avx512::single_store(offset)),
        t == machine::after_ops(
            fl,
            d,
            avx512::single_store(offset),
            avx512::single_store(offset).len(),
        ),
        is_at_single(t, caller, c, row, i + 1, count),
        t.mem == machine::with_bytes(
            d.mem,
            c.c + 4 * (row * c.n + col),
            machine::lane(d.wide(Reg::Xmm0), Elem::F32, 0),
        ),
{
    reveal_with_fuel(machine::after_ops, 10);
    let ops = avx512::single_store(offset);
    assert(ops[0] == mov(Reg::Rax, Reg::Rdi));
    assert(ops[1] == imul(Reg::Rax, Reg::R15));
    assert(ops[2] == add_imm(Reg::Rax, offset));
    assert(ops[3] == mov(Reg::Rbx, Reg::R8));
    assert(ops[4] == scale(Reg::Rbx, Elem::F32));
    assert(ops[5] == add_reg(Reg::Rax, Reg::Rbx));
    assert(ops[6] == add_reg(Reg::Rax, Reg::R14));
    assert(ops[7] == store(Elem::F32, at(Reg::Rax), Reg::Xmm0));
    assert(ops[8] == add_imm(Reg::R8, 1));
    row_bytes_are_scaled(row, col, c);
    let at = c.c + 4 * (row * c.n + col);
    steps::reg_is_set(fl, d, Reg::Rax, Reg::Rdi);
    let d0 = d.put(Reg::Rax, row);
    steps::reg_is_multiplied(fl, d0, Reg::Rax, Reg::R15);
    let d1 = steps::with_reg(d0, Reg::Rax, 4 * (row * c.n));
    steps::reg_is_advanced(fl, d1, Reg::Rax, offset);
    let d2 = steps::with_reg(d1, Reg::Rax, 4 * (row * c.n) + offset);
    steps::reg_is_set(fl, d2, Reg::Rbx, Reg::R8);
    let d3 = d2.put(Reg::Rbx, i);
    steps::reg_is_scaled(fl, d3, Reg::Rbx);
    let d4 = steps::with_reg(d3, Reg::Rbx, i * 4);
    steps::reg_is_increased(fl, d4, Reg::Rax, Reg::Rbx);
    let d5 = steps::with_reg(d4, Reg::Rax, 4 * (row * c.n + col));
    steps::reg_is_increased(fl, d5, Reg::Rax, Reg::R14);
    let d6 = steps::with_reg(d5, Reg::Rax, at);
    let d7 = steps::low_is_stored(fl, d6, Elem::F32, Reg::Xmm0, Reg::Rax);
    steps::reg_is_advanced(fl, d7, Reg::R8, 1);
    steps::with_reg(d7, Reg::R8, i + 1)
}

/// What stands in front of the terms of a single column, in the loop over columns behind `q`.
pub open spec fn single_head(q: Asm) -> Asm {
    q.begin().emit(avx512::single_test()).exit_if_ge().emit(avx512::single_sum())
}

/// What stands behind the terms of a single column, in the loop over columns behind `q`.
pub open spec fn single_terms(q: Asm, offset: i32) -> Asm {
    running::plain_loop(single_head(q), avx512::inner_test(), running::joined(single_runs(offset)))
}

/// The loop over single columns is what it was built from.
proof fn singles_have_terms(p: Asm, offset: i32, count: u32)
    ensures
        avx512::single_columns(p, offset, count) == single_terms(
            p.emit(avx512::single_start(count)),
            offset,
        ).emit(avx512::single_store(offset)).end(),
{
    let q = single_head(p.emit(avx512::single_start(count)));
    let r = q.begin().emit(avx512::inner_test()).exit_if_ge();
    reveal_with_fuel(running::emit_all, 4);
    running::all_emits_join(r, single_runs(offset));
}

/// The pieces of the loop over single columns stand where they were built.
proof fn before_singles(full: Seq<Ins>, q: Asm, offset: i32)
    requires
        running::starts(
            full,
            single_terms(q, offset).emit(avx512::single_store(offset)).end(),
        ),
    ensures
        ({
            let q4 = q.begin().emit(avx512::single_test()).exit_if_ge();
            &&& running::starts(full, q)
            &&& running::starts(full, q.begin())
            &&& running::starts(full, q4)
            &&& running::starts(full, single_head(q).begin())
            &&& running::starts(full, single_terms(q, offset))
            &&& single_terms(q, offset).open == q.begin().open
            &&& single_terms(q, offset).emit(avx512::single_store(offset)).end().open == q.open
        }),
{
    let q3 = q.begin().emit(avx512::single_test());
    let last = single_terms(q, offset).emit(avx512::single_store(offset));
    running::before_loop(full, last);
    running::before_ops(full, single_terms(q, offset), avx512::single_store(offset));
    running::before_plain_loop(
        full,
        single_head(q),
        avx512::inner_test(),
        running::joined(single_runs(offset)),
    );
    running::before_ops(full, q3.exit_if_ge(), avx512::single_sum());
    running::before_loop(full, q3);
    running::before_ops(full, q.begin(), avx512::single_test());
    running::before_loop(full, q);
    assert(last.end().open =~= q.open);
}

/// The loop over single columns computes all columns that are left.
proof fn singles_run(
    fl: Floats,
    full: Seq<Ins>,
    q: Asm,
    offset: i32,
    d: Data,
    caller: Data,
    c: Call,
    row: int,
    i: int,
    count: int,
) -> (t: Data)
    requires
        program::places_are_single(full),
        running::starts(
            full,
            single_terms(q, offset).emit(avx512::single_store(offset)).end(),
        ),
        matmul_run::is_valid(c),
        is_at_single(d, caller, c, row, i, count),
        offset == 4 * wide_columns(c.n),
        count == c.n - wide_columns(c.n),
        has_columns(fl, d.mem, caller.mem, c, row, wide_columns(c.n) + i),
    ensures
        machine::reaches(
            fl,
            full,
            running::behind(q.begin(), d),
            running::behind(
                single_terms(q, offset).emit(avx512::single_store(offset)).end(),
                t,
            ),
        ),
        is_at_row(t, caller, c, row),
        has_columns(fl, t.mem, caller.mem, c, row, c.n),
    decreases count - i,
{
    let test = avx512::single_test();
    let q4 = q.begin().emit(test).exit_if_ge();
    let r = single_head(q);
    let r1 = single_terms(q, offset);
    let last = r1.emit(avx512::single_store(offset));
    let start = running::behind(q.begin(), d);
    let col = wide_columns(c.n) + i;
    before_singles(full, q, offset);
    let d1 = single_is_tested(fl, d, caller, c, row, i, count);
    if i < count {
        running::round_begins(fl, full, q, test, d, d1);
        let d2 = single_sum_is_started(fl, d1, caller, c, row, i, count);
        running::loop_opens(fl, full, q4, avx512::single_sum(), d1, d2);
        running::reaches_on(fl, full, start, running::behind(q4, d1), running::behind(r.begin(), d2));
        let d3 = single_run(fl, full, r, d2, caller, c, row, 0, i, count, col, offset);
        running::reaches_on(fl, full, start, running::behind(r.begin(), d2), running::behind(r1, d3));
        let d4 = single_sum_is_stored(fl, d3, caller, c, row, i, count, col, offset);
        running::round_ends(fl, full, q, r1, avx512::single_store(offset), d3, d4);
        running::reaches_on(fl, full, start, running::behind(r1, d3), running::behind(q.begin(), d4));
        let v = machine::lane(d3.wide(Reg::Xmm0), Elem::F32, 0);
        assert(matmul_wide_run::piece(v, 0) =~= v);
        columns_are_put(fl, d3.mem, caller.mem, c, row, col, 1, v);
        let t = singles_run(fl, full, q, offset, d4, caller, c, row, i + 1, count);
        running::reaches_on(
            fl,
            full,
            start,
            running::behind(q.begin(), d4),
            running::behind(last.end(), t),
        );
        t
    } else {
        running::loop_ends(fl, full, q, test, last, d, d1);
        d1
    }
}

/// The columns in vectors are those of the blocks and the small blocks.
proof fn vectors_are_blocks(n: usize)
    ensures
        avx512::after_blocks(n) + 16 * avx512::small_blocks(n) == wide_columns(n as int),
        n % 16 == n - wide_columns(n as int),
        0 <= avx512::after_blocks(n) <= n,
        wide_columns(n as int) <= n,
        n / 64 > 0 ==> avx512::after_blocks(n) >= 64,
        n / 64 == 0 ==> avx512::after_blocks(n) == 0,
{
}

/// What stands behind the blocks of 64 columns.
pub open spec fn behind_blocks(p: Asm, n: usize) -> Asm {
    if n / 64 > 0 {
        avx512::wide_blocks(p, ((n / 64 * 256) as u32) as i32)
    } else {
        p
    }
}

/// The pieces of a row stand where they were built.
proof fn before_columns(full: Seq<Ins>, p: Asm, n: usize)
    requires
        running::starts(full, avx512::row_columns(p, n)),
    ensures
        running::starts(full, p),
        running::starts(full, behind_blocks(p, n)),
        running::starts(
            full,
            avx512::small_run(behind_blocks(p, n), n, avx512::small_blocks(n)),
        ),
        avx512::row_columns(p, n).open == p.open,
{
    let p1 = behind_blocks(p, n);
    let p2 = avx512::small_run(p1, n, avx512::small_blocks(n));
    if n % 16 > 0 {
        let offset = avx512::small_offset(n, avx512::small_blocks(n) as int);
        let count = (n % 16) as u32;
        let q = p2.emit(avx512::single_start(count));
        singles_have_terms(p2, offset, count);
        before_singles(full, q, offset);
        running::before_ops(full, p2, avx512::single_start(count));
    }
    before_small_blocks(full, p1, n, avx512::small_blocks(n));
    if n / 64 > 0 {
        before_blocks(full, p, ((n / 64 * 256) as u32) as i32);
    }
}

/// The blocks of 64 columns are computed.
proof fn all_blocks_run(
    fl: Floats,
    full: Seq<Ins>,
    p: Asm,
    n: usize,
    d: Data,
    caller: Data,
    c: Call,
    row: int,
) -> (t: Data)
    requires
        program::places_are_single(full),
        running::starts(full, behind_blocks(p, n)),
        matmul_run::is_valid(c),
        c.n == n,
        4 * n <= i32::MAX,
        is_at_row(d, caller, c, row),
        d.reg(Reg::R8) == 0,
        has_columns(fl, d.mem, caller.mem, c, row, 0),
    ensures
        machine::reaches(
            fl,
            full,
            running::behind(p, d),
            running::behind(behind_blocks(p, n), t),
        ),
        is_at_row(t, caller, c, row),
        has_columns(fl, t.mem, caller.mem, c, row, avx512::after_blocks(n)),
{
    vectors_are_blocks(n);
    if n / 64 > 0 {
        let limit = ((n / 64 * 256) as u32) as i32;
        assert(limit == 4 * (c.n / 64 * 64));
        before_blocks(full, p, limit);
        running::tail_tested_loop_is_entered(fl, full, p, d);
        let t = blocks_run(fl, full, p, limit, d, caller, c, row, 0);
        running::reaches_on(
            fl,
            full,
            running::behind(p, d),
            running::behind(p.begin_tail_tested(), d),
            running::behind(avx512::wide_blocks(p, limit), t),
        );
        t
    } else {
        running::reaches_itself(fl, full, running::behind(p, d));
        d
    }
}

/// The columns behind the vectors are computed.
proof fn last_columns_run(
    fl: Floats,
    full: Seq<Ins>,
    p: Asm,
    offset: i32,
    left: u32,
    d: Data,
    caller: Data,
    c: Call,
    row: int,
) -> (t: Data)
    requires
        program::places_are_single(full),
        running::starts(full, avx512::single_columns(p, offset, left)),
        matmul_run::is_valid(c),
        offset == 4 * wide_columns(c.n),
        left == c.n - wide_columns(c.n),
        left < 16,
        is_at_row(d, caller, c, row),
        has_columns(fl, d.mem, caller.mem, c, row, wide_columns(c.n)),
    ensures
        machine::reaches(
            fl,
            full,
            running::behind(p, d),
            running::behind(avx512::single_columns(p, offset, left), t),
        ),
        is_at_row(t, caller, c, row),
        has_columns(fl, t.mem, caller.mem, c, row, c.n),
{
    let q = p.emit(avx512::single_start(left));
    singles_have_terms(p, offset, left);
    before_singles(full, q, offset);
    let d1 = singles_are_started(fl, d, caller, c, row, left);
    running::loop_opens(fl, full, p, avx512::single_start(left), d, d1);
    let t = singles_run(fl, full, q, offset, d1, caller, c, row, 0, left as int);
    running::reaches_on(
        fl,
        full,
        running::behind(p, d),
        running::behind(q.begin(), d1),
        running::behind(avx512::single_columns(p, offset, left), t),
    );
    t
}

/// The columns of a row are computed.
proof fn columns_run(
    fl: Floats,
    full: Seq<Ins>,
    p: Asm,
    n: usize,
    d: Data,
    caller: Data,
    c: Call,
    row: int,
) -> (t: Data)
    requires
        program::places_are_single(full),
        running::starts(full, avx512::row_columns(p, n)),
        matmul_run::is_valid(c),
        c.n == n,
        4 * n <= i32::MAX,
        is_at_row(d, caller, c, row),
        d.reg(Reg::R8) == 0,
        has_columns(fl, d.mem, caller.mem, c, row, 0),
    ensures
        machine::reaches(
            fl,
            full,
            running::behind(p, d),
            running::behind(avx512::row_columns(p, n), t),
        ),
        is_at_row(t, caller, c, row),
        has_columns(fl, t.mem, caller.mem, c, row, c.n),
{
    let p1 = behind_blocks(p, n);
    let count = avx512::small_blocks(n);
    let p2 = avx512::small_run(p1, n, count);
    let start = running::behind(p, d);
    vectors_are_blocks(n);
    before_columns(full, p, n);
    let d1 = all_blocks_run(fl, full, p, n, d, caller, c, row);
    let d2 = small_blocks_run(fl, full, p1, n, count, d1, caller, c, row);
    running::reaches_on(fl, full, start, running::behind(p1, d1), running::behind(p2, d2));
    if n % 16 > 0 {
        let offset = avx512::small_offset(n, count as int);
        let left = (n % 16) as u32;
        assert(offset == 4 * wide_columns(c.n));
        let t = last_columns_run(fl, full, p2, offset, left, d2, caller, c, row);
        running::reaches_on(
            fl,
            full,
            start,
            running::behind(p2, d2),
            running::behind(avx512::row_columns(p, n), t),
        );
        t
    } else {
        d2
    }
}

/// The work is in front of a row.
pub open spec fn is_before_row(d: Data, caller: Data, c: Call, row: int) -> bool {
    &&& is_inside(d, caller, c)
    &&& d.reg(Reg::R10) == c.m
    &&& d.reg(Reg::R11) == c.k
    &&& d.reg(Reg::Rdi) == row
    &&& 0 <= row <= c.m
}

/// Whether a row is left.
proof fn row_is_tested(fl: Floats, d: Data, caller: Data, c: Call, row: int) -> (t: Data)
    requires
        is_before_row(d, caller, c, row),
    ensures
        running::goes_on(avx512::row_test()),
        t == machine::after_ops(fl, d, avx512::row_test(), avx512::row_test().len()),
        is_before_row(t, caller, c, row),
        t.mem == d.mem,
        t.less == Some(row < c.m),
{
    reveal_with_fuel(machine::after_ops, 2);
    reveal(machine::after_op);
    machine::after_ops(fl, d, avx512::row_test(), 1)
}

/// The row of the first factor is found.
proof fn row_is_found(fl: Floats, d: Data, caller: Data, c: Call, row: int) -> (t: Data)
    requires
        matmul_run::is_valid(c),
        is_before_row(d, caller, c, row),
        row < c.m,
    ensures
        running::goes_on(avx512::row_of_a()),
        t == machine::after_ops(fl, d, avx512::row_of_a(), avx512::row_of_a().len()),
        is_at_row(t, caller, c, row),
        t.reg(Reg::R8) == 0,
        t.mem == d.mem,
{
    reveal_with_fuel(machine::after_ops, 5);
    assert(0 <= row * c.k <= c.m * c.k) by (nonlinear_arith)
        requires
            0 <= row < c.m,
            0 <= c.k,
    ;
    let ops = avx512::row_of_a();
    assert(ops[0] == mov(Reg::Rdx, Reg::Rdi));
    assert(ops[1] == imul(Reg::Rdx, Reg::R11));
    assert(ops[2] == scale(Reg::Rdx, Elem::F32));
    assert(ops[3] == clear(Reg::R8));
    steps::reg_is_set(fl, d, Reg::Rdx, Reg::Rdi);
    let d0 = d.put(Reg::Rdx, row);
    steps::reg_is_multiplied(fl, d0, Reg::Rdx, Reg::R11);
    let d1 = steps::with_reg(d0, Reg::Rdx, row * c.k);
    steps::reg_is_scaled(fl, d1, Reg::Rdx);
    let d2 = steps::with_reg(d1, Reg::Rdx, (row * c.k) * 4);
    steps::reg_is_cleared(fl, d2, Reg::R8);
    steps::with_reg(d2, Reg::R8, 0)
}

/// The next row.
proof fn row_is_advanced(fl: Floats, d: Data, caller: Data, c: Call, row: int) -> (t: Data)
    requires
        matmul_run::is_valid(c),
        is_at_row(d, caller, c, row),
    ensures
        running::goes_on(avx512::row_step()),
        t == machine::after_ops(fl, d, avx512::row_step(), avx512::row_step().len()),
        is_before_row(t, caller, c, row + 1),
        t.mem == d.mem,
{
    reveal_with_fuel(machine::after_ops, 2);
    assert(avx512::row_step()[0] == add_imm(Reg::Rdi, 1));
    steps::reg_is_advanced(fl, d, Reg::Rdi, 1);
    steps::with_reg(d, Reg::Rdi, row + 1)
}

/// What stands in front of the columns of a row, in the loop over rows behind `p`.
pub open spec fn columns_head(p: Asm) -> Asm {
    p.begin().emit(avx512::row_test()).exit_if_ge().emit(avx512::row_of_a())
}

/// The pieces of the loop over rows stand where they were built.
proof fn before_rows(full: Seq<Ins>, p: Asm, n: usize)
    requires
        running::starts(full, avx512::all_rows(p, n)),
    ensures
        ({
            let q4 = p.begin().emit(avx512::row_test()).exit_if_ge();
            let r = avx512::row_columns(columns_head(p), n);
            &&& avx512::all_rows(p, n) == r.emit(avx512::row_step()).end()
            &&& running::starts(full, p)
            &&& running::starts(full, p.begin())
            &&& running::starts(full, q4)
            &&& running::starts(full, columns_head(p))
            &&& running::starts(full, r)
            &&& running::starts(full, r.emit(avx512::row_step()))
            &&& r.open == p.begin().open
        }),
{
    let q3 = p.begin().emit(avx512::row_test());
    let r = avx512::row_columns(columns_head(p), n);
    running::before_loop(full, r.emit(avx512::row_step()));
    running::before_ops(full, r, avx512::row_step());
    before_columns(full, columns_head(p), n);
    running::before_ops(full, q3.exit_if_ge(), avx512::row_of_a());
    running::before_loop(full, q3);
    running::before_ops(full, p.begin(), avx512::row_test());
    running::before_loop(full, p);
}

/// The loop over rows computes all rows that are left.
proof fn rows_run(
    fl: Floats,
    full: Seq<Ins>,
    p: Asm,
    n: usize,
    d: Data,
    caller: Data,
    c: Call,
    row: int,
) -> (t: Data)
    requires
        program::places_are_single(full),
        running::starts(full, avx512::all_rows(p, n)),
        matmul_run::is_valid(c),
        c.n == n,
        4 * n <= i32::MAX,
        is_before_row(d, caller, c, row),
        has_columns(fl, d.mem, caller.mem, c, row, 0),
    ensures
        machine::reaches(
            fl,
            full,
            running::behind(p.begin(), d),
            running::behind(avx512::all_rows(p, n), t),
        ),
        is_inside(t, caller, c),
        has_columns(fl, t.mem, caller.mem, c, c.m, 0),
    decreases c.m - row,
{
    let test = avx512::row_test();
    let q4 = p.begin().emit(test).exit_if_ge();
    let h = columns_head(p);
    let r = avx512::row_columns(h, n);
    let start = running::behind(p.begin(), d);
    before_rows(full, p, n);
    let d1 = row_is_tested(fl, d, caller, c, row);
    if row < c.m {
        running::round_begins(fl, full, p, test, d, d1);
        let d2 = row_is_found(fl, d1, caller, c, row);
        running::runs_ops(fl, full, start, q4, avx512::row_of_a(), d1, d2);
        let d3 = columns_run(fl, full, h, n, d2, caller, c, row);
        running::reaches_on(fl, full, start, running::behind(h, d2), running::behind(r, d3));
        let d4 = row_is_advanced(fl, d3, caller, c, row);
        running::round_ends(fl, full, p, r, avx512::row_step(), d3, d4);
        running::reaches_on(fl, full, start, running::behind(r, d3), running::behind(p.begin(), d4));
        next_row(fl, d3.mem, caller.mem, c, row);
        let t = rows_run(fl, full, p, n, d4, caller, c, row + 1);
        running::reaches_on(
            fl,
            full,
            start,
            running::behind(p.begin(), d4),
            running::behind(avx512::all_rows(p, n), t),
        );
        t
    } else {
        running::loop_ends(fl, full, p, test, r.emit(avx512::row_step()), d, d1);
        d1
    }
}

/// The work of clearing is at an element of the product.
pub open spec fn is_clearing(d: Data, caller: Data, c: Call, t: int) -> bool {
    &&& is_inside(d, caller, c)
    &&& d.reg(Reg::Rsi) == 4 * t
    &&& 0 <= t <= c.m * c.n
    &&& matmul_run::rest_is_untouched(d.mem, caller.mem, c)
}

/// Clearing starts at the first element.
proof fn clearing_is_started(fl: Floats, d: Data, caller: Data, c: Call) -> (t: Data)
    requires
        matmul_run::is_valid(c),
        is_inside(d, caller, c),
        d.mem == caller.mem,
    ensures
        running::goes_on(avx512::zero_wide()),
        t == machine::after_ops(fl, d, avx512::zero_wide(), avx512::zero_wide().len()),
        is_clearing(t, caller, c, 0),
        t.wide(Reg::Zmm0) == machine::filled(machine::zeros(64)),
{
    reveal_with_fuel(machine::after_ops, 3);
    let ops = avx512::zero_wide();
    assert(ops[0] == vclear(Elem::F32, Wide::Z, Reg::Zmm0));
    assert(ops[1] == clear(Reg::Rsi));
    steps::register_is_cleared(fl, d, Elem::F32, Wide::Z, Reg::Zmm0);
    let d0 = d.put_wide(Reg::Zmm0, machine::filled(machine::zeros(64)));
    steps::reg_is_cleared(fl, d0, Reg::Rsi);
    steps::with_reg(d0, Reg::Rsi, 0)
}

/// Whether a whole register and more is left to be cleared.
proof fn clearing_is_tested(fl: Floats, d: Data, caller: Data, c: Call, t: int, total: i64) -> (u:
    Data)
    requires
        matmul_run::is_valid(c),
        is_clearing(d, caller, c, t),
        total == 4 * (c.m * c.n),
    ensures
        running::goes_on(avx512::zero_wide_test(total)),
        u == machine::after_ops(
            fl,
            d,
            avx512::zero_wide_test(total),
            avx512::zero_wide_test(total).len(),
        ),
        is_clearing(u, caller, c, t),
        u.vec == d.vec,
        u.mem == d.mem,
        u.less == Some(t + 16 < c.m * c.n),
{
    reveal_with_fuel(machine::after_ops, 4);
    let ops = avx512::zero_wide_test(total);
    assert(ops[0] == mov_imm(Reg::Rax, total));
    steps::reg_is_loaded(fl, d, Reg::Rax, total);
    let s1 = d.put(Reg::Rax, total as int);
    assert(ops[1] == sub_imm(Reg::Rax, 64));
    steps::reg_is_reduced(fl, s1, Reg::Rax, 64);
    let s2 = steps::with_reg(s1, Reg::Rax, s1.reg(Reg::Rax) - 64);
    assert(ops[2] == compare(Reg::Rsi, Reg::Rax));
    steps::regs_are_compared(fl, s2, Reg::Rsi, Reg::Rax);
    let s3 = Data { less: Some(s2.reg(Reg::Rsi) < s2.reg(Reg::Rax)), ..s2 };
    s3
}

/// Sixteen elements are cleared.
proof fn register_of_zeros_is_stored(fl: Floats, d: Data, caller: Data, c: Call, t: int) -> (u:
    Data)
    requires
        matmul_run::is_valid(c),
        is_clearing(d, caller, c, t),
        t + 16 < c.m * c.n,
    ensures
        running::goes_on(avx512::zero_wide_step()),
        u == machine::after_ops(fl, d, avx512::zero_wide_step(), avx512::zero_wide_step().len()),
        is_clearing(u, caller, c, t + 16),
        u.vec == d.vec,
{
    reveal_with_fuel(machine::after_ops, 4);
    let ops = avx512::zero_wide_step();
    assert(ops[0] == lea_sum(Reg::Rax, Reg::R14, Reg::Rsi));
    assert(ops[1] == vstore(Elem::F32, Wide::Z, at_disp(Reg::Rax, 0), Reg::Zmm0));
    assert(ops[2] == add_imm(Reg::Rsi, 64));
    steps::sum_is_addressed(fl, d, Reg::Rax, Reg::R14, Reg::Rsi);
    let d0 = d.put(Reg::Rax, c.c + 4 * t);
    let d1 = steps::register_is_stored(fl, d0, Reg::Zmm0, Reg::Rax, 0);
    steps::reg_is_advanced(fl, d1, Reg::Rsi, 64);
    matmul_wide_run::rest_stays(
        d.mem,
        caller.mem,
        c,
        t,
        machine::low(d.wide(Reg::Zmm0), 64),
    );
    steps::with_reg(d1, Reg::Rsi, 4 * (t + 16))
}

/// The number of bytes to be cleared is at hand.
proof fn clearing_is_limited(fl: Floats, d: Data, caller: Data, c: Call, t: int, total: i64) -> (u:
    Data)
    requires
        is_clearing(d, caller, c, t),
        total == 4 * (c.m * c.n),
    ensures
        running::goes_on(avx512::zero_limit(total)),
        u == machine::after_ops(
            fl,
            d,
            avx512::zero_limit(total),
            avx512::zero_limit(total).len(),
        ),
        is_clearing(u, caller, c, t),
        u.reg(Reg::Rax) == total,
{
    reveal_with_fuel(machine::after_ops, 3);
    let ops = avx512::zero_limit(total);
    assert(ops[0] == clear_low(Reg::Xmm0));
    let s1 = steps::low_is_cleared(fl, d, Reg::Xmm0);
    assert(ops[1] == mov_imm(Reg::Rax, total));
    steps::reg_is_loaded(fl, s1, Reg::Rax, total);
    let s2 = s1.put(Reg::Rax, total as int);
    s2
}

/// Whether an element is left to be cleared.
proof fn zero_is_tested(fl: Floats, d: Data, caller: Data, c: Call, t: int) -> (u: Data)
    requires
        is_clearing(d, caller, c, t),
        d.reg(Reg::Rax) == 4 * (c.m * c.n),
    ensures
        running::goes_on(avx512::zero_test()),
        u == machine::after_ops(fl, d, avx512::zero_test(), avx512::zero_test().len()),
        is_clearing(u, caller, c, t),
        u.reg(Reg::Rax) == d.reg(Reg::Rax),
        u.less == Some(t < c.m * c.n),
{
    reveal_with_fuel(machine::after_ops, 2);
    reveal(machine::after_op);
    machine::after_ops(fl, d, avx512::zero_test(), 1)
}

/// One element is cleared.
proof fn zero_is_stored(fl: Floats, d: Data, caller: Data, c: Call, t: int) -> (u: Data)
    requires
        matmul_run::is_valid(c),
        is_clearing(d, caller, c, t),
        t < c.m * c.n,
    ensures
        running::goes_on(avx512::zero_step()),
        u == machine::after_ops(fl, d, avx512::zero_step(), avx512::zero_step().len()),
        is_clearing(u, caller, c, t + 1),
        u.reg(Reg::Rax) == d.reg(Reg::Rax),
{
    reveal_with_fuel(machine::after_ops, 4);
    let ops = avx512::zero_step();
    assert(ops[0] == lea_sum(Reg::Rbx, Reg::R14, Reg::Rsi));
    assert(ops[1] == store(Elem::F32, at(Reg::Rbx), Reg::Xmm0));
    assert(ops[2] == add_imm(Reg::Rsi, 4));
    steps::sum_is_addressed(fl, d, Reg::Rbx, Reg::R14, Reg::Rsi);
    let d0 = d.put(Reg::Rbx, c.c + 4 * t);
    let d1 = steps::low_is_stored(fl, d0, Elem::F32, Reg::Xmm0, Reg::Rbx);
    steps::reg_is_advanced(fl, d1, Reg::Rsi, 4);
    matmul_wide_run::rest_stays(
        d.mem,
        caller.mem,
        c,
        t,
        machine::lane(d.wide(Reg::Xmm0), Elem::F32, 0),
    );
    steps::with_reg(d1, Reg::Rsi, 4 * (t + 1))
}

/// The loop that clears registers at a time.
proof fn registers_are_cleared(
    fl: Floats,
    full: Seq<Ins>,
    p: Asm,
    total: i64,
    d: Data,
    caller: Data,
    c: Call,
    t: int,
) -> (u: (Data, int))
    requires
        program::places_are_single(full),
        running::starts(
            full,
            running::plain_loop(p, avx512::zero_wide_test(total), avx512::zero_wide_step()),
        ),
        matmul_run::is_valid(c),
        is_clearing(d, caller, c, t),
        total == 4 * (c.m * c.n),
    ensures
        machine::reaches(
            fl,
            full,
            running::behind(p.begin(), d),
            running::behind(
                running::plain_loop(p, avx512::zero_wide_test(total), avx512::zero_wide_step()),
                u.0,
            ),
        ),
        is_clearing(u.0, caller, c, u.1),
    decreases c.m * c.n - t,
{
    let test = avx512::zero_wide_test(total);
    let body = avx512::zero_wide_step();
    let d1 = clearing_is_tested(fl, d, caller, c, t, total);
    if t + 16 < c.m * c.n {
        let d2 = register_of_zeros_is_stored(fl, d1, caller, c, t);
        running::plain_round(fl, full, p, test, body, d, d1, d2);
        let u = registers_are_cleared(fl, full, p, total, d2, caller, c, t + 16);
        running::reaches_on(
            fl,
            full,
            running::behind(p.begin(), d),
            running::behind(p.begin(), d2),
            running::behind(running::plain_loop(p, test, body), u.0),
        );
        u
    } else {
        running::plain_loop_ends(fl, full, p, test, body, d, d1);
        (d1, t)
    }
}

/// The loop that clears single elements.
proof fn elements_are_cleared(
    fl: Floats,
    full: Seq<Ins>,
    p: Asm,
    d: Data,
    caller: Data,
    c: Call,
    t: int,
) -> (u: Data)
    requires
        program::places_are_single(full),
        running::starts(
            full,
            running::plain_loop(p, avx512::zero_test(), avx512::zero_step()),
        ),
        matmul_run::is_valid(c),
        is_clearing(d, caller, c, t),
        d.reg(Reg::Rax) == 4 * (c.m * c.n),
    ensures
        machine::reaches(
            fl,
            full,
            running::behind(p.begin(), d),
            running::behind(running::plain_loop(p, avx512::zero_test(), avx512::zero_step()), u),
        ),
        is_clearing(u, caller, c, c.m * c.n),
    decreases c.m * c.n - t,
{
    let test = avx512::zero_test();
    let body = avx512::zero_step();
    let d1 = zero_is_tested(fl, d, caller, c, t);
    if t < c.m * c.n {
        let d2 = zero_is_stored(fl, d1, caller, c, t);
        running::plain_round(fl, full, p, test, body, d, d1, d2);
        let u = elements_are_cleared(fl, full, p, d2, caller, c, t + 1);
        running::reaches_on(
            fl,
            full,
            running::behind(p.begin(), d),
            running::behind(p.begin(), d2),
            running::behind(running::plain_loop(p, test, body), u),
        );
        u
    } else {
        running::plain_loop_ends(fl, full, p, test, body, d, d1);
        d1
    }
}

/// The pieces of clearing stand where they were built.
proof fn before_clearing(full: Seq<Ins>, p: Asm, total: i64)
    requires
        running::starts(full, avx512::clear_result(p, total)),
    ensures
        ({
            let q1 = p.emit(avx512::zero_wide());
            let q2 = running::plain_loop(
                q1,
                avx512::zero_wide_test(total),
                avx512::zero_wide_step(),
            );
            let q3 = q2.emit(avx512::zero_limit(total));
            &&& avx512::clear_result(p, total) == running::plain_loop(
                q3,
                avx512::zero_test(),
                avx512::zero_step(),
            )
            &&& running::starts(full, p)
            &&& running::starts(full, q1.begin())
            &&& running::starts(full, q2)
            &&& running::starts(full, q3.begin())
        }),
{
    let q1 = p.emit(avx512::zero_wide());
    let q2 = running::plain_loop(q1, avx512::zero_wide_test(total), avx512::zero_wide_step());
    let q3 = q2.emit(avx512::zero_limit(total));
    running::before_plain_loop(full, q3, avx512::zero_test(), avx512::zero_step());
    running::before_ops(full, q2, avx512::zero_limit(total));
    running::before_plain_loop(full, q1, avx512::zero_wide_test(total), avx512::zero_wide_step());
    running::before_ops(full, p, avx512::zero_wide());
}

/// Clearing the product changes nothing else.
proof fn clearing_runs(
    fl: Floats,
    full: Seq<Ins>,
    p: Asm,
    total: i64,
    d: Data,
    caller: Data,
    c: Call,
) -> (t: Data)
    requires
        program::places_are_single(full),
        running::starts(full, avx512::clear_result(p, total)),
        matmul_run::is_valid(c),
        is_inside(d, caller, c),
        d.mem == caller.mem,
        total == 4 * (c.m * c.n),
    ensures
        machine::reaches(
            fl,
            full,
            running::behind(p, d),
            running::behind(avx512::clear_result(p, total), t),
        ),
        is_inside(t, caller, c),
        matmul_run::rest_is_untouched(t.mem, caller.mem, c),
{
    let q1 = p.emit(avx512::zero_wide());
    let q2 = running::plain_loop(q1, avx512::zero_wide_test(total), avx512::zero_wide_step());
    let q3 = q2.emit(avx512::zero_limit(total));
    let q4 = running::plain_loop(q3, avx512::zero_test(), avx512::zero_step());
    before_clearing(full, p, total);
    let start = running::behind(p, d);
    let d1 = clearing_is_started(fl, d, caller, c);
    running::loop_opens(fl, full, p, avx512::zero_wide(), d, d1);
    let (d2, n) = registers_are_cleared(fl, full, q1, total, d1, caller, c, 0);
    running::reaches_on(fl, full, start, running::behind(q1.begin(), d1), running::behind(q2, d2));
    let d3 = clearing_is_limited(fl, d2, caller, c, n, total);
    running::loop_opens(fl, full, q2, avx512::zero_limit(total), d2, d3);
    running::reaches_on(fl, full, start, running::behind(q2, d2), running::behind(q3.begin(), d3));
    let t = elements_are_cleared(fl, full, q3, d3, caller, c, n);
    running::reaches_on(fl, full, start, running::behind(q3.begin(), d3), running::behind(q4, t));
    t
}

/// The arguments are kept.
proof fn arguments_are_kept(fl: Floats, d: Data, caller: Data, c: Call, row: i64) -> (t: Data)
    requires
        is_called(d, c),
        running::in_frame(d, caller, avx512::saved()),
        running::has_room(caller, avx512::saved()),
        row == 4 * c.n,
    ensures
        running::goes_on(avx512::arguments(row)),
        t == machine::after_ops(fl, d, avx512::arguments(row), avx512::arguments(row).len()),
        is_inside(t, caller, c),
        t.mem == d.mem,
{
    reveal_with_fuel(machine::after_ops, 6);
    let ops = avx512::arguments(row);
    assert(ops[0] == sub_imm(Reg::Rsp, 64));
    assert(ops[1] == mov(Reg::R12, Reg::Rdi));
    assert(ops[2] == mov(Reg::R13, Reg::Rsi));
    assert(ops[3] == mov(Reg::R14, Reg::Rdx));
    assert(ops[4] == mov_imm(Reg::R15, row));
    steps::reg_is_reduced(fl, d, Reg::Rsp, 64);
    let d0 = steps::with_reg(d, Reg::Rsp, caller.reg(Reg::Rsp) - 112);
    steps::reg_is_set(fl, d0, Reg::R12, Reg::Rdi);
    let d1 = d0.put(Reg::R12, c.a);
    steps::reg_is_set(fl, d1, Reg::R13, Reg::Rsi);
    let d2 = d1.put(Reg::R13, c.b);
    steps::reg_is_set(fl, d2, Reg::R14, Reg::Rdx);
    let d3 = d2.put(Reg::R14, c.c);
    steps::reg_is_loaded(fl, d3, Reg::R15, row);
    d3.put(Reg::R15, row as int)
}

/// The dimensions are at hand.
proof fn dimensions_are_set(fl: Floats, d: Data, caller: Data, c: Call, m: u32, k: u32) -> (t:
    Data)
    requires
        is_inside(d, caller, c),
        m == c.m,
        k == c.k,
    ensures
        running::goes_on(avx512::dimensions(m, k)),
        t == machine::after_ops(fl, d, avx512::dimensions(m, k), avx512::dimensions(m, k).len()),
        is_before_row(t, caller, c, 0),
        t.mem == d.mem,
{
    reveal_with_fuel(machine::after_ops, 4);
    let ops = avx512::dimensions(m, k);
    assert(ops[0] == mov_imm32(Reg::R10d, m));
    steps::low_half_is_loaded(fl, d, Reg::R10d, m);
    let s1 = d.put(Reg::R10d, m as int);
    assert(ops[1] == mov_imm32(Reg::R11d, k));
    steps::low_half_is_loaded(fl, s1, Reg::R11d, k);
    let s2 = s1.put(Reg::R11d, k as int);
    assert(ops[2] == clear(Reg::Rdi));
    steps::reg_is_cleared(fl, s2, Reg::Rdi);
    let s3 = steps::with_reg(s2, Reg::Rdi, 0);
    s3
}

/// Success is reported, and the frame is as it was.
proof fn success_is_reported(fl: Floats, d: Data, caller: Data, c: Call) -> (t: Data)
    requires
        is_inside(d, caller, c),
        running::has_room(caller, avx512::saved()),
    ensures
        running::goes_on(avx512::succeed()),
        t == machine::after_ops(fl, d, avx512::succeed(), avx512::succeed().len()),
        running::in_frame(t, caller, avx512::saved()),
        t.mem == d.mem,
        t.reg(Reg::Rax) == 0,
{
    reveal_with_fuel(machine::after_ops, 4);
    let ops = avx512::succeed();
    assert(ops[0] == bare(BareOp::Vzeroall));
    let s1 = steps::registers_are_cleared(fl, d);
    assert(ops[1] == add_imm(Reg::Rsp, 64));
    steps::reg_is_advanced(fl, s1, Reg::Rsp, 64);
    let s2 = steps::with_reg(s1, Reg::Rsp, s1.reg(Reg::Rsp) + 64);
    assert(ops[2] == clear(Reg::Rax));
    steps::reg_is_cleared(fl, s2, Reg::Rax);
    let s3 = steps::with_reg(s2, Reg::Rax, 0);
    s3
}

/// Where all rows are finished, all elements are.
proof fn all_are_finished(
    fl: Floats,
    mem: spec_fn(int) -> u8,
    before: spec_fn(int) -> u8,
    c: Call,
    row: int,
    col: int,
)
    requires
        has_columns(fl, mem, before, c, c.m, 0),
        0 <= row < c.m,
        0 <= col < c.n,
    ensures
        matmul_run::entry(mem, c.c, row * c.n + col) == matmul_run::dot(
            fl,
            before,
            c,
            wide_columns(c.n),
            row,
            col,
            c.k,
        ),
{
    reveal(has_columns);
    matmul_run::place_is_inside(row, col, c.m, c.n);
    matmul_run::place_is_unique(row, col, c.n);
    let t = row * c.n + col;
    assert(matmul_run::entry(mem, c.c, t) == matmul_run::dot(
        fl,
        before,
        c,
        wide_columns(c.n),
        t / c.n,
        t % c.n,
        c.k,
    ));
}

/// A kernel for fixed dimensions computes the product and returns.
pub proof fn wide_kernel_computes(fl: Floats, d: Data, c: Call, m: usize, n: usize, k: usize) -> (t:
    Data)
    requires
        is_called(d, c),
        matmul_run::is_valid(c),
        dims_fit(c),
        c.m == m,
        c.n == n,
        c.k == k,
        running::has_room(d, avx512::saved()),
    ensures
        machine::reaches(
            fl,
            avx512::wide_kernel(m, n, k).lines,
            State { pc: 0, data: d },
            State { pc: machine::returned(), data: t },
        ),
        matmul_run::computes(fl, c, wide_columns(c.n), d, t),
{
    let full = avx512::wide_kernel(m, n, k).lines;
    let saved = avx512::saved();
    avx512::wide_kernel_is_sound(m, n, k);
    let row = avx512::row_bytes(n);
    let total = avx512::total_bytes(m, n);
    assert(0 <= c.m * c.n);
    assert(m * n * 4 == 4 * (c.m * c.n));
    assert(row == 4 * c.n);
    assert(total == 4 * (c.m * c.n));
    let p0 = Asm::empty();
    let e1 = p0.enter(saved);
    let p1 = e1.emit(avx512::arguments(row));
    let p2 = avx512::clear_result(p1, total);
    let dims = avx512::dimensions(m as u32, k as u32);
    let p3 = p2.emit(dims);
    let p4 = avx512::all_rows(p3, n);
    let p5 = p4.emit(avx512::succeed());
    running::all_start(p5.leave(saved));
    running::before_frame(full, p5, saved);
    running::before_ops(full, p4, avx512::succeed());
    before_rows(full, p3, n);
    running::before_ops(full, p2, dims);
    before_clearing(full, p1, total);
    running::before_ops(full, e1, avx512::arguments(row));
    let start = State { pc: 0, data: d };
    matmul_run::saved_can_be_saved();
    let d1 = running::frame_is_entered(fl, full, p0, saved, d);
    let d2 = arguments_are_kept(fl, d1, d, c, row);
    running::runs_ops(fl, full, start, e1, avx512::arguments(row), d1, d2);
    let d3 = clearing_runs(fl, full, p1, total, d2, d, c);
    running::reaches_on(fl, full, start, running::behind(p1, d2), running::behind(p2, d3));
    let d4 = dimensions_are_set(fl, d3, d, c, m as u32, k as u32);
    running::loop_opens(fl, full, p2, dims, d3, d4);
    running::reaches_on(fl, full, start, running::behind(p2, d3), running::behind(p3.begin(), d4));
    assert(has_columns(fl, d4.mem, d.mem, c, 0, 0)) by {
        reveal(has_columns);
    }
    let d5 = rows_run(fl, full, p3, n, d4, d, c, 0);
    running::reaches_on(fl, full, start, running::behind(p3.begin(), d4), running::behind(p4, d5));
    let d6 = success_is_reported(fl, d5, d, c);
    running::runs_ops(fl, full, start, p4, avx512::succeed(), d5, d6);
    let t = matmul_run::kernel_returns(fl, full, start, p5, d6, d);
    assert(matmul_run::rest_is_untouched(t.mem, d.mem, c)) by {
        reveal(has_columns);
    }
    assert forall|row: int, col: int|
        0 <= row < c.m && 0 <= col < c.n implies #[trigger] matmul_run::entry(
        t.mem,
        c.c,
        row * c.n + col,
    ) == matmul_run::dot(fl, d.mem, c, wide_columns(c.n), row, col, c.k) by {
        all_are_finished(fl, t.mem, d.mem, c, row, col);
    }
    t
}

/// The kernel that is compiled for given dimensions carries them, and a call of it on matrices of
/// whole numbers reports success and leaves their exact product, where no number, term or sum
/// leaves the limit up to which arithmetic on them is exact. Neither the other arguments of the
/// call nor what memory held in place of the product matter.
pub proof fn compiled_kernel_multiplies(
    fl: Floats,
    e: spec_fn(int) -> Seq<u8>,
    limit: int,
    kernel: CompiledKernel,
    m: usize,
    n: usize,
    k: usize,
    d: Data,
    c: Call,
    a: Seq<int>,
    b: Seq<int>,
) -> (t: Data)
    requires
        kernel::compiles(Some(kernel), avx512::wide_kernel(m, n, k), m, n, k),
        is_called(d, c),
        matmul_run::is_valid(c),
        dims_fit(c),
        c.m == m,
        c.n == n,
        c.k == k,
        running::has_room(d, avx512::saved()),
        matmul_run::is_exact(fl, e, limit),
        a.len() == m * k,
        b.len() == k * n,
        matmul_run::stores(e, d.mem, c.a, a),
        matmul_run::stores(e, d.mem, c.b, b),
        matmul_run::sums_stay_within(a, b, m as int, n as int, k as int, limit),
    ensures
        kernel.m == m,
        kernel.n == n,
        kernel.k == k,
        assembler::machine_code(
            lower::lines_of(avx512::wide_kernel(m, n, k).lines),
            lower::BASE_ADDRESS,
        ) == Some(kernel.code@),
        machine::reaches(
            fl,
            avx512::wide_kernel(m, n, k).lines,
            State { pc: 0, data: d },
            State { pc: machine::returned(), data: t },
        ),
        t.reg(Reg::Rax) == 0,
        forall|row: int, col: int|
            0 <= row < m && 0 <= col < n ==> #[trigger] matmul_run::entry(
                t.mem,
                c.c,
                row * n + col,
            ) == e(matmul_run::whole_sum(a, b, n as int, k as int, row, col, k as int)),
        matmul_run::rest_is_untouched(t.mem, d.mem, c),
{
    let t = wide_kernel_computes(fl, d, c, m, n, k);
    matmul_run::product_is_exact(fl, e, limit, c, wide_columns(c.n), d, t, a, b);
    t
}

} // verus!
