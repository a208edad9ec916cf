//! What the kernels of the matrix product compute.

use crate::x86_emitter::inst::{
    add_reg, at, fma, imul, mov, scalar, scale, Arith, Elem, Ins, Op, Reg,
};
use crate::x86_emitter::machine;
use crate::x86_emitter::machine::{Data, Floats, State};
use crate::x86_emitter::matmul;
use crate::x86_emitter::program;
use crate::x86_emitter::program::Asm;
use crate::x86_emitter::running;
use crate::x86_emitter::steps;
use vstd::prelude::*;

verus! {

/// What a kernel is called with: the addresses of the factors and the product, and the
/// dimensions.
pub struct Call {
    pub a: int,
    pub b: int,
    pub c: int,
    pub m: int,
    pub n: int,
    pub k: int,
}

/// The registers hold the arguments of a call.
pub open spec fn is_called(d: Data, c: Call) -> bool {
    &&& d.reg(Reg::Rdi) == c.a
    &&& d.reg(Reg::Rsi) == c.b
    &&& d.reg(Reg::Rdx) == c.c
    &&& d.reg(Reg::Rcx) == c.m
    &&& d.reg(Reg::R8) == c.n
    &&& d.reg(Reg::R9) == c.k
}

/// A matrix of `len` elements lies in the lower half of the addresses.
pub open spec fn is_addressable(at: int, len: int) -> bool {
    0 <= at < 0x4000_0000_0000_0000 && 0 <= len < 0x0800_0000_0000_0000
}

/// Two matrices share no memory.
pub open spec fn are_apart(x: int, x_len: int, y: int, y_len: int) -> bool {
    x + 4 * x_len <= y || y + 4 * y_len <= x
}

/// The matrices of a call can be addressed, and the product shares no memory with the factors.
pub open spec fn is_valid(c: Call) -> bool {
    &&& 0 <= c.m < 0x8000_0000_0000_0000
    &&& 0 <= c.n < 0x0800_0000_0000_0000
    &&& 0 <= c.k < 0x8000_0000_0000_0000
    &&& is_addressable(c.a, c.m * c.k)
    &&& is_addressable(c.b, c.k * c.n)
    &&& is_addressable(c.c, c.m * c.n)
    &&& are_apart(c.c, c.m * c.n, c.a, c.m * c.k)
    &&& are_apart(c.c, c.m * c.n, c.b, c.k * c.n)
}

/// Element `t` of a matrix.
pub open spec fn entry(mem: spec_fn(int) -> u8, at: int, t: int) -> Seq<u8> {
    machine::bytes(mem, at + 4 * t, 4)
}

/// An element of the product with one more term: rounded once where `fused`, else after the
/// multiplication and after the addition.
pub open spec fn with_term(fl: Floats, fused: bool, sum: Seq<u8>, x: Seq<u8>, y: Seq<u8>) -> Seq<
    u8,
> {
    if fused {
        machine::low((fl.fma)(x, y, sum), 4)
    } else {
        machine::low(
            (fl.arith)(
                Arith::Add,
                Elem::F32,
                sum,
                machine::low((fl.arith)(Arith::Mul, Elem::F32, y, x), 4),
            ),
            4,
        )
    }
}

/// The first `terms` terms of the element in a row and a column of the product, added up from
/// zero in their order. The columns below `wide` use fused terms.
pub open spec fn dot(
    fl: Floats,
    mem: spec_fn(int) -> u8,
    c: Call,
    wide: int,
    row: int,
    col: int,
    terms: int,
) -> Seq<u8>
    decreases terms,
{
    if terms <= 0 {
        machine::zeros(4)
    } else {
        with_term(
            fl,
            col < wide,
            dot(fl, mem, c, wide, row, col, terms - 1),
            entry(mem, c.a, row * c.k + terms - 1),
            entry(mem, c.b, (terms - 1) * c.n + col),
        )
    }
}

/// How many terms element `t` has where the work is at column `col` for term `term` of row `row`.
pub open spec fn progress(c: Call, row: int, term: int, col: int, t: int) -> int {
    if t < row * c.n {
        c.k
    } else if t < row * c.n + col {
        term + 1
    } else if t < row * c.n + c.n {
        term
    } else {
        0
    }
}

/// Memory outside of the product is as it was.
pub open spec fn rest_is_untouched(
    mem: spec_fn(int) -> u8,
    before: spec_fn(int) -> u8,
    c: Call,
) -> bool {
    forall|x: int|
        x < c.c || c.c + 4 * (c.m * c.n) <= x ==> #[trigger] mem(x) == before(x)
}

/// Every element of the product has the terms that it should have by now.
#[verifier::opaque]
pub open spec fn has_terms(
    fl: Floats,
    mem: spec_fn(int) -> u8,
    before: spec_fn(int) -> u8,
    c: Call,
    wide: int,
    row: int,
    term: int,
    col: int,
) -> bool {
    &&& rest_is_untouched(mem, before, c)
    &&& forall|t: int|
        0 <= t < c.m * c.n ==> #[trigger] entry(mem, c.c, t) == dot(
            fl,
            before,
            c,
            wide,
            t / c.n,
            t % c.n,
            progress(c, row, term, col, t),
        )
}

/// An element of a matrix stands among its elements.
pub(crate) proof fn place_is_inside(row: int, col: int, rows: int, cols: int)
    by (nonlinear_arith)
    requires
        0 <= row < rows,
        0 <= col < cols,
    ensures
        0 <= row * cols,
        row * cols + cols <= rows * cols,
        0 <= row * cols + col < rows * cols,
{
}

/// Row and column of an element.
pub(crate) proof fn place_is_unique(row: int, col: int, cols: int)
    requires
        0 <= row,
        0 <= col < cols,
    ensures
        (row * cols + col) / cols == row,
        (row * cols + col) % cols == col,
{
    vstd::arithmetic::div_mod::lemma_fundamental_div_mod_converse(
        row * cols + col,
        cols,
        row,
        col,
    );
}

/// The factors are as they were.
pub(crate) proof fn factors_are_untouched(
    fl: Floats,
    mem: spec_fn(int) -> u8,
    before: spec_fn(int) -> u8,
    c: Call,
    wide: int,
    row: int,
    term: int,
    col: int,
    t: int,
)
    requires
        is_valid(c),
        has_terms(fl, mem, before, c, wide, row, term, col),
    ensures
        0 <= t < c.m * c.k ==> entry(mem, c.a, t) == entry(before, c.a, t),
        0 <= t < c.k * c.n ==> entry(mem, c.b, t) == entry(before, c.b, t),
{
    reveal(has_terms);
    if 0 <= t < c.m * c.k {
        assert(entry(mem, c.a, t) =~= entry(before, c.a, t));
    }
    if 0 <= t < c.k * c.n {
        assert(entry(mem, c.b, t) =~= entry(before, c.b, t));
    }
}

/// Putting one element into a matrix leaves the others.
pub(crate) proof fn entry_is_put(mem: spec_fn(int) -> u8, at: int, t: int, v: Seq<u8>, u: int)
    requires
        v.len() == 4,
    ensures
        entry(machine::with_bytes(mem, at + 4 * t, v), at, u) == if u == t {
            v
        } else {
            entry(mem, at, u)
        },
{
    let after = machine::with_bytes(mem, at + 4 * t, v);
    if u == t {
        assert(entry(after, at, u) =~= v);
    } else {
        assert(entry(after, at, u) =~= entry(mem, at, u));
    }
}

/// Putting the next term into the product.
pub(crate) proof fn term_is_put(
    fl: Floats,
    mem: spec_fn(int) -> u8,
    before: spec_fn(int) -> u8,
    c: Call,
    wide: int,
    row: int,
    term: int,
    col: int,
    v: Seq<u8>,
)
    requires
        is_valid(c),
        has_terms(fl, mem, before, c, wide, row, term, col),
        0 <= row < c.m,
        0 <= term < c.k,
        0 <= col < c.n,
        v == with_term(
            fl,
            col < wide,
            entry(mem, c.c, row * c.n + col),
            entry(before, c.a, row * c.k + term),
            entry(before, c.b, term * c.n + col),
        ),
    ensures
        has_terms(
            fl,
            machine::with_bytes(mem, c.c + 4 * (row * c.n + col), v),
            before,
            c,
            wide,
            row,
            term,
            col + 1,
        ),
{
    reveal(has_terms);
    let here = row * c.n + col;
    let after = machine::with_bytes(mem, c.c + 4 * here, v);
    place_is_inside(row, col, c.m, c.n);
    place_is_unique(row, col, c.n);
    assert(v.len() == 4);
    assert forall|t: int| 0 <= t < c.m * c.n implies #[trigger] entry(after, c.c, t) == dot(
        fl,
        before,
        c,
        wide,
        t / c.n,
        t % c.n,
        progress(c, row, term, col + 1, t),
    ) by {
        entry_is_put(mem, c.c, here, v, t);
        let old = entry(mem, c.c, t);
        if t == here {
            assert(progress(c, row, term, col, t) == term);
            assert(progress(c, row, term, col + 1, t) == term + 1);
        }
    }
    assert forall|x: int| x < c.c || c.c + 4 * (c.m * c.n) <= x implies #[trigger] after(x)
        == before(x) by {
        let old = mem(x);
    }
}

/// The end of a row of terms is the start of the next.
pub(crate) proof fn next_term(
    fl: Floats,
    mem: spec_fn(int) -> u8,
    before: spec_fn(int) -> u8,
    c: Call,
    wide: int,
    row: int,
    term: int,
)
    requires
        has_terms(fl, mem, before, c, wide, row, term, c.n),
    ensures
        has_terms(fl, mem, before, c, wide, row, term + 1, 0),
{
    reveal(has_terms);
    assert forall|t: int| 0 <= t < c.m * c.n implies #[trigger] entry(mem, c.c, t) == dot(
        fl,
        before,
        c,
        wide,
        t / c.n,
        t % c.n,
        progress(c, row, term + 1, 0, t),
    ) by {
        assert(progress(c, row, term, c.n, t) == progress(c, row, term + 1, 0, t));
    }
}

/// The last term of a row is the start of the next row.
pub(crate) proof fn next_row(
    fl: Floats,
    mem: spec_fn(int) -> u8,
    before: spec_fn(int) -> u8,
    c: Call,
    wide: int,
    row: int,
)
    requires
        0 <= c.n,
        has_terms(fl, mem, before, c, wide, row, c.k, 0),
    ensures
        has_terms(fl, mem, before, c, wide, row + 1, 0, 0),
{
    reveal(has_terms);
    assert((row + 1) * c.n == row * c.n + c.n) by (nonlinear_arith);
    assert forall|t: int| 0 <= t < c.m * c.n implies #[trigger] entry(mem, c.c, t) == dot(
        fl,
        before,
        c,
        wide,
        t / c.n,
        t % c.n,
        progress(c, row + 1, 0, 0, t),
    ) by {
        assert(progress(c, row, c.k, 0, t) == progress(c, row + 1, 0, 0, t));
    }
}

/// The data with an address in `rax`.
pub open spec fn with_address(d: Data, at: int) -> Data {
    Data { gpr: d.gpr.insert(Reg::Rax, at), less: None, ..d }
}

/// A product in `rax` that stays in range.
pub(crate) proof fn rax_is_multiplied(fl: Floats, d: Data, op: Op, r: Reg)
    requires
        op == imul(Reg::Rax, r),
        -0x8000_0000_0000_0000 <= d.reg(Reg::Rax) * d.reg(r) < 0x8000_0000_0000_0000,
    ensures
        machine::after_op(fl, d, op) == with_address(d, d.reg(Reg::Rax) * d.reg(r)),
{
    reveal(machine::after_op);
}

/// A sum in `rax` that stays in range.
pub(crate) proof fn rax_is_increased(fl: Floats, d: Data, op: Op, r: Reg)
    requires
        op == add_reg(Reg::Rax, r),
        -0x8000_0000_0000_0000 <= d.reg(Reg::Rax) + d.reg(r) < 0x8000_0000_0000_0000,
    ensures
        machine::after_op(fl, d, op) == with_address(d, d.reg(Reg::Rax) + d.reg(r)),
{
    reveal(machine::after_op);
}

/// A number of bytes in `rax` that stays in range.
pub(crate) proof fn rax_is_scaled(fl: Floats, d: Data, op: Op)
    requires
        op == scale(Reg::Rax, Elem::F32),
        -0x8000_0000_0000_0000 <= d.reg(Reg::Rax) * 4 < 0x8000_0000_0000_0000,
    ensures
        machine::after_op(fl, d, op) == with_address(d, d.reg(Reg::Rax) * 4),
{
    reveal(machine::after_op);
}

/// The operations that compute the address of an element.
proof fn element_pieces(row: Reg, width: Reg, col: Reg, base: Reg)
    ensures
        ({
            let ops = matmul::element(row, width, col, base);
            &&& ops.len() == 5
            &&& ops[0] == mov(Reg::Rax, row)
            &&& ops[1] == imul(Reg::Rax, width)
            &&& ops[2] == add_reg(Reg::Rax, col)
            &&& ops[3] == scale(Reg::Rax, Elem::F32)
            &&& ops[4] == add_reg(Reg::Rax, base)
            &&& running::goes_on(ops)
        }),
{
}

/// A copy in `rax`.
pub(crate) proof fn rax_is_set(fl: Floats, d: Data, op: Op, r: Reg)
    requires
        op == mov(Reg::Rax, r),
    ensures
        machine::after_op(fl, d, op) == d.put(Reg::Rax, d.reg(r)),
{
    reveal(machine::after_op);
}

proof fn element_address(fl: Floats, d: Data, ops: Seq<Op>, row: Reg, width: Reg, col: Reg, base: Reg)
    requires
        ops.len() == 5,
        ops[0] == mov(Reg::Rax, row),
        ops[1] == imul(Reg::Rax, width),
        ops[2] == add_reg(Reg::Rax, col),
        ops[3] == scale(Reg::Rax, Elem::F32),
        ops[4] == add_reg(Reg::Rax, base),
        machine::whole(width) != Reg::Rax,
        machine::whole(col) != Reg::Rax,
        machine::whole(base) != Reg::Rax,
        0 <= d.reg(row) * d.reg(width) < 0x0800_0000_0000_0000,
        0 <= d.reg(col) < 0x0800_0000_0000_0000,
        0 <= d.reg(base) < 0x4000_0000_0000_0000,
    ensures
        machine::after_ops(fl, d, ops, 5) == with_address(
            d,
            d.reg(base) + 4 * (d.reg(row) * d.reg(width) + d.reg(col)),
        ),
{
    let x1 = d.reg(row) * d.reg(width);
    let x2 = x1 + d.reg(col);
    let x3 = x2 * 4;
    let x4 = x3 + d.reg(base);
    let d0 = d.put(Reg::Rax, d.reg(row));
    let d1 = with_address(d0, x1);
    let d2 = with_address(d1, x2);
    let d3 = with_address(d2, x3);
    let d4 = with_address(d3, x4);
    rax_is_set(fl, d, ops[0], row);
    rax_is_multiplied(fl, d0, ops[1], width);
    rax_is_increased(fl, d1, ops[2], col);
    rax_is_scaled(fl, d2, ops[3]);
    rax_is_increased(fl, d3, ops[4], base);
    running::five_ops(fl, d, ops, seq![d0, d1, d2, d3, d4]);
    assert(d4.gpr =~= d.gpr.insert(Reg::Rax, x4));
}

/// The address of an element is computed.
pub(crate) proof fn element_is_addressed(fl: Floats, d: Data, row: Reg, width: Reg, col: Reg, base: Reg) -> (t:
    Data)
    requires
        machine::whole(width) != Reg::Rax,
        machine::whole(col) != Reg::Rax,
        machine::whole(base) != Reg::Rax,
        0 <= d.reg(row) * d.reg(width) < 0x0800_0000_0000_0000,
        0 <= d.reg(col) < 0x0800_0000_0000_0000,
        0 <= d.reg(base) < 0x4000_0000_0000_0000,
    ensures
        running::goes_on(matmul::element(row, width, col, base)),
        t == machine::after_ops(
            fl,
            d,
            matmul::element(row, width, col, base),
            matmul::element(row, width, col, base).len(),
        ),
        t == with_address(
            d,
            d.reg(base) + 4 * (d.reg(row) * d.reg(width) + d.reg(col)),
        ),
{
    let ops = matmul::element(row, width, col, base);
    element_pieces(row, width, col, base);
    element_address(fl, d, ops, row, width, col, base);
    machine::after_ops(fl, d, ops, 5)
}

/// The data with a single element in the low part of a vector register.
pub open spec fn with_low(d: Data, r: Reg, b: Seq<u8>) -> Data {
    d.put_wide(r, machine::low_replaced(d.wide(r), b, 16))
}

/// The element at `rax` is loaded.
pub(crate) proof fn element_is_loaded(fl: Floats, d: Data, r: Reg) -> (t: Data)
    requires
        0 <= d.reg(Reg::Rax) < 0x7000_0000_0000_0000,
    ensures
        running::goes_on(matmul::load_low(r)),
        t == machine::after_ops(fl, d, matmul::load_low(r), matmul::load_low(r).len()),
        t == with_low(d, r, machine::bytes(d.mem, d.reg(Reg::Rax), 4)),
        machine::lane(t.wide(r), Elem::F32, 0) == machine::bytes(d.mem, d.reg(Reg::Rax), 4),
{
    reveal_with_fuel(machine::after_ops, 2);
    reveal(machine::after_op);
    let t = machine::after_ops(fl, d, matmul::load_low(r), 1);
    assert(machine::lane(t.wide(r), Elem::F32, 0) =~= machine::bytes(d.mem, d.reg(Reg::Rax), 4));
    t
}

/// The element is stored at `rax`.
pub(crate) proof fn element_is_stored(fl: Floats, d: Data, r: Reg) -> (t: Data)
    requires
        0 <= d.reg(Reg::Rax) < 0x7000_0000_0000_0000,
    ensures
        running::goes_on(matmul::store_low(r)),
        t == machine::after_ops(fl, d, matmul::store_low(r), matmul::store_low(r).len()),
        t == d.put_bytes(d.reg(Reg::Rax), machine::lane(d.wide(r), Elem::F32, 0)),
{
    reveal_with_fuel(machine::after_ops, 2);
    reveal(machine::after_op);
    assert(machine::low(d.wide(r), 4) =~= machine::lane(d.wide(r), Elem::F32, 0));
    machine::after_ops(fl, d, matmul::store_low(r), 1)
}

/// A product is added to the sum in the second vector register.
pub(crate) proof fn product_is_added(fl: Floats, d: Data) -> (t: Data)
    ensures
        running::goes_on(matmul::multiply_add()),
        t == machine::after_ops(fl, d, matmul::multiply_add(), matmul::multiply_add().len()),
        t.gpr == d.gpr,
        t.mem == d.mem,
        t.stack == d.stack,
        t.wide(Reg::Xmm0) == d.wide(Reg::Xmm0),
        machine::lane(t.wide(Reg::Xmm1), Elem::F32, 0) == with_term(
            fl,
            false,
            machine::lane(d.wide(Reg::Xmm1), Elem::F32, 0),
            machine::lane(d.wide(Reg::Xmm0), Elem::F32, 0),
            machine::lane(d.wide(Reg::Xmm2), Elem::F32, 0),
        ),
{
    reveal_with_fuel(machine::after_ops, 3);
    let ops = matmul::multiply_add();
    assert(ops[0] == scalar(Arith::Mul, Elem::F32, Reg::Xmm2, Reg::Xmm0));
    let s1 = steps::scalar_is_applied(fl, d, Arith::Mul, Reg::Xmm2, Reg::Xmm0);
    assert(ops[1] == scalar(Arith::Add, Elem::F32, Reg::Xmm1, Reg::Xmm2));
    let s2 = steps::scalar_is_applied(fl, s1, Arith::Add, Reg::Xmm1, Reg::Xmm2);
    assert(s1.wide(Reg::Xmm1) == d.wide(Reg::Xmm1));
    assert(s2.wide(Reg::Xmm0) == s1.wide(Reg::Xmm0));
    s2
}

/// A counter starts at zero.
pub(crate) proof fn counter_is_started(fl: Floats, d: Data, r: Reg) -> (t: Data)
    ensures
        running::goes_on(matmul::start(r)),
        t == machine::after_ops(fl, d, matmul::start(r), matmul::start(r).len()),
        t == (Data { gpr: d.gpr.insert(machine::whole(r), 0), less: None, ..d }),
{
    reveal_with_fuel(machine::after_ops, 2);
    reveal(machine::after_op);
    machine::after_ops(fl, d, matmul::start(r), 1)
}

/// A counter goes on.
pub(crate) proof fn counter_is_advanced(fl: Floats, d: Data, r: Reg, by: i32) -> (t: Data)
    requires
        0 <= d.reg(r) + by < 0x8000_0000_0000_0000,
    ensures
        running::goes_on(matmul::step(r, by)),
        t == machine::after_ops(fl, d, matmul::step(r, by), matmul::step(r, by).len()),
        t == (Data { gpr: d.gpr.insert(machine::whole(r), d.reg(r) + by), less: None, ..d }),
{
    reveal_with_fuel(machine::after_ops, 2);
    reveal(machine::after_op);
    machine::after_ops(fl, d, matmul::step(r, by), 1)
}

/// A counter is compared with its limit.
pub(crate) proof fn counter_is_tested(fl: Floats, d: Data, r: Reg, limit: Reg) -> (t: Data)
    ensures
        running::goes_on(matmul::test(r, limit)),
        t == machine::after_ops(fl, d, matmul::test(r, limit), matmul::test(r, limit).len()),
        t == (Data { less: Some(d.reg(r) < d.reg(limit)), ..d }),
{
    reveal_with_fuel(machine::after_ops, 2);
    reveal(machine::after_op);
    machine::after_ops(fl, d, matmul::test(r, limit), 1)
}

/// The registers inside a kernel: the dimensions and the addresses.
pub open spec fn is_inside(d: Data, caller: Data, c: Call) -> bool {
    &&& d.reg(Reg::R10) == c.m
    &&& d.reg(Reg::R11) == c.k
    &&& d.reg(Reg::R12) == c.a
    &&& d.reg(Reg::R13) == c.b
    &&& d.reg(Reg::R14) == c.c
    &&& d.reg(Reg::R15) == c.n
    &&& running::in_frame(d, caller, matmul::saved())
}

/// The work is at a column for a term of a row, with the element of the first factor at hand.
pub open spec fn is_at(d: Data, caller: Data, c: Call, row: int, term: int, col: int) -> bool {
    &&& is_inside(d, caller, c)
    &&& d.reg(Reg::Rdi) == row
    &&& d.reg(Reg::R9) == term
    &&& d.reg(Reg::R8) == col
    &&& 0 <= row < c.m
    &&& 0 <= term < c.k
    &&& 0 <= col <= c.n
    &&& machine::lane(d.wide(Reg::Xmm0), Elem::F32, 0) == entry(caller.mem, c.a, row * c.k + term)
}

/// The pieces of the loop over columns stand where they were built.
proof fn columns_start(full: Seq<Ins>, p: Asm)
    requires
        running::starts(full, matmul::add_row_each(p)),
    ensures
        ({
            let q1 = p.emit(matmul::start(Reg::R8));
            let q3 = q1.begin().emit(matmul::test(Reg::R8, Reg::R15));
            let q5 = q3.exit_if_ge().emit(
                matmul::element(Reg::Rdi, Reg::R15, Reg::R8, Reg::R14),
            );
            let q6 = q5.emit(matmul::load_low(Reg::Xmm1));
            let q7 = q6.emit(matmul::element(Reg::R9, Reg::R15, Reg::R8, Reg::R13));
            let q8 = q7.emit(matmul::load_low(Reg::Xmm2));
            let q9 = q8.emit(matmul::multiply_add());
            let q10 = q9.emit(matmul::element(Reg::Rdi, Reg::R15, Reg::R8, Reg::R14));
            let q11 = q10.emit(matmul::store_low(Reg::Xmm1));
            let q12 = q11.emit(matmul::step(Reg::R8, 1));
            &&& running::starts(full, p)
            &&& running::starts(full, q1)
            &&& running::starts(full, q1.begin())
            &&& running::starts(full, q3)
            &&& running::starts(full, q3.exit_if_ge())
            &&& running::starts(full, q5)
            &&& running::starts(full, q6)
            &&& running::starts(full, q7)
            &&& running::starts(full, q8)
            &&& running::starts(full, q9)
            &&& running::starts(full, q10)
            &&& running::starts(full, q11)
            &&& running::starts(full, q12)
            &&& running::starts(full, q12.end())
            &&& q12.open == q1.begin().open
            &&& q3.open == q1.begin().open
        }),
{
    let q1 = p.emit(matmul::start(Reg::R8));
    let q2 = q1.begin();
    let q3 = q2.emit(matmul::test(Reg::R8, Reg::R15));
    let q4 = q3.exit_if_ge();
    let q5 = q4.emit(matmul::element(Reg::Rdi, Reg::R15, Reg::R8, Reg::R14));
    let q6 = q5.emit(matmul::load_low(Reg::Xmm1));
    let q7 = q6.emit(matmul::element(Reg::R9, Reg::R15, Reg::R8, Reg::R13));
    let q8 = q7.emit(matmul::load_low(Reg::Xmm2));
    let q9 = q8.emit(matmul::multiply_add());
    let q10 = q9.emit(matmul::element(Reg::Rdi, Reg::R15, Reg::R8, Reg::R14));
    let q11 = q10.emit(matmul::store_low(Reg::Xmm1));
    let q12 = q11.emit(matmul::step(Reg::R8, 1));
    running::before_loop(full, q12);
    running::before_ops(full, q11, matmul::step(Reg::R8, 1));
    running::before_ops(full, q10, matmul::store_low(Reg::Xmm1));
    running::before_ops(full, q9, matmul::element(Reg::Rdi, Reg::R15, Reg::R8, Reg::R14));
    running::before_ops(full, q8, matmul::multiply_add());
    running::before_ops(full, q7, matmul::load_low(Reg::Xmm2));
    running::before_ops(full, q6, matmul::element(Reg::R9, Reg::R15, Reg::R8, Reg::R13));
    running::before_ops(full, q5, matmul::load_low(Reg::Xmm1));
    running::before_ops(full, q4, matmul::element(Reg::Rdi, Reg::R15, Reg::R8, Reg::R14));
    running::before_loop(full, q3);
    running::before_ops(full, q2, matmul::test(Reg::R8, Reg::R15));
    running::before_loop(full, q1);
    running::before_ops(full, p, matmul::start(Reg::R8));
}

/// One round of the loop over columns adds one term to one element.
proof fn column_round(
    fl: Floats,
    full: Seq<Ins>,
    p: Asm,
    d: Data,
    caller: Data,
    c: Call,
    row: int,
    term: int,
    col: int,
) -> (t: Data)
    requires
        program::places_are_single(full),
        running::starts(full, matmul::add_row_each(p)),
        is_valid(c),
        is_at(d, caller, c, row, term, col),
        col < c.n,
        has_terms(fl, d.mem, caller.mem, c, 0, row, term, col),
    ensures
        machine::reaches(
            fl,
            full,
            running::behind(p.emit(matmul::start(Reg::R8)).begin(), d),
            running::behind(p.emit(matmul::start(Reg::R8)).begin(), t),
        ),
        is_at(t, caller, c, row, term, col + 1),
        has_terms(fl, t.mem, caller.mem, c, 0, row, term, col + 1),
{
    let q1 = p.emit(matmul::start(Reg::R8));
    let q2 = q1.begin();
    let q3 = q2.emit(matmul::test(Reg::R8, Reg::R15));
    let q4 = q3.exit_if_ge();
    let target = matmul::element(Reg::Rdi, Reg::R15, Reg::R8, Reg::R14);
    let factor = matmul::element(Reg::R9, Reg::R15, Reg::R8, Reg::R13);
    let q5 = q4.emit(target);
    let q6 = q5.emit(matmul::load_low(Reg::Xmm1));
    let q7 = q6.emit(factor);
    let q8 = q7.emit(matmul::load_low(Reg::Xmm2));
    let q9 = q8.emit(matmul::multiply_add());
    let q10 = q9.emit(target);
    let q11 = q10.emit(matmul::store_low(Reg::Xmm1));
    let q12 = q11.emit(matmul::step(Reg::R8, 1));
    columns_start(full, p);
    place_is_inside(row, col, c.m, c.n);
    place_is_inside(term, col, c.k, c.n);
    place_is_inside(row, term, c.m, c.k);
    factors_are_untouched(fl, d.mem, caller.mem, c, 0, row, term, col, term * c.n + col);
    let start = running::behind(q2, d);
    running::reaches_itself(fl, full, start);
    let d1 = counter_is_tested(fl, d, Reg::R8, Reg::R15);
    running::runs_ops(fl, full, start, q2, matmul::test(Reg::R8, Reg::R15), d, d1);
    running::loop_goes_on(fl, full, q3, d1);
    running::reaches_on(fl, full, start, running::behind(q3, d1), running::behind(q4, d1));
    let d2 = element_is_addressed(fl, d1, Reg::Rdi, Reg::R15, Reg::R8, Reg::R14);
    running::runs_ops(fl, full, start, q4, target, d1, d2);
    let d3 = element_is_loaded(fl, d2, Reg::Xmm1);
    running::runs_ops(fl, full, start, q5, matmul::load_low(Reg::Xmm1), d2, d3);
    let d4 = element_is_addressed(fl, d3, Reg::R9, Reg::R15, Reg::R8, Reg::R13);
    running::runs_ops(fl, full, start, q6, factor, d3, d4);
    let d5 = element_is_loaded(fl, d4, Reg::Xmm2);
    running::runs_ops(fl, full, start, q7, matmul::load_low(Reg::Xmm2), d4, d5);
    let d6 = product_is_added(fl, d5);
    running::runs_ops(fl, full, start, q8, matmul::multiply_add(), d5, d6);
    let d7 = element_is_addressed(fl, d6, Reg::Rdi, Reg::R15, Reg::R8, Reg::R14);
    running::runs_ops(fl, full, start, q9, target, d6, d7);
    let d8 = element_is_stored(fl, d7, Reg::Xmm1);
    running::runs_ops(fl, full, start, q10, matmul::store_low(Reg::Xmm1), d7, d8);
    let d9 = counter_is_advanced(fl, d8, Reg::R8, 1);
    running::runs_ops(fl, full, start, q11, matmul::step(Reg::R8, 1), d8, d9);
    running::loop_goes_back(fl, full, q1, q12, d9);
    running::reaches_on(fl, full, start, running::behind(q12, d9), running::behind(q2, d9));
    let v = machine::lane(d7.wide(Reg::Xmm1), Elem::F32, 0);
    term_is_put(fl, d.mem, caller.mem, c, 0, row, term, col, v);
    d9
}

/// The loop over columns adds one term to every element of a row that is left.
proof fn columns_run(
    fl: Floats,
    full: Seq<Ins>,
    p: Asm,
    d: Data,
    caller: Data,
    c: Call,
    row: int,
    term: int,
    col: int,
) -> (t: Data)
    requires
        program::places_are_single(full),
        running::starts(full, matmul::add_row_each(p)),
        is_valid(c),
        is_at(d, caller, c, row, term, col),
        has_terms(fl, d.mem, caller.mem, c, 0, row, term, col),
    ensures
        machine::reaches(
            fl,
            full,
            running::behind(p.emit(matmul::start(Reg::R8)).begin(), d),
            running::behind(matmul::add_row_each(p), t),
        ),
        is_at(t, caller, c, row, term, c.n),
        has_terms(fl, t.mem, caller.mem, c, 0, row, term, c.n),
    decreases c.n - col,
{
    let q1 = p.emit(matmul::start(Reg::R8));
    let q2 = q1.begin();
    let start = running::behind(q2, d);
    if col == c.n {
        let q3 = q2.emit(matmul::test(Reg::R8, Reg::R15));
        let target = matmul::element(Reg::Rdi, Reg::R15, Reg::R8, Reg::R14);
        let q12 = q3.exit_if_ge().emit(target).emit(matmul::load_low(Reg::Xmm1)).emit(
            matmul::element(Reg::R9, Reg::R15, Reg::R8, Reg::R13),
        ).emit(matmul::load_low(Reg::Xmm2)).emit(matmul::multiply_add()).emit(target).emit(
            matmul::store_low(Reg::Xmm1),
        ).emit(matmul::step(Reg::R8, 1));
        columns_start(full, p);
        running::reaches_itself(fl, full, start);
        let t = counter_is_tested(fl, d, Reg::R8, Reg::R15);
        running::runs_ops(fl, full, start, q2, matmul::test(Reg::R8, Reg::R15), d, t);
        running::loop_is_left(fl, full, q3, q12, t);
        running::reaches_on(
            fl,
            full,
            start,
            running::behind(q3, t),
            running::behind(q12.end(), t),
        );
        t
    } else {
        let next = column_round(fl, full, p, d, caller, c, row, term, col);
        let t = columns_run(fl, full, p, next, caller, c, row, term, col + 1);
        running::reaches_on(
            fl,
            full,
            start,
            running::behind(q2, next),
            running::behind(matmul::add_row_each(p), t),
        );
        t
    }
}

/// The work is at a term of a row.
pub open spec fn is_at_term(d: Data, caller: Data, c: Call, row: int, term: int) -> bool {
    &&& is_inside(d, caller, c)
    &&& d.reg(Reg::Rdi) == row
    &&& d.reg(Reg::R9) == term
    &&& 0 <= row < c.m
    &&& 0 <= term <= c.k
}

/// What stands in front of the loop over terms.
pub open spec fn terms_head(p: Asm) -> Asm {
    p.emit(matmul::start(Reg::Rdi)).begin().emit(matmul::test(Reg::Rdi, Reg::R10)).exit_if_ge().emit(
        matmul::start(Reg::R9),
    )
}

/// What stands in front of the loop over columns.
pub open spec fn columns_head(p: Asm) -> Asm {
    terms_head(p).begin().emit(matmul::test(Reg::R9, Reg::R11)).exit_if_ge().emit(
        matmul::element(Reg::Rdi, Reg::R11, Reg::R9, Reg::R12),
    ).emit(matmul::load_low(Reg::Xmm0))
}

/// What stands in front of the end of the loop over terms.
pub open spec fn terms_tail(p: Asm) -> Asm {
    matmul::add_row_each(columns_head(p)).emit(matmul::step(Reg::R9, 1))
}

/// The pieces of the loops over rows and terms stand where they were built.
proof fn rows_start(full: Seq<Ins>, p: Asm)
    requires
        running::starts(full, matmul::multiply_each(p)),
    ensures
        ({
            let q1 = p.emit(matmul::start(Reg::Rdi));
            let q3 = q1.begin().emit(matmul::test(Reg::Rdi, Reg::R10));
            let r1 = terms_head(p);
            let r3 = r1.begin().emit(matmul::test(Reg::R9, Reg::R11));
            let r4 = r3.exit_if_ge();
            let r5 = r4.emit(matmul::element(Reg::Rdi, Reg::R11, Reg::R9, Reg::R12));
            let r6 = columns_head(p);
            let r7 = terms_tail(p);
            let q5 = r7.end().emit(matmul::step(Reg::Rdi, 1));
            &&& running::starts(full, p)
            &&& running::starts(full, q1)
            &&& running::starts(full, q1.begin())
            &&& running::starts(full, q3)
            &&& running::starts(full, q3.exit_if_ge())
            &&& running::starts(full, r1)
            &&& running::starts(full, r1.begin())
            &&& running::starts(full, r3)
            &&& running::starts(full, r4)
            &&& running::starts(full, r5)
            &&& running::starts(full, r6)
            &&& running::starts(full, matmul::add_row_each(r6))
            &&& running::starts(full, r7)
            &&& running::starts(full, r7.end())
            &&& running::starts(full, q5)
            &&& running::starts(full, q5.end())
            &&& r7.open == r1.begin().open
            &&& r3.open == r1.begin().open
            &&& q5.open == q1.begin().open
            &&& q3.open == q1.begin().open
            &&& q5.end() == matmul::multiply_each(p)
        }),
{
    let q1 = p.emit(matmul::start(Reg::Rdi));
    let q2 = q1.begin();
    let q3 = q2.emit(matmul::test(Reg::Rdi, Reg::R10));
    let q4 = q3.exit_if_ge();
    let r1 = terms_head(p);
    let r2 = r1.begin();
    let r3 = r2.emit(matmul::test(Reg::R9, Reg::R11));
    let r4 = r3.exit_if_ge();
    let r5 = r4.emit(matmul::element(Reg::Rdi, Reg::R11, Reg::R9, Reg::R12));
    let r6 = columns_head(p);
    let r7 = terms_tail(p);
    let q5 = r7.end().emit(matmul::step(Reg::Rdi, 1));
    running::before_loop(full, q5);
    running::before_ops(full, r7.end(), matmul::step(Reg::Rdi, 1));
    running::before_loop(full, r7);
    running::before_ops(full, matmul::add_row_each(r6), matmul::step(Reg::R9, 1));
    columns_start(full, r6);
    running::before_ops(full, r5, matmul::load_low(Reg::Xmm0));
    running::before_ops(full, r4, matmul::element(Reg::Rdi, Reg::R11, Reg::R9, Reg::R12));
    running::before_loop(full, r3);
    running::before_ops(full, r2, matmul::test(Reg::R9, Reg::R11));
    running::before_loop(full, r1);
    running::before_ops(full, q4, matmul::start(Reg::R9));
    running::before_loop(full, q3);
    running::before_ops(full, q2, matmul::test(Reg::Rdi, Reg::R10));
    running::before_loop(full, q1);
    running::before_ops(full, p, matmul::start(Reg::Rdi));
    columns_keep_open(r6);
    assert(r2.open.drop_last() =~= q2.open);
}

/// The loop over columns leaves no loop open.
proof fn columns_keep_open(p: Asm)
    ensures
        matmul::add_row_each(p).open == p.open,
{
    assert(matmul::add_row_each(p).open =~= p.open);
}

/// One round of the loop over terms adds one term to every element of a row.
proof fn term_round(
    fl: Floats,
    full: Seq<Ins>,
    p: Asm,
    d: Data,
    caller: Data,
    c: Call,
    row: int,
    term: int,
) -> (t: Data)
    requires
        program::places_are_single(full),
        running::starts(full, matmul::multiply_each(p)),
        is_valid(c),
        is_at_term(d, caller, c, row, term),
        term < c.k,
        has_terms(fl, d.mem, caller.mem, c, 0, row, term, 0),
    ensures
        machine::reaches(
            fl,
            full,
            running::behind(terms_head(p).begin(), d),
            running::behind(terms_head(p).begin(), t),
        ),
        is_at_term(t, caller, c, row, term + 1),
        has_terms(fl, t.mem, caller.mem, c, 0, row, term + 1, 0),
{
    let r1 = terms_head(p);
    let r2 = r1.begin();
    let r3 = r2.emit(matmul::test(Reg::R9, Reg::R11));
    let r4 = r3.exit_if_ge();
    let source = matmul::element(Reg::Rdi, Reg::R11, Reg::R9, Reg::R12);
    let r5 = r4.emit(source);
    let r6 = columns_head(p);
    let r7 = terms_tail(p);
    let s1 = r6.emit(matmul::start(Reg::R8));
    rows_start(full, p);
    columns_start(full, r6);
    place_is_inside(row, term, c.m, c.k);
    factors_are_untouched(fl, d.mem, caller.mem, c, 0, row, term, 0, row * c.k + term);
    let start = running::behind(r2, d);
    running::reaches_itself(fl, full, start);
    let d1 = counter_is_tested(fl, d, Reg::R9, Reg::R11);
    running::runs_ops(fl, full, start, r2, matmul::test(Reg::R9, Reg::R11), d, d1);
    running::loop_goes_on(fl, full, r3, d1);
    running::reaches_on(fl, full, start, running::behind(r3, d1), running::behind(r4, d1));
    let d2 = element_is_addressed(fl, d1, Reg::Rdi, Reg::R11, Reg::R9, Reg::R12);
    running::runs_ops(fl, full, start, r4, source, d1, d2);
    let d3 = element_is_loaded(fl, d2, Reg::Xmm0);
    running::runs_ops(fl, full, start, r5, matmul::load_low(Reg::Xmm0), d2, d3);
    let d4 = counter_is_started(fl, d3, Reg::R8);
    running::runs_ops(fl, full, start, r6, matmul::start(Reg::R8), d3, d4);
    running::loop_is_entered(fl, full, s1, d4);
    running::reaches_on(fl, full, start, running::behind(s1, d4), running::behind(s1.begin(), d4));
    let d5 = columns_run(fl, full, r6, d4, caller, c, row, term, 0);
    running::reaches_on(
        fl,
        full,
        start,
        running::behind(s1.begin(), d4),
        running::behind(matmul::add_row_each(r6), d5),
    );
    let d6 = counter_is_advanced(fl, d5, Reg::R9, 1);
    running::runs_ops(
        fl,
        full,
        start,
        matmul::add_row_each(r6),
        matmul::step(Reg::R9, 1),
        d5,
        d6,
    );
    running::loop_goes_back(fl, full, r1, r7, d6);
    running::reaches_on(fl, full, start, running::behind(r7, d6), running::behind(r2, d6));
    next_term(fl, d5.mem, caller.mem, c, 0, row, term);
    d6
}

/// The loop over terms adds all terms that are left to a row.
proof fn terms_run(
    fl: Floats,
    full: Seq<Ins>,
    p: Asm,
    d: Data,
    caller: Data,
    c: Call,
    row: int,
    term: int,
) -> (t: Data)
    requires
        program::places_are_single(full),
        running::starts(full, matmul::multiply_each(p)),
        is_valid(c),
        is_at_term(d, caller, c, row, term),
        has_terms(fl, d.mem, caller.mem, c, 0, row, term, 0),
    ensures
        machine::reaches(
            fl,
            full,
            running::behind(terms_head(p).begin(), d),
            running::behind(terms_tail(p).end(), t),
        ),
        is_at_term(t, caller, c, row, c.k),
        has_terms(fl, t.mem, caller.mem, c, 0, row, c.k, 0),
    decreases c.k - term,
{
    let r1 = terms_head(p);
    let r2 = r1.begin();
    let r7 = terms_tail(p);
    let start = running::behind(r2, d);
    if term == c.k {
        let r3 = r2.emit(matmul::test(Reg::R9, Reg::R11));
        rows_start(full, p);
        running::reaches_itself(fl, full, start);
        let t = counter_is_tested(fl, d, Reg::R9, Reg::R11);
        running::runs_ops(fl, full, start, r2, matmul::test(Reg::R9, Reg::R11), d, t);
        running::loop_is_left(fl, full, r3, r7, t);
        running::reaches_on(fl, full, start, running::behind(r3, t), running::behind(r7.end(), t));
        t
    } else {
        let next = term_round(fl, full, p, d, caller, c, row, term);
        let t = terms_run(fl, full, p, next, caller, c, row, term + 1);
        running::reaches_on(
            fl,
            full,
            start,
            running::behind(r2, next),
            running::behind(r7.end(), t),
        );
        t
    }
}

/// The work is at a row.
pub open spec fn is_at_row(d: Data, caller: Data, c: Call, row: int) -> bool {
    &&& is_inside(d, caller, c)
    &&& d.reg(Reg::Rdi) == row
    &&& 0 <= row <= c.m
}

/// A round of the loop over rows leads into the loop over terms.
pub(crate) proof fn row_begins(fl: Floats, full: Seq<Ins>, q1: Asm, d: Data, caller: Data, c: Call, row: int) -> (t:
    Data)
    requires
        ({
            let q4 = q1.begin().emit(matmul::test(Reg::Rdi, Reg::R10)).exit_if_ge();
            &&& running::starts(full, q4)
            &&& running::starts(full, q4.emit(matmul::start(Reg::R9)).begin())
        }),
        is_at_row(d, caller, c, row),
        is_valid(c),
        row < c.m,
    ensures
        ({
            let q4 = q1.begin().emit(matmul::test(Reg::Rdi, Reg::R10)).exit_if_ge();
            machine::reaches(
                fl,
                full,
                running::behind(q1.begin(), d),
                running::behind(q4.emit(matmul::start(Reg::R9)).begin(), t),
            )
        }),
        is_at_term(t, caller, c, row, 0),
        t.mem == d.mem,
{
    let q4 = q1.begin().emit(matmul::test(Reg::Rdi, Reg::R10)).exit_if_ge();
    let d1 = counter_is_tested(fl, d, Reg::Rdi, Reg::R10);
    running::round_begins(fl, full, q1, matmul::test(Reg::Rdi, Reg::R10), d, d1);
    let d2 = counter_is_started(fl, d1, Reg::R9);
    running::loop_opens(fl, full, q4, matmul::start(Reg::R9), d1, d2);
    running::reaches_on(
        fl,
        full,
        running::behind(q1.begin(), d),
        running::behind(q4, d1),
        running::behind(q4.emit(matmul::start(Reg::R9)).begin(), d2),
    );
    d2
}

/// Behind the loop over terms the next row begins.
pub(crate) proof fn row_ends(
    fl: Floats,
    full: Seq<Ins>,
    q1: Asm,
    q: Asm,
    d: Data,
    caller: Data,
    c: Call,
    row: int,
) -> (t: Data)
    requires
        program::places_are_single(full),
        running::starts(full, q1.begin()),
        running::starts(full, q.emit(matmul::step(Reg::Rdi, 1)).end()),
        q.open == q1.begin().open,
        is_at_term(d, caller, c, row, c.k),
        is_valid(c),
    ensures
        machine::reaches(fl, full, running::behind(q, d), running::behind(q1.begin(), t)),
        is_at_row(t, caller, c, row + 1),
        t.mem == d.mem,
{
    let t = counter_is_advanced(fl, d, Reg::Rdi, 1);
    running::round_ends(fl, full, q1, q, matmul::step(Reg::Rdi, 1), d, t);
    t
}

/// One round of the loop over rows computes a row.
proof fn row_round(
    fl: Floats,
    full: Seq<Ins>,
    p: Asm,
    d: Data,
    caller: Data,
    c: Call,
    row: int,
) -> (t: Data)
    requires
        program::places_are_single(full),
        running::starts(full, matmul::multiply_each(p)),
        is_valid(c),
        is_at_row(d, caller, c, row),
        row < c.m,
        has_terms(fl, d.mem, caller.mem, c, 0, row, 0, 0),
    ensures
        machine::reaches(
            fl,
            full,
            running::behind(p.emit(matmul::start(Reg::Rdi)).begin(), d),
            running::behind(p.emit(matmul::start(Reg::Rdi)).begin(), t),
        ),
        is_at_row(t, caller, c, row + 1),
        has_terms(fl, t.mem, caller.mem, c, 0, row + 1, 0, 0),
{
    let q1 = p.emit(matmul::start(Reg::Rdi));
    let q = terms_tail(p).end();
    rows_start(full, p);
    let start = running::behind(q1.begin(), d);
    let d2 = row_begins(fl, full, q1, d, caller, c, row);
    let d3 = terms_run(fl, full, p, d2, caller, c, row, 0);
    running::reaches_on(
        fl,
        full,
        start,
        running::behind(terms_head(p).begin(), d2),
        running::behind(q, d3),
    );
    let d4 = row_ends(fl, full, q1, q, d3, caller, c, row);
    running::reaches_on(fl, full, start, running::behind(q, d3), running::behind(q1.begin(), d4));
    next_row(fl, d3.mem, caller.mem, c, 0, row);
    d4
}

/// The loop over rows computes all rows that are left.
proof fn rows_run(
    fl: Floats,
    full: Seq<Ins>,
    p: Asm,
    d: Data,
    caller: Data,
    c: Call,
    row: int,
) -> (t: Data)
    requires
        program::places_are_single(full),
        running::starts(full, matmul::multiply_each(p)),
        is_valid(c),
        is_at_row(d, caller, c, row),
        has_terms(fl, d.mem, caller.mem, c, 0, row, 0, 0),
    ensures
        machine::reaches(
            fl,
            full,
            running::behind(p.emit(matmul::start(Reg::Rdi)).begin(), d),
            running::behind(matmul::multiply_each(p), t),
        ),
        is_inside(t, caller, c),
        has_terms(fl, t.mem, caller.mem, c, 0, c.m, 0, 0),
    decreases c.m - row,
{
    let q1 = p.emit(matmul::start(Reg::Rdi));
    let start = running::behind(q1.begin(), d);
    if row == c.m {
        rows_start(full, p);
        let t = counter_is_tested(fl, d, Reg::Rdi, Reg::R10);
        running::loop_ends(
            fl,
            full,
            q1,
            matmul::test(Reg::Rdi, Reg::R10),
            terms_tail(p).end().emit(matmul::step(Reg::Rdi, 1)),
            d,
            t,
        );
        t
    } else {
        let next = row_round(fl, full, p, d, caller, c, row);
        let t = rows_run(fl, full, p, next, caller, c, row + 1);
        running::reaches_on(
            fl,
            full,
            start,
            running::behind(q1.begin(), next),
            running::behind(matmul::multiply_each(p), t),
        );
        t
    }
}

/// The first `upto` elements of the product are zero.
#[verifier::opaque]
pub open spec fn is_cleared(
    mem: spec_fn(int) -> u8,
    before: spec_fn(int) -> u8,
    c: Call,
    upto: int,
) -> bool {
    &&& rest_is_untouched(mem, before, c)
    &&& forall|t: int|
        0 <= t < c.m * c.n && t < upto ==> #[trigger] entry(mem, c.c, t) == machine::zeros(4)
}

/// Putting a zero into the next element of the product.
pub(crate) proof fn zero_is_put(mem: spec_fn(int) -> u8, before: spec_fn(int) -> u8, c: Call, t: int)
    requires
        is_valid(c),
        is_cleared(mem, before, c, t),
        0 <= t < c.m * c.n,
    ensures
        is_cleared(
            machine::with_bytes(mem, c.c + 4 * t, machine::zeros(4)),
            before,
            c,
            t + 1,
        ),
{
    reveal(is_cleared);
    let after = machine::with_bytes(mem, c.c + 4 * t, machine::zeros(4));
    assert forall|u: int| 0 <= u < c.m * c.n && u < t + 1 implies #[trigger] entry(after, c.c, u)
        == machine::zeros(4) by {
        entry_is_put(mem, c.c, t, machine::zeros(4), u);
        let old = entry(mem, c.c, u);
    }
    assert forall|x: int| x < c.c || c.c + 4 * (c.m * c.n) <= x implies #[trigger] after(x)
        == before(x) by {
        let old = mem(x);
    }
}

/// A product of zeros has no terms yet.
pub(crate) proof fn zeros_have_no_terms(
    fl: Floats,
    mem: spec_fn(int) -> u8,
    before: spec_fn(int) -> u8,
    c: Call,
    wide: int,
)
    requires
        is_cleared(mem, before, c, c.m * c.n),
    ensures
        has_terms(fl, mem, before, c, wide, 0, 0, 0),
{
    reveal(is_cleared);
    reveal(has_terms);
    assert forall|t: int| 0 <= t < c.m * c.n implies #[trigger] entry(mem, c.c, t) == dot(
        fl,
        before,
        c,
        wide,
        t / c.n,
        t % c.n,
        progress(c, 0, 0, 0, t),
    ) by {
        assert(progress(c, 0, 0, 0, t) == 0);
    }
}

/// A zero is at hand.
proof fn zero_is_made(fl: Floats, d: Data) -> (t: Data)
    ensures
        running::goes_on(matmul::zero()),
        t == machine::after_ops(fl, d, matmul::zero(), matmul::zero().len()),
        t.gpr == d.gpr,
        t.mem == d.mem,
        t.stack == d.stack,
        machine::lane(t.wide(Reg::Xmm0), Elem::F32, 0) == machine::zeros(4),
{
    reveal_with_fuel(machine::after_ops, 2);
    reveal(machine::after_op);
    let t = machine::after_ops(fl, d, matmul::zero(), 1);
    assert(machine::lane(t.wide(Reg::Xmm0), Elem::F32, 0) =~= machine::zeros(4));
    t
}

/// The work of clearing is at an element.
pub open spec fn is_clearing(d: Data, caller: Data, c: Call, row: int, col: int) -> bool {
    &&& is_inside(d, caller, c)
    &&& d.reg(Reg::Rdi) == row
    &&& d.reg(Reg::Rsi) == col
    &&& 0 <= row < c.m
    &&& 0 <= col <= c.n
    &&& machine::lane(d.wide(Reg::Xmm0), Elem::F32, 0) == machine::zeros(4)
}

/// What stands in front of the end of the loop that clears a row behind `s1`.
pub open spec fn clearing_tail(s1: Asm) -> Asm {
    s1.begin().emit(matmul::test(Reg::Rsi, Reg::R15)).exit_if_ge().emit(
        matmul::element(Reg::Rdi, Reg::R15, Reg::Rsi, Reg::R14),
    ).emit(matmul::store_low(Reg::Xmm0)).emit(matmul::step(Reg::Rsi, 1))
}

/// The pieces of the loop that clears a row stand where they were built.
proof fn clearing_starts(full: Seq<Ins>, s1: Asm)
    requires
        running::starts(full, clearing_tail(s1).end()),
    ensures
        ({
            let s3 = s1.begin().emit(matmul::test(Reg::Rsi, Reg::R15));
            let s5 = s3.exit_if_ge().emit(
                matmul::element(Reg::Rdi, Reg::R15, Reg::Rsi, Reg::R14),
            );
            let s6 = s5.emit(matmul::store_low(Reg::Xmm0));
            &&& running::starts(full, s1)
            &&& running::starts(full, s1.begin())
            &&& running::starts(full, s3.exit_if_ge())
            &&& running::starts(full, s5)
            &&& running::starts(full, s6)
            &&& s6.open == s1.begin().open
            &&& clearing_tail(s1).open == s1.begin().open
        }),
{
    let s2 = s1.begin();
    let s3 = s2.emit(matmul::test(Reg::Rsi, Reg::R15));
    let s4 = s3.exit_if_ge();
    let s5 = s4.emit(matmul::element(Reg::Rdi, Reg::R15, Reg::Rsi, Reg::R14));
    let s6 = s5.emit(matmul::store_low(Reg::Xmm0));
    running::before_loop(full, clearing_tail(s1));
    running::before_ops(full, s6, matmul::step(Reg::Rsi, 1));
    running::before_ops(full, s5, matmul::store_low(Reg::Xmm0));
    running::before_ops(full, s4, matmul::element(Reg::Rdi, Reg::R15, Reg::Rsi, Reg::R14));
    running::before_loop(full, s3);
    running::before_ops(full, s2, matmul::test(Reg::Rsi, Reg::R15));
    running::before_loop(full, s1);
}

/// The loop that clears a row clears what is left of it.
proof fn row_is_cleared(
    fl: Floats,
    full: Seq<Ins>,
    s1: Asm,
    d: Data,
    caller: Data,
    c: Call,
    row: int,
    col: int,
) -> (t: Data)
    requires
        program::places_are_single(full),
        running::starts(full, clearing_tail(s1).end()),
        is_valid(c),
        is_clearing(d, caller, c, row, col),
        is_cleared(d.mem, caller.mem, c, row * c.n + col),
    ensures
        machine::reaches(
            fl,
            full,
            running::behind(s1.begin(), d),
            running::behind(clearing_tail(s1).end(), t),
        ),
        is_clearing(t, caller, c, row, c.n),
        is_cleared(t.mem, caller.mem, c, row * c.n + c.n),
    decreases c.n - col,
{
    let test = matmul::test(Reg::Rsi, Reg::R15);
    let start = running::behind(s1.begin(), d);
    clearing_starts(full, s1);
    let d1 = counter_is_tested(fl, d, Reg::Rsi, Reg::R15);
    if col == c.n {
        running::loop_ends(fl, full, s1, test, clearing_tail(s1), d, d1);
        d1
    } else {
        let s4 = s1.begin().emit(test).exit_if_ge();
        let target = matmul::element(Reg::Rdi, Reg::R15, Reg::Rsi, Reg::R14);
        let s5 = s4.emit(target);
        let s6 = s5.emit(matmul::store_low(Reg::Xmm0));
        place_is_inside(row, col, c.m, c.n);
        running::round_begins(fl, full, s1, test, d, d1);
        let d2 = element_is_addressed(fl, d1, Reg::Rdi, Reg::R15, Reg::Rsi, Reg::R14);
        running::runs_ops(fl, full, start, s4, target, d1, d2);
        let d3 = element_is_stored(fl, d2, Reg::Xmm0);
        running::runs_ops(fl, full, start, s5, matmul::store_low(Reg::Xmm0), d2, d3);
        let d4 = counter_is_advanced(fl, d3, Reg::Rsi, 1);
        running::round_ends(fl, full, s1, s6, matmul::step(Reg::Rsi, 1), d3, d4);
        running::reaches_on(
            fl,
            full,
            start,
            running::behind(s6, d3),
            running::behind(s1.begin(), d4),
        );
        zero_is_put(d.mem, caller.mem, c, row * c.n + col);
        let t = row_is_cleared(fl, full, s1, d4, caller, c, row, col + 1);
        running::reaches_on(
            fl,
            full,
            start,
            running::behind(s1.begin(), d4),
            running::behind(clearing_tail(s1).end(), t),
        );
        t
    }
}

/// The work of clearing is at a row.
pub open spec fn is_clearing_row(d: Data, caller: Data, c: Call, row: int) -> bool {
    &&& is_inside(d, caller, c)
    &&& d.reg(Reg::Rdi) == row
    &&& 0 <= row <= c.m
    &&& machine::lane(d.wide(Reg::Xmm0), Elem::F32, 0) == machine::zeros(4)
}

/// What stands in front of the loop that clears a row, in the loop over rows behind `q2`.
pub open spec fn clearing_head(q2: Asm) -> Asm {
    q2.begin().emit(matmul::test(Reg::Rdi, Reg::R10)).exit_if_ge().emit(matmul::start(Reg::Rsi))
}

/// The loop over rows that clears the product clears what is left of it.
proof fn product_is_cleared(
    fl: Floats,
    full: Seq<Ins>,
    q2: Asm,
    d: Data,
    caller: Data,
    c: Call,
    row: int,
) -> (t: Data)
    requires
        program::places_are_single(full),
        running::starts(
            full,
            clearing_tail(clearing_head(q2)).end().emit(matmul::step(Reg::Rdi, 1)).end(),
        ),
        is_valid(c),
        is_clearing_row(d, caller, c, row),
        is_cleared(d.mem, caller.mem, c, row * c.n),
    ensures
        machine::reaches(
            fl,
            full,
            running::behind(q2.begin(), d),
            running::behind(
                clearing_tail(clearing_head(q2)).end().emit(matmul::step(Reg::Rdi, 1)).end(),
                t,
            ),
        ),
        is_inside(t, caller, c),
        is_cleared(t.mem, caller.mem, c, c.m * c.n),
    decreases c.m - row,
{
    let test = matmul::test(Reg::Rdi, Reg::R10);
    let q4 = q2.begin().emit(test).exit_if_ge();
    let s1 = clearing_head(q2);
    let s8 = clearing_tail(s1).end();
    let q9 = s8.emit(matmul::step(Reg::Rdi, 1));
    let start = running::behind(q2.begin(), d);
    running::before_loop(full, q9);
    running::before_ops(full, s8, matmul::step(Reg::Rdi, 1));
    clearing_starts(full, s1);
    running::before_ops(full, q4, matmul::start(Reg::Rsi));
    running::before_loop(full, q2.begin().emit(test));
    running::before_ops(full, q2.begin(), test);
    assert(s8.open =~= q2.begin().open);
    let d1 = counter_is_tested(fl, d, Reg::Rdi, Reg::R10);
    if row == c.m {
        running::loop_ends(fl, full, q2, test, q9, d, d1);
        d1
    } else {
        running::round_begins(fl, full, q2, test, d, d1);
        let d2 = counter_is_started(fl, d1, Reg::Rsi);
        running::loop_opens(fl, full, q4, matmul::start(Reg::Rsi), d1, d2);
        running::reaches_on(
            fl,
            full,
            start,
            running::behind(q4, d1),
            running::behind(s1.begin(), d2),
        );
        let d3 = row_is_cleared(fl, full, s1, d2, caller, c, row, 0);
        running::reaches_on(
            fl,
            full,
            start,
            running::behind(s1.begin(), d2),
            running::behind(s8, d3),
        );
        let d4 = counter_is_advanced(fl, d3, Reg::Rdi, 1);
        running::round_ends(fl, full, q2, s8, matmul::step(Reg::Rdi, 1), d3, d4);
        running::reaches_on(
            fl,
            full,
            start,
            running::behind(s8, d3),
            running::behind(q2.begin(), d4),
        );
        assert((row + 1) * c.n == row * c.n + c.n) by (nonlinear_arith);
        let t = product_is_cleared(fl, full, q2, d4, caller, c, row + 1);
        running::reaches_on(
            fl,
            full,
            start,
            running::behind(q2.begin(), d4),
            running::behind(q9.end(), t),
        );
        t
    }
}

/// A kernel has computed the product: every element is the sum of its terms, nothing else in
/// memory has changed, the call reports success, and the registers that belong to the caller are
/// as they were.
pub open spec fn computes(fl: Floats, c: Call, wide: int, before: Data, after: Data) -> bool {
    &&& forall|row: int, col: int|
        0 <= row < c.m && 0 <= col < c.n ==> #[trigger] entry(after.mem, c.c, row * c.n + col)
            == dot(fl, before.mem, c, wide, row, col, c.k)
    &&& rest_is_untouched(after.mem, before.mem, c)
    &&& after.reg(Reg::Rax) == 0
    &&& running::keeps_callers(before, after)
}

/// Where all terms are there, the elements are the sums of their terms.
pub(crate) proof fn all_terms_are_there(
    fl: Floats,
    mem: spec_fn(int) -> u8,
    before: spec_fn(int) -> u8,
    c: Call,
    wide: int,
    row: int,
    col: int,
)
    requires
        has_terms(fl, mem, before, c, wide, c.m, 0, 0),
        0 <= row < c.m,
        0 <= col < c.n,
    ensures
        entry(mem, c.c, row * c.n + col) == dot(fl, before, c, wide, row, col, c.k),
{
    reveal(has_terms);
    place_is_inside(row, col, c.m, c.n);
    place_is_unique(row, col, c.n);
    let t = row * c.n + col;
    assert(progress(c, c.m, 0, 0, t) == c.k);
    assert(entry(mem, c.c, t) == dot(fl, before, c, wide, t / c.n, t % c.n, c.k));
}

/// The arguments are kept.
pub(crate) proof fn arguments_are_kept(fl: Floats, d: Data, caller: Data, c: Call) -> (t: Data)
    requires
        is_called(d, c),
        running::in_frame(d, caller, matmul::saved()),
    ensures
        running::goes_on(matmul::arguments()),
        t == machine::after_ops(fl, d, matmul::arguments(), matmul::arguments().len()),
        is_inside(t, caller, c),
        t.reg(Reg::Rbx) == d.reg(Reg::Rbx),
        t.mem == d.mem,
{
    reveal_with_fuel(machine::after_ops, 7);
    let ops = matmul::arguments();
    assert(ops[0] == mov(Reg::R10, Reg::Rcx));
    assert(ops[1] == mov(Reg::R11, Reg::R9));
    assert(ops[2] == mov(Reg::R12, Reg::Rdi));
    assert(ops[3] == mov(Reg::R13, Reg::Rsi));
    assert(ops[4] == mov(Reg::R14, Reg::Rdx));
    assert(ops[5] == mov(Reg::R15, Reg::R8));
    steps::reg_is_set(fl, d, Reg::R10, Reg::Rcx);
    let d0 = d.put(Reg::R10, c.m);
    steps::reg_is_set(fl, d0, Reg::R11, Reg::R9);
    let d1 = d0.put(Reg::R11, c.k);
    steps::reg_is_set(fl, d1, Reg::R12, Reg::Rdi);
    let d2 = d1.put(Reg::R12, c.a);
    steps::reg_is_set(fl, d2, Reg::R13, Reg::Rsi);
    let d3 = d2.put(Reg::R13, c.b);
    steps::reg_is_set(fl, d3, Reg::R14, Reg::Rdx);
    let d4 = d3.put(Reg::R14, c.c);
    steps::reg_is_set(fl, d4, Reg::R15, Reg::R8);
    d4.put(Reg::R15, c.n)
}

/// Success is reported.
pub(crate) proof fn success_is_reported(fl: Floats, d: Data, caller: Data, c: Call) -> (t: Data)
    requires
        is_inside(d, caller, c),
    ensures
        running::goes_on(matmul::succeed()),
        t == machine::after_ops(fl, d, matmul::succeed(), matmul::succeed().len()),
        is_inside(t, caller, c),
        t.mem == d.mem,
        t.reg(Reg::Rax) == 0,
{
    reveal_with_fuel(machine::after_ops, 2);
    reveal(machine::after_op);
    machine::after_ops(fl, d, matmul::succeed(), 1)
}

/// The saved registers can be saved.
pub(crate) proof fn saved_can_be_saved()
    ensures
        running::can_be_saved(matmul::saved()),
        matmul::saved().len() == 5,
{
}

/// A kernel returns.
pub(crate) proof fn kernel_returns(
    fl: Floats,
    full: Seq<Ins>,
    start: State,
    p: Asm,
    d: Data,
    caller: Data,
) -> (t: Data)
    requires
        running::starts(full, p.leave(matmul::saved())),
        machine::reaches(fl, full, start, running::behind(p, d)),
        running::has_room(caller, matmul::saved()),
        running::in_frame(d, caller, matmul::saved()),
        d.reg(Reg::Rax) == 0,
    ensures
        machine::reaches(fl, full, start, State { pc: machine::returned(), data: t }),
        t.mem == d.mem,
        t.reg(Reg::Rax) == 0,
        running::keeps_callers(caller, t),
{
    let saved = matmul::saved();
    saved_can_be_saved();
    let t = running::frame_is_left(fl, full, p, saved, d, caller);
    running::reaches_on(
        fl,
        full,
        start,
        running::behind(p, d),
        State { pc: machine::returned(), data: t },
    );
    assert(saved[0] == Reg::Rbx && saved[1] == Reg::R12 && saved[2] == Reg::R13 && saved[3]
        == Reg::R14 && saved[4] == Reg::R15);
    assert(t.reg(saved[0]) == caller.reg(saved[0]));
    assert(t.reg(saved[1]) == caller.reg(saved[1]));
    assert(t.reg(saved[2]) == caller.reg(saved[2]));
    assert(t.reg(saved[3]) == caller.reg(saved[3]));
    assert(t.reg(saved[4]) == caller.reg(saved[4]));
    assert(!saved.contains(Reg::Rax));
    t
}

/// A kernel keeps its arguments in a frame.
pub(crate) proof fn kernel_begins(fl: Floats, full: Seq<Ins>, d: Data, c: Call) -> (t: Data)
    requires
        running::starts(
            full,
            Asm::empty().enter(matmul::saved()).emit(matmul::arguments()),
        ),
        is_called(d, c),
        running::has_room(d, matmul::saved()),
    ensures
        machine::reaches(
            fl,
            full,
            State { pc: 0, data: d },
            running::behind(Asm::empty().enter(matmul::saved()).emit(matmul::arguments()), t),
        ),
        is_inside(t, d, c),
        t.mem == d.mem,
{
    let p0 = Asm::empty();
    let p1 = p0.enter(matmul::saved());
    running::before_ops(full, p1, matmul::arguments());
    saved_can_be_saved();
    let d1 = running::frame_is_entered(fl, full, p0, matmul::saved(), d);
    let d2 = arguments_are_kept(fl, d1, d, c);
    running::runs_ops(fl, full, running::behind(p0, d), p1, matmul::arguments(), d1, d2);
    d2
}

/// Clearing the product, from its first operation on.
proof fn clearing_runs(fl: Floats, full: Seq<Ins>, p: Asm, d: Data, caller: Data, c: Call) -> (t: Data)
    requires
        program::places_are_single(full),
        running::starts(full, matmul::clear_each(p)),
        is_valid(c),
        is_inside(d, caller, c),
        d.mem == caller.mem,
    ensures
        running::starts(full, p),
        machine::reaches(
            fl,
            full,
            running::behind(p, d),
            running::behind(matmul::clear_each(p), t),
        ),
        is_inside(t, caller, c),
        is_cleared(t.mem, caller.mem, c, c.m * c.n),
{
    let q1 = p.emit(matmul::zero());
    let q2 = q1.emit(matmul::start(Reg::Rdi));
    let s1 = clearing_head(q2);
    let s8 = clearing_tail(s1).end();
    let q9 = s8.emit(matmul::step(Reg::Rdi, 1));
    assert(matmul::clear_each(p) == q9.end());
    clearing_comes_first(full, p);
    let start = running::behind(p, d);
    running::reaches_itself(fl, full, start);
    let d1 = zero_is_made(fl, d);
    running::runs_ops(fl, full, start, p, matmul::zero(), d, d1);
    let d2 = counter_is_started(fl, d1, Reg::Rdi);
    running::loop_opens(fl, full, q1, matmul::start(Reg::Rdi), d1, d2);
    running::reaches_on(fl, full, start, running::behind(q1, d1), running::behind(q2.begin(), d2));
    assert(is_cleared(d2.mem, caller.mem, c, 0)) by {
        reveal(is_cleared);
    }
    let t = product_is_cleared(fl, full, q2, d2, caller, c, 0);
    running::reaches_on(fl, full, start, running::behind(q2.begin(), d2), running::behind(q9.end(), t));
    t
}

/// The kernel that takes single elements computes the product and returns.
pub proof fn scalar_kernel_computes(fl: Floats, d: Data, c: Call) -> (t: Data)
    requires
        is_called(d, c),
        is_valid(c),
        running::has_room(d, matmul::saved()),
    ensures
        machine::reaches(
            fl,
            matmul::scalar_kernel().lines,
            State { pc: 0, data: d },
            State { pc: machine::returned(), data: t },
        ),
        computes(fl, c, 0, d, t),
{
    let full = matmul::scalar_kernel().lines;
    matmul::scalar_kernel_is_sound();
    let p1 = Asm::empty().enter(matmul::saved()).emit(matmul::arguments());
    let p2 = matmul::clear_each(p1);
    let p3 = matmul::multiply_each(p2);
    let p4 = p3.emit(matmul::succeed());
    running::all_start(p4.leave(matmul::saved()));
    running::before_frame(full, p4, matmul::saved());
    running::before_ops(full, p3, matmul::succeed());
    let start = State { pc: 0, data: d };
    let q1 = p2.emit(matmul::start(Reg::Rdi));
    multiplication_starts(full, p2);
    clearing_comes_first(full, p1);
    let d1 = kernel_begins(fl, full, d, c);
    let d2 = clearing_runs(fl, full, p1, d1, d, c);
    running::reaches_on(fl, full, start, running::behind(p1, d1), running::behind(p2, d2));
    let d3 = counter_is_started(fl, d2, Reg::Rdi);
    running::loop_opens(fl, full, p2, matmul::start(Reg::Rdi), d2, d3);
    running::reaches_on(fl, full, start, running::behind(p2, d2), running::behind(q1.begin(), d3));
    zeros_have_no_terms(fl, d3.mem, d.mem, c, 0);
    let d4 = rows_run(fl, full, p2, d3, d, c, 0);
    running::reaches_on(fl, full, start, running::behind(q1.begin(), d3), running::behind(p3, d4));
    let d5 = success_is_reported(fl, d4, d, c);
    running::runs_ops(fl, full, start, p3, matmul::succeed(), d4, d5);
    let t = kernel_returns(fl, full, start, p4, d5, d);
    assert(rest_is_untouched(t.mem, d.mem, c)) by {
        reveal(has_terms);
    }
    assert forall|row: int, col: int|
        0 <= row < c.m && 0 <= col < c.n implies #[trigger] entry(t.mem, c.c, row * c.n + col)
        == dot(fl, d.mem, c, 0, row, col, c.k) by {
        all_terms_are_there(fl, t.mem, d.mem, c, 0, row, col);
    }
    t
}

/// What stands in front of the multiplication.
proof fn multiplication_starts(full: Seq<Ins>, p: Asm)
    requires
        running::starts(full, matmul::multiply_each(p)),
    ensures
        running::starts(full, p),
        running::starts(full, p.emit(matmul::start(Reg::Rdi)).begin()),
{
    rows_start(full, p);
}

/// What stands in front of the clearing.
proof fn clearing_comes_first(full: Seq<Ins>, p: Asm)
    requires
        running::starts(full, matmul::clear_each(p)),
    ensures
        running::starts(full, p),
        running::starts(full, p.emit(matmul::zero())),
        running::starts(full, p.emit(matmul::zero()).emit(matmul::start(Reg::Rdi)).begin()),
{
    let q1 = p.emit(matmul::zero());
    let q2 = q1.emit(matmul::start(Reg::Rdi));
    let s1 = clearing_head(q2);
    let s8 = clearing_tail(s1).end();
    let q9 = s8.emit(matmul::step(Reg::Rdi, 1));
    assert(matmul::clear_each(p) == q9.end());
    running::before_loop(full, q9);
    running::before_ops(full, s8, matmul::step(Reg::Rdi, 1));
    clearing_starts(full, s1);
    let q4 = q2.begin().emit(matmul::test(Reg::Rdi, Reg::R10)).exit_if_ge();
    running::before_ops(full, q4, matmul::start(Reg::Rsi));
    running::before_loop(full, q2.begin().emit(matmul::test(Reg::Rdi, Reg::R10)));
    running::before_ops(full, q2.begin(), matmul::test(Reg::Rdi, Reg::R10));
    running::before_loop(full, q2);
    running::before_ops(full, q1, matmul::start(Reg::Rdi));
    running::before_ops(full, p, matmul::zero());
}

/// `e` gives the element that stands for a whole number, and adding a term to a sum of such
/// numbers loses nothing as long as the numbers, the term and the sum stay within `limit`.
pub open spec fn is_exact(fl: Floats, e: spec_fn(int) -> Seq<u8>, limit: int) -> bool {
    &&& e(0) == machine::zeros(4)
    &&& forall|fused: bool, sum: int, x: int, y: int|
        within(sum, limit) && within(x, limit) && within(y, limit) && within(x * y, limit)
            && within(sum + x * y, limit) ==> #[trigger] with_term(fl, fused, e(sum), e(x), e(y))
            == e(sum + x * y)
}

/// A number lies between `-limit` and `limit`.
pub open spec fn within(x: int, limit: int) -> bool {
    -limit <= x <= limit
}

/// Memory holds a matrix of whole numbers.
pub open spec fn stores(
    e: spec_fn(int) -> Seq<u8>,
    mem: spec_fn(int) -> u8,
    at: int,
    numbers: Seq<int>,
) -> bool {
    forall|t: int| 0 <= t < numbers.len() ==> #[trigger] entry(mem, at, t) == e(numbers[t])
}

/// The first `terms` terms of an element of the product of two matrices of whole numbers, added
/// up.
pub open spec fn whole_sum(
    a: Seq<int>,
    b: Seq<int>,
    n: int,
    k: int,
    row: int,
    col: int,
    terms: int,
) -> int
    decreases terms,
{
    if terms <= 0 {
        0
    } else {
        whole_sum(a, b, n, k, row, col, terms - 1) + a[row * k + terms - 1] * b[(terms - 1) * n
            + col]
    }
}

/// No number, term or sum of terms in a product of matrices leaves the limit.
pub open spec fn sums_stay_within(
    a: Seq<int>,
    b: Seq<int>,
    m: int,
    n: int,
    k: int,
    limit: int,
) -> bool {
    &&& 0 <= limit
    &&& forall|t: int| 0 <= t < a.len() ==> within(#[trigger] a[t], limit)
    &&& forall|t: int| 0 <= t < b.len() ==> within(#[trigger] b[t], limit)
    &&& forall|row: int, col: int, terms: int|
        0 <= row < m && 0 <= col < n && 1 <= terms <= k ==> within(
            #[trigger] whole_sum(a, b, n, k, row, col, terms),
            limit,
        ) && within(a[row * k + terms - 1] * b[(terms - 1) * n + col], limit)
}

/// Sums of terms that stay within the limit are exact.
proof fn dot_is_exact(
    fl: Floats,
    e: spec_fn(int) -> Seq<u8>,
    limit: int,
    mem: spec_fn(int) -> u8,
    c: Call,
    wide: int,
    a: Seq<int>,
    b: Seq<int>,
    row: int,
    col: int,
    terms: int,
)
    requires
        is_exact(fl, e, limit),
        a.len() == c.m * c.k,
        b.len() == c.k * c.n,
        stores(e, mem, c.a, a),
        stores(e, mem, c.b, b),
        sums_stay_within(a, b, c.m, c.n, c.k, limit),
        0 <= row < c.m,
        0 <= col < c.n,
        0 <= terms <= c.k,
    ensures
        dot(fl, mem, c, wide, row, col, terms) == e(whole_sum(a, b, c.n, c.k, row, col, terms)),
    decreases terms,
{
    if terms > 0 {
        let term = terms - 1;
        dot_is_exact(fl, e, limit, mem, c, wide, a, b, row, col, term);
        place_is_inside(row, term, c.m, c.k);
        place_is_inside(term, col, c.k, c.n);
        let x = a[row * c.k + terms - 1];
        let y = b[term * c.n + col];
        let sum = whole_sum(a, b, c.n, c.k, row, col, term);
        let next = whole_sum(a, b, c.n, c.k, row, col, terms);
        assert(entry(mem, c.a, row * c.k + term) == e(a[row * c.k + term]));
        assert(entry(mem, c.b, term * c.n + col) == e(b[term * c.n + col]));
        assert(row * c.k + term == row * c.k + terms - 1);
        assert(within(sum, limit));
        assert(within(next, limit));
        assert(with_term(fl, col < wide, e(sum), e(x), e(y)) == e(sum + x * y));
    }
}

/// A kernel that computes a product of whole numbers computes it exactly, where no number, term
/// or sum leaves the limit up to which arithmetic on them is exact. What memory held in place of
/// the product does not matter.
pub proof fn product_is_exact(
    fl: Floats,
    e: spec_fn(int) -> Seq<u8>,
    limit: int,
    c: Call,
    wide: int,
    before: Data,
    after: Data,
    a: Seq<int>,
    b: Seq<int>,
)
    requires
        computes(fl, c, wide, before, after),
        is_exact(fl, e, limit),
        0 <= c.k,
        a.len() == c.m * c.k,
        b.len() == c.k * c.n,
        stores(e, before.mem, c.a, a),
        stores(e, before.mem, c.b, b),
        sums_stay_within(a, b, c.m, c.n, c.k, limit),
    ensures
        forall|row: int, col: int|
            0 <= row < c.m && 0 <= col < c.n ==> #[trigger] entry(
                after.mem,
                c.c,
                row * c.n + col,
            ) == e(whole_sum(a, b, c.n, c.k, row, col, c.k)),
{
    assert forall|row: int, col: int| 0 <= row < c.m && 0 <= col < c.n implies #[trigger] entry(
        after.mem,
        c.c,
        row * c.n + col,
    ) == e(whole_sum(a, b, c.n, c.k, row, col, c.k)) by {
        dot_is_exact(fl, e, limit, before.mem, c, wide, a, b, row, col, c.k);
    }
}

} // verus!
