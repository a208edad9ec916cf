//! What the kernels of the matrix product with 256-bit vectors compute.

use crate::x86_emitter::inst::{
    add_imm, add_reg, at, at_disp, clear, clear_low, compare, fma, imul, lea_sum, mov, packed,
    scalar, scale, store, sub_imm, vclear, vstore, Arith, Elem, Ins, Op, Reg, RmOp, Wide,
};
use crate::x86_emitter::machine;
use crate::x86_emitter::machine::{Data, Floats, State};
use crate::x86_emitter::matmul;
use crate::x86_emitter::matmul_run;
use crate::x86_emitter::matmul_run::Call;
use crate::x86_emitter::program;
use crate::x86_emitter::program::Asm;
use crate::x86_emitter::running;
use crate::x86_emitter::steps;
use vstd::prelude::*;

verus! {

/// The number of columns that are taken in vectors of eight: as many as leave a last column.
pub open spec fn wide_columns(n: int) -> int {
    if n <= 8 {
        0
    } else {
        (n - 1) / 8 * 8
    }
}

/// A bias can be addressed, and the product shares no memory with it.
pub open spec fn bias_is_valid(c: Call, bias: Option<int>) -> bool {
    bias matches Some(b) ==> {
        &&& matmul_run::is_addressable(b, c.n)
        &&& matmul_run::are_apart(c.c, c.m * c.n, b, c.n)
    }
}

/// An element with its bias, or zero where that is larger. In vectors the bias comes first in the
/// addition.
pub open spec fn with_bias(fl: Floats, in_vector: bool, sum: Seq<u8>, bias: Seq<u8>) -> Seq<u8> {
    let biased = if in_vector {
        (fl.arith)(Arith::Add, Elem::F32, bias, sum)
    } else {
        (fl.arith)(Arith::Add, Elem::F32, sum, bias)
    };
    machine::low(
        (fl.arith)(Arith::Max, Elem::F32, machine::low(biased, 4), machine::zeros(4)),
        4,
    )
}

/// What is to stand in a row and a column of the product in the end.
pub open spec fn finished(
    fl: Floats,
    mem: spec_fn(int) -> u8,
    c: Call,
    bias: Option<int>,
    row: int,
    col: int,
) -> Seq<u8> {
    let sum = matmul_run::dot(fl, mem, c, wide_columns(c.n), row, col, c.k);
    match bias {
        Some(b) => with_bias(fl, col < wide_columns(c.n), sum, matmul_run::entry(mem, b, col)),
        None => sum,
    }
}

/// Rows in front of `row` are finished, and every other element has the terms that it should have
/// by now.
#[verifier::opaque]
pub open spec fn has_terms(
    fl: Floats,
    mem: spec_fn(int) -> u8,
    before: spec_fn(int) -> u8,
    c: Call,
    bias: Option<int>,
    row: int,
    term: int,
    col: int,
) -> bool {
    &&& matmul_run::rest_is_untouched(mem, before, c)
    &&& forall|t: int|
        0 <= t < c.m * c.n ==> #[trigger] matmul_run::entry(mem, c.c, t) == if t < row * c.n {
            finished(fl, before, c, bias, t / c.n, t % c.n)
        } else {
            matmul_run::dot(
                fl,
                before,
                c,
                wide_columns(c.n),
                t / c.n,
                t % c.n,
                matmul_run::progress(c, row, term, col, t),
            )
        }
}

/// Elements in front of a column of `row` are finished, the rest of the row has all its terms,
/// and rows behind it have none.
#[verifier::opaque]
pub open spec fn has_bias(
    fl: Floats,
    mem: spec_fn(int) -> u8,
    before: spec_fn(int) -> u8,
    c: Call,
    bias: Option<int>,
    row: int,
    col: int,
) -> bool {
    &&& matmul_run::rest_is_untouched(mem, before, c)
    &&& forall|t: int|
        0 <= t < c.m * c.n ==> #[trigger] matmul_run::entry(mem, c.c, t) == if t < row * c.n + col {
            finished(fl, before, c, bias, t / c.n, t % c.n)
        } else {
            matmul_run::dot(
                fl,
                before,
                c,
                wide_columns(c.n),
                t / c.n,
                t % c.n,
                matmul_run::progress(c, row, c.k, 0, t),
            )
        }
}

/// Element `i` of some bytes.
pub open spec fn piece(v: Seq<u8>, i: int) -> Seq<u8> {
    Seq::new(4, |j: int| v[4 * i + j])
}

/// Putting `w` elements into a matrix.
pub(crate) proof fn pieces_are_put(mem: spec_fn(int) -> u8, at: int, t: int, w: int, v: Seq<u8>, u: int)
    requires
        0 <= w,
        v.len() == 4 * w,
    ensures
        matmul_run::entry(machine::with_bytes(mem, at + 4 * t, v), at, u) == if t <= u < t + w {
            piece(v, u - t)
        } else {
            matmul_run::entry(mem, at, u)
        },
{
    let after = machine::with_bytes(mem, at + 4 * t, v);
    if t <= u < t + w {
        assert(matmul_run::entry(after, at, u) =~= piece(v, u - t));
    } else {
        assert(matmul_run::entry(after, at, u) =~= matmul_run::entry(mem, at, u));
    }
}

/// Memory outside of the product stays as it was where elements of the product are put.
pub(crate) proof fn rest_stays(mem: spec_fn(int) -> u8, before: spec_fn(int) -> u8, c: Call, t: int, v: Seq<u8>)
    requires
        matmul_run::rest_is_untouched(mem, before, c),
        0 <= t,
        4 * t + v.len() <= 4 * (c.m * c.n),
    ensures
        matmul_run::rest_is_untouched(machine::with_bytes(mem, c.c + 4 * t, v), before, c),
{
    let after = machine::with_bytes(mem, c.c + 4 * t, v);
    assert forall|x: int| x < c.c || c.c + 4 * (c.m * c.n) <= x implies #[trigger] after(x)
        == before(x) by {
        let old = mem(x);
    }
}

/// Putting the next term into `w` columns of the product.
proof fn terms_are_put(
    fl: Floats,
    mem: spec_fn(int) -> u8,
    before: spec_fn(int) -> u8,
    c: Call,
    bias: Option<int>,
    row: int,
    term: int,
    col: int,
    w: int,
    v: Seq<u8>,
)
    requires
        matmul_run::is_valid(c),
        has_terms(fl, mem, before, c, bias, row, term, col),
        0 <= row < c.m,
        0 <= term < c.k,
        0 <= col,
        0 < w,
        col + w <= c.n,
        v.len() == 4 * w,
        forall|i: int|
            0 <= i < w ==> #[trigger] piece(v, i) == matmul_run::with_term(
                fl,
                col + i < wide_columns(c.n),
                matmul_run::entry(mem, c.c, row * c.n + (col + i)),
                matmul_run::entry(before, c.a, row * c.k + term),
                matmul_run::entry(before, c.b, term * c.n + (col + i)),
            ),
    ensures
        has_terms(
            fl,
            machine::with_bytes(mem, c.c + 4 * (row * c.n + col), v),
            before,
            c,
            bias,
            row,
            term,
            col + w,
        ),
{
    reveal(has_terms);
    let wide = wide_columns(c.n);
    let here = row * c.n + col;
    let after = machine::with_bytes(mem, c.c + 4 * here, v);
    matmul_run::place_is_inside(row, col, c.m, c.n);
    matmul_run::place_is_inside(row, col + w - 1, c.m, c.n);
    rest_stays(mem, before, c, here, v);
    assert forall|t: int| 0 <= t < c.m * c.n implies #[trigger] matmul_run::entry(after, c.c, t)
        == if t < row * c.n {
        finished(fl, before, c, bias, t / c.n, t % c.n)
    } else {
        matmul_run::dot(
            fl,
            before,
            c,
            wide,
            t / c.n,
            t % c.n,
            matmul_run::progress(c, row, term, col + w, t),
        )
    } by {
        pieces_are_put(mem, c.c, here, w, v, t);
        let old = matmul_run::entry(mem, c.c, t);
        if here <= t < here + w {
            let i = t - here;
            matmul_run::place_is_unique(row, col + i, c.n);
            assert(t == row * c.n + (col + i));
            assert(matmul_run::progress(c, row, term, col, t) == term);
            assert(matmul_run::progress(c, row, term, col + w, t) == term + 1);
            let new = piece(v, i);
        } else {
            assert(matmul_run::progress(c, row, term, col, t) == matmul_run::progress(
                c,
                row,
                term,
                col + w,
                t,
            ));
        }
    }
}

/// Putting the bias into `w` columns of the product.
proof fn biases_are_put(
    fl: Floats,
    mem: spec_fn(int) -> u8,
    before: spec_fn(int) -> u8,
    c: Call,
    bias: int,
    row: int,
    col: int,
    w: int,
    v: Seq<u8>,
)
    requires
        matmul_run::is_valid(c),
        has_bias(fl, mem, before, c, Some(bias), row, col),
        0 <= row < c.m,
        0 <= col,
        0 < w,
        col + w <= c.n,
        v.len() == 4 * w,
        forall|i: int|
            0 <= i < w ==> #[trigger] piece(v, i) == with_bias(
                fl,
                col + i < wide_columns(c.n),
                matmul_run::entry(mem, c.c, row * c.n + (col + i)),
                matmul_run::entry(before, bias, col + i),
            ),
    ensures
        has_bias(
            fl,
            machine::with_bytes(mem, c.c + 4 * (row * c.n + col), v),
            before,
            c,
            Some(bias),
            row,
            col + w,
        ),
{
    reveal(has_bias);
    let wide = wide_columns(c.n);
    let here = row * c.n + col;
    let after = machine::with_bytes(mem, c.c + 4 * here, v);
    matmul_run::place_is_inside(row, col, c.m, c.n);
    matmul_run::place_is_inside(row, col + w - 1, c.m, c.n);
    rest_stays(mem, before, c, here, v);
    assert forall|t: int| 0 <= t < c.m * c.n implies #[trigger] matmul_run::entry(after, c.c, t)
        == if t < row * c.n + (col + w) {
        finished(fl, before, c, Some(bias), t / c.n, t % c.n)
    } else {
        matmul_run::dot(
            fl,
            before,
            c,
            wide,
            t / c.n,
            t % c.n,
            matmul_run::progress(c, row, c.k, 0, t),
        )
    } by {
        pieces_are_put(mem, c.c, here, w, v, t);
        let old = matmul_run::entry(mem, c.c, t);
        if here <= t < here + w {
            let i = t - here;
            matmul_run::place_is_unique(row, col + i, c.n);
            assert(t == row * c.n + (col + i));
            assert(matmul_run::progress(c, row, c.k, 0, t) == c.k);
            let new = piece(v, i);
        }
    }
}

/// Putting `w` zeros into the product.
proof fn zeros_are_put(mem: spec_fn(int) -> u8, before: spec_fn(int) -> u8, c: Call, t: int, w: int)
    requires
        matmul_run::is_cleared(mem, before, c, t),
        0 <= t,
        0 <= w,
        t + w <= c.m * c.n,
    ensures
        matmul_run::is_cleared(
            machine::with_bytes(mem, c.c + 4 * t, machine::zeros(4 * w)),
            before,
            c,
            t + w,
        ),
{
    reveal(matmul_run::is_cleared);
    let z = machine::zeros(4 * w);
    let after = machine::with_bytes(mem, c.c + 4 * t, z);
    rest_stays(mem, before, c, t, z);
    assert forall|u: int|
        0 <= u < c.m * c.n && u < t + w implies #[trigger] matmul_run::entry(after, c.c, u)
        == machine::zeros(4) by {
        pieces_are_put(mem, c.c, t, w, z, u);
        let old = matmul_run::entry(mem, c.c, u);
        if t <= u {
            assert(piece(z, u - t) =~= machine::zeros(4));
        }
    }
}

/// A product of zeros has no terms yet.
proof fn zeros_have_no_terms(
    fl: Floats,
    mem: spec_fn(int) -> u8,
    before: spec_fn(int) -> u8,
    c: Call,
    bias: Option<int>,
)
    requires
        matmul_run::is_cleared(mem, before, c, c.m * c.n),
    ensures
        has_terms(fl, mem, before, c, bias, 0, 0, 0),
{
    reveal(matmul_run::is_cleared);
    reveal(has_terms);
    assert forall|t: int| 0 <= t < c.m * c.n implies #[trigger] matmul_run::entry(mem, c.c, t)
        == matmul_run::dot(
        fl,
        before,
        c,
        wide_columns(c.n),
        t / c.n,
        t % c.n,
        matmul_run::progress(c, 0, 0, 0, t),
    ) by {
        assert(matmul_run::progress(c, 0, 0, 0, t) == 0);
    }
}

/// The end of a row of terms is the start of the next.
proof fn next_term(
    fl: Floats,
    mem: spec_fn(int) -> u8,
    before: spec_fn(int) -> u8,
    c: Call,
    bias: Option<int>,
    row: int,
    term: int,
)
    requires
        has_terms(fl, mem, before, c, bias, row, term, c.n),
    ensures
        has_terms(fl, mem, before, c, bias, row, term + 1, 0),
{
    reveal(has_terms);
    assert forall|t: int| 0 <= t < c.m * c.n && t >= row * c.n implies #[trigger] matmul_run::entry(
        mem,
        c.c,
        t,
    ) == matmul_run::dot(
        fl,
        before,
        c,
        wide_columns(c.n),
        t / c.n,
        t % c.n,
        matmul_run::progress(c, row, term + 1, 0, t),
    ) by {
        assert(matmul_run::progress(c, row, term, c.n, t) == matmul_run::progress(
            c,
            row,
            term + 1,
            0,
            t,
        ));
    }
}

/// A row with all its terms is ready for its bias.
proof fn bias_comes_next(
    fl: Floats,
    mem: spec_fn(int) -> u8,
    before: spec_fn(int) -> u8,
    c: Call,
    bias: Option<int>,
    row: int,
)
    requires
        has_terms(fl, mem, before, c, bias, row, c.k, 0),
    ensures
        has_bias(fl, mem, before, c, bias, row, 0),
{
    reveal(has_terms);
    reveal(has_bias);
}

/// A row with its bias is finished.
proof fn next_row(
    fl: Floats,
    mem: spec_fn(int) -> u8,
    before: spec_fn(int) -> u8,
    c: Call,
    bias: Option<int>,
    row: int,
)
    requires
        0 <= c.n,
        has_bias(fl, mem, before, c, bias, row, c.n),
    ensures
        has_terms(fl, mem, before, c, bias, row + 1, 0, 0),
{
    reveal(has_terms);
    reveal(has_bias);
    assert((row + 1) * c.n == row * c.n + c.n) by (nonlinear_arith);
    assert forall|t: int|
        0 <= t < c.m * c.n && t >= (row + 1) * c.n implies #[trigger] matmul_run::entry(mem, c.c, t)
        == matmul_run::dot(
        fl,
        before,
        c,
        wide_columns(c.n),
        t / c.n,
        t % c.n,
        matmul_run::progress(c, row + 1, 0, 0, t),
    ) by {
        assert(matmul_run::progress(c, row, c.k, 0, t) == 0);
        assert(matmul_run::progress(c, row + 1, 0, 0, t) == 0);
    }
}

/// Without a bias, a row with all its terms is finished.
proof fn sums_are_finished(
    fl: Floats,
    mem: spec_fn(int) -> u8,
    before: spec_fn(int) -> u8,
    c: Call,
    row: int,
)
    requires
        has_bias(fl, mem, before, c, None, row, 0),
    ensures
        has_bias(fl, mem, before, c, None, row, c.n),
{
    reveal(has_bias);
    assert forall|t: int|
        0 <= t < c.m * c.n && row * c.n <= t < row * c.n + c.n implies #[trigger] matmul_run::entry(
        mem,
        c.c,
        t,
    ) == finished(fl, before, c, None, t / c.n, t % c.n) by {
        assert(matmul_run::progress(c, row, c.k, 0, t) == c.k);
    }
}

/// Memory outside of the product is as it was.
proof fn others_are_untouched(
    fl: Floats,
    mem: spec_fn(int) -> u8,
    before: spec_fn(int) -> u8,
    c: Call,
    bias: Option<int>,
    row: int,
    term: int,
    col: int,
    at: int,
    len: int,
    t: int,
)
    requires
        has_terms(fl, mem, before, c, bias, row, term, col) || has_bias(
            fl,
            mem,
            before,
            c,
            bias,
            row,
            col,
        ),
        matmul_run::are_apart(c.c, c.m * c.n, at, len),
        0 <= t < len,
    ensures
        matmul_run::entry(mem, at, t) == matmul_run::entry(before, at, t),
{
    reveal(has_terms);
    reveal(has_bias);
    assert(matmul_run::entry(mem, at, t) =~= matmul_run::entry(before, at, t));
}

/// Element `i` of a filled register is element `i` of the bytes in it.
proof fn lane_is_piece(b: Seq<u8>, i: int)
    requires
        b.len() == 32,
        0 <= i < 8,
    ensures
        machine::lane(machine::filled(b), Elem::F32, i) == piece(b, i),
{
    assert(machine::lane(machine::filled(b), Elem::F32, i) =~= piece(b, i));
}

/// Element `i` of a vector in memory is an element of the matrix.
proof fn piece_of_memory(mem: spec_fn(int) -> u8, at: int, t: int, i: int)
    requires
        0 <= i < 8,
    ensures
        piece(machine::bytes(mem, at + 4 * t, 32), i) == matmul_run::entry(mem, at, t + i),
{
    assert(piece(machine::bytes(mem, at + 4 * t, 32), i) =~= matmul_run::entry(mem, at, t + i));
}

/// Every element of a vector that repeats an element is that element.
proof fn piece_of_repeated(b: Seq<u8>, i: int)
    requires
        b.len() == 4,
        0 <= i < 8,
    ensures
        piece(machine::repeated(b, 32), i) == b,
{
    assert(piece(machine::repeated(b, 32), i) =~= b);
}

/// Element `i` of a vector of fused terms.
proof fn piece_of_terms(fl: Floats, x: Seq<u8>, y: Seq<u8>, z: Seq<u8>, i: int)
    requires
        0 <= i < 8,
    ensures
        piece(machine::lanewise_fma(fl, x, y, z, 32), i) == machine::low(
            (fl.fma)(
                machine::lane(x, Elem::F32, i),
                machine::lane(y, Elem::F32, i),
                machine::lane(z, Elem::F32, i),
            ),
            4,
        ),
{
    let w = piece(machine::lanewise_fma(fl, x, y, z, 32), i);
    let one = machine::low(
        (fl.fma)(
            machine::lane(x, Elem::F32, i),
            machine::lane(y, Elem::F32, i),
            machine::lane(z, Elem::F32, i),
        ),
        4,
    );
    assert forall|j: int| 0 <= j < 4 implies w[j] == #[trigger] one[j] by {
        assert((4 * i + j) / 4 == i);
        assert((4 * i + j) % 4 == j);
    }
    assert(w =~= one);
}

/// Element `i` of a vector of results.
proof fn piece_of_results(fl: Floats, f: Arith, x: Seq<u8>, y: Seq<u8>, i: int)
    requires
        0 <= i < 8,
    ensures
        piece(machine::lanewise(fl, f, Elem::F32, x, y, 32), i) == machine::low(
            (fl.arith)(
                f,
                Elem::F32,
                machine::lane(x, Elem::F32, i),
                machine::lane(y, Elem::F32, i),
            ),
            4,
        ),
{
    let w = piece(machine::lanewise(fl, f, Elem::F32, x, y, 32), i);
    let one = machine::low(
        (fl.arith)(
            f,
            Elem::F32,
            machine::lane(x, Elem::F32, i),
            machine::lane(y, Elem::F32, i),
        ),
        4,
    );
    assert forall|j: int| 0 <= j < 4 implies w[j] == #[trigger] one[j] by {
        assert((4 * i + j) / 4 == i);
        assert((4 * i + j) % 4 == j);
    }
    assert(w =~= one);
}

/// The operations that compute the address in a row.
proof fn offset_pieces(row: Reg, base: Reg)
    ensures
        ({
            let ops = matmul::row_offset(row, base);
            &&& ops.len() == 5
            &&& ops[0] == mov(Reg::Rax, row)
            &&& ops[1] == imul(Reg::Rax, Reg::R15)
            &&& ops[2] == scale(Reg::Rax, Elem::F32)
            &&& ops[3] == add_reg(Reg::Rax, Reg::R8)
            &&& ops[4] == add_reg(Reg::Rax, base)
            &&& running::goes_on(ops)
        }),
{
}

/// The address in a row is computed.
proof fn offset_is_addressed(fl: Floats, d: Data, row: Reg, base: Reg) -> (t: Data)
    requires
        machine::whole(base) != Reg::Rax,
        0 <= d.reg(row) * d.reg(Reg::R15) < 0x0800_0000_0000_0000,
        0 <= d.reg(Reg::R8) < 0x2000_0000_0000_0000,
        0 <= d.reg(base) < 0x4000_0000_0000_0000,
    ensures
        running::goes_on(matmul::row_offset(row, base)),
        t == machine::after_ops(
            fl,
            d,
            matmul::row_offset(row, base),
            matmul::row_offset(row, base).len(),
        ),
        t == matmul_run::with_address(
            d,
            d.reg(base) + (4 * (d.reg(row) * d.reg(Reg::R15)) + d.reg(Reg::R8)),
        ),
{
    let ops = matmul::row_offset(row, base);
    offset_pieces(row, base);
    let x1 = d.reg(row) * d.reg(Reg::R15);
    let x2 = x1 * 4;
    let x3 = x2 + d.reg(Reg::R8);
    let x4 = x3 + d.reg(base);
    let d0 = d.put(Reg::Rax, d.reg(row));
    let d1 = matmul_run::with_address(d0, x1);
    let d2 = matmul_run::with_address(d1, x2);
    let d3 = matmul_run::with_address(d2, x3);
    let d4 = matmul_run::with_address(d3, x4);
    matmul_run::rax_is_set(fl, d, ops[0], row);
    matmul_run::rax_is_multiplied(fl, d0, ops[1], Reg::R15);
    matmul_run::rax_is_scaled(fl, d1, ops[2]);
    matmul_run::rax_is_increased(fl, d2, ops[3], Reg::R8);
    matmul_run::rax_is_increased(fl, d3, ops[4], base);
    running::five_ops(fl, d, ops, seq![d0, d1, d2, d3, d4]);
    assert(d4.gpr =~= d.gpr.insert(Reg::Rax, x4));
    d4
}

/// The vector at `rax` is loaded.
proof fn vector_is_loaded(fl: Floats, d: Data, r: Reg) -> (t: Data)
    requires
        0 <= d.reg(Reg::Rax) < 0x7000_0000_0000_0000,
    ensures
        running::goes_on(matmul::load_wide(r)),
        t == machine::after_ops(fl, d, matmul::load_wide(r), matmul::load_wide(r).len()),
        t == d.put_wide(r, machine::filled(machine::bytes(d.mem, d.reg(Reg::Rax), 32))),
{
    reveal_with_fuel(machine::after_ops, 2);
    reveal(machine::after_op);
    machine::after_ops(fl, d, matmul::load_wide(r), 1)
}

/// A vector is stored at `rax`.
proof fn vector_is_stored(fl: Floats, d: Data, r: Reg, v: Seq<u8>) -> (t: Data)
    requires
        0 <= d.reg(Reg::Rax) < 0x7000_0000_0000_0000,
        d.wide(r) == machine::filled(v),
        v.len() == 32,
    ensures
        running::goes_on(matmul::store_wide(r)),
        t == machine::after_ops(fl, d, matmul::store_wide(r), matmul::store_wide(r).len()),
        t == d.put_bytes(d.reg(Reg::Rax), v),
{
    reveal_with_fuel(machine::after_ops, 2);
    reveal(machine::after_op);
    assert(machine::low(d.wide(r), 32) =~= v);
    machine::after_ops(fl, d, matmul::store_wide(r), 1)
}

/// Eight products are added to the sums in the second vector register.
proof fn products_are_added(fl: Floats, d: Data) -> (t: Data)
    ensures
        running::goes_on(matmul::multiply_add_wide()),
        t == machine::after_ops(
            fl,
            d,
            matmul::multiply_add_wide(),
            matmul::multiply_add_wide().len(),
        ),
        t == d.put_wide(
            Reg::Ymm1,
            machine::filled(
                machine::lanewise_fma(
                    fl,
                    d.wide(Reg::Ymm0),
                    d.wide(Reg::Ymm2),
                    d.wide(Reg::Ymm1),
                    32,
                ),
            ),
        ),
{
    reveal_with_fuel(machine::after_ops, 2);
    reveal(machine::after_op);
    machine::after_ops(fl, d, matmul::multiply_add_wide(), 1)
}

/// The register with the number of bytes in a row.
pub open spec fn limit_of(bias: Option<int>) -> Reg {
    match bias {
        Some(_) => Reg::Rcx,
        None => Reg::Rbx,
    }
}

/// Registers inside a kernel: with a bias, its address is in `rbx`.
pub open spec fn is_inside(d: Data, caller: Data, c: Call, bias: Option<int>) -> bool {
    &&& matmul_run::is_inside(d, caller, c)
    &&& bias matches Some(b) ==> d.reg(Reg::Rbx) == b
}

/// The work is at a row.
pub open spec fn is_at_row(d: Data, caller: Data, c: Call, bias: Option<int>, row: int) -> bool {
    &&& is_inside(d, caller, c, bias)
    &&& d.reg(Reg::Rdi) == row
    &&& 0 <= row < c.m
}

/// The work is at a column of a row.
pub open spec fn is_at_column(
    d: Data,
    caller: Data,
    c: Call,
    bias: Option<int>,
    row: int,
    col: int,
) -> bool {
    &&& is_at_row(d, caller, c, bias, row)
    &&& d.reg(Reg::R8) == 4 * col
    &&& d.reg(limit_of(bias)) == 4 * c.n
    &&& 0 <= col <= c.n
}

/// The work is at a column for a term of a row, with the element of the first factor at hand.
pub open spec fn is_at(
    d: Data,
    caller: Data,
    c: Call,
    bias: Option<int>,
    row: int,
    term: int,
    col: int,
) -> bool {
    &&& is_at_column(d, caller, c, bias, row, col)
    &&& d.reg(Reg::R9) == term
    &&& 0 <= term < c.k
    &&& machine::low(d.wide(Reg::Ymm0), 32) == machine::repeated(
        matmul_run::entry(caller.mem, c.a, row * c.k + term),
        32,
    )
}

/// The first column of a row.
proof fn limit_is_set(fl: Floats, d: Data, caller: Data, c: Call, bias: Option<int>, row: int) -> (t:
    Data)
    requires
        matmul_run::is_valid(c),
        is_at_row(d, caller, c, bias, row),
    ensures
        running::goes_on(matmul::row_limit(limit_of(bias))),
        t == machine::after_ops(
            fl,
            d,
            matmul::row_limit(limit_of(bias)),
            matmul::row_limit(limit_of(bias)).len(),
        ),
        is_at_column(t, caller, c, bias, row, 0),
        t.reg(Reg::R9) == d.reg(Reg::R9),
        t.mem == d.mem,
        t.vec == d.vec,
{
    reveal_with_fuel(machine::after_ops, 4);
    let ops = matmul::row_limit(limit_of(bias));
    assert(ops[0] == clear(Reg::R8));
    steps::reg_is_cleared(fl, d, Reg::R8);
    let s1 = steps::with_reg(d, Reg::R8, 0);
    assert(ops[1] == mov(limit_of(bias), Reg::R15));
    steps::reg_is_set(fl, s1, limit_of(bias), Reg::R15);
    let s2 = s1.put(limit_of(bias), s1.reg(Reg::R15));
    assert(ops[2] == scale(limit_of(bias), Elem::F32));
    steps::reg_is_scaled_to(fl, s2, limit_of(bias), Elem::F32);
    let s3 = steps::with_reg(s2, limit_of(bias), s2.reg(limit_of(bias)) * machine::size(Elem::F32));
    s3
}

/// Whether a whole vector and more is left of a row.
proof fn wide_is_tested(
    fl: Floats,
    d: Data,
    caller: Data,
    c: Call,
    bias: Option<int>,
    row: int,
    col: int,
) -> (t: Data)
    requires
        matmul_run::is_valid(c),
        is_at_column(d, caller, c, bias, row, col),
    ensures
        running::goes_on(matmul::row_wide_test(limit_of(bias))),
        t == machine::after_ops(
            fl,
            d,
            matmul::row_wide_test(limit_of(bias)),
            matmul::row_wide_test(limit_of(bias)).len(),
        ),
        is_at_column(t, caller, c, bias, row, col),
        t.reg(Reg::R9) == d.reg(Reg::R9),
        t.mem == d.mem,
        t.vec == d.vec,
        t.less == Some(col + 8 < c.n),
{
    reveal_with_fuel(machine::after_ops, 4);
    let ops = matmul::row_wide_test(limit_of(bias));
    assert(ops[0] == mov(Reg::Rax, limit_of(bias)));
    steps::reg_is_set(fl, d, Reg::Rax, limit_of(bias));
    let s1 = d.put(Reg::Rax, d.reg(limit_of(bias)));
    assert(ops[1] == sub_imm(Reg::Rax, 32));
    steps::reg_is_reduced(fl, s1, Reg::Rax, 32);
    let s2 = steps::with_reg(s1, Reg::Rax, s1.reg(Reg::Rax) - 32);
    assert(ops[2] == compare(Reg::R8, Reg::Rax));
    steps::regs_are_compared(fl, s2, Reg::R8, Reg::Rax);
    let s3 = Data { less: Some(s2.reg(Reg::R8) < s2.reg(Reg::Rax)), ..s2 };
    s3
}

/// The columns in vectors end where no whole vector and more is left.
proof fn wide_columns_end(n: int, col: int)
    requires
        0 <= n,
        0 <= col <= wide_columns(n),
        col % 8 == 0,
    ensures
        wide_columns(n) % 8 == 0,
        col + 8 < n ==> col + 8 <= wide_columns(n),
        col + 8 >= n ==> col == wide_columns(n),
        0 < n ==> wide_columns(n) < n,
        wide_columns(n) <= n,
{
}

/// The body of the loop over vectors of columns, in runs.
pub open spec fn wide_runs() -> Seq<Seq<Op>> {
    seq![
        matmul::row_offset(Reg::R9, Reg::R13),
        matmul::load_wide(Reg::Ymm2),
        matmul::row_offset(Reg::Rdi, Reg::R14),
        matmul::load_wide(Reg::Ymm1),
        matmul::multiply_add_wide(),
        matmul::row_offset(Reg::Rdi, Reg::R14),
        matmul::store_wide(Reg::Ymm1),
        matmul::step(Reg::R8, 32),
    ]
}

/// The body of the loop over single columns, in runs.
pub open spec fn low_runs() -> Seq<Seq<Op>> {
    seq![
        matmul::row_offset(Reg::R9, Reg::R13),
        matmul::load_low(Reg::Xmm2),
        matmul::row_offset(Reg::Rdi, Reg::R14),
        matmul::load_low(Reg::Xmm1),
        matmul::multiply_add(),
        matmul::row_offset(Reg::Rdi, Reg::R14),
        matmul::store_low(Reg::Xmm1),
        matmul::step(Reg::R8, 4),
    ]
}

/// Eight runs of operations.
proof fn eight_emits(p: Asm, runs: Seq<Seq<Op>>)
    requires
        runs.len() == 8,
    ensures
        p.emit(runs[0]).emit(runs[1]).emit(runs[2]).emit(runs[3]).emit(runs[4]).emit(runs[5]).emit(
            runs[6],
        ).emit(runs[7]) == p.emit(running::joined(runs)),
{
    reveal_with_fuel(running::emit_all, 9);
    running::all_emits_join(p, runs);
}

/// What stands in front of the single columns.
pub open spec fn row_vectors(p: Asm, limit: Reg) -> Asm {
    running::plain_loop(
        p.emit(matmul::row_limit(limit)),
        matmul::row_wide_test(limit),
        running::joined(wide_runs()),
    )
}

/// A row of terms is a loop over vectors and a loop over single columns.
proof fn row_has_two_loops(p: Asm, limit: Reg)
    ensures
        matmul::add_row_wide(p, limit) == running::plain_loop(
            row_vectors(p, limit),
            matmul::test(Reg::R8, limit),
            running::joined(low_runs()),
        ),
{
    let q = p.emit(matmul::row_limit(limit));
    eight_emits(q.begin().emit(matmul::row_wide_test(limit)).exit_if_ge(), wide_runs());
    eight_emits(
        row_vectors(p, limit).begin().emit(matmul::test(Reg::R8, limit)).exit_if_ge(),
        low_runs(),
    );
}

/// The element of the first factor is in every place.
proof fn lane_of_low(x: Seq<u8>, b: Seq<u8>, i: int)
    requires
        machine::low(x, 32) == machine::repeated(b, 32),
        b.len() == 4,
        0 <= i < 8,
    ensures
        machine::lane(x, Elem::F32, i) == b,
{
    piece_of_repeated(b, i);
    assert(machine::lane(x, Elem::F32, i) =~= piece(machine::low(x, 32), i));
}

/// The vector that a round over vectors of columns stores.
pub open spec fn new_terms(fl: Floats, mem: spec_fn(int) -> u8, x: Seq<u8>, c: Call, row: int, term: int, col: int) -> Seq<u8> {
    machine::lanewise_fma(
        fl,
        x,
        machine::filled(machine::bytes(mem, c.b + 4 * (term * c.n + col), 32)),
        machine::filled(machine::bytes(mem, c.c + 4 * (row * c.n + col), 32)),
        32,
    )
}

/// A round over vectors of columns, in data.
proof fn wide_data(
    fl: Floats,
    d: Data,
    caller: Data,
    c: Call,
    bias: Option<int>,
    row: int,
    term: int,
    col: int,
) -> (t: Data)
    requires
        matmul_run::is_valid(c),
        is_at(d, caller, c, bias, row, term, col),
        col + 8 < c.n,
    ensures
        running::goes_on(running::joined(wide_runs())),
        t == machine::after_ops(
            fl,
            d,
            running::joined(wide_runs()),
            running::joined(wide_runs()).len(),
        ),
        is_at(t, caller, c, bias, row, term, col + 8),
        t.mem == machine::with_bytes(
            d.mem,
            c.c + 4 * (row * c.n + col),
            new_terms(fl, d.mem, d.wide(Reg::Ymm0), c, row, term, col),
        ),
{
    matmul_run::place_is_inside(row, col, c.m, c.n);
    matmul_run::place_is_inside(term, col, c.k, c.n);
    let d0 = offset_is_addressed(fl, d, Reg::R9, Reg::R13);
    let d1 = vector_is_loaded(fl, d0, Reg::Ymm2);
    let d2 = offset_is_addressed(fl, d1, Reg::Rdi, Reg::R14);
    let d3 = vector_is_loaded(fl, d2, Reg::Ymm1);
    let d4 = products_are_added(fl, d3);
    let d5 = offset_is_addressed(fl, d4, Reg::Rdi, Reg::R14);
    let v = new_terms(fl, d.mem, d.wide(Reg::Ymm0), c, row, term, col);
    let d6 = vector_is_stored(fl, d5, Reg::Ymm1, v);
    let d7 = matmul_run::counter_is_advanced(fl, d6, Reg::R8, 32);
    let after = seq![d0, d1, d2, d3, d4, d5, d6, d7];
    assert(running::all_follow(fl, d, wide_runs(), after));
    running::all_ops_follow(fl, d, wide_runs(), after);
    d7
}

/// The elements of the vector that a round over vectors of columns stores.
proof fn new_terms_are_terms(
    fl: Floats,
    d: Data,
    caller: Data,
    c: Call,
    bias: Option<int>,
    row: int,
    term: int,
    col: int,
    i: int,
)
    requires
        matmul_run::is_valid(c),
        is_at(d, caller, c, bias, row, term, col),
        col + 8 < c.n,
        col % 8 == 0,
        col <= wide_columns(c.n),
        has_terms(fl, d.mem, caller.mem, c, bias, row, term, col),
        0 <= i < 8,
    ensures
        piece(new_terms(fl, d.mem, d.wide(Reg::Ymm0), c, row, term, col), i)
            == matmul_run::with_term(
            fl,
            col + i < wide_columns(c.n),
            matmul_run::entry(d.mem, c.c, row * c.n + (col + i)),
            matmul_run::entry(caller.mem, c.a, row * c.k + term),
            matmul_run::entry(caller.mem, c.b, term * c.n + (col + i)),
        ),
{
    wide_columns_end(c.n, col);
    matmul_run::place_is_inside(term, col + i, c.k, c.n);
    let at_b = term * c.n + col;
    let at_c = row * c.n + col;
    let y = machine::bytes(d.mem, c.b + 4 * at_b, 32);
    let z = machine::bytes(d.mem, c.c + 4 * at_c, 32);
    piece_of_terms(fl, d.wide(Reg::Ymm0), machine::filled(y), machine::filled(z), i);
    lane_is_piece(y, i);
    lane_is_piece(z, i);
    piece_of_memory(d.mem, c.b, at_b, i);
    piece_of_memory(d.mem, c.c, at_c, i);
    lane_of_low(
        d.wide(Reg::Ymm0),
        matmul_run::entry(caller.mem, c.a, row * c.k + term),
        i,
    );
    others_are_untouched(
        fl,
        d.mem,
        caller.mem,
        c,
        bias,
        row,
        term,
        col,
        c.b,
        c.k * c.n,
        at_b + i,
    );
}

/// The loop over vectors of columns adds one term to every column that is taken in vectors.
proof fn vectors_run(
    fl: Floats,
    full: Seq<Ins>,
    p: Asm,
    d: Data,
    caller: Data,
    c: Call,
    bias: Option<int>,
    row: int,
    term: int,
    col: int,
) -> (t: Data)
    requires
        program::places_are_single(full),
        running::starts(full, row_vectors(p, limit_of(bias))),
        matmul_run::is_valid(c),
        is_at(d, caller, c, bias, row, term, col),
        col <= wide_columns(c.n),
        col % 8 == 0,
        has_terms(fl, d.mem, caller.mem, c, bias, row, term, col),
    ensures
        machine::reaches(
            fl,
            full,
            running::behind(p.emit(matmul::row_limit(limit_of(bias))).begin(), d),
            running::behind(row_vectors(p, limit_of(bias)), t),
        ),
        is_at(t, caller, c, bias, row, term, wide_columns(c.n)),
        has_terms(fl, t.mem, caller.mem, c, bias, row, term, wide_columns(c.n)),
    decreases c.n - col,
{
    let q = p.emit(matmul::row_limit(limit_of(bias)));
    let test = matmul::row_wide_test(limit_of(bias));
    let body = running::joined(wide_runs());
    let d1 = wide_is_tested(fl, d, caller, c, bias, row, col);
    wide_columns_end(c.n, col);
    if col + 8 < c.n {
        let d2 = wide_data(fl, d1, caller, c, bias, row, term, col);
        let v = new_terms(fl, d.mem, d.wide(Reg::Ymm0), c, row, term, col);
        assert forall|i: int| 0 <= i < 8 implies #[trigger] piece(v, i) == matmul_run::with_term(
            fl,
            col + i < wide_columns(c.n),
            matmul_run::entry(d.mem, c.c, row * c.n + (col + i)),
            matmul_run::entry(caller.mem, c.a, row * c.k + term),
            matmul_run::entry(caller.mem, c.b, term * c.n + (col + i)),
        ) by {
            new_terms_are_terms(fl, d, caller, c, bias, row, term, col, i);
        }
        terms_are_put(fl, d.mem, caller.mem, c, bias, row, term, col, 8, v);
        running::plain_round(fl, full, q, test, body, d, d1, d2);
        let t = vectors_run(fl, full, p, d2, caller, c, bias, row, term, col + 8);
        running::reaches_on(
            fl,
            full,
            running::behind(q.begin(), d),
            running::behind(q.begin(), d2),
            running::behind(row_vectors(p, limit_of(bias)), t),
        );
        t
    } else {
        running::plain_loop_ends(fl, full, q, test, body, d, d1);
        d1
    }
}

/// A round over single columns, in data.
proof fn low_data(
    fl: Floats,
    d: Data,
    caller: Data,
    c: Call,
    bias: Option<int>,
    row: int,
    term: int,
    col: int,
) -> (t: Data)
    requires
        matmul_run::is_valid(c),
        is_at(d, caller, c, bias, row, term, col),
        col < c.n,
    ensures
        running::goes_on(running::joined(low_runs())),
        t == machine::after_ops(
            fl,
            d,
            running::joined(low_runs()),
            running::joined(low_runs()).len(),
        ),
        is_at(t, caller, c, bias, row, term, col + 1),
        t.mem == machine::with_bytes(
            d.mem,
            c.c + 4 * (row * c.n + col),
            matmul_run::with_term(
                fl,
                false,
                matmul_run::entry(d.mem, c.c, row * c.n + col),
                matmul_run::entry(caller.mem, c.a, row * c.k + term),
                matmul_run::entry(d.mem, c.b, term * c.n + col),
            ),
        ),
{
    matmul_run::place_is_inside(row, col, c.m, c.n);
    matmul_run::place_is_inside(term, col, c.k, c.n);
    lane_of_low(
        d.wide(Reg::Xmm0),
        matmul_run::entry(caller.mem, c.a, row * c.k + term),
        0,
    );
    let d0 = offset_is_addressed(fl, d, Reg::R9, Reg::R13);
    let d1 = matmul_run::element_is_loaded(fl, d0, Reg::Xmm2);
    let d2 = offset_is_addressed(fl, d1, Reg::Rdi, Reg::R14);
    let d3 = matmul_run::element_is_loaded(fl, d2, Reg::Xmm1);
    let d4 = matmul_run::product_is_added(fl, d3);
    let d5 = offset_is_addressed(fl, d4, Reg::Rdi, Reg::R14);
    let d6 = matmul_run::element_is_stored(fl, d5, Reg::Xmm1);
    let d7 = matmul_run::counter_is_advanced(fl, d6, Reg::R8, 4);
    let after = seq![d0, d1, d2, d3, d4, d5, d6, d7];
    assert(running::all_follow(fl, d, low_runs(), after));
    running::all_ops_follow(fl, d, low_runs(), after);
    d7
}

/// The loop over single columns adds one term to every column that is left.
proof fn columns_run(
    fl: Floats,
    full: Seq<Ins>,
    p: Asm,
    d: Data,
    caller: Data,
    c: Call,
    bias: Option<int>,
    row: int,
    term: int,
    col: int,
) -> (t: Data)
    requires
        program::places_are_single(full),
        running::starts(
            full,
            running::plain_loop(
                p,
                matmul::test(Reg::R8, limit_of(bias)),
                running::joined(low_runs()),
            ),
        ),
        matmul_run::is_valid(c),
        is_at(d, caller, c, bias, row, term, col),
        wide_columns(c.n) <= col,
        has_terms(fl, d.mem, caller.mem, c, bias, row, term, col),
    ensures
        machine::reaches(
            fl,
            full,
            running::behind(p.begin(), d),
            running::behind(
                running::plain_loop(
                    p,
                    matmul::test(Reg::R8, limit_of(bias)),
                    running::joined(low_runs()),
                ),
                t,
            ),
        ),
        is_at(t, caller, c, bias, row, term, c.n),
        has_terms(fl, t.mem, caller.mem, c, bias, row, term, c.n),
    decreases c.n - col,
{
    let test = matmul::test(Reg::R8, limit_of(bias));
    let body = running::joined(low_runs());
    let d1 = matmul_run::counter_is_tested(fl, d, Reg::R8, limit_of(bias));
    if col < c.n {
        let d2 = low_data(fl, d1, caller, c, bias, row, term, col);
        let v = matmul_run::with_term(
            fl,
            false,
            matmul_run::entry(d.mem, c.c, row * c.n + col),
            matmul_run::entry(caller.mem, c.a, row * c.k + term),
            matmul_run::entry(d.mem, c.b, term * c.n + col),
        );
        matmul_run::place_is_inside(term, col, c.k, c.n);
        others_are_untouched(
            fl,
            d.mem,
            caller.mem,
            c,
            bias,
            row,
            term,
            col,
            c.b,
            c.k * c.n,
            term * c.n + col,
        );
        assert(piece(v, 0) =~= v);
        terms_are_put(fl, d.mem, caller.mem, c, bias, row, term, col, 1, v);
        running::plain_round(fl, full, p, test, body, d, d1, d2);
        let t = columns_run(fl, full, p, d2, caller, c, bias, row, term, col + 1);
        running::reaches_on(
            fl,
            full,
            running::behind(p.begin(), d),
            running::behind(p.begin(), d2),
            running::behind(running::plain_loop(p, test, body), t),
        );
        t
    } else {
        running::plain_loop_ends(fl, full, p, test, body, d, d1);
        d1
    }
}

/// The pieces of a row of terms stand where they were built.
proof fn before_row(full: Seq<Ins>, p: Asm, limit: Reg)
    requires
        running::starts(full, matmul::add_row_wide(p, limit)),
    ensures
        running::starts(full, p),
        running::starts(full, p.emit(matmul::row_limit(limit)).begin()),
        running::starts(full, row_vectors(p, limit)),
        running::starts(full, row_vectors(p, limit).begin()),
        matmul::add_row_wide(p, limit).open == p.open,
{
    row_has_two_loops(p, limit);
    running::before_plain_loop(
        full,
        row_vectors(p, limit),
        matmul::test(Reg::R8, limit),
        running::joined(low_runs()),
    );
    running::before_plain_loop(
        full,
        p.emit(matmul::row_limit(limit)),
        matmul::row_wide_test(limit),
        running::joined(wide_runs()),
    );
    running::before_ops(full, p, matmul::row_limit(limit));
}

/// A row of terms is added.
proof fn row_of_terms_runs(
    fl: Floats,
    full: Seq<Ins>,
    p: Asm,
    d: Data,
    caller: Data,
    c: Call,
    bias: Option<int>,
    row: int,
    term: int,
) -> (t: Data)
    requires
        program::places_are_single(full),
        running::starts(full, matmul::add_row_wide(p, limit_of(bias))),
        matmul_run::is_valid(c),
        is_at_row(d, caller, c, bias, row),
        d.reg(Reg::R9) == term,
        0 <= term < c.k,
        machine::low(d.wide(Reg::Ymm0), 32) == machine::repeated(
            matmul_run::entry(caller.mem, c.a, row * c.k + term),
            32,
        ),
        has_terms(fl, d.mem, caller.mem, c, bias, row, term, 0),
    ensures
        machine::reaches(
            fl,
            full,
            running::behind(p, d),
            running::behind(matmul::add_row_wide(p, limit_of(bias)), t),
        ),
        is_at(t, caller, c, bias, row, term, c.n),
        has_terms(fl, t.mem, caller.mem, c, bias, row, term, c.n),
{
    let limit = limit_of(bias);
    let q = p.emit(matmul::row_limit(limit));
    let r = row_vectors(p, limit);
    let last = matmul::add_row_wide(p, limit);
    let start = running::behind(p, d);
    before_row(full, p, limit);
    row_has_two_loops(p, limit);
    wide_columns_end(c.n, 0);
    let d1 = limit_is_set(fl, d, caller, c, bias, row);
    running::loop_opens(fl, full, p, matmul::row_limit(limit), d, d1);
    let d2 = vectors_run(fl, full, p, d1, caller, c, bias, row, term, 0);
    running::reaches_on(fl, full, start, running::behind(q.begin(), d1), running::behind(r, d2));
    running::loop_is_entered(fl, full, r, d2);
    running::reaches_on(fl, full, start, running::behind(r, d2), running::behind(r.begin(), d2));
    let t = columns_run(fl, full, r, d2, caller, c, bias, row, term, wide_columns(c.n));
    running::reaches_on(fl, full, start, running::behind(r.begin(), d2), running::behind(last, t));
    t
}

/// The work is at a term of a row.
pub open spec fn is_at_term(
    d: Data,
    caller: Data,
    c: Call,
    bias: Option<int>,
    row: int,
    term: int,
) -> bool {
    &&& is_at_row(d, caller, c, bias, row)
    &&& d.reg(Reg::R9) == term
    &&& 0 <= term <= c.k
}

/// The element at `rax` is put into every place of a vector.
proof fn element_is_spread(fl: Floats, d: Data) -> (t: Data)
    requires
        0 <= d.reg(Reg::Rax) < 0x7000_0000_0000_0000,
    ensures
        running::goes_on(matmul::spread()),
        t == machine::after_ops(fl, d, matmul::spread(), matmul::spread().len()),
        t == d.put_wide(
            Reg::Ymm0,
            machine::filled(machine::repeated(machine::bytes(d.mem, d.reg(Reg::Rax), 4), 32)),
        ),
        machine::low(t.wide(Reg::Ymm0), 32) == machine::repeated(
            machine::bytes(d.mem, d.reg(Reg::Rax), 4),
            32,
        ),
{
    reveal_with_fuel(machine::after_ops, 2);
    reveal(machine::after_op);
    let t = machine::after_ops(fl, d, matmul::spread(), 1);
    assert(machine::low(t.wide(Reg::Ymm0), 32) =~= machine::repeated(
        machine::bytes(d.mem, d.reg(Reg::Rax), 4),
        32,
    ));
    t
}

/// What stands in front of a row of terms, in the loop over terms behind `q`.
pub open spec fn row_head(q: Asm) -> Asm {
    q.begin().emit(matmul::test(Reg::R9, Reg::R11)).exit_if_ge().emit(
        matmul::element(Reg::Rdi, Reg::R11, Reg::R9, Reg::R12),
    ).emit(matmul::spread())
}

/// What stands in front of the end of the loop over terms behind `q`.
pub open spec fn terms_tail(q: Asm, limit: Reg) -> Asm {
    matmul::add_row_wide(row_head(q), limit).emit(matmul::step(Reg::R9, 1))
}

/// The pieces of the loop over terms stand where they were built.
proof fn before_terms(full: Seq<Ins>, q: Asm, limit: Reg)
    requires
        running::starts(full, terms_tail(q, limit).end()),
    ensures
        ({
            let r4 = q.begin().emit(matmul::test(Reg::R9, Reg::R11)).exit_if_ge();
            &&& running::starts(full, q)
            &&& running::starts(full, q.begin())
            &&& running::starts(full, r4)
            &&& running::starts(
                full,
                r4.emit(matmul::element(Reg::Rdi, Reg::R11, Reg::R9, Reg::R12)),
            )
            &&& running::starts(full, row_head(q))
            &&& running::starts(full, matmul::add_row_wide(row_head(q), limit))
            &&& running::starts(full, terms_tail(q, limit))
            &&& matmul::add_row_wide(row_head(q), limit).open == q.begin().open
            &&& terms_tail(q, limit).open == q.begin().open
            &&& terms_tail(q, limit).end().open == q.open
        }),
{
    let r3 = q.begin().emit(matmul::test(Reg::R9, Reg::R11));
    let r4 = r3.exit_if_ge();
    let source = matmul::element(Reg::Rdi, Reg::R11, Reg::R9, Reg::R12);
    running::before_loop(full, terms_tail(q, limit));
    running::before_ops(
        full,
        matmul::add_row_wide(row_head(q), limit),
        matmul::step(Reg::R9, 1),
    );
    before_row(full, row_head(q), limit);
    running::before_ops(full, r4.emit(source), matmul::spread());
    running::before_ops(full, r4, source);
    running::before_loop(full, r3);
    running::before_ops(full, q.begin(), matmul::test(Reg::R9, Reg::R11));
    running::before_loop(full, q);
    assert(terms_tail(q, limit).end().open =~= q.open);
}

/// The element of the first factor is put into every place of a vector.
proof fn row_is_prepared(
    fl: Floats,
    full: Seq<Ins>,
    q: Asm,
    d: Data,
    caller: Data,
    c: Call,
    bias: Option<int>,
    row: int,
    term: int,
) -> (t: Data)
    requires
        running::starts(full, terms_tail(q, limit_of(bias)).end()),
        matmul_run::is_valid(c),
        is_at_term(d, caller, c, bias, row, term),
        term < c.k,
        has_terms(fl, d.mem, caller.mem, c, bias, row, term, 0),
    ensures
        machine::reaches(
            fl,
            full,
            running::behind(q.begin(), d),
            running::behind(row_head(q), t),
        ),
        is_at_term(t, caller, c, bias, row, term),
        machine::low(t.wide(Reg::Ymm0), 32) == machine::repeated(
            matmul_run::entry(caller.mem, c.a, row * c.k + term),
            32,
        ),
        t.mem == d.mem,
{
    let test = matmul::test(Reg::R9, Reg::R11);
    let r4 = q.begin().emit(test).exit_if_ge();
    let source = matmul::element(Reg::Rdi, Reg::R11, Reg::R9, Reg::R12);
    let start = running::behind(q.begin(), d);
    before_terms(full, q, limit_of(bias));
    matmul_run::place_is_inside(row, term, c.m, c.k);
    others_are_untouched(
        fl,
        d.mem,
        caller.mem,
        c,
        bias,
        row,
        term,
        0,
        c.a,
        c.m * c.k,
        row * c.k + term,
    );
    let d1 = matmul_run::counter_is_tested(fl, d, Reg::R9, Reg::R11);
    running::round_begins(fl, full, q, test, d, d1);
    let d2 = matmul_run::element_is_addressed(fl, d1, Reg::Rdi, Reg::R11, Reg::R9, Reg::R12);
    running::runs_ops(fl, full, start, r4, source, d1, d2);
    let d3 = element_is_spread(fl, d2);
    running::runs_ops(fl, full, start, r4.emit(source), matmul::spread(), d2, d3);
    d3
}

/// The loop over terms adds all terms that are left to a row.
proof fn terms_run(
    fl: Floats,
    full: Seq<Ins>,
    q: Asm,
    d: Data,
    caller: Data,
    c: Call,
    bias: Option<int>,
    row: int,
    term: int,
) -> (t: Data)
    requires
        program::places_are_single(full),
        running::starts(full, terms_tail(q, limit_of(bias)).end()),
        matmul_run::is_valid(c),
        is_at_term(d, caller, c, bias, row, term),
        has_terms(fl, d.mem, caller.mem, c, bias, row, term, 0),
    ensures
        machine::reaches(
            fl,
            full,
            running::behind(q.begin(), d),
            running::behind(terms_tail(q, limit_of(bias)).end(), t),
        ),
        is_at_term(t, caller, c, bias, row, c.k),
        has_terms(fl, t.mem, caller.mem, c, bias, row, c.k, 0),
    decreases c.k - term,
{
    let limit = limit_of(bias);
    let test = matmul::test(Reg::R9, Reg::R11);
    let start = running::behind(q.begin(), d);
    let tail = terms_tail(q, limit);
    before_terms(full, q, limit);
    if term < c.k {
        let r = matmul::add_row_wide(row_head(q), limit);
        let d1 = row_is_prepared(fl, full, q, d, caller, c, bias, row, term);
        let d2 = row_of_terms_runs(fl, full, row_head(q), d1, caller, c, bias, row, term);
        running::reaches_on(
            fl,
            full,
            start,
            running::behind(row_head(q), d1),
            running::behind(r, d2),
        );
        let d3 = matmul_run::counter_is_advanced(fl, d2, Reg::R9, 1);
        running::round_ends(fl, full, q, r, matmul::step(Reg::R9, 1), d2, d3);
        running::reaches_on(fl, full, start, running::behind(r, d2), running::behind(q.begin(), d3));
        next_term(fl, d2.mem, caller.mem, c, bias, row, term);
        let t = terms_run(fl, full, q, d3, caller, c, bias, row, term + 1);
        running::reaches_on(
            fl,
            full,
            start,
            running::behind(q.begin(), d3),
            running::behind(tail.end(), t),
        );
        t
    } else {
        let t = matmul_run::counter_is_tested(fl, d, Reg::R9, Reg::R11);
        running::loop_ends(fl, full, q, test, tail, d, t);
        t
    }
}

/// The work of adding the bias is at a column of a row, with zeros at hand.
pub open spec fn is_biasing(d: Data, caller: Data, c: Call, bias: int, row: int, col: int) -> bool {
    &&& is_at_column(d, caller, c, Some(bias), row, col)
    &&& d.wide(Reg::Ymm3) == machine::filled(machine::zeros(32))
}

/// Zeros are at hand.
proof fn zeros_are_made(fl: Floats, d: Data) -> (t: Data)
    ensures
        running::goes_on(matmul::bias_zero()),
        t == machine::after_ops(fl, d, matmul::bias_zero(), matmul::bias_zero().len()),
        t == d.put_wide(Reg::Ymm3, machine::filled(machine::zeros(32))),
{
    reveal_with_fuel(machine::after_ops, 2);
    reveal(machine::after_op);
    machine::after_ops(fl, d, matmul::bias_zero(), 1)
}

/// The address of the bias of a column is computed.
proof fn bias_is_addressed(fl: Floats, d: Data) -> (t: Data)
    requires
        0 <= d.reg(Reg::Rbx) < 0x4000_0000_0000_0000,
        0 <= d.reg(Reg::R8) < 0x2000_0000_0000_0000,
    ensures
        running::goes_on(matmul::bias_address()),
        t == machine::after_ops(fl, d, matmul::bias_address(), matmul::bias_address().len()),
        t == d.put(Reg::Rax, d.reg(Reg::Rbx) + d.reg(Reg::R8)),
{
    reveal_with_fuel(machine::after_ops, 2);
    reveal(machine::after_op);
    machine::after_ops(fl, d, matmul::bias_address(), 1)
}

/// Eight elements with their biases, or zero where that is larger.
pub open spec fn biased(fl: Floats, bias: Seq<u8>, sum: Seq<u8>, zero: Seq<u8>) -> Seq<u8> {
    machine::lanewise(
        fl,
        Arith::Max,
        Elem::F32,
        machine::filled(machine::lanewise(fl, Arith::Add, Elem::F32, bias, sum, 32)),
        zero,
        32,
    )
}

/// Eight biases are added.
proof fn biases_are_added(fl: Floats, d: Data) -> (t: Data)
    ensures
        running::goes_on(matmul::bias_wide()),
        t == machine::after_ops(fl, d, matmul::bias_wide(), matmul::bias_wide().len()),
        t == d.put_wide(
            Reg::Ymm1,
            machine::filled(
                biased(fl, d.wide(Reg::Ymm2), d.wide(Reg::Ymm1), d.wide(Reg::Ymm3)),
            ),
        ),
{
    reveal_with_fuel(machine::after_ops, 3);
    let ops = matmul::bias_wide();
    assert(ops[0] == packed(Arith::Add, Elem::F32, Wide::Y, Reg::Ymm1, Reg::Ymm2, Reg::Ymm1));
    steps::vectors_are_combined(fl, d, Arith::Add, Elem::F32, Reg::Ymm1, Reg::Ymm2, Reg::Ymm1);
    let s1 = d.put_wide(Reg::Ymm1, machine::filled(machine::lanewise(fl, Arith::Add, Elem::F32, d.wide(Reg::Ymm2), d.wide(Reg::Ymm1), 32)));
    assert(ops[1] == packed(Arith::Max, Elem::F32, Wide::Y, Reg::Ymm1, Reg::Ymm1, Reg::Ymm3));
    steps::vectors_are_combined(fl, s1, Arith::Max, Elem::F32, Reg::Ymm1, Reg::Ymm1, Reg::Ymm3);
    let s2 = s1.put_wide(Reg::Ymm1, machine::filled(machine::lanewise(fl, Arith::Max, Elem::F32, s1.wide(Reg::Ymm1), s1.wide(Reg::Ymm3), 32)));
    assert(s2.vec =~= d.put_wide(
        Reg::Ymm1,
        machine::filled(biased(fl, d.wide(Reg::Ymm2), d.wide(Reg::Ymm1), d.wide(Reg::Ymm3))),
    ).vec);
    s2
}

/// One bias is added.
proof fn bias_is_added(fl: Floats, d: Data) -> (t: Data)
    ensures
        running::goes_on(matmul::bias_low()),
        t == machine::after_ops(fl, d, matmul::bias_low(), matmul::bias_low().len()),
        t.gpr == d.gpr,
        t.mem == d.mem,
        t.stack == d.stack,
        t.wide(Reg::Ymm3) == d.wide(Reg::Ymm3),
        machine::lane(t.wide(Reg::Xmm1), Elem::F32, 0) == with_bias(
            fl,
            false,
            machine::lane(d.wide(Reg::Xmm1), Elem::F32, 0),
            machine::lane(d.wide(Reg::Xmm2), Elem::F32, 0),
        ),
{
    reveal_with_fuel(machine::after_ops, 4);
    let d1 = steps::scalar_is_applied(fl, d, Arith::Add, Reg::Xmm1, Reg::Xmm2);
    let d2 = steps::low_is_cleared(fl, d1, Reg::Xmm2);
    let t = steps::scalar_is_applied(fl, d2, Arith::Max, Reg::Xmm1, Reg::Xmm2);
    let ops = matmul::bias_low();
    assert(ops[0] == scalar(Arith::Add, Elem::F32, Reg::Xmm1, Reg::Xmm2));
    assert(ops[1] == clear_low(Reg::Xmm2));
    assert(ops[2] == scalar(Arith::Max, Elem::F32, Reg::Xmm1, Reg::Xmm2));
    assert(d2.wide(Reg::Xmm1) == d1.wide(Reg::Xmm1));
    t
}

/// The body of the loop over vectors of biases, in runs.
pub open spec fn bias_wide_runs() -> Seq<Seq<Op>> {
    seq![
        matmul::row_offset(Reg::Rdi, Reg::R14),
        matmul::load_wide(Reg::Ymm1),
        matmul::bias_address(),
        matmul::load_wide(Reg::Ymm2),
        matmul::bias_wide(),
        matmul::row_offset(Reg::Rdi, Reg::R14),
        matmul::store_wide(Reg::Ymm1),
        matmul::step(Reg::R8, 32),
    ]
}

/// The body of the loop over single biases, in runs.
pub open spec fn bias_low_runs() -> Seq<Seq<Op>> {
    seq![
        matmul::row_offset(Reg::Rdi, Reg::R14),
        matmul::load_low(Reg::Xmm1),
        matmul::bias_address(),
        matmul::load_low(Reg::Xmm2),
        matmul::bias_low(),
        matmul::row_offset(Reg::Rdi, Reg::R14),
        matmul::store_low(Reg::Xmm1),
        matmul::step(Reg::R8, 4),
    ]
}

/// What stands in front of the single biases.
pub open spec fn bias_vectors(p: Asm) -> Asm {
    running::plain_loop(
        p.emit(matmul::bias_zero()).emit(matmul::row_limit(Reg::Rcx)),
        matmul::row_wide_test(Reg::Rcx),
        running::joined(bias_wide_runs()),
    )
}

/// Adding the bias to a row is a loop over vectors and a loop over single columns.
proof fn bias_has_two_loops(p: Asm)
    ensures
        matmul::bias_row(p) == running::plain_loop(
            bias_vectors(p),
            matmul::test(Reg::R8, Reg::Rcx),
            running::joined(bias_low_runs()),
        ),
{
    let q = p.emit(matmul::bias_zero()).emit(matmul::row_limit(Reg::Rcx));
    eight_emits(q.begin().emit(matmul::row_wide_test(Reg::Rcx)).exit_if_ge(), bias_wide_runs());
    eight_emits(
        bias_vectors(p).begin().emit(matmul::test(Reg::R8, Reg::Rcx)).exit_if_ge(),
        bias_low_runs(),
    );
}

/// The vector that a round over vectors of biases stores.
pub open spec fn new_biased(
    fl: Floats,
    mem: spec_fn(int) -> u8,
    c: Call,
    bias: int,
    row: int,
    col: int,
) -> Seq<u8> {
    biased(
        fl,
        machine::filled(machine::bytes(mem, bias + 4 * col, 32)),
        machine::filled(machine::bytes(mem, c.c + 4 * (row * c.n + col), 32)),
        machine::filled(machine::zeros(32)),
    )
}

/// A round over vectors of biases, in data.
proof fn bias_wide_data(
    fl: Floats,
    d: Data,
    caller: Data,
    c: Call,
    bias: int,
    row: int,
    col: int,
) -> (t: Data)
    requires
        matmul_run::is_valid(c),
        bias_is_valid(c, Some(bias)),
        is_biasing(d, caller, c, bias, row, col),
        col + 8 < c.n,
    ensures
        running::goes_on(running::joined(bias_wide_runs())),
        t == machine::after_ops(
            fl,
            d,
            running::joined(bias_wide_runs()),
            running::joined(bias_wide_runs()).len(),
        ),
        is_biasing(t, caller, c, bias, row, col + 8),
        t.mem == machine::with_bytes(
            d.mem,
            c.c + 4 * (row * c.n + col),
            new_biased(fl, d.mem, c, bias, row, col),
        ),
{
    matmul_run::place_is_inside(row, col, c.m, c.n);
    let d0 = offset_is_addressed(fl, d, Reg::Rdi, Reg::R14);
    let d1 = vector_is_loaded(fl, d0, Reg::Ymm1);
    let d2 = bias_is_addressed(fl, d1);
    let d3 = vector_is_loaded(fl, d2, Reg::Ymm2);
    let d4 = biases_are_added(fl, d3);
    let d5 = offset_is_addressed(fl, d4, Reg::Rdi, Reg::R14);
    let d6 = vector_is_stored(fl, d5, Reg::Ymm1, new_biased(fl, d.mem, c, bias, row, col));
    let d7 = matmul_run::counter_is_advanced(fl, d6, Reg::R8, 32);
    let after = seq![d0, d1, d2, d3, d4, d5, d6, d7];
    assert(running::all_follow(fl, d, bias_wide_runs(), after));
    running::all_ops_follow(fl, d, bias_wide_runs(), after);
    d7
}

/// The elements of the vector that a round over vectors of biases stores.
proof fn new_biased_are_biased(
    fl: Floats,
    mem: spec_fn(int) -> u8,
    before: spec_fn(int) -> u8,
    c: Call,
    bias: int,
    row: int,
    col: int,
    i: int,
)
    requires
        matmul_run::is_valid(c),
        bias_is_valid(c, Some(bias)),
        0 <= col,
        col + 8 < c.n,
        col % 8 == 0,
        col <= wide_columns(c.n),
        has_bias(fl, mem, before, c, Some(bias), row, col),
        0 <= i < 8,
    ensures
        piece(new_biased(fl, mem, c, bias, row, col), i) == with_bias(
            fl,
            col + i < wide_columns(c.n),
            matmul_run::entry(mem, c.c, row * c.n + (col + i)),
            matmul_run::entry(before, bias, col + i),
        ),
{
    wide_columns_end(c.n, col);
    let at_c = row * c.n + col;
    let y = machine::bytes(mem, bias + 4 * col, 32);
    let z = machine::bytes(mem, c.c + 4 * at_c, 32);
    let sums = machine::lanewise(
        fl,
        Arith::Add,
        Elem::F32,
        machine::filled(y),
        machine::filled(z),
        32,
    );
    piece_of_results(fl, Arith::Add, machine::filled(y), machine::filled(z), i);
    piece_of_results(
        fl,
        Arith::Max,
        machine::filled(sums),
        machine::filled(machine::zeros(32)),
        i,
    );
    lane_is_piece(y, i);
    lane_is_piece(z, i);
    lane_is_piece(sums, i);
    lane_is_piece(machine::zeros(32), i);
    assert(piece(machine::zeros(32), i) =~= machine::zeros(4));
    piece_of_memory(mem, bias, col, i);
    piece_of_memory(mem, c.c, at_c, i);
    others_are_untouched(fl, mem, before, c, Some(bias), row, 0, col, bias, c.n, col + i);
}

/// The loop over vectors of biases adds the bias to every column that is taken in vectors.
proof fn bias_vectors_run(
    fl: Floats,
    full: Seq<Ins>,
    p: Asm,
    d: Data,
    caller: Data,
    c: Call,
    bias: int,
    row: int,
    col: int,
) -> (t: Data)
    requires
        program::places_are_single(full),
        running::starts(full, bias_vectors(p)),
        matmul_run::is_valid(c),
        bias_is_valid(c, Some(bias)),
        is_biasing(d, caller, c, bias, row, col),
        col <= wide_columns(c.n),
        col % 8 == 0,
        has_bias(fl, d.mem, caller.mem, c, Some(bias), row, col),
    ensures
        machine::reaches(
            fl,
            full,
            running::behind(
                p.emit(matmul::bias_zero()).emit(matmul::row_limit(Reg::Rcx)).begin(),
                d,
            ),
            running::behind(bias_vectors(p), t),
        ),
        is_biasing(t, caller, c, bias, row, wide_columns(c.n)),
        has_bias(fl, t.mem, caller.mem, c, Some(bias), row, wide_columns(c.n)),
    decreases c.n - col,
{
    let q = p.emit(matmul::bias_zero()).emit(matmul::row_limit(Reg::Rcx));
    let test = matmul::row_wide_test(Reg::Rcx);
    let body = running::joined(bias_wide_runs());
    let d1 = wide_is_tested(fl, d, caller, c, Some(bias), row, col);
    wide_columns_end(c.n, col);
    if col + 8 < c.n {
        let d2 = bias_wide_data(fl, d1, caller, c, bias, row, col);
        let v = new_biased(fl, d.mem, c, bias, row, col);
        assert forall|i: int| 0 <= i < 8 implies #[trigger] piece(v, i) == with_bias(
            fl,
            col + i < wide_columns(c.n),
            matmul_run::entry(d.mem, c.c, row * c.n + (col + i)),
            matmul_run::entry(caller.mem, bias, col + i),
        ) by {
            new_biased_are_biased(fl, d.mem, caller.mem, c, bias, row, col, i);
        }
        biases_are_put(fl, d.mem, caller.mem, c, bias, row, col, 8, v);
        running::plain_round(fl, full, q, test, body, d, d1, d2);
        let t = bias_vectors_run(fl, full, p, d2, caller, c, bias, row, col + 8);
        running::reaches_on(
            fl,
            full,
            running::behind(q.begin(), d),
            running::behind(q.begin(), d2),
            running::behind(bias_vectors(p), t),
        );
        t
    } else {
        running::plain_loop_ends(fl, full, q, test, body, d, d1);
        d1
    }
}

/// A round over single biases, in data.
proof fn bias_low_data(
    fl: Floats,
    d: Data,
    caller: Data,
    c: Call,
    bias: int,
    row: int,
    col: int,
) -> (t: Data)
    requires
        matmul_run::is_valid(c),
        bias_is_valid(c, Some(bias)),
        is_biasing(d, caller, c, bias, row, col),
        col < c.n,
    ensures
        running::goes_on(running::joined(bias_low_runs())),
        t == machine::after_ops(
            fl,
            d,
            running::joined(bias_low_runs()),
            running::joined(bias_low_runs()).len(),
        ),
        is_biasing(t, caller, c, bias, row, col + 1),
        t.mem == machine::with_bytes(
            d.mem,
            c.c + 4 * (row * c.n + col),
            with_bias(
                fl,
                false,
                matmul_run::entry(d.mem, c.c, row * c.n + col),
                matmul_run::entry(d.mem, bias, col),
            ),
        ),
{
    matmul_run::place_is_inside(row, col, c.m, c.n);
    let d0 = offset_is_addressed(fl, d, Reg::Rdi, Reg::R14);
    let d1 = matmul_run::element_is_loaded(fl, d0, Reg::Xmm1);
    let d2 = bias_is_addressed(fl, d1);
    let d3 = matmul_run::element_is_loaded(fl, d2, Reg::Xmm2);
    let d4 = bias_is_added(fl, d3);
    let d5 = offset_is_addressed(fl, d4, Reg::Rdi, Reg::R14);
    let d6 = matmul_run::element_is_stored(fl, d5, Reg::Xmm1);
    let d7 = matmul_run::counter_is_advanced(fl, d6, Reg::R8, 4);
    let after = seq![d0, d1, d2, d3, d4, d5, d6, d7];
    assert(running::all_follow(fl, d, bias_low_runs(), after));
    running::all_ops_follow(fl, d, bias_low_runs(), after);
    d7
}

/// The loop over single biases adds the bias to every column that is left.
proof fn bias_columns_run(
    fl: Floats,
    full: Seq<Ins>,
    p: Asm,
    d: Data,
    caller: Data,
    c: Call,
    bias: int,
    row: int,
    col: int,
) -> (t: Data)
    requires
        program::places_are_single(full),
        running::starts(
            full,
            running::plain_loop(
                p,
                matmul::test(Reg::R8, Reg::Rcx),
                running::joined(bias_low_runs()),
            ),
        ),
        matmul_run::is_valid(c),
        bias_is_valid(c, Some(bias)),
        is_biasing(d, caller, c, bias, row, col),
        wide_columns(c.n) <= col,
        has_bias(fl, d.mem, caller.mem, c, Some(bias), row, col),
    ensures
        machine::reaches(
            fl,
            full,
            running::behind(p.begin(), d),
            running::behind(
                running::plain_loop(
                    p,
                    matmul::test(Reg::R8, Reg::Rcx),
                    running::joined(bias_low_runs()),
                ),
                t,
            ),
        ),
        is_biasing(t, caller, c, bias, row, c.n),
        has_bias(fl, t.mem, caller.mem, c, Some(bias), row, c.n),
    decreases c.n - col,
{
    let test = matmul::test(Reg::R8, Reg::Rcx);
    let body = running::joined(bias_low_runs());
    let d1 = matmul_run::counter_is_tested(fl, d, Reg::R8, Reg::Rcx);
    if col < c.n {
        let d2 = bias_low_data(fl, d1, caller, c, bias, row, col);
        let v = with_bias(
            fl,
            false,
            matmul_run::entry(d.mem, c.c, row * c.n + col),
            matmul_run::entry(d.mem, bias, col),
        );
        others_are_untouched(
            fl,
            d.mem,
            caller.mem,
            c,
            Some(bias),
            row,
            0,
            col,
            bias,
            c.n,
            col,
        );
        assert(piece(v, 0) =~= v);
        biases_are_put(fl, d.mem, caller.mem, c, bias, row, col, 1, v);
        running::plain_round(fl, full, p, test, body, d, d1, d2);
        let t = bias_columns_run(fl, full, p, d2, caller, c, bias, row, col + 1);
        running::reaches_on(
            fl,
            full,
            running::behind(p.begin(), d),
            running::behind(p.begin(), d2),
            running::behind(running::plain_loop(p, test, body), t),
        );
        t
    } else {
        running::plain_loop_ends(fl, full, p, test, body, d, d1);
        d1
    }
}

/// The pieces of adding the bias to a row stand where they were built.
proof fn before_bias(full: Seq<Ins>, p: Asm)
    requires
        running::starts(full, matmul::bias_row(p)),
    ensures
        running::starts(full, p),
        running::starts(full, p.emit(matmul::bias_zero())),
        running::starts(
            full,
            p.emit(matmul::bias_zero()).emit(matmul::row_limit(Reg::Rcx)).begin(),
        ),
        running::starts(full, bias_vectors(p)),
        running::starts(full, bias_vectors(p).begin()),
        matmul::bias_row(p).open == p.open,
{
    let q = p.emit(matmul::bias_zero());
    bias_has_two_loops(p);
    running::before_plain_loop(
        full,
        bias_vectors(p),
        matmul::test(Reg::R8, Reg::Rcx),
        running::joined(bias_low_runs()),
    );
    running::before_plain_loop(
        full,
        q.emit(matmul::row_limit(Reg::Rcx)),
        matmul::row_wide_test(Reg::Rcx),
        running::joined(bias_wide_runs()),
    );
    running::before_ops(full, q, matmul::row_limit(Reg::Rcx));
    running::before_ops(full, p, matmul::bias_zero());
}

/// The bias is added to a row.
proof fn bias_row_runs(
    fl: Floats,
    full: Seq<Ins>,
    p: Asm,
    d: Data,
    caller: Data,
    c: Call,
    bias: int,
    row: int,
) -> (t: Data)
    requires
        program::places_are_single(full),
        running::starts(full, matmul::bias_row(p)),
        matmul_run::is_valid(c),
        bias_is_valid(c, Some(bias)),
        is_at_row(d, caller, c, Some(bias), row),
        has_bias(fl, d.mem, caller.mem, c, Some(bias), row, 0),
    ensures
        machine::reaches(
            fl,
            full,
            running::behind(p, d),
            running::behind(matmul::bias_row(p), t),
        ),
        is_at_row(t, caller, c, Some(bias), row),
        has_bias(fl, t.mem, caller.mem, c, Some(bias), row, c.n),
{
    let q = p.emit(matmul::bias_zero());
    let q1 = q.emit(matmul::row_limit(Reg::Rcx));
    let r = bias_vectors(p);
    let start = running::behind(p, d);
    before_bias(full, p);
    bias_has_two_loops(p);
    wide_columns_end(c.n, 0);
    let d1 = zeros_are_made(fl, d);
    running::ops_run(fl, full, p, matmul::bias_zero(), d);
    let d2 = limit_is_set(fl, d1, caller, c, Some(bias), row);
    running::loop_opens(fl, full, q, matmul::row_limit(Reg::Rcx), d1, d2);
    running::reaches_on(fl, full, start, running::behind(q, d1), running::behind(q1.begin(), d2));
    let d3 = bias_vectors_run(fl, full, p, d2, caller, c, bias, row, 0);
    running::reaches_on(fl, full, start, running::behind(q1.begin(), d2), running::behind(r, d3));
    running::loop_is_entered(fl, full, r, d3);
    running::reaches_on(fl, full, start, running::behind(r, d3), running::behind(r.begin(), d3));
    let t = bias_columns_run(fl, full, r, d3, caller, c, bias, row, wide_columns(c.n));
    running::reaches_on(
        fl,
        full,
        start,
        running::behind(r.begin(), d3),
        running::behind(matmul::bias_row(p), t),
    );
    t
}

/// What stands behind the terms of a row.
pub open spec fn terms_end(q: Asm, limit: Reg) -> Asm {
    terms_tail(
        q.begin().emit(matmul::test(Reg::Rdi, Reg::R10)).exit_if_ge().emit(
            matmul::start(Reg::R9),
        ),
        limit,
    ).end()
}

/// What stands behind a row, in the loop over rows behind `q`.
pub open spec fn row_end(q: Asm, bias: Option<int>) -> Asm {
    match bias {
        Some(_) => matmul::bias_row(terms_end(q, Reg::Rcx)),
        None => terms_end(q, Reg::Rbx),
    }
}

/// What stands in front of the end of the loop over rows behind `q`.
pub open spec fn rows_tail(q: Asm, bias: Option<int>) -> Asm {
    row_end(q, bias).emit(matmul::step(Reg::Rdi, 1))
}

/// The pieces of the loop over rows stand where they were built.
proof fn before_rows(full: Seq<Ins>, q: Asm, bias: Option<int>)
    requires
        running::starts(full, rows_tail(q, bias).end()),
    ensures
        ({
            let q4 = q.begin().emit(matmul::test(Reg::Rdi, Reg::R10)).exit_if_ge();
            &&& running::starts(full, q)
            &&& running::starts(full, q.begin())
            &&& running::starts(full, q4)
            &&& running::starts(full, q4.emit(matmul::start(Reg::R9)).begin())
            &&& running::starts(full, terms_end(q, limit_of(bias)))
            &&& running::starts(full, row_end(q, bias))
            &&& running::starts(full, rows_tail(q, bias))
            &&& row_end(q, bias).open == q.begin().open
            &&& rows_tail(q, bias).open == q.begin().open
        }),
{
    let q3 = q.begin().emit(matmul::test(Reg::Rdi, Reg::R10));
    let q4 = q3.exit_if_ge();
    running::before_loop(full, rows_tail(q, bias));
    running::before_ops(full, row_end(q, bias), matmul::step(Reg::Rdi, 1));
    if bias is Some {
        before_bias(full, terms_end(q, Reg::Rcx));
    }
    before_terms(full, q4.emit(matmul::start(Reg::R9)), limit_of(bias));
    running::before_ops(full, q4, matmul::start(Reg::R9));
    running::before_loop(full, q3);
    running::before_ops(full, q.begin(), matmul::test(Reg::Rdi, Reg::R10));
    running::before_loop(full, q);
}

/// The work is in front of a row.
pub open spec fn is_before_row(d: Data, caller: Data, c: Call, bias: Option<int>, row: int) -> bool {
    &&& is_inside(d, caller, c, bias)
    &&& d.reg(Reg::Rdi) == row
    &&& 0 <= row <= c.m
}

/// The terms of a row, from the head of the loop over rows on.
proof fn row_gets_terms(
    fl: Floats,
    full: Seq<Ins>,
    q: Asm,
    d: Data,
    caller: Data,
    c: Call,
    bias: Option<int>,
    row: int,
) -> (t: Data)
    requires
        program::places_are_single(full),
        running::starts(full, rows_tail(q, bias).end()),
        matmul_run::is_valid(c),
        is_before_row(d, caller, c, bias, row),
        row < c.m,
        has_terms(fl, d.mem, caller.mem, c, bias, row, 0, 0),
    ensures
        machine::reaches(
            fl,
            full,
            running::behind(q.begin(), d),
            running::behind(terms_end(q, limit_of(bias)), t),
        ),
        is_at_row(t, caller, c, bias, row),
        has_bias(fl, t.mem, caller.mem, c, bias, row, 0),
{
    let test = matmul::test(Reg::Rdi, Reg::R10);
    let q4 = q.begin().emit(test).exit_if_ge();
    let r = q4.emit(matmul::start(Reg::R9));
    let start = running::behind(q.begin(), d);
    before_rows(full, q, bias);
    let d1 = matmul_run::counter_is_tested(fl, d, Reg::Rdi, Reg::R10);
    running::round_begins(fl, full, q, test, d, d1);
    let d2 = matmul_run::counter_is_started(fl, d1, Reg::R9);
    running::loop_opens(fl, full, q4, matmul::start(Reg::R9), d1, d2);
    running::reaches_on(fl, full, start, running::behind(q4, d1), running::behind(r.begin(), d2));
    let t = terms_run(fl, full, r, d2, caller, c, bias, row, 0);
    running::reaches_on(
        fl,
        full,
        start,
        running::behind(r.begin(), d2),
        running::behind(terms_end(q, limit_of(bias)), t),
    );
    bias_comes_next(fl, t.mem, caller.mem, c, bias, row);
    t
}

/// A row is finished, from the head of the loop over rows on.
proof fn row_is_finished(
    fl: Floats,
    full: Seq<Ins>,
    q: Asm,
    d: Data,
    caller: Data,
    c: Call,
    bias: Option<int>,
    row: int,
) -> (t: Data)
    requires
        program::places_are_single(full),
        running::starts(full, rows_tail(q, bias).end()),
        matmul_run::is_valid(c),
        bias_is_valid(c, bias),
        is_before_row(d, caller, c, bias, row),
        row < c.m,
        has_terms(fl, d.mem, caller.mem, c, bias, row, 0, 0),
    ensures
        machine::reaches(
            fl,
            full,
            running::behind(q.begin(), d),
            running::behind(row_end(q, bias), t),
        ),
        is_at_row(t, caller, c, bias, row),
        has_bias(fl, t.mem, caller.mem, c, bias, row, c.n),
{
    before_rows(full, q, bias);
    let d1 = row_gets_terms(fl, full, q, d, caller, c, bias, row);
    match bias {
        Some(b) => {
            let r = terms_end(q, Reg::Rcx);
            let t = bias_row_runs(fl, full, r, d1, caller, c, b, row);
            running::reaches_on(
                fl,
                full,
                running::behind(q.begin(), d),
                running::behind(r, d1),
                running::behind(row_end(q, bias), t),
            );
            t
        },
        None => {
            sums_are_finished(fl, d1.mem, caller.mem, c, row);
            d1
        },
    }
}

/// The loop over rows finishes all rows that are left.
proof fn rows_run(
    fl: Floats,
    full: Seq<Ins>,
    q: Asm,
    d: Data,
    caller: Data,
    c: Call,
    bias: Option<int>,
    row: int,
) -> (t: Data)
    requires
        program::places_are_single(full),
        running::starts(full, rows_tail(q, bias).end()),
        matmul_run::is_valid(c),
        bias_is_valid(c, bias),
        is_before_row(d, caller, c, bias, row),
        has_terms(fl, d.mem, caller.mem, c, bias, row, 0, 0),
    ensures
        machine::reaches(
            fl,
            full,
            running::behind(q.begin(), d),
            running::behind(rows_tail(q, bias).end(), t),
        ),
        is_inside(t, caller, c, bias),
        has_terms(fl, t.mem, caller.mem, c, bias, c.m, 0, 0),
    decreases c.m - row,
{
    let start = running::behind(q.begin(), d);
    before_rows(full, q, bias);
    if row < c.m {
        let step = matmul::step(Reg::Rdi, 1);
        let r = row_end(q, bias);
        let d1 = row_is_finished(fl, full, q, d, caller, c, bias, row);
        let d2 = matmul_run::counter_is_advanced(fl, d1, Reg::Rdi, 1);
        running::round_ends(fl, full, q, r, step, d1, d2);
        running::reaches_on(fl, full, start, running::behind(r, d1), running::behind(q.begin(), d2));
        next_row(fl, d1.mem, caller.mem, c, bias, row);
        let t = rows_run(fl, full, q, d2, caller, c, bias, row + 1);
        running::reaches_on(
            fl,
            full,
            start,
            running::behind(q.begin(), d2),
            running::behind(rows_tail(q, bias).end(), t),
        );
        t
    } else {
        let t = matmul_run::counter_is_tested(fl, d, Reg::Rdi, Reg::R10);
        running::loop_ends(
            fl,
            full,
            q,
            matmul::test(Reg::Rdi, Reg::R10),
            rows_tail(q, bias),
            d,
            t,
        );
        t
    }
}

/// The work of clearing is at an element of the product.
pub open spec fn is_clearing(d: Data, caller: Data, c: Call, bias: Option<int>, t: int) -> bool {
    &&& is_inside(d, caller, c, bias)
    &&& d.reg(Reg::Rdi) == c.m * c.n
    &&& d.reg(Reg::Rsi) == 4 * t
    &&& 0 <= t <= c.m * c.n
    &&& d.wide(Reg::Ymm0) == machine::filled(machine::zeros(32))
}

/// Clearing starts at the first element.
proof fn clearing_is_started(fl: Floats, d: Data, caller: Data, c: Call, bias: Option<int>) -> (t:
    Data)
    requires
        matmul_run::is_valid(c),
        is_inside(d, caller, c, bias),
    ensures
        running::goes_on(matmul::zero_wide()),
        t == machine::after_ops(fl, d, matmul::zero_wide(), matmul::zero_wide().len()),
        is_clearing(t, caller, c, bias, 0),
        t.mem == d.mem,
{
    reveal_with_fuel(machine::after_ops, 5);
    let ops = matmul::zero_wide();
    assert(ops[0] == vclear(Elem::F32, Wide::Y, Reg::Ymm0));
    steps::register_is_cleared(fl, d, Elem::F32, Wide::Y, Reg::Ymm0);
    let s1 = d.put_wide(Reg::Ymm0, machine::filled(machine::zeros(machine::width(Wide::Y))));
    assert(ops[1] == mov(Reg::Rdi, Reg::R10));
    steps::reg_is_set(fl, s1, Reg::Rdi, Reg::R10);
    let s2 = s1.put(Reg::Rdi, s1.reg(Reg::R10));
    assert(ops[2] == imul(Reg::Rdi, Reg::R15));
    steps::reg_is_multiplied(fl, s2, Reg::Rdi, Reg::R15);
    let s3 = steps::with_reg(s2, Reg::Rdi, s2.reg(Reg::Rdi) * s2.reg(Reg::R15));
    assert(ops[3] == clear(Reg::Rsi));
    steps::reg_is_cleared(fl, s3, Reg::Rsi);
    let s4 = steps::with_reg(s3, Reg::Rsi, 0);
    s4
}

/// Whether a whole vector and more is left to be cleared.
proof fn clearing_is_tested(
    fl: Floats,
    d: Data,
    caller: Data,
    c: Call,
    bias: Option<int>,
    t: int,
) -> (u: Data)
    requires
        matmul_run::is_valid(c),
        is_clearing(d, caller, c, bias, t),
    ensures
        running::goes_on(matmul::zero_wide_test()),
        u == machine::after_ops(fl, d, matmul::zero_wide_test(), matmul::zero_wide_test().len()),
        is_clearing(u, caller, c, bias, t),
        u.mem == d.mem,
        u.less == Some(t + 8 < c.m * c.n),
{
    reveal_with_fuel(machine::after_ops, 5);
    let ops = matmul::zero_wide_test();
    assert(ops[0] == mov(Reg::Rax, Reg::Rdi));
    steps::reg_is_set(fl, d, Reg::Rax, Reg::Rdi);
    let s1 = d.put(Reg::Rax, d.reg(Reg::Rdi));
    assert(ops[1] == scale(Reg::Rax, Elem::F32));
    steps::reg_is_scaled_to(fl, s1, Reg::Rax, Elem::F32);
    let s2 = steps::with_reg(s1, Reg::Rax, s1.reg(Reg::Rax) * machine::size(Elem::F32));
    assert(ops[2] == sub_imm(Reg::Rax, 32));
    steps::reg_is_reduced(fl, s2, Reg::Rax, 32);
    let s3 = steps::with_reg(s2, Reg::Rax, s2.reg(Reg::Rax) - 32);
    assert(ops[3] == compare(Reg::Rsi, Reg::Rax));
    steps::regs_are_compared(fl, s3, Reg::Rsi, Reg::Rax);
    let s4 = Data { less: Some(s3.reg(Reg::Rsi) < s3.reg(Reg::Rax)), ..s3 };
    s4
}

/// Eight elements are cleared.
proof fn vector_is_cleared(fl: Floats, d: Data, caller: Data, c: Call, bias: Option<int>, t: int) -> (u:
    Data)
    requires
        matmul_run::is_valid(c),
        is_clearing(d, caller, c, bias, t),
        t + 8 < c.m * c.n,
    ensures
        running::goes_on(matmul::zero_wide_step()),
        u == machine::after_ops(fl, d, matmul::zero_wide_step(), matmul::zero_wide_step().len()),
        is_clearing(u, caller, c, bias, t + 8),
        u.mem == machine::with_bytes(d.mem, c.c + 4 * t, machine::zeros(32)),
{
    reveal_with_fuel(machine::after_ops, 4);
    assert(machine::low(machine::filled(machine::zeros(32)), 32) =~= machine::zeros(32));
    let ops = matmul::zero_wide_step();
    assert(ops[0] == lea_sum(Reg::Rax, Reg::R14, Reg::Rsi));
    steps::sum_is_addressed(fl, d, Reg::Rax, Reg::R14, Reg::Rsi);
    let s1 = d.put(Reg::Rax, d.reg(Reg::R14) + d.reg(Reg::Rsi));
    assert(ops[1] == vstore(Elem::F32, Wide::Y, at(Reg::Rax), Reg::Ymm0));
    steps::vector_is_stored(fl, s1, Elem::F32, Wide::Y, Reg::Ymm0, Reg::Rax);
    let s2 = s1.put_bytes(s1.reg(Reg::Rax), machine::low(s1.wide(Reg::Ymm0), machine::width(Wide::Y)));
    assert(ops[2] == add_imm(Reg::Rsi, 32));
    steps::reg_is_advanced(fl, s2, Reg::Rsi, 32);
    let s3 = steps::with_reg(s2, Reg::Rsi, s2.reg(Reg::Rsi) + 32);
    s3
}

/// The number of bytes to be cleared is at hand.
proof fn clearing_is_limited(
    fl: Floats,
    d: Data,
    caller: Data,
    c: Call,
    bias: Option<int>,
    t: int,
) -> (u: Data)
    requires
        matmul_run::is_valid(c),
        is_clearing(d, caller, c, bias, t),
    ensures
        running::goes_on(matmul::zero_limit()),
        u == machine::after_ops(fl, d, matmul::zero_limit(), matmul::zero_limit().len()),
        is_clearing(u, caller, c, bias, t),
        u.mem == d.mem,
        u.reg(Reg::Rax) == 4 * (c.m * c.n),
{
    reveal_with_fuel(machine::after_ops, 3);
    let ops = matmul::zero_limit();
    assert(ops[0] == mov(Reg::Rax, Reg::Rdi));
    steps::reg_is_set(fl, d, Reg::Rax, Reg::Rdi);
    let s1 = d.put(Reg::Rax, d.reg(Reg::Rdi));
    assert(ops[1] == scale(Reg::Rax, Elem::F32));
    steps::reg_is_scaled_to(fl, s1, Reg::Rax, Elem::F32);
    let s2 = steps::with_reg(s1, Reg::Rax, s1.reg(Reg::Rax) * machine::size(Elem::F32));
    s2
}

/// One element is cleared.
proof fn element_is_cleared(
    fl: Floats,
    d: Data,
    caller: Data,
    c: Call,
    bias: Option<int>,
    t: int,
) -> (u: Data)
    requires
        matmul_run::is_valid(c),
        is_clearing(d, caller, c, bias, t),
        t < c.m * c.n,
    ensures
        running::goes_on(matmul::zero_step(limit_of(bias))),
        u == machine::after_ops(
            fl,
            d,
            matmul::zero_step(limit_of(bias)),
            matmul::zero_step(limit_of(bias)).len(),
        ),
        is_clearing(u, caller, c, bias, t + 1),
        u.reg(Reg::Rax) == d.reg(Reg::Rax),
        u.mem == machine::with_bytes(d.mem, c.c + 4 * t, machine::zeros(4)),
{
    reveal_with_fuel(machine::after_ops, 4);
    assert(machine::lane(machine::filled(machine::zeros(32)), Elem::F32, 0) =~= machine::zeros(4));
    let ops = matmul::zero_step(limit_of(bias));
    assert(ops[0] == lea_sum(limit_of(bias), Reg::R14, Reg::Rsi));
    steps::sum_is_addressed(fl, d, limit_of(bias), Reg::R14, Reg::Rsi);
    let s1 = d.put(limit_of(bias), d.reg(Reg::R14) + d.reg(Reg::Rsi));
    assert(ops[1] == store(Elem::F32, at(limit_of(bias)), Reg::Xmm0));
    let s2 = steps::low_is_stored(fl, s1, Elem::F32, Reg::Xmm0, limit_of(bias));
    assert(ops[2] == add_imm(Reg::Rsi, 4));
    steps::reg_is_advanced(fl, s2, Reg::Rsi, 4);
    let s3 = steps::with_reg(s2, Reg::Rsi, s2.reg(Reg::Rsi) + 4);
    s3
}

/// The loop that clears vectors.
proof fn vectors_are_cleared(
    fl: Floats,
    full: Seq<Ins>,
    p: Asm,
    d: Data,
    caller: Data,
    c: Call,
    bias: Option<int>,
    t: int,
) -> (u: (Data, int))
    requires
        program::places_are_single(full),
        running::starts(
            full,
            running::plain_loop(p, matmul::zero_wide_test(), matmul::zero_wide_step()),
        ),
        matmul_run::is_valid(c),
        is_clearing(d, caller, c, bias, t),
        matmul_run::is_cleared(d.mem, caller.mem, c, t),
    ensures
        machine::reaches(
            fl,
            full,
            running::behind(p.begin(), d),
            running::behind(
                running::plain_loop(p, matmul::zero_wide_test(), matmul::zero_wide_step()),
                u.0,
            ),
        ),
        is_clearing(u.0, caller, c, bias, u.1),
        matmul_run::is_cleared(u.0.mem, caller.mem, c, u.1),
    decreases c.m * c.n - t,
{
    let test = matmul::zero_wide_test();
    let body = matmul::zero_wide_step();
    let d1 = clearing_is_tested(fl, d, caller, c, bias, t);
    if t + 8 < c.m * c.n {
        let d2 = vector_is_cleared(fl, d1, caller, c, bias, t);
        zeros_are_put(d.mem, caller.mem, c, t, 8);
        running::plain_round(fl, full, p, test, body, d, d1, d2);
        let u = vectors_are_cleared(fl, full, p, d2, caller, c, bias, t + 8);
        running::reaches_on(
            fl,
            full,
            running::behind(p.begin(), d),
            running::behind(p.begin(), d2),
            running::behind(running::plain_loop(p, test, body), u.0),
        );
        u
    } else {
        running::plain_loop_ends(fl, full, p, test, body, d, d1);
        (d1, t)
    }
}

/// The loop that clears single elements.
proof fn elements_are_cleared(
    fl: Floats,
    full: Seq<Ins>,
    p: Asm,
    d: Data,
    caller: Data,
    c: Call,
    bias: Option<int>,
    t: int,
) -> (u: Data)
    requires
        program::places_are_single(full),
        running::starts(
            full,
            running::plain_loop(
                p,
                matmul::test(Reg::Rsi, Reg::Rax),
                matmul::zero_step(limit_of(bias)),
            ),
        ),
        matmul_run::is_valid(c),
        is_clearing(d, caller, c, bias, t),
        d.reg(Reg::Rax) == 4 * (c.m * c.n),
        matmul_run::is_cleared(d.mem, caller.mem, c, t),
    ensures
        machine::reaches(
            fl,
            full,
            running::behind(p.begin(), d),
            running::behind(
                running::plain_loop(
                    p,
                    matmul::test(Reg::Rsi, Reg::Rax),
                    matmul::zero_step(limit_of(bias)),
                ),
                u,
            ),
        ),
        is_inside(u, caller, c, bias),
        matmul_run::is_cleared(u.mem, caller.mem, c, c.m * c.n),
    decreases c.m * c.n - t,
{
    let test = matmul::test(Reg::Rsi, Reg::Rax);
    let body = matmul::zero_step(limit_of(bias));
    let d1 = matmul_run::counter_is_tested(fl, d, Reg::Rsi, Reg::Rax);
    if t < c.m * c.n {
        let d2 = element_is_cleared(fl, d1, caller, c, bias, t);
        zeros_are_put(d.mem, caller.mem, c, t, 1);
        running::plain_round(fl, full, p, test, body, d, d1, d2);
        let u = elements_are_cleared(fl, full, p, d2, caller, c, bias, t + 1);
        running::reaches_on(
            fl,
            full,
            running::behind(p.begin(), d),
            running::behind(p.begin(), d2),
            running::behind(running::plain_loop(p, test, body), u),
        );
        u
    } else {
        running::plain_loop_ends(fl, full, p, test, body, d, d1);
        d1
    }
}

/// Clearing the product.
proof fn clearing_runs(
    fl: Floats,
    full: Seq<Ins>,
    p: Asm,
    d: Data,
    caller: Data,
    c: Call,
    bias: Option<int>,
) -> (t: Data)
    requires
        program::places_are_single(full),
        running::starts(full, matmul::clear_wide(p, limit_of(bias))),
        matmul_run::is_valid(c),
        is_inside(d, caller, c, bias),
        d.mem == caller.mem,
    ensures
        running::starts(full, p),
        machine::reaches(
            fl,
            full,
            running::behind(p, d),
            running::behind(matmul::clear_wide(p, limit_of(bias)), t),
        ),
        is_inside(t, caller, c, bias),
        matmul_run::is_cleared(t.mem, caller.mem, c, c.m * c.n),
{
    let q1 = p.emit(matmul::zero_wide());
    let q2 = running::plain_loop(q1, matmul::zero_wide_test(), matmul::zero_wide_step());
    let q3 = q2.emit(matmul::zero_limit());
    let test = matmul::test(Reg::Rsi, Reg::Rax);
    let q4 = running::plain_loop(q3, test, matmul::zero_step(limit_of(bias)));
    assert(matmul::clear_wide(p, limit_of(bias)) == q4);
    running::before_plain_loop(full, q3, test, matmul::zero_step(limit_of(bias)));
    running::before_ops(full, q2, matmul::zero_limit());
    running::before_plain_loop(full, q1, matmul::zero_wide_test(), matmul::zero_wide_step());
    running::before_ops(full, p, matmul::zero_wide());
    let start = running::behind(p, d);
    let d1 = clearing_is_started(fl, d, caller, c, bias);
    running::loop_opens(fl, full, p, matmul::zero_wide(), d, d1);
    assert(matmul_run::is_cleared(d1.mem, caller.mem, c, 0)) by {
        reveal(matmul_run::is_cleared);
    }
    let (d2, n) = vectors_are_cleared(fl, full, q1, d1, caller, c, bias, 0);
    running::reaches_on(fl, full, start, running::behind(q1.begin(), d1), running::behind(q2, d2));
    let d3 = clearing_is_limited(fl, d2, caller, c, bias, n);
    running::loop_opens(fl, full, q2, matmul::zero_limit(), d2, d3);
    running::reaches_on(fl, full, start, running::behind(q2, d2), running::behind(q3.begin(), d3));
    let t = elements_are_cleared(fl, full, q3, d3, caller, c, bias, n);
    running::reaches_on(fl, full, start, running::behind(q3.begin(), d3), running::behind(q4, t));
    t
}

/// A kernel has computed the product: every element is finished, nothing else in memory has
/// changed, the call reports success, and the registers that belong to the caller are as they
/// were.
pub open spec fn computes(fl: Floats, c: Call, bias: Option<int>, before: Data, after: Data) -> bool {
    &&& forall|row: int, col: int|
        0 <= row < c.m && 0 <= col < c.n ==> #[trigger] matmul_run::entry(
            after.mem,
            c.c,
            row * c.n + col,
        ) == finished(fl, before.mem, c, bias, row, col)
    &&& matmul_run::rest_is_untouched(after.mem, before.mem, c)
    &&& after.reg(Reg::Rax) == 0
    &&& running::keeps_callers(before, after)
}

/// Where all rows are finished, all elements are.
proof fn all_are_finished(
    fl: Floats,
    mem: spec_fn(int) -> u8,
    before: spec_fn(int) -> u8,
    c: Call,
    bias: Option<int>,
    row: int,
    col: int,
)
    requires
        has_terms(fl, mem, before, c, bias, c.m, 0, 0),
        0 <= row < c.m,
        0 <= col < c.n,
    ensures
        matmul_run::entry(mem, c.c, row * c.n + col) == finished(fl, before, c, bias, row, col),
{
    reveal(has_terms);
    matmul_run::place_is_inside(row, col, c.m, c.n);
    matmul_run::place_is_unique(row, col, c.n);
    let t = row * c.n + col;
    assert(matmul_run::entry(mem, c.c, t) == finished(fl, before, c, bias, t / c.n, t % c.n));
}

/// The upper parts of the vector registers are cleared.
proof fn upper_is_cleared(fl: Floats, d: Data, caller: Data, c: Call) -> (t: Data)
    requires
        matmul_run::is_inside(d, caller, c),
    ensures
        running::goes_on(matmul::clear_upper()),
        t == machine::after_ops(fl, d, matmul::clear_upper(), matmul::clear_upper().len()),
        matmul_run::is_inside(t, caller, c),
        t.mem == d.mem,
        t.reg(Reg::Rax) == d.reg(Reg::Rax),
{
    reveal_with_fuel(machine::after_ops, 2);
    reveal(machine::after_op);
    machine::after_ops(fl, d, matmul::clear_upper(), 1)
}

/// What a kernel does once its arguments are kept.
proof fn kernel_runs(
    fl: Floats,
    full: Seq<Ins>,
    p1: Asm,
    d1: Data,
    d: Data,
    c: Call,
    bias: Option<int>,
) -> (t: Data)
    requires
        ({
            let q = matmul::clear_wide(p1, limit_of(bias)).emit(matmul::start(Reg::Rdi));
            running::starts(
                full,
                rows_tail(q, bias).end().emit(matmul::succeed()).emit(matmul::clear_upper()).leave(
                    matmul::saved(),
                ),
            )
        }),
        program::places_are_single(full),
        matmul_run::is_valid(c),
        bias_is_valid(c, bias),
        running::has_room(d, matmul::saved()),
        is_inside(d1, d, c, bias),
        d1.mem == d.mem,
        machine::reaches(fl, full, State { pc: 0, data: d }, running::behind(p1, d1)),
    ensures
        machine::reaches(
            fl,
            full,
            State { pc: 0, data: d },
            State { pc: machine::returned(), data: t },
        ),
        computes(fl, c, bias, d, t),
{
    let p2 = matmul::clear_wide(p1, limit_of(bias));
    let q = p2.emit(matmul::start(Reg::Rdi));
    let p3 = rows_tail(q, bias).end();
    let p4 = p3.emit(matmul::succeed());
    let p5 = p4.emit(matmul::clear_upper());
    let start = State { pc: 0, data: d };
    running::before_frame(full, p5, matmul::saved());
    running::before_ops(full, p4, matmul::clear_upper());
    running::before_ops(full, p3, matmul::succeed());
    before_rows(full, q, bias);
    running::before_ops(full, p2, matmul::start(Reg::Rdi));
    let d2 = clearing_runs(fl, full, p1, d1, d, c, bias);
    running::reaches_on(fl, full, start, running::behind(p1, d1), running::behind(p2, d2));
    let d3 = matmul_run::counter_is_started(fl, d2, Reg::Rdi);
    running::loop_opens(fl, full, p2, matmul::start(Reg::Rdi), d2, d3);
    running::reaches_on(fl, full, start, running::behind(p2, d2), running::behind(q.begin(), d3));
    zeros_have_no_terms(fl, d3.mem, d.mem, c, bias);
    let d4 = rows_run(fl, full, q, d3, d, c, bias, 0);
    running::reaches_on(fl, full, start, running::behind(q.begin(), d3), running::behind(p3, d4));
    let d5 = matmul_run::success_is_reported(fl, d4, d, c);
    running::runs_ops(fl, full, start, p3, matmul::succeed(), d4, d5);
    let d6 = upper_is_cleared(fl, d5, d, c);
    running::runs_ops(fl, full, start, p4, matmul::clear_upper(), d5, d6);
    let t = matmul_run::kernel_returns(fl, full, start, p5, d6, d);
    assert(matmul_run::rest_is_untouched(t.mem, d.mem, c)) by {
        reveal(has_terms);
    }
    assert forall|row: int, col: int|
        0 <= row < c.m && 0 <= col < c.n implies #[trigger] matmul_run::entry(
        t.mem,
        c.c,
        row * c.n + col,
    ) == finished(fl, d.mem, c, bias, row, col) by {
        all_are_finished(fl, t.mem, d.mem, c, bias, row, col);
    }
    t
}

/// The kernel that takes vectors computes the product and returns.
pub proof fn vector_kernel_computes(fl: Floats, d: Data, c: Call) -> (t: Data)
    requires
        matmul_run::is_called(d, c),
        matmul_run::is_valid(c),
        running::has_room(d, matmul::saved()),
    ensures
        machine::reaches(
            fl,
            matmul::vector_kernel().lines,
            State { pc: 0, data: d },
            State { pc: machine::returned(), data: t },
        ),
        computes(fl, c, None, d, t),
{
    let full = matmul::vector_kernel().lines;
    matmul::vector_kernel_is_sound();
    let p1 = Asm::empty().enter(matmul::saved()).emit(matmul::arguments());
    let p2 = matmul::clear_wide(p1, Reg::Rbx);
    let q = p2.emit(matmul::start(Reg::Rdi));
    let p5 = rows_tail(q, None).end().emit(matmul::succeed()).emit(matmul::clear_upper());
    running::all_start(p5.leave(matmul::saved()));
    assert(matmul::vector_kernel() == p5.leave(matmul::saved()));
    running::before_frame(full, p5, matmul::saved());
    running::before_ops(
        full,
        rows_tail(q, None).end().emit(matmul::succeed()),
        matmul::clear_upper(),
    );
    running::before_ops(full, rows_tail(q, None).end(), matmul::succeed());
    before_rows(full, q, None);
    running::before_ops(full, p2, matmul::start(Reg::Rdi));
    before_clearing(full, p1, Reg::Rbx);
    let d1 = matmul_run::kernel_begins(fl, full, d, c);
    kernel_runs(fl, full, p1, d1, d, c, None)
}

/// What stands in front of the clearing.
proof fn before_clearing(full: Seq<Ins>, p: Asm, tmp: Reg)
    requires
        running::starts(full, matmul::clear_wide(p, tmp)),
    ensures
        running::starts(full, p),
{
    let q1 = p.emit(matmul::zero_wide());
    let q2 = running::plain_loop(q1, matmul::zero_wide_test(), matmul::zero_wide_step());
    let q3 = q2.emit(matmul::zero_limit());
    let test = matmul::test(Reg::Rsi, Reg::Rax);
    running::before_plain_loop(full, q3, test, matmul::zero_step(tmp));
    running::before_ops(full, q2, matmul::zero_limit());
    running::before_plain_loop(full, q1, matmul::zero_wide_test(), matmul::zero_wide_step());
    running::before_ops(full, p, matmul::zero_wide());
}

/// The address of the bias is taken from the stack of the caller.
proof fn bias_is_taken(fl: Floats, d: Data, caller: Data, c: Call, bias: int) -> (t: Data)
    requires
        matmul_run::is_called(d, c),
        running::in_frame(d, caller, matmul::saved()),
        running::has_room(caller, matmul::saved()),
        d.reg(Reg::Rbp) == caller.reg(Reg::Rsp) - 8,
        machine::word(machine::bytes(d.mem, caller.reg(Reg::Rsp) + 8, 8)) == bias,
    ensures
        running::goes_on(matmul::bias_pointer()),
        t == machine::after_ops(fl, d, matmul::bias_pointer(), matmul::bias_pointer().len()),
        matmul_run::is_called(t, c),
        running::in_frame(t, caller, matmul::saved()),
        t.reg(Reg::Rbx) == bias,
        t.mem == d.mem,
{
    reveal_with_fuel(machine::after_ops, 3);
    let ops = matmul::bias_pointer();
    assert(ops[0] == Op::Rm(RmOp::Mov, Reg::Rax, at_disp(Reg::Rbp, 16)));
    steps::word_is_loaded(fl, d, Reg::Rax, Reg::Rbp, 16);
    let s1 = d.put(Reg::Rax, machine::word(machine::bytes(d.mem, d.reg(Reg::Rbp) + 16, 8)));
    assert(ops[1] == mov(Reg::Rbx, Reg::Rax));
    steps::reg_is_set(fl, s1, Reg::Rbx, Reg::Rax);
    let s2 = s1.put(Reg::Rbx, s1.reg(Reg::Rax));
    s2
}

/// The kernel with a bias is called with the address of the bias behind the return address.
pub open spec fn is_called_with_bias(d: Data, c: Call, bias: int) -> bool {
    &&& matmul_run::is_called(d, c)
    &&& machine::word(machine::bytes(d.mem, d.reg(Reg::Rsp) + 8, 8)) == bias
}

/// The kernel with a bias computes the product, adds the bias of its column to every element,
/// takes the larger of that and zero, and returns.
pub proof fn bias_relu_kernel_computes(fl: Floats, d: Data, c: Call, bias: int) -> (t: Data)
    requires
        is_called_with_bias(d, c, bias),
        matmul_run::is_valid(c),
        bias_is_valid(c, Some(bias)),
        running::has_room(d, matmul::saved()),
    ensures
        machine::reaches(
            fl,
            matmul::bias_relu_kernel().lines,
            State { pc: 0, data: d },
            State { pc: machine::returned(), data: t },
        ),
        computes(fl, c, Some(bias), d, t),
{
    let full = matmul::bias_relu_kernel().lines;
    let saved = matmul::saved();
    matmul::bias_relu_kernel_is_sound();
    let e0 = Asm::empty();
    let e1 = e0.enter(saved);
    let e2 = e1.emit(matmul::bias_pointer());
    let p1 = e2.emit(matmul::arguments());
    let p2 = matmul::clear_wide(p1, Reg::Rcx);
    let q = p2.emit(matmul::start(Reg::Rdi));
    let p3 = rows_tail(q, Some(bias)).end();
    let p4 = p3.emit(matmul::succeed());
    let p5 = p4.emit(matmul::clear_upper());
    running::all_start(p5.leave(saved));
    assert(matmul::bias_relu_kernel() == p5.leave(saved));
    running::before_frame(full, p5, saved);
    running::before_ops(full, p4, matmul::clear_upper());
    running::before_ops(full, p3, matmul::succeed());
    before_rows(full, q, Some(bias));
    running::before_ops(full, p2, matmul::start(Reg::Rdi));
    before_clearing(full, p1, Reg::Rcx);
    running::before_ops(full, e2, matmul::arguments());
    running::before_ops(full, e1, matmul::bias_pointer());
    let start = running::behind(e0, d);
    matmul_run::saved_can_be_saved();
    let d1 = running::frame_is_entered(fl, full, e0, saved, d);
    let d2 = bias_is_taken(fl, d1, d, c, bias);
    running::runs_ops(fl, full, start, e1, matmul::bias_pointer(), d1, d2);
    let d3 = matmul_run::arguments_are_kept(fl, d2, d, c);
    running::runs_ops(fl, full, start, e2, matmul::arguments(), d2, d3);
    kernel_runs(fl, full, p1, d3, d, c, Some(bias))
}

} // verus!
