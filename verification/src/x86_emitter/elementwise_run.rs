//! What the elementwise kernels compute.

use crate::x86_emitter::elementwise;
use crate::x86_emitter::inst::{
    add_imm, at, clear, lea_sum, load, mov, scale, store, sub_imm, vload, vstore, Arith, Elem, Ins,
    Reg, Wide,
};
use crate::x86_emitter::machine;
use crate::x86_emitter::machine::{Data, Floats, State};
use crate::x86_emitter::program;
use crate::x86_emitter::program::Asm;
use crate::x86_emitter::running;
use crate::x86_emitter::steps;
use vstd::prelude::*;

verus! {

/// What a kernel is called with: the addresses of the result and the inputs, and the number of
/// elements.
pub struct Call {
    pub dst: int,
    pub a: int,
    pub b: int,
    pub n: int,
}

/// The registers hold the arguments of a call.
pub open spec fn is_called(d: Data, c: Call) -> bool {
    &&& d.reg(Reg::Rdi) == c.dst
    &&& d.reg(Reg::Rsi) == c.a
    &&& d.reg(Reg::Rdx) == c.b
    &&& d.reg(Reg::Rcx) == c.n
}

/// Two arrays are the same or apart.
pub open spec fn same_or_apart(x: int, y: int, len: int) -> bool {
    x == y || x + len <= y || y + len <= x
}

/// The arrays of a call lie in the lower half of the addresses, and the result does not begin
/// inside an input.
pub open spec fn is_valid(c: Call, e: Elem) -> bool {
    let len = c.n * machine::size(e);
    &&& 0 <= c.n
    &&& len < 0x4000_0000_0000_0000
    &&& 0 <= c.dst < 0x4000_0000_0000_0000
    &&& 0 <= c.a < 0x4000_0000_0000_0000
    &&& 0 <= c.b < 0x4000_0000_0000_0000
    &&& same_or_apart(c.dst, c.a, len)
    &&& same_or_apart(c.dst, c.b, len)
}

/// One element of the result; an unknown operation keeps the first element.
pub open spec fn combined(m: Floats, op: Option<Arith>, e: Elem, x: Seq<u8>, y: Seq<u8>) -> Seq<
    u8,
> {
    match op {
        Some(f) => machine::low((m.arith)(f, e, x, y), machine::size(e)),
        None => x,
    }
}

/// Element `i` of the result.
pub open spec fn result(
    m: Floats,
    op: Option<Arith>,
    e: Elem,
    mem: spec_fn(int) -> u8,
    c: Call,
    i: int,
) -> Seq<u8> {
    let s = machine::size(e);
    combined(m, op, e, machine::bytes(mem, c.a + i * s, s), machine::bytes(mem, c.b + i * s, s))
}

/// The memory once the first `upto` bytes of the result are there.
pub open spec fn has_results(
    m: Floats,
    op: Option<Arith>,
    e: Elem,
    mem: spec_fn(int) -> u8,
    before: spec_fn(int) -> u8,
    c: Call,
    upto: int,
) -> bool {
    let s = machine::size(e);
    forall|x: int|
        #[trigger] mem(x) == if c.dst <= x < c.dst + upto {
            result(m, op, e, before, c, (x - c.dst) / s)[(x - c.dst) % s]
        } else {
            before(x)
        }
}

/// The registers inside a kernel: where the arrays are, how long they are, and the offset in
/// bytes that comes next.
pub open spec fn is_inside(d: Data, caller: Data, c: Call, offset: int) -> bool {
    &&& d.reg(Reg::R10) == c.dst
    &&& d.reg(Reg::R11) == c.a
    &&& d.reg(Reg::R12) == c.b
    &&& d.reg(Reg::Rbx) == c.n
    &&& d.reg(Reg::Rcx) == offset
    &&& d.reg(Reg::R13) == caller.reg(Reg::R13)
    &&& d.reg(Reg::R14) == caller.reg(Reg::R14)
    &&& d.reg(Reg::R15) == caller.reg(Reg::R15)
    &&& running::in_frame(d, caller, elementwise::saved())
}

/// Bytes at an offset in an input are still as they were.
proof fn input_is_untouched(
    m: Floats,
    op: Option<Arith>,
    e: Elem,
    mem: spec_fn(int) -> u8,
    before: spec_fn(int) -> u8,
    c: Call,
    from: int,
    offset: int,
    len: int,
)
    requires
        is_valid(c, e),
        from == c.a || from == c.b,
        0 <= offset,
        0 <= len,
        offset + len <= c.n * machine::size(e),
        has_results(m, op, e, mem, before, c, offset),
    ensures
        machine::bytes(mem, from + offset, len) == machine::bytes(before, from + offset, len),
{
    let x = machine::bytes(mem, from + offset, len);
    let y = machine::bytes(before, from + offset, len);
    assert forall|i: int| 0 <= i < len implies x[i] == y[i] by {
        assert(mem(from + offset + i) == before(from + offset + i));
    }
    assert(x =~= y);
}

/// The data of a kernel but for the offset, the limit, scratch registers, vectors and flags.
pub open spec fn keeps_place(d: Data, t: Data) -> bool {
    &&& t.reg(Reg::R10) == d.reg(Reg::R10)
    &&& t.reg(Reg::R11) == d.reg(Reg::R11)
    &&& t.reg(Reg::R12) == d.reg(Reg::R12)
    &&& t.reg(Reg::R13) == d.reg(Reg::R13)
    &&& t.reg(Reg::R14) == d.reg(Reg::R14)
    &&& t.reg(Reg::R15) == d.reg(Reg::R15)
    &&& t.reg(Reg::Rbx) == d.reg(Reg::Rbx)
    &&& t.reg(Reg::Rsp) == d.reg(Reg::Rsp)
    &&& t.stack == d.stack
}

/// Loading takes one element of each input.
proof fn pair_is_loaded(m: Floats, e: Elem, d: Data, c: Call, offset: int) -> (t: Data)
    requires
        is_valid(c, e),
        d.reg(Reg::R11) == c.a,
        d.reg(Reg::R12) == c.b,
        d.reg(Reg::Rcx) == offset,
        0 <= offset < 0x4000_0000_0000_0000,
    ensures
        t == machine::after_ops(m, d, elementwise::load_pair(e), elementwise::load_pair(e).len()),
        keeps_place(d, t),
        t.reg(Reg::Rcx) == offset,
        t.reg(Reg::Rax) == d.reg(Reg::Rax),
        t.mem == d.mem,
        machine::lane(t.wide(Reg::Xmm0), e, 0) == machine::bytes(
            d.mem,
            c.a + offset,
            machine::size(e),
        ),
        machine::lane(t.wide(Reg::Xmm1), e, 0) == machine::bytes(
            d.mem,
            c.b + offset,
            machine::size(e),
        ),
{
    reveal_with_fuel(machine::after_ops, 5);
    let ops = elementwise::load_pair(e);
    assert(ops[0] == lea_sum(Reg::Rdx, Reg::R11, Reg::Rcx));
    steps::sum_is_addressed(m, d, Reg::Rdx, Reg::R11, Reg::Rcx);
    let s1 = d.put(Reg::Rdx, d.reg(Reg::R11) + d.reg(Reg::Rcx));
    assert(ops[1] == load(e, Reg::Xmm0, at(Reg::Rdx)));
    let s2 = steps::low_is_loaded(m, s1, e, Reg::Xmm0, Reg::Rdx);
    assert(ops[2] == lea_sum(Reg::Rdx, Reg::R12, Reg::Rcx));
    steps::sum_is_addressed(m, s2, Reg::Rdx, Reg::R12, Reg::Rcx);
    let s3 = s2.put(Reg::Rdx, s2.reg(Reg::R12) + s2.reg(Reg::Rcx));
    assert(ops[3] == load(e, Reg::Xmm1, at(Reg::Rdx)));
    let s4 = steps::low_is_loaded(m, s3, e, Reg::Xmm1, Reg::Rdx);
    assert(s4.vec[0] == s2.vec[0]);
    s4
}

/// The operation combines the two elements.
proof fn pair_is_combined(m: Floats, op: Option<Arith>, e: Elem, d: Data) -> (t: Data)
    ensures
        t == machine::after_ops(
            m,
            d,
            elementwise::combine(op, e),
            elementwise::combine(op, e).len(),
        ),
        t.gpr == d.gpr,
        t.stack == d.stack,
        t.mem == d.mem,
        machine::lane(t.wide(Reg::Xmm0), e, 0) == combined(
            m,
            op,
            e,
            machine::lane(d.wide(Reg::Xmm0), e, 0),
            machine::lane(d.wide(Reg::Xmm1), e, 0),
        ),
{
    reveal_with_fuel(machine::after_ops, 2);
    reveal(machine::after_op);
    let t = machine::after_ops(
        m,
        d,
        elementwise::combine(op, e),
        elementwise::combine(op, e).len(),
    );
    assert(machine::lane(t.wide(Reg::Xmm0), e, 0) =~= combined(
        m,
        op,
        e,
        machine::lane(d.wide(Reg::Xmm0), e, 0),
        machine::lane(d.wide(Reg::Xmm1), e, 0),
    ));
    t
}

/// Storing puts one element into the result and goes on.
proof fn element_is_stored(m: Floats, e: Elem, d: Data, c: Call, offset: int) -> (t: Data)
    requires
        is_valid(c, e),
        d.reg(Reg::R10) == c.dst,
        d.reg(Reg::Rcx) == offset,
        0 <= offset < 0x4000_0000_0000_0000,
    ensures
        t == machine::after_ops(m, d, elementwise::store_one(e), elementwise::store_one(e).len()),
        keeps_place(d, t),
        t.reg(Reg::Rcx) == offset + machine::size(e),
        t.reg(Reg::Rax) == d.reg(Reg::Rax),
        t.mem == machine::with_bytes(
            d.mem,
            c.dst + offset,
            machine::lane(d.wide(Reg::Xmm0), e, 0),
        ),
{
    reveal_with_fuel(machine::after_ops, 4);
    let ops = elementwise::store_one(e);
    assert(ops[0] == lea_sum(Reg::Rdx, Reg::R10, Reg::Rcx));
    steps::sum_is_addressed(m, d, Reg::Rdx, Reg::R10, Reg::Rcx);
    let s1 = d.put(Reg::Rdx, d.reg(Reg::R10) + d.reg(Reg::Rcx));
    assert(ops[1] == store(e, at(Reg::Rdx), Reg::Xmm0));
    let s2 = steps::low_is_stored(m, s1, e, Reg::Xmm0, Reg::Rdx);
    assert(ops[2] == add_imm(Reg::Rcx, elementwise::elem_bytes(e)));
    steps::reg_is_advanced(m, s2, Reg::Rcx, elementwise::elem_bytes(e));
    let s3 = steps::with_reg(s2, Reg::Rcx, s2.reg(Reg::Rcx) + elementwise::elem_bytes(e));
    s3
}

/// Where one more element is put in, the memory has one more result.
proof fn results_grow(
    m: Floats,
    op: Option<Arith>,
    e: Elem,
    mem: spec_fn(int) -> u8,
    before: spec_fn(int) -> u8,
    c: Call,
    offset: int,
)
    requires
        is_valid(c, e),
        has_results(m, op, e, mem, before, c, offset),
        0 <= offset,
        offset % machine::size(e) == 0,
        offset + machine::size(e) <= c.n * machine::size(e),
    ensures
        ({
            let s = machine::size(e);
            let z = combined(
                m,
                op,
                e,
                machine::bytes(mem, c.a + offset, s),
                machine::bytes(mem, c.b + offset, s),
            );
            has_results(
                m,
                op,
                e,
                machine::with_bytes(mem, c.dst + offset, z),
                before,
                c,
                offset + s,
            )
        }),
{
    let s = machine::size(e);
    input_is_untouched(m, op, e, mem, before, c, c.a, offset, s);
    input_is_untouched(m, op, e, mem, before, c, c.b, offset, s);
    let z = combined(
        m,
        op,
        e,
        machine::bytes(mem, c.a + offset, s),
        machine::bytes(mem, c.b + offset, s),
    );
    assert(offset == offset / s * s);
    assert(z == result(m, op, e, before, c, offset / s));
    let after = machine::with_bytes(mem, c.dst + offset, z);
    assert(z.len() == s);
    assert forall|p: int|
        #[trigger] after(p) == if c.dst <= p < c.dst + offset + s {
            result(m, op, e, before, c, (p - c.dst) / s)[(p - c.dst) % s]
        } else {
            before(p)
        } by {
        let was = mem(p);
        if c.dst + offset <= p < c.dst + offset + s {
            assert((p - c.dst) / s == offset / s);
            assert((p - c.dst) % s == p - c.dst - offset);
        }
    }
}

/// The vector register that the kernels compute in holds `b`.
pub open spec fn holds(d: Data, r: Reg, b: Seq<u8>) -> bool {
    d.wide(r) == machine::filled(b)
}

/// Loading takes one vector of each input.
proof fn vectors_are_loaded(m: Floats, e: Elem, w: Wide, d: Data, c: Call, offset: int) -> (t: Data)
    requires
        is_valid(c, e),
        d.reg(Reg::R11) == c.a,
        d.reg(Reg::R12) == c.b,
        d.reg(Reg::Rcx) == offset,
        0 <= offset < 0x4000_0000_0000_0000,
    ensures
        t == machine::after_ops(
            m,
            d,
            elementwise::load_vectors(e, w),
            elementwise::load_vectors(e, w).len(),
        ),
        keeps_place(d, t),
        t.reg(Reg::Rcx) == offset,
        t.reg(Reg::Rax) == d.reg(Reg::Rax),
        t.mem == d.mem,
        holds(t, elementwise::first(w), machine::bytes(d.mem, c.a + offset, machine::width(w))),
        holds(t, elementwise::second(w), machine::bytes(d.mem, c.b + offset, machine::width(w))),
{
    reveal_with_fuel(machine::after_ops, 5);
    let ops = elementwise::load_vectors(e, w);
    assert(ops[0] == lea_sum(Reg::Rdx, Reg::R11, Reg::Rcx));
    steps::sum_is_addressed(m, d, Reg::Rdx, Reg::R11, Reg::Rcx);
    let s1 = d.put(Reg::Rdx, d.reg(Reg::R11) + d.reg(Reg::Rcx));
    assert(ops[1] == vload(e, w, elementwise::first(w), at(Reg::Rdx)));
    steps::vector_is_loaded(m, s1, e, w, elementwise::first(w), Reg::Rdx);
    let s2 = s1.put_wide(elementwise::first(w), machine::filled(machine::bytes(s1.mem, s1.reg(Reg::Rdx), machine::width(w))));
    assert(ops[2] == lea_sum(Reg::Rdx, Reg::R12, Reg::Rcx));
    steps::sum_is_addressed(m, s2, Reg::Rdx, Reg::R12, Reg::Rcx);
    let s3 = s2.put(Reg::Rdx, s2.reg(Reg::R12) + s2.reg(Reg::Rcx));
    assert(ops[3] == vload(e, w, elementwise::second(w), at(Reg::Rdx)));
    steps::vector_is_loaded(m, s3, e, w, elementwise::second(w), Reg::Rdx);
    let s4 = s3.put_wide(elementwise::second(w), machine::filled(machine::bytes(s3.mem, s3.reg(Reg::Rdx), machine::width(w))));
    s4
}

/// The operation combines the two vectors.
proof fn vectors_are_combined(m: Floats, op: Option<Arith>, e: Elem, w: Wide, d: Data) -> (t: Data)
    ensures
        t == machine::after_ops(
            m,
            d,
            elementwise::combine_vectors(op, e, w),
            elementwise::combine_vectors(op, e, w).len(),
        ),
        t.gpr == d.gpr,
        t.stack == d.stack,
        t.mem == d.mem,
        op matches Some(f) ==> holds(
            t,
            elementwise::first(w),
            machine::lanewise(
                m,
                f,
                e,
                d.wide(elementwise::first(w)),
                d.wide(elementwise::second(w)),
                machine::width(w),
            ),
        ),
        op is None ==> t == d,
{
    reveal_with_fuel(machine::after_ops, 2);
    reveal(machine::after_op);
    machine::after_ops(
        m,
        d,
        elementwise::combine_vectors(op, e, w),
        elementwise::combine_vectors(op, e, w).len(),
    )
}

/// Storing puts one vector into the result and goes on.
proof fn vector_is_stored(m: Floats, e: Elem, w: Wide, d: Data, c: Call, offset: int) -> (t: Data)
    requires
        is_valid(c, e),
        d.reg(Reg::R10) == c.dst,
        d.reg(Reg::Rcx) == offset,
        0 <= offset < 0x4000_0000_0000_0000,
    ensures
        t == machine::after_ops(
            m,
            d,
            elementwise::store_vector(e, w),
            elementwise::store_vector(e, w).len(),
        ),
        keeps_place(d, t),
        t.reg(Reg::Rcx) == offset + machine::width(w),
        t.reg(Reg::Rax) == d.reg(Reg::Rax),
        t.mem == machine::with_bytes(
            d.mem,
            c.dst + offset,
            machine::low(d.wide(elementwise::first(w)), machine::width(w)),
        ),
{
    reveal_with_fuel(machine::after_ops, 4);
    let ops = elementwise::store_vector(e, w);
    assert(ops[0] == lea_sum(Reg::Rdx, Reg::R10, Reg::Rcx));
    steps::sum_is_addressed(m, d, Reg::Rdx, Reg::R10, Reg::Rcx);
    let s1 = d.put(Reg::Rdx, d.reg(Reg::R10) + d.reg(Reg::Rcx));
    assert(ops[1] == vstore(e, w, at(Reg::Rdx), elementwise::first(w)));
    steps::vector_is_stored(m, s1, e, w, elementwise::first(w), Reg::Rdx);
    let s2 = s1.put_bytes(s1.reg(Reg::Rdx), machine::low(s1.wide(elementwise::first(w)), machine::width(w)));
    assert(ops[2] == add_imm(Reg::Rcx, elementwise::vector_bytes(w)));
    steps::reg_is_advanced(m, s2, Reg::Rcx, elementwise::vector_bytes(w));
    let s3 = steps::with_reg(s2, Reg::Rcx, s2.reg(Reg::Rcx) + elementwise::vector_bytes(w));
    s3
}

/// The vector that combines two vectors of the inputs.
pub open spec fn combined_vector(
    m: Floats,
    op: Option<Arith>,
    e: Elem,
    x: Seq<u8>,
    y: Seq<u8>,
    n: int,
) -> Seq<u8> {
    match op {
        Some(f) => machine::lanewise(m, f, e, machine::filled(x), machine::filled(y), n),
        None => x,
    }
}

/// Where byte `i` of a vector stands among whole elements.
proof fn byte_place(e: Elem, w: Wide, offset: int, i: int)
    requires
        offset % machine::size(e) == 0,
        0 <= i < machine::width(w),
    ensures
        ({
            let s = machine::size(e);
            &&& (offset + i) / s * s == offset + i / s * s
            &&& (offset + i) % s == i % s
            &&& 0 <= i / s * s && i / s * s + s <= machine::width(w)
            &&& i == i / s * s + i % s
            &&& 0 <= i % s < s
        }),
{
    match e {
        Elem::F32 => {
            assert(offset % 4 == 0 ==> (offset + i) / 4 * 4 == offset + i / 4 * 4 && (offset + i)
                % 4 == i % 4);
        },
        Elem::F64 => {
            assert(offset % 8 == 0 ==> (offset + i) / 8 * 8 == offset + i / 8 * 8 && (offset + i)
                % 8 == i % 8);
        },
    }
}

/// A byte of a combined vector is the byte of an element of the result.
proof fn vector_byte(
    m: Floats,
    op: Option<Arith>,
    e: Elem,
    w: Wide,
    mem: spec_fn(int) -> u8,
    c: Call,
    offset: int,
    i: int,
)
    requires
        0 <= offset,
        offset % machine::width(w) == 0,
        0 <= i < machine::width(w),
    ensures
        ({
            let s = machine::size(e);
            let n = machine::width(w);
            combined_vector(
                m,
                op,
                e,
                machine::bytes(mem, c.a + offset, n),
                machine::bytes(mem, c.b + offset, n),
                n,
            )[i] == result(m, op, e, mem, c, (offset + i) / s)[(offset + i) % s]
        }),
{
    let s = machine::size(e);
    let n = machine::width(w);
    let x = machine::bytes(mem, c.a + offset, n);
    let y = machine::bytes(mem, c.b + offset, n);
    let k = (offset + i) / s;
    vectors_are_whole(e, w, offset);
    byte_place(e, w, offset, i);
    let xe = machine::bytes(mem, c.a + k * s, s);
    let ye = machine::bytes(mem, c.b + k * s, s);
    assert forall|j: int| 0 <= j < s implies x[i / s * s + j] == #[trigger] xe[j] && y[i / s * s
        + j] == ye[j] by {
        assert(c.a + offset + (i / s * s + j) == c.a + k * s + j);
    }
    match op {
        Some(f) => {
            assert(machine::lane(machine::filled(x), e, i / s) =~= xe);
            assert(machine::lane(machine::filled(y), e, i / s) =~= ye);
        },
        None => {
            assert(x[i] == xe[i % s]);
        },
    }
}

/// Where one more vector is put in, the memory has the results of one more vector.
proof fn vector_results_grow(
    m: Floats,
    op: Option<Arith>,
    e: Elem,
    w: Wide,
    mem: spec_fn(int) -> u8,
    before: spec_fn(int) -> u8,
    c: Call,
    offset: int,
)
    requires
        is_valid(c, e),
        has_results(m, op, e, mem, before, c, offset),
        0 <= offset,
        offset % machine::width(w) == 0,
        offset + machine::width(w) <= c.n * machine::size(e),
    ensures
        ({
            let n = machine::width(w);
            let z = combined_vector(
                m,
                op,
                e,
                machine::bytes(mem, c.a + offset, n),
                machine::bytes(mem, c.b + offset, n),
                n,
            );
            has_results(
                m,
                op,
                e,
                machine::with_bytes(mem, c.dst + offset, z),
                before,
                c,
                offset + n,
            )
        }),
{
    let s = machine::size(e);
    let n = machine::width(w);
    input_is_untouched(m, op, e, mem, before, c, c.a, offset, n);
    input_is_untouched(m, op, e, mem, before, c, c.b, offset, n);
    let z = combined_vector(
        m,
        op,
        e,
        machine::bytes(mem, c.a + offset, n),
        machine::bytes(mem, c.b + offset, n),
        n,
    );
    assert(z.len() == n);
    let after = machine::with_bytes(mem, c.dst + offset, z);
    assert forall|p: int|
        #[trigger] after(p) == if c.dst <= p < c.dst + offset + n {
            result(m, op, e, before, c, (p - c.dst) / s)[(p - c.dst) % s]
        } else {
            before(p)
        } by {
        let was = mem(p);
        if c.dst + offset <= p < c.dst + offset + n {
            vector_byte(m, op, e, w, before, c, offset, p - c.dst - offset);
        }
    }
}

/// The pieces of the loop over single elements stand where they were built.
proof fn scalar_loop_starts(full: Seq<Ins>, p: Asm, op: Option<Arith>, e: Elem)
    requires
        running::starts(full, elementwise::scalar_loop(p, op, e)),
    ensures
        ({
            let q1 = p.emit(elementwise::byte_limit(e));
            let q3 = q1.begin().emit(elementwise::at_limit());
            let q5 = q3.exit_if_ge().emit(elementwise::load_pair(e));
            let q6 = q5.emit(elementwise::combine(op, e));
            let q7 = q6.emit(elementwise::store_one(e));
            &&& running::starts(full, p)
            &&& running::starts(full, q1)
            &&& running::starts(full, q1.begin())
            &&& running::starts(full, q3)
            &&& running::starts(full, q3.exit_if_ge())
            &&& running::starts(full, q5)
            &&& running::starts(full, q6)
            &&& running::starts(full, q7)
            &&& running::starts(full, q7.end())
            &&& q7.open == q1.begin().open
            &&& q3.open == q1.begin().open
        }),
{
    let q1 = p.emit(elementwise::byte_limit(e));
    let q2 = q1.begin();
    let q3 = q2.emit(elementwise::at_limit());
    let q4 = q3.exit_if_ge();
    let q5 = q4.emit(elementwise::load_pair(e));
    let q6 = q5.emit(elementwise::combine(op, e));
    let q7 = q6.emit(elementwise::store_one(e));
    running::before_loop(full, q7);
    running::before_ops(full, q6, elementwise::store_one(e));
    running::before_ops(full, q5, elementwise::combine(op, e));
    running::before_ops(full, q4, elementwise::load_pair(e));
    running::before_loop(full, q3);
    running::before_ops(full, q2, elementwise::at_limit());
    running::before_loop(full, q1);
    running::before_ops(full, p, elementwise::byte_limit(e));
}

/// The test compares the offset with the limit.
proof fn offset_is_tested(m: Floats, d: Data) -> (t: Data)
    ensures
        t == machine::after_ops(m, d, elementwise::at_limit(), elementwise::at_limit().len()),
        t == (Data { less: Some(d.reg(Reg::Rcx) < d.reg(Reg::Rax)), ..d }),
{
    reveal_with_fuel(machine::after_ops, 2);
    reveal(machine::after_op);
    machine::after_ops(m, d, elementwise::at_limit(), 1)
}

/// No piece of the loop over single elements returns.
proof fn scalar_pieces_go_on(op: Option<Arith>, e: Elem)
    ensures
        running::goes_on(elementwise::byte_limit(e)),
        running::goes_on(elementwise::at_limit()),
        running::goes_on(elementwise::load_pair(e)),
        running::goes_on(elementwise::combine(op, e)),
        running::goes_on(elementwise::store_one(e)),
{
}

/// An offset of whole elements below the end leaves room for an element.
proof fn room_for_element(n: int, e: Elem, offset: int)
    requires
        offset % machine::size(e) == 0,
        offset < n * machine::size(e),
    ensures
        offset + machine::size(e) <= n * machine::size(e),
        (offset + machine::size(e)) % machine::size(e) == 0,
{
}

/// One round of the loop over single elements computes one element.
proof fn element_round(
    m: Floats,
    op: Option<Arith>,
    e: Elem,
    full: Seq<Ins>,
    p: Asm,
    d: Data,
    caller: Data,
    c: Call,
    offset: int,
) -> (t: Data)
    requires
        program::places_are_single(full),
        running::starts(full, elementwise::scalar_loop(p, op, e)),
        is_valid(c, e),
        is_inside(d, caller, c, offset),
        has_results(m, op, e, d.mem, caller.mem, c, offset),
        d.reg(Reg::Rax) == c.n * machine::size(e),
        0 <= offset < c.n * machine::size(e),
        offset % machine::size(e) == 0,
    ensures
        machine::reaches(
            m,
            full,
            running::behind(p.emit(elementwise::byte_limit(e)).begin(), d),
            running::behind(p.emit(elementwise::byte_limit(e)).begin(), t),
        ),
        is_inside(t, caller, c, offset + machine::size(e)),
        has_results(m, op, e, t.mem, caller.mem, c, offset + machine::size(e)),
        t.reg(Reg::Rax) == c.n * machine::size(e),
{
    let q1 = p.emit(elementwise::byte_limit(e));
    let q2 = q1.begin();
    let q3 = q2.emit(elementwise::at_limit());
    let q4 = q3.exit_if_ge();
    let q5 = q4.emit(elementwise::load_pair(e));
    let q6 = q5.emit(elementwise::combine(op, e));
    let q7 = q6.emit(elementwise::store_one(e));
    scalar_loop_starts(full, p, op, e);
    scalar_pieces_go_on(op, e);
    let start = running::behind(q2, d);
    running::reaches_itself(m, full, start);
    let d1 = offset_is_tested(m, d);
    running::runs_ops(m, full, start, q2, elementwise::at_limit(), d, d1);
    running::loop_goes_on(m, full, q3, d1);
    running::reaches_on(m, full, start, running::behind(q3, d1), running::behind(q4, d1));
    let d2 = pair_is_loaded(m, e, d1, c, offset);
    running::runs_ops(m, full, start, q4, elementwise::load_pair(e), d1, d2);
    let d3 = pair_is_combined(m, op, e, d2);
    running::runs_ops(m, full, start, q5, elementwise::combine(op, e), d2, d3);
    let d4 = element_is_stored(m, e, d3, c, offset);
    running::runs_ops(m, full, start, q6, elementwise::store_one(e), d3, d4);
    running::loop_goes_back(m, full, q1, q7, d4);
    running::reaches_on(m, full, start, running::behind(q7, d4), running::behind(q2, d4));
    room_for_element(c.n, e, offset);
    results_grow(m, op, e, d1.mem, caller.mem, c, offset);
    d4
}

/// The loop over single elements computes the rest of the result.
proof fn elements_run(
    m: Floats,
    op: Option<Arith>,
    e: Elem,
    full: Seq<Ins>,
    p: Asm,
    d: Data,
    caller: Data,
    c: Call,
    offset: int,
) -> (t: Data)
    requires
        program::places_are_single(full),
        running::starts(full, elementwise::scalar_loop(p, op, e)),
        is_valid(c, e),
        is_inside(d, caller, c, offset),
        has_results(m, op, e, d.mem, caller.mem, c, offset),
        d.reg(Reg::Rax) == c.n * machine::size(e),
        0 <= offset <= c.n * machine::size(e),
        offset % machine::size(e) == 0,
    ensures
        machine::reaches(
            m,
            full,
            running::behind(p.emit(elementwise::byte_limit(e)).begin(), d),
            running::behind(elementwise::scalar_loop(p, op, e), t),
        ),
        is_inside(t, caller, c, c.n * machine::size(e)),
        has_results(m, op, e, t.mem, caller.mem, c, c.n * machine::size(e)),
    decreases c.n * machine::size(e) - offset,
{
    let s = machine::size(e);
    let q1 = p.emit(elementwise::byte_limit(e));
    let q2 = q1.begin();
    let start = running::behind(q2, d);
    if offset == c.n * s {
        let q3 = q2.emit(elementwise::at_limit());
        let q7 = q3.exit_if_ge().emit(elementwise::load_pair(e)).emit(
            elementwise::combine(op, e),
        ).emit(elementwise::store_one(e));
        scalar_loop_starts(full, p, op, e);
        scalar_pieces_go_on(op, e);
        running::reaches_itself(m, full, start);
        let t = offset_is_tested(m, d);
        running::runs_ops(m, full, start, q2, elementwise::at_limit(), d, t);
        running::loop_is_left(m, full, q3, q7, t);
        running::reaches_on(
            m,
            full,
            start,
            running::behind(q3, t),
            running::behind(q7.end(), t),
        );
        t
    } else {
        let next = element_round(m, op, e, full, p, d, caller, c, offset);
        room_for_element(c.n, e, offset);
        let t = elements_run(m, op, e, full, p, next, caller, c, offset + s);
        running::reaches_on(
            m,
            full,
            start,
            running::behind(q2, next),
            running::behind(elementwise::scalar_loop(p, op, e), t),
        );
        t
    }
}

/// The pieces of the loop over vectors stand where they were built.
proof fn vector_loop_starts(full: Seq<Ins>, p: Asm, op: Option<Arith>, e: Elem, w: Wide)
    requires
        running::starts(full, elementwise::vector_loop(p, op, e, w)),
    ensures
        ({
            let q1 = p.emit(elementwise::vector_limit(e, w));
            let q3 = q1.begin().emit(elementwise::at_limit());
            let q5 = q3.exit_if_ge().emit(elementwise::load_vectors(e, w));
            let q6 = q5.emit(elementwise::combine_vectors(op, e, w));
            let q7 = q6.emit(elementwise::store_vector(e, w));
            &&& running::starts(full, p)
            &&& running::starts(full, q1)
            &&& running::starts(full, q1.begin())
            &&& running::starts(full, q3)
            &&& running::starts(full, q3.exit_if_ge())
            &&& running::starts(full, q5)
            &&& running::starts(full, q6)
            &&& running::starts(full, q7)
            &&& running::starts(full, q7.end())
            &&& q7.open == q1.begin().open
            &&& q3.open == q1.begin().open
        }),
{
    let q1 = p.emit(elementwise::vector_limit(e, w));
    let q2 = q1.begin();
    let q3 = q2.emit(elementwise::at_limit());
    let q4 = q3.exit_if_ge();
    let q5 = q4.emit(elementwise::load_vectors(e, w));
    let q6 = q5.emit(elementwise::combine_vectors(op, e, w));
    let q7 = q6.emit(elementwise::store_vector(e, w));
    running::before_loop(full, q7);
    running::before_ops(full, q6, elementwise::store_vector(e, w));
    running::before_ops(full, q5, elementwise::combine_vectors(op, e, w));
    running::before_ops(full, q4, elementwise::load_vectors(e, w));
    running::before_loop(full, q3);
    running::before_ops(full, q2, elementwise::at_limit());
    running::before_loop(full, q1);
    running::before_ops(full, p, elementwise::vector_limit(e, w));
}

/// No piece of the loop over vectors returns.
proof fn vector_pieces_go_on(op: Option<Arith>, e: Elem, w: Wide)
    ensures
        running::goes_on(elementwise::vector_limit(e, w)),
        running::goes_on(elementwise::at_limit()),
        running::goes_on(elementwise::load_vectors(e, w)),
        running::goes_on(elementwise::combine_vectors(op, e, w)),
        running::goes_on(elementwise::store_vector(e, w)),
{
}

/// Whole vectors are whole elements, and one vector more is whole too.
proof fn vectors_are_whole(e: Elem, w: Wide, offset: int)
    requires
        offset % machine::width(w) == 0,
    ensures
        offset % machine::size(e) == 0,
        (offset + machine::width(w)) % machine::width(w) == 0,
{
    match (e, w) {
        (Elem::F32, Wide::Y) => {
            assert(offset % 32 == 0 ==> offset % 4 == 0 && (offset + 32) % 32 == 0);
        },
        (Elem::F32, Wide::Z) => {
            assert(offset % 64 == 0 ==> offset % 4 == 0 && (offset + 64) % 64 == 0);
        },
        (Elem::F64, Wide::Y) => {
            assert(offset % 32 == 0 ==> offset % 8 == 0 && (offset + 32) % 32 == 0);
        },
        (Elem::F64, Wide::Z) => {
            assert(offset % 64 == 0 ==> offset % 8 == 0 && (offset + 64) % 64 == 0);
        },
    }
}

/// One round of the loop over vectors computes one vector.
proof fn vector_round(
    m: Floats,
    op: Option<Arith>,
    e: Elem,
    w: Wide,
    full: Seq<Ins>,
    p: Asm,
    d: Data,
    caller: Data,
    c: Call,
    offset: int,
) -> (t: Data)
    requires
        program::places_are_single(full),
        running::starts(full, elementwise::vector_loop(p, op, e, w)),
        is_valid(c, e),
        is_inside(d, caller, c, offset),
        has_results(m, op, e, d.mem, caller.mem, c, offset),
        d.reg(Reg::Rax) == c.n * machine::size(e) - machine::width(w),
        0 <= offset < c.n * machine::size(e) - machine::width(w),
        offset % machine::width(w) == 0,
    ensures
        machine::reaches(
            m,
            full,
            running::behind(p.emit(elementwise::vector_limit(e, w)).begin(), d),
            running::behind(p.emit(elementwise::vector_limit(e, w)).begin(), t),
        ),
        is_inside(t, caller, c, offset + machine::width(w)),
        has_results(m, op, e, t.mem, caller.mem, c, offset + machine::width(w)),
        t.reg(Reg::Rax) == c.n * machine::size(e) - machine::width(w),
{
    let n = machine::width(w);
    let q1 = p.emit(elementwise::vector_limit(e, w));
    let q2 = q1.begin();
    let q3 = q2.emit(elementwise::at_limit());
    let q4 = q3.exit_if_ge();
    let q5 = q4.emit(elementwise::load_vectors(e, w));
    let q6 = q5.emit(elementwise::combine_vectors(op, e, w));
    let q7 = q6.emit(elementwise::store_vector(e, w));
    vector_loop_starts(full, p, op, e, w);
    vector_pieces_go_on(op, e, w);
    let start = running::behind(q2, d);
    running::reaches_itself(m, full, start);
    let d1 = offset_is_tested(m, d);
    running::runs_ops(m, full, start, q2, elementwise::at_limit(), d, d1);
    running::loop_goes_on(m, full, q3, d1);
    running::reaches_on(m, full, start, running::behind(q3, d1), running::behind(q4, d1));
    let d2 = vectors_are_loaded(m, e, w, d1, c, offset);
    running::runs_ops(m, full, start, q4, elementwise::load_vectors(e, w), d1, d2);
    let d3 = vectors_are_combined(m, op, e, w, d2);
    running::runs_ops(m, full, start, q5, elementwise::combine_vectors(op, e, w), d2, d3);
    let d4 = vector_is_stored(m, e, w, d3, c, offset);
    running::runs_ops(m, full, start, q6, elementwise::store_vector(e, w), d3, d4);
    running::loop_goes_back(m, full, q1, q7, d4);
    running::reaches_on(m, full, start, running::behind(q7, d4), running::behind(q2, d4));
    let x = machine::bytes(d1.mem, c.a + offset, n);
    let y = machine::bytes(d1.mem, c.b + offset, n);
    let z = combined_vector(m, op, e, x, y, n);
    assert(machine::low(d3.wide(elementwise::first(w)), n) =~= z);
    vector_results_grow(m, op, e, w, d1.mem, caller.mem, c, offset);
    d4
}

/// The loop over vectors computes the result up to the last whole vectors.
proof fn vectors_run(
    m: Floats,
    op: Option<Arith>,
    e: Elem,
    w: Wide,
    full: Seq<Ins>,
    p: Asm,
    d: Data,
    caller: Data,
    c: Call,
    offset: int,
) -> (r: (Data, int))
    requires
        program::places_are_single(full),
        running::starts(full, elementwise::vector_loop(p, op, e, w)),
        is_valid(c, e),
        is_inside(d, caller, c, offset),
        has_results(m, op, e, d.mem, caller.mem, c, offset),
        d.reg(Reg::Rax) == c.n * machine::size(e) - machine::width(w),
        0 <= offset <= c.n * machine::size(e),
        offset % machine::width(w) == 0,
    ensures
        machine::reaches(
            m,
            full,
            running::behind(p.emit(elementwise::vector_limit(e, w)).begin(), d),
            running::behind(elementwise::vector_loop(p, op, e, w), r.0),
        ),
        is_inside(r.0, caller, c, r.1),
        has_results(m, op, e, r.0.mem, caller.mem, c, r.1),
        0 <= r.1 <= c.n * machine::size(e),
        r.1 % machine::size(e) == 0,
    decreases c.n * machine::size(e) - offset,
{
    let n = machine::width(w);
    let q1 = p.emit(elementwise::vector_limit(e, w));
    let q2 = q1.begin();
    let start = running::behind(q2, d);
    vectors_are_whole(e, w, offset);
    if offset >= c.n * machine::size(e) - n {
        let q3 = q2.emit(elementwise::at_limit());
        let q7 = q3.exit_if_ge().emit(elementwise::load_vectors(e, w)).emit(
            elementwise::combine_vectors(op, e, w),
        ).emit(elementwise::store_vector(e, w));
        vector_loop_starts(full, p, op, e, w);
        vector_pieces_go_on(op, e, w);
        running::reaches_itself(m, full, start);
        let t = offset_is_tested(m, d);
        running::runs_ops(m, full, start, q2, elementwise::at_limit(), d, t);
        running::loop_is_left(m, full, q3, q7, t);
        running::reaches_on(
            m,
            full,
            start,
            running::behind(q3, t),
            running::behind(q7.end(), t),
        );
        (t, offset)
    } else {
        let next = vector_round(m, op, e, w, full, p, d, caller, c, offset);
        let r = vectors_run(m, op, e, w, full, p, next, caller, c, offset + n);
        running::reaches_on(
            m,
            full,
            start,
            running::behind(q2, next),
            running::behind(elementwise::vector_loop(p, op, e, w), r.0),
        );
        r
    }
}

/// A kernel has computed what it was called for: element `i` of the result is element `i` of the
/// first input combined with element `i` of the second, nothing else in memory has changed, the
/// call reports success, and the registers that belong to the caller are as they were.
pub open spec fn computes(
    m: Floats,
    op: Option<Arith>,
    e: Elem,
    c: Call,
    before: Data,
    after: Data,
) -> bool {
    let s = machine::size(e);
    &&& forall|i: int|
        0 <= i < c.n ==> #[trigger] machine::bytes(after.mem, c.dst + i * s, s) == result(
            m,
            op,
            e,
            before.mem,
            c,
            i,
        )
    &&& forall|x: int|
        x < c.dst || c.dst + c.n * s <= x ==> #[trigger] (after.mem)(x) == (before.mem)(x)
    &&& after.reg(Reg::Rax) == 0
    &&& running::keeps_callers(before, after)
}

/// Results in memory are elements of the result.
proof fn results_are_elements(
    m: Floats,
    op: Option<Arith>,
    e: Elem,
    mem: spec_fn(int) -> u8,
    before: spec_fn(int) -> u8,
    c: Call,
    i: int,
)
    requires
        is_valid(c, e),
        has_results(m, op, e, mem, before, c, c.n * machine::size(e)),
        0 <= i < c.n,
    ensures
        machine::bytes(mem, c.dst + i * machine::size(e), machine::size(e)) == result(
            m,
            op,
            e,
            before,
            c,
            i,
        ),
{
    let s = machine::size(e);
    let x = machine::bytes(mem, c.dst + i * s, s);
    let y = result(m, op, e, before, c, i);
    assert(i * s + s <= c.n * s);
    assert forall|j: int| 0 <= j < s implies x[j] == #[trigger] y[j] by {
        let p = c.dst + i * s + j;
        let now = mem(p);
        assert((p - c.dst) / s == i);
        assert((p - c.dst) % s == j);
    }
    assert(x =~= y);
}

/// The arguments are kept, and the offset starts at zero.
proof fn arguments_are_kept(m: Floats, e: Elem, d: Data, caller: Data, c: Call) -> (t: Data)
    requires
        is_called(d, c),
        running::in_frame(d, caller, elementwise::saved()),
        d.reg(Reg::R13) == caller.reg(Reg::R13),
        d.reg(Reg::R14) == caller.reg(Reg::R14),
        d.reg(Reg::R15) == caller.reg(Reg::R15),
    ensures
        t == machine::after_ops(m, d, elementwise::arguments(), elementwise::arguments().len()),
        is_inside(t, caller, c, 0),
        t.mem == d.mem,
        running::goes_on(elementwise::arguments()),
{
    reveal_with_fuel(machine::after_ops, 6);
    let ops = elementwise::arguments();
    assert(ops[0] == mov(Reg::R10, Reg::Rdi));
    steps::reg_is_set(m, d, Reg::R10, Reg::Rdi);
    let s1 = d.put(Reg::R10, d.reg(Reg::Rdi));
    assert(ops[1] == mov(Reg::R11, Reg::Rsi));
    steps::reg_is_set(m, s1, Reg::R11, Reg::Rsi);
    let s2 = s1.put(Reg::R11, s1.reg(Reg::Rsi));
    assert(ops[2] == mov(Reg::R12, Reg::Rdx));
    steps::reg_is_set(m, s2, Reg::R12, Reg::Rdx);
    let s3 = s2.put(Reg::R12, s2.reg(Reg::Rdx));
    assert(ops[3] == mov(Reg::Rbx, Reg::Rcx));
    steps::reg_is_set(m, s3, Reg::Rbx, Reg::Rcx);
    let s4 = s3.put(Reg::Rbx, s3.reg(Reg::Rcx));
    assert(ops[4] == clear(Reg::Rcx));
    steps::reg_is_cleared(m, s4, Reg::Rcx);
    let s5 = steps::with_reg(s4, Reg::Rcx, 0);
    s5
}

/// The limit of the loop over single elements is the end of the arrays.
proof fn end_is_limit(m: Floats, e: Elem, d: Data, caller: Data, c: Call, offset: int) -> (t: Data)
    requires
        is_valid(c, e),
        is_inside(d, caller, c, offset),
    ensures
        t == machine::after_ops(m, d, elementwise::byte_limit(e), elementwise::byte_limit(e).len()),
        is_inside(t, caller, c, offset),
        t.mem == d.mem,
        t.reg(Reg::Rax) == c.n * machine::size(e),
        running::goes_on(elementwise::byte_limit(e)),
{
    reveal_with_fuel(machine::after_ops, 3);
    let ops = elementwise::byte_limit(e);
    assert(ops[0] == mov(Reg::Rax, Reg::Rbx));
    steps::reg_is_set(m, d, Reg::Rax, Reg::Rbx);
    let s1 = d.put(Reg::Rax, d.reg(Reg::Rbx));
    assert(ops[1] == scale(Reg::Rax, e));
    steps::reg_is_scaled_to(m, s1, Reg::Rax, e);
    let s2 = steps::with_reg(s1, Reg::Rax, s1.reg(Reg::Rax) * machine::size(e));
    s2
}

/// The limit of the loop over vectors is one vector before the end of the arrays.
proof fn last_vector_is_limit(
    m: Floats,
    e: Elem,
    w: Wide,
    d: Data,
    caller: Data,
    c: Call,
    offset: int,
) -> (t: Data)
    requires
        is_valid(c, e),
        is_inside(d, caller, c, offset),
    ensures
        t == machine::after_ops(
            m,
            d,
            elementwise::vector_limit(e, w),
            elementwise::vector_limit(e, w).len(),
        ),
        is_inside(t, caller, c, offset),
        t.mem == d.mem,
        t.reg(Reg::Rax) == c.n * machine::size(e) - machine::width(w),
        running::goes_on(elementwise::vector_limit(e, w)),
{
    reveal_with_fuel(machine::after_ops, 4);
    let ops = elementwise::vector_limit(e, w);
    assert(ops[0] == mov(Reg::Rax, Reg::Rbx));
    steps::reg_is_set(m, d, Reg::Rax, Reg::Rbx);
    let s1 = d.put(Reg::Rax, d.reg(Reg::Rbx));
    assert(ops[1] == scale(Reg::Rax, e));
    steps::reg_is_scaled_to(m, s1, Reg::Rax, e);
    let s2 = steps::with_reg(s1, Reg::Rax, s1.reg(Reg::Rax) * machine::size(e));
    assert(ops[2] == sub_imm(Reg::Rax, elementwise::vector_bytes(w)));
    steps::reg_is_reduced(m, s2, Reg::Rax, elementwise::vector_bytes(w));
    let s3 = steps::with_reg(s2, Reg::Rax, s2.reg(Reg::Rax) - elementwise::vector_bytes(w));
    s3
}

/// Success is reported, and nothing else changes that matters.
proof fn success_is_reported(m: Floats, d: Data, caller: Data, c: Call, offset: int) -> (t: Data)
    requires
        is_inside(d, caller, c, offset),
    ensures
        t == machine::after_ops(m, d, elementwise::succeed(), elementwise::succeed().len()),
        is_inside(t, caller, c, offset),
        t.mem == d.mem,
        t.reg(Reg::Rax) == 0,
        running::goes_on(elementwise::succeed()),
{
    reveal_with_fuel(machine::after_ops, 2);
    reveal(machine::after_op);
    machine::after_ops(m, d, elementwise::succeed(), 1)
}

/// Clean vector registers do not matter.
proof fn vectors_are_cleaned(m: Floats, d: Data, caller: Data, c: Call, offset: int) -> (t: Data)
    requires
        is_inside(d, caller, c, offset),
    ensures
        t == machine::after_ops(m, d, elementwise::clear_upper(), elementwise::clear_upper().len()),
        is_inside(t, caller, c, offset),
        t.mem == d.mem,
        running::goes_on(elementwise::clear_upper()),
{
    reveal_with_fuel(machine::after_ops, 2);
    reveal(machine::after_op);
    machine::after_ops(m, d, elementwise::clear_upper(), 1)
}

/// The saved registers can be saved.
proof fn saved_can_be_saved()
    ensures
        running::can_be_saved(elementwise::saved()),
        elementwise::saved().len() == 2,
{
}

/// Behind the loops a kernel reports success and returns.
proof fn kernel_ends(
    m: Floats,
    op: Option<Arith>,
    e: Elem,
    full: Seq<Ins>,
    start: State,
    p: Asm,
    d: Data,
    caller: Data,
    c: Call,
) -> (t: Data)
    requires
        running::starts(full, p.emit(elementwise::succeed()).leave(elementwise::saved())),
        machine::reaches(m, full, start, running::behind(p, d)),
        is_valid(c, e),
        running::has_room(caller, elementwise::saved()),
        is_inside(d, caller, c, c.n * machine::size(e)),
        has_results(m, op, e, d.mem, caller.mem, c, c.n * machine::size(e)),
    ensures
        machine::reaches(m, full, start, State { pc: machine::returned(), data: t }),
        computes(m, op, e, c, caller, t),
{
    let s = machine::size(e);
    let saved = elementwise::saved();
    let q1 = p.emit(elementwise::succeed());
    running::before_frame(full, q1, saved);
    let d1 = success_is_reported(m, d, caller, c, c.n * s);
    running::runs_ops(m, full, start, p, elementwise::succeed(), d, d1);
    saved_can_be_saved();
    let t = running::frame_is_left(m, full, q1, saved, d1, caller);
    running::reaches_on(
        m,
        full,
        start,
        running::behind(q1, d1),
        State { pc: machine::returned(), data: t },
    );
    assert(saved[0] == Reg::Rbx && saved[1] == Reg::R12);
    assert(t.reg(saved[0]) == caller.reg(saved[0]) && t.reg(saved[1]) == caller.reg(saved[1]));
    assert forall|i: int| 0 <= i < c.n implies #[trigger] machine::bytes(t.mem, c.dst + i * s, s)
        == result(m, op, e, caller.mem, c, i) by {
        results_are_elements(m, op, e, t.mem, caller.mem, c, i);
    }
    t
}

/// A kernel that takes single elements computes what it is called for and returns.
pub proof fn scalar_kernel_computes(
    m: Floats,
    op: Option<Arith>,
    e: Elem,
    d: Data,
    c: Call,
) -> (t: Data)
    requires
        is_called(d, c),
        is_valid(c, e),
        running::has_room(d, elementwise::saved()),
    ensures
        machine::reaches(
            m,
            elementwise::scalar_kernel(op, e).lines,
            State { pc: 0, data: d },
            State { pc: machine::returned(), data: t },
        ),
        computes(m, op, e, c, d, t),
{
    let saved = elementwise::saved();
    let full = elementwise::scalar_kernel(op, e).lines;
    elementwise::scalar_kernel_is_sound(op, e);
    let p0 = Asm::empty();
    let p1 = p0.enter(saved);
    let p2 = p1.emit(elementwise::arguments());
    let p3 = elementwise::scalar_loop(p2, op, e);
    let p4 = p3.emit(elementwise::succeed());
    running::all_start(p4.leave(saved));
    running::before_frame(full, p4, saved);
    running::before_ops(full, p3, elementwise::succeed());
    scalar_loop_starts(full, p2, op, e);
    running::before_ops(full, p1, elementwise::arguments());
    saved_can_be_saved();
    let start = running::behind(p0, d);
    let d1 = running::frame_is_entered(m, full, p0, saved, d);
    let d2 = arguments_are_kept(m, e, d1, d, c);
    running::runs_ops(m, full, start, p1, elementwise::arguments(), d1, d2);
    let d3 = end_is_limit(m, e, d2, d, c, 0);
    let q1 = p2.emit(elementwise::byte_limit(e));
    running::runs_ops(m, full, start, p2, elementwise::byte_limit(e), d2, d3);
    running::loop_is_entered(m, full, q1, d3);
    running::reaches_on(m, full, start, running::behind(q1, d3), running::behind(q1.begin(), d3));
    let d4 = elements_run(m, op, e, full, p2, d3, d, c, 0);
    running::reaches_on(m, full, start, running::behind(q1.begin(), d3), running::behind(p3, d4));
    kernel_ends(m, op, e, full, start, p3, d4, d, c)
}

/// A kernel that takes whole vectors first computes what it is called for and returns.
pub proof fn vector_kernel_computes(
    m: Floats,
    op: Option<Arith>,
    e: Elem,
    w: Wide,
    d: Data,
    c: Call,
) -> (t: Data)
    requires
        is_called(d, c),
        is_valid(c, e),
        running::has_room(d, elementwise::saved()),
    ensures
        machine::reaches(
            m,
            elementwise::vector_kernel(op, e, w).lines,
            State { pc: 0, data: d },
            State { pc: machine::returned(), data: t },
        ),
        computes(m, op, e, c, d, t),
{
    let s = machine::size(e);
    let saved = elementwise::saved();
    let full = elementwise::vector_kernel(op, e, w).lines;
    elementwise::vector_kernel_is_sound(op, e, w);
    let p0 = Asm::empty();
    let p1 = p0.enter(saved);
    let p2 = p1.emit(elementwise::arguments());
    let p3 = elementwise::vector_loop(p2, op, e, w);
    let p4 = elementwise::scalar_loop(p3, op, e);
    let p5 = p4.emit(elementwise::clear_upper());
    let p6 = p5.emit(elementwise::succeed());
    running::all_start(p6.leave(saved));
    running::before_frame(full, p6, saved);
    running::before_ops(full, p5, elementwise::succeed());
    running::before_ops(full, p4, elementwise::clear_upper());
    scalar_loop_starts(full, p3, op, e);
    vector_loop_starts(full, p2, op, e, w);
    running::before_ops(full, p1, elementwise::arguments());
    saved_can_be_saved();
    let start = running::behind(p0, d);
    let d1 = running::frame_is_entered(m, full, p0, saved, d);
    let d2 = arguments_are_kept(m, e, d1, d, c);
    running::runs_ops(m, full, start, p1, elementwise::arguments(), d1, d2);
    let d3 = last_vector_is_limit(m, e, w, d2, d, c, 0);
    let q1 = p2.emit(elementwise::vector_limit(e, w));
    running::runs_ops(m, full, start, p2, elementwise::vector_limit(e, w), d2, d3);
    running::loop_is_entered(m, full, q1, d3);
    running::reaches_on(m, full, start, running::behind(q1, d3), running::behind(q1.begin(), d3));
    let (d4, offset) = vectors_run(m, op, e, w, full, p2, d3, d, c, 0);
    running::reaches_on(m, full, start, running::behind(q1.begin(), d3), running::behind(p3, d4));
    let d5 = end_is_limit(m, e, d4, d, c, offset);
    let q2 = p3.emit(elementwise::byte_limit(e));
    running::runs_ops(m, full, start, p3, elementwise::byte_limit(e), d4, d5);
    running::loop_is_entered(m, full, q2, d5);
    running::reaches_on(m, full, start, running::behind(q2, d5), running::behind(q2.begin(), d5));
    let d6 = elements_run(m, op, e, full, p3, d5, d, c, offset);
    running::reaches_on(m, full, start, running::behind(q2.begin(), d5), running::behind(p4, d6));
    let d7 = vectors_are_cleaned(m, d6, d, c, c.n * s);
    running::runs_ops(m, full, start, p4, elementwise::clear_upper(), d6, d7);
    kernel_ends(m, op, e, full, start, p5, d7, d, c)
}

} // verus!
