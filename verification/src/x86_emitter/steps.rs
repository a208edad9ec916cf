//! What single operations do, where nothing wraps.

use crate::x86_emitter::inst::{
    acc_scalar, acc_vector, add_imm, add_reg, at, at_disp, at_sum, bare, broadcast, clear, clear_low,
    compare, compare_imm, fill, fma, imul, lea_sum, load, mov, mov_imm, mov_imm32, packed, scalar, scale,
    store, sub_imm, vclear, vload, vstore, Arith, BareOp, Elem, Op, Reg, RmOp, Wide,
};
use crate::x86_emitter::machine;
use crate::x86_emitter::machine::{Data, Floats};
use vstd::prelude::*;

verus! {

/// The data with the result of arithmetic in a register.
pub open spec fn with_reg(d: Data, r: Reg, x: int) -> Data {
    Data { gpr: d.gpr.insert(machine::whole(r), x), less: None, ..d }
}

/// A register is copied.
pub(crate) proof fn reg_is_set(fl: Floats, d: Data, x: Reg, y: Reg)
    ensures
        machine::after_op(fl, d, mov(x, y)) == d.put(x, d.reg(y)),
{
    reveal(machine::after_op);
}

/// A register starts at zero.
pub(crate) proof fn reg_is_cleared(fl: Floats, d: Data, x: Reg)
    ensures
        machine::after_op(fl, d, clear(x)) == with_reg(d, x, 0),
{
    reveal(machine::after_op);
}

/// A product that stays in range.
pub(crate) proof fn reg_is_multiplied(fl: Floats, d: Data, x: Reg, y: Reg)
    requires
        -0x8000_0000_0000_0000 <= d.reg(x) * d.reg(y) < 0x8000_0000_0000_0000,
    ensures
        machine::after_op(fl, d, imul(x, y)) == with_reg(d, x, d.reg(x) * d.reg(y)),
{
    reveal(machine::after_op);
}

/// A sum that stays in range.
pub(crate) proof fn reg_is_increased(fl: Floats, d: Data, x: Reg, y: Reg)
    requires
        -0x8000_0000_0000_0000 <= d.reg(x) + d.reg(y) < 0x8000_0000_0000_0000,
    ensures
        machine::after_op(fl, d, add_reg(x, y)) == with_reg(d, x, d.reg(x) + d.reg(y)),
{
    reveal(machine::after_op);
}

/// A sum with a constant that stays in range.
pub(crate) proof fn reg_is_advanced(fl: Floats, d: Data, x: Reg, by: i32)
    requires
        -0x8000_0000_0000_0000 <= d.reg(x) + by < 0x8000_0000_0000_0000,
    ensures
        machine::after_op(fl, d, add_imm(x, by)) == with_reg(d, x, d.reg(x) + by),
{
    reveal(machine::after_op);
}

/// A difference from a constant that stays in range.
pub(crate) proof fn reg_is_reduced(fl: Floats, d: Data, x: Reg, by: i32)
    requires
        -0x8000_0000_0000_0000 <= d.reg(x) - by < 0x8000_0000_0000_0000,
    ensures
        machine::after_op(fl, d, sub_imm(x, by)) == with_reg(d, x, d.reg(x) - by),
{
    reveal(machine::after_op);
}

/// A constant.
pub(crate) proof fn reg_is_loaded(fl: Floats, d: Data, x: Reg, n: i64)
    ensures
        machine::after_op(fl, d, mov_imm(x, n)) == d.put(x, n as int),
{
    reveal(machine::after_op);
}

/// A number of bytes that stays in range.
pub(crate) proof fn reg_is_scaled(fl: Floats, d: Data, x: Reg)
    requires
        -0x8000_0000_0000_0000 <= d.reg(x) * 4 < 0x8000_0000_0000_0000,
    ensures
        machine::after_op(fl, d, scale(x, Elem::F32)) == with_reg(d, x, d.reg(x) * 4),
{
    reveal(machine::after_op);
}

/// The element at `rax` is put into every place of a register.
pub(crate) proof fn register_is_filled(fl: Floats, d: Data, r: Reg)
    requires
        0 <= d.reg(Reg::Rax) < 0x8000_0000_0000_0000,
    ensures
        machine::after_op(fl, d, broadcast(Wide::Z, r, at(Reg::Rax))) == d.put_wide(
            r,
            machine::filled(machine::repeated(machine::bytes(d.mem, d.reg(Reg::Rax), 4), 64)),
        ),
{
    reveal(machine::after_op);
}

/// The bytes of a 256-bit vector with the element `b` in every place.
pub open spec fn copies(e: Elem, b: Seq<u8>) -> Seq<u8> {
    match e {
        Elem::F32 => machine::repeated(b, 32),
        Elem::F64 => machine::repeated_double(b, 32),
    }
}

/// The element at `rdi` is put into every place of a register.
pub(crate) proof fn register_is_seeded(fl: Floats, d: Data, e: Elem, r: Reg)
    requires
        0 <= d.reg(Reg::Rdi) < 0x8000_0000_0000_0000,
    ensures
        machine::after_op(fl, d, fill(e, r, at(Reg::Rdi))) == d.put_wide(
            r,
            machine::filled(
                copies(e, machine::bytes(d.mem, d.reg(Reg::Rdi), machine::size(e))),
            ),
        ),
{
    reveal(machine::after_op);
}

/// A register is loaded from behind an address.
pub(crate) proof fn register_is_loaded(fl: Floats, d: Data, r: Reg, base: Reg, off: i32) -> (t: Data)
    requires
        0 <= d.reg(base) + off < 0x8000_0000_0000_0000,
    ensures
        t == machine::after_op(fl, d, vload(Elem::F32, Wide::Z, r, at_disp(base, off))),
        t == d.put_wide(r, machine::filled(machine::bytes(d.mem, d.reg(base) + off, 64))),
{
    reveal(machine::after_op);
    machine::after_op(fl, d, vload(Elem::F32, Wide::Z, r, at_disp(base, off)))
}

/// A register is stored behind an address.
pub(crate) proof fn register_is_stored(fl: Floats, d: Data, r: Reg, base: Reg, off: i32) -> (t: Data)
    requires
        0 <= d.reg(base) + off < 0x8000_0000_0000_0000,
    ensures
        t == machine::after_op(fl, d, vstore(Elem::F32, Wide::Z, at_disp(base, off), r)),
        t == d.put_bytes(d.reg(base) + off, machine::low(d.wide(r), 64)),
{
    reveal(machine::after_op);
    machine::after_op(fl, d, vstore(Elem::F32, Wide::Z, at_disp(base, off), r))
}

/// Terms are added to a register.
pub(crate) proof fn register_is_summed(fl: Floats, d: Data, x: Reg, y: Reg, z: Reg) -> (t: Data)
    ensures
        t == machine::after_op(fl, d, fma(Wide::Z, x, y, z)),
        t == d.put_wide(
            x,
            machine::filled(machine::lanewise_fma(fl, d.wide(y), d.wide(z), d.wide(x), 64)),
        ),
{
    reveal(machine::after_op);
    machine::after_op(fl, d, fma(Wide::Z, x, y, z))
}

/// The sum of two registers as an address.
pub(crate) proof fn sum_is_addressed(fl: Floats, d: Data, x: Reg, y: Reg, z: Reg)
    requires
        -0x8000_0000_0000_0000 <= d.reg(y) + d.reg(z) < 0x8000_0000_0000_0000,
    ensures
        machine::after_op(fl, d, lea_sum(x, y, z)) == d.put(x, d.reg(y) + d.reg(z)),
{
    reveal(machine::after_op);
}

/// A register is cleared.
pub(crate) proof fn register_is_cleared(fl: Floats, d: Data, e: Elem, w: Wide, r: Reg)
    ensures
        machine::after_op(fl, d, vclear(e, w, r)) == d.put_wide(
            r,
            machine::filled(machine::zeros(machine::width(w))),
        ),
{
    reveal(machine::after_op);
}

/// A register is compared with a constant.
pub(crate) proof fn reg_is_compared(fl: Floats, d: Data, x: Reg, n: i32)
    ensures
        machine::after_op(fl, d, compare_imm(x, n)) == (Data { less: Some(d.reg(x) < n), ..d }),
{
    reveal(machine::after_op);
}

/// A single element is loaded.
pub(crate) proof fn low_is_loaded(fl: Floats, d: Data, e: Elem, r: Reg, base: Reg) -> (t: Data)
    requires
        0 <= d.reg(base) < 0x8000_0000_0000_0000,
    ensures
        t == machine::after_op(fl, d, load(e, r, at(base))),
        t.gpr == d.gpr,
        t.mem == d.mem,
        t.stack == d.stack,
        forall|i: int| i != machine::slot(r) ==> #[trigger] t.vec[i] == d.vec[i],
        machine::lane(t.wide(r), e, 0) == machine::bytes(d.mem, d.reg(base), machine::size(e)),
{
    reveal(machine::after_op);
    let t = machine::after_op(fl, d, load(e, r, at(base)));
    let b = machine::bytes(d.mem, d.reg(base), machine::size(e));
    assert(t.wide(r) == machine::low_replaced(d.wide(r), b, 16));
    assert(machine::lane(t.wide(r), e, 0) =~= b);
    t
}

/// A single element is stored.
pub(crate) proof fn low_is_stored(fl: Floats, d: Data, e: Elem, r: Reg, base: Reg) -> (t: Data)
    requires
        0 <= d.reg(base) < 0x8000_0000_0000_0000,
    ensures
        t == machine::after_op(fl, d, store(e, at(base), r)),
        t == d.put_bytes(d.reg(base), machine::lane(d.wide(r), e, 0)),
{
    reveal(machine::after_op);
    assert(machine::low(d.wide(r), machine::size(e)) =~= machine::lane(d.wide(r), e, 0));
    machine::after_op(fl, d, store(e, at(base), r))
}

/// A vector is loaded.
pub(crate) proof fn vector_is_loaded(fl: Floats, d: Data, e: Elem, w: Wide, r: Reg, base: Reg)
    requires
        0 <= d.reg(base) < 0x8000_0000_0000_0000,
    ensures
        machine::after_op(fl, d, vload(e, w, r, at(base))) == d.put_wide(
            r,
            machine::filled(machine::bytes(d.mem, d.reg(base), machine::width(w))),
        ),
{
    reveal(machine::after_op);
}

/// A vector is stored.
pub(crate) proof fn vector_is_stored(fl: Floats, d: Data, e: Elem, w: Wide, r: Reg, base: Reg)
    requires
        0 <= d.reg(base) < 0x8000_0000_0000_0000,
    ensures
        machine::after_op(fl, d, vstore(e, w, at(base), r)) == d.put_bytes(
            d.reg(base),
            machine::low(d.wide(r), machine::width(w)),
        ),
{
    reveal(machine::after_op);
}

/// Two registers are compared.
pub(crate) proof fn regs_are_compared(fl: Floats, d: Data, x: Reg, y: Reg)
    ensures
        machine::after_op(fl, d, compare(x, y)) == (Data {
            less: Some(d.reg(x) < d.reg(y)),
            ..d
        }),
{
    reveal(machine::after_op);
}

/// A constant in the low half of a register clears the other half.
pub(crate) proof fn low_half_is_loaded(fl: Floats, d: Data, x: Reg, n: u32)
    ensures
        machine::after_op(fl, d, mov_imm32(x, n)) == d.put(x, n as int),
{
    reveal(machine::after_op);
}

/// A number is loaded from behind an address.
pub(crate) proof fn word_is_loaded(fl: Floats, d: Data, x: Reg, base: Reg, off: i32)
    requires
        -0x8000_0000_0000_0000 <= d.reg(base) + off < 0x8000_0000_0000_0000,
    ensures
        machine::after_op(fl, d, Op::Rm(RmOp::Mov, x, at_disp(base, off))) == d.put(
            x,
            machine::word(machine::bytes(d.mem, d.reg(base) + off, 8)),
        ),
{
    reveal(machine::after_op);
}

/// All vector registers are cleared.
pub(crate) proof fn registers_are_cleared(fl: Floats, d: Data) -> (t: Data)
    ensures
        t == machine::after_op(fl, d, bare(BareOp::Vzeroall)),
        t.gpr == d.gpr,
        t.mem == d.mem,
        t.stack == d.stack,
{
    reveal(machine::after_op);
    machine::after_op(fl, d, bare(BareOp::Vzeroall))
}

/// Arithmetic on two single elements.
pub(crate) proof fn scalar_is_applied(fl: Floats, d: Data, f: Arith, x: Reg, y: Reg) -> (t: Data)
    ensures
        t == machine::after_op(fl, d, scalar(f, Elem::F32, x, y)),
        t.gpr == d.gpr,
        t.mem == d.mem,
        t.stack == d.stack,
        forall|i: int| i != machine::slot(x) ==> #[trigger] t.vec[i] == d.vec[i],
        machine::lane(t.wide(x), Elem::F32, 0) == machine::low(
            (fl.arith)(
                f,
                Elem::F32,
                machine::lane(d.wide(x), Elem::F32, 0),
                machine::lane(d.wide(y), Elem::F32, 0),
            ),
            4,
        ),
{
    reveal(machine::after_op);
    let t = machine::after_op(fl, d, scalar(f, Elem::F32, x, y));
    let v = machine::low(
        (fl.arith)(
            f,
            Elem::F32,
            machine::lane(d.wide(x), Elem::F32, 0),
            machine::lane(d.wide(y), Elem::F32, 0),
        ),
        4,
    );
    assert(t.wide(x) == machine::low_replaced(d.wide(x), v, 4));
    assert(machine::lane(t.wide(x), Elem::F32, 0) =~= v);
    t
}

/// A single zero.
pub(crate) proof fn low_is_cleared(fl: Floats, d: Data, x: Reg) -> (t: Data)
    ensures
        t == machine::after_op(fl, d, clear_low(x)),
        t.gpr == d.gpr,
        t.mem == d.mem,
        t.stack == d.stack,
        forall|i: int| i != machine::slot(x) ==> #[trigger] t.vec[i] == d.vec[i],
        machine::lane(t.wide(x), Elem::F32, 0) == machine::zeros(4),
{
    reveal(machine::after_op);
    let t = machine::after_op(fl, d, clear_low(x));
    assert(machine::lane(t.wide(x), Elem::F32, 0) =~= machine::zeros(4));
    t
}

/// A vector in memory is taken into a register.
pub(crate) proof fn vector_is_taken(fl: Floats, d: Data, f: Arith, e: Elem, r: Reg, off: i32)
    requires
        -0x8000_0000_0000_0000 <= d.reg(Reg::Rdi) + d.reg(Reg::Rdx) + off < 0x8000_0000_0000_0000,
    ensures
        machine::after_op(fl, d, acc_vector(f, e, r, at_sum(Reg::Rdi, Reg::Rdx, off)))
            == d.put_wide(
            r,
            machine::filled(
                machine::lanewise(
                    fl,
                    f,
                    e,
                    d.wide(r),
                    machine::bytes(d.mem, d.reg(Reg::Rdi) + d.reg(Reg::Rdx) + off, 32),
                    32,
                ),
            ),
        ),
{
    reveal(machine::after_op);
}

/// Two registers are combined.
pub(crate) proof fn vectors_are_combined(fl: Floats, d: Data, f: Arith, e: Elem, x: Reg, y: Reg, z: Reg)
    ensures
        machine::after_op(fl, d, packed(f, e, Wide::Y, x, y, z)) == d.put_wide(
            x,
            machine::filled(machine::lanewise(fl, f, e, d.wide(y), d.wide(z), 32)),
        ),
{
    reveal(machine::after_op);
}

/// A single element in memory is taken into a register.
pub(crate) proof fn element_is_taken(fl: Floats, d: Data, f: Arith, e: Elem, r: Reg) -> (t: Data)
    requires
        -0x8000_0000_0000_0000 <= d.reg(Reg::Rdi) + d.reg(Reg::Rdx) < 0x8000_0000_0000_0000,
    ensures
        t == machine::after_op(fl, d, acc_scalar(f, e, r, at_sum(Reg::Rdi, Reg::Rdx, 0))),
        t.gpr == d.gpr,
        t.mem == d.mem,
        t.stack == d.stack,
        machine::lane(t.wide(r), e, 0) == machine::low(
            (fl.arith)(
                f,
                e,
                machine::lane(d.wide(r), e, 0),
                machine::bytes(d.mem, d.reg(Reg::Rdi) + d.reg(Reg::Rdx), machine::size(e)),
            ),
            machine::size(e),
        ),
{
    reveal(machine::after_op);
    let t = machine::after_op(fl, d, acc_scalar(f, e, r, at_sum(Reg::Rdi, Reg::Rdx, 0)));
    let v = machine::low(
        (fl.arith)(
            f,
            e,
            machine::lane(d.wide(r), e, 0),
            machine::bytes(d.mem, d.reg(Reg::Rdi) + d.reg(Reg::Rdx), machine::size(e)),
        ),
        machine::size(e),
    );
    assert(t.wide(r) == machine::filled(
        machine::low_replaced(machine::low(d.wide(r), 16), v, machine::size(e)).take(16),
    ));
    assert(machine::lane(t.wide(r), e, 0) =~= v);
    t
}

/// A number of bytes that stays in range, for elements of either precision.
pub(crate) proof fn reg_is_scaled_to(fl: Floats, d: Data, x: Reg, e: Elem)
    requires
        -0x8000_0000_0000_0000 <= d.reg(x) * machine::size(e) < 0x8000_0000_0000_0000,
    ensures
        machine::after_op(fl, d, scale(x, e)) == with_reg(d, x, d.reg(x) * machine::size(e)),
{
    reveal(machine::after_op);
}

} // verus!
