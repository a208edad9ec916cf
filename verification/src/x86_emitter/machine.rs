//! What the instructions of the kernels do: a processor as a value, and its steps.
//!
//! The stack is kept apart from the memory, and so stands for one that no array overlaps.

use crate::x86_emitter::inst::{
    Arith, BareOp, Elem, Ins, JumpKind, Mem, MrOp, Op, Reg, RiOp, RmOp, RrOp, RrmOp, RrrOp, RrriOp,
    Wide,
};
use vstd::prelude::*;

verus! {

/// What floating-point operations give, on elements in bytes.
pub struct Floats {
    /// Arithmetic on two elements.
    pub arith: spec_fn(Arith, Elem, Seq<u8>, Seq<u8>) -> Seq<u8>,
    /// The first element times the second, plus the third, single precision, rounded once.
    pub fma: spec_fn(Seq<u8>, Seq<u8>, Seq<u8>) -> Seq<u8>,
    /// A single-precision element in double precision.
    pub widen: spec_fn(Seq<u8>) -> Seq<u8>,
}

/// What instructions read and write.
pub struct Data {
    /// The 64-bit registers, as signed numbers.
    pub gpr: Map<Reg, int>,
    /// The vector registers in bytes, by their numbers.
    pub vec: Map<int, Seq<u8>>,
    /// The memory.
    pub mem: spec_fn(int) -> u8,
    /// The stack.
    pub stack: Seq<int>,
    /// Whether the last comparison found its first operand below the second; unknown after an
    /// operation that leaves something else in the flags.
    pub less: Option<bool>,
}

/// A processor: the line that comes next, and its data.
pub struct State {
    pub pc: int,
    pub data: Data,
}

/// The place of a processor that has returned.
pub open spec fn returned() -> int {
    -1
}

/// The place of a processor that came to a line without a meaning.
pub open spec fn stuck() -> int {
    -2
}

/// Bytes of an element.
pub open spec fn size(e: Elem) -> int {
    match e {
        Elem::F32 => 4,
        Elem::F64 => 8,
    }
}

/// Bytes of a vector.
pub open spec fn width(w: Wide) -> int {
    match w {
        Wide::Y => 32,
        Wide::Z => 64,
    }
}

/// The signed number that a 64-bit register holds of `x`.
pub open spec fn wrap(x: int) -> int {
    if -0x8000_0000_0000_0000 <= x < 0x8000_0000_0000_0000 {
        x
    } else {
        (x + 0x8000_0000_0000_0000) % 0x1_0000_0000_0000_0000 - 0x8000_0000_0000_0000
    }
}

/// The signed number in the low half of a 64-bit register.
pub open spec fn low_half(x: int) -> int {
    if -0x8000_0000 <= x < 0x8000_0000 {
        x
    } else {
        (x + 0x8000_0000) % 0x1_0000_0000 - 0x8000_0000
    }
}

/// The 64-bit register that a register is, or is a part of.
pub open spec fn whole(r: Reg) -> Reg {
    match r {
        Reg::Ecx => Reg::Rcx,
        Reg::R8d => Reg::R8,
        Reg::R10d => Reg::R10,
        Reg::R11d => Reg::R11,
        _ => r,
    }
}

/// The number of the vector register that a register is a part of.
pub open spec fn slot(r: Reg) -> int {
    match r {
        Reg::Xmm0 | Reg::Ymm0 | Reg::Zmm0 => 0,
        Reg::Xmm1 | Reg::Ymm1 | Reg::Zmm1 => 1,
        Reg::Xmm2 | Reg::Ymm2 | Reg::Zmm2 => 2,
        Reg::Ymm3 | Reg::Zmm3 => 3,
        Reg::Ymm4 | Reg::Zmm4 => 4,
        Reg::Ymm5 | Reg::Zmm5 => 5,
        Reg::Ymm6 | Reg::Zmm6 => 6,
        Reg::Ymm7 | Reg::Zmm7 => 7,
        _ => 8,
    }
}

/// `n` bytes of memory.
pub open spec fn bytes(mem: spec_fn(int) -> u8, at: int, n: int) -> Seq<u8> {
    Seq::new(n as nat, |i: int| mem(at + i))
}

/// The memory with bytes put in at an address.
pub open spec fn with_bytes(mem: spec_fn(int) -> u8, at: int, b: Seq<u8>) -> spec_fn(int) -> u8 {
    |x: int|
        if at <= x < at + b.len() {
            b[x - at]
        } else {
            mem(x)
        }
}

/// Eight bytes as a signed number, the lowest first.
pub open spec fn word(b: Seq<u8>) -> int {
    wrap(
        b[0] + 0x100 * b[1] + 0x1_0000 * b[2] + 0x100_0000 * b[3] + 0x1_0000_0000 * b[4]
            + 0x100_0000_0000 * b[5] + 0x1_0000_0000_0000 * b[6] + 0x100_0000_0000_0000 * b[7],
    )
}

/// The first `n` bytes of a register.
pub open spec fn low(v: Seq<u8>, n: int) -> Seq<u8> {
    Seq::new(n as nat, |i: int| v[i])
}

/// Element `i` of a register.
pub open spec fn lane(v: Seq<u8>, e: Elem, i: int) -> Seq<u8> {
    Seq::new(size(e) as nat, |j: int| v[i * size(e) + j])
}

/// A register whose first bytes are `b`, up to `upto` then zero, and behind that as before.
pub open spec fn low_replaced(v: Seq<u8>, b: Seq<u8>, upto: int) -> Seq<u8> {
    Seq::new(
        64,
        |i: int|
            if i < b.len() {
                b[i]
            } else if i < upto {
                0
            } else {
                v[i]
            },
    )
}

/// A register that holds `b` and otherwise zeros.
pub open spec fn filled(b: Seq<u8>) -> Seq<u8> {
    low_replaced(Seq::empty(), b, 64)
}

/// `n` bytes of elements, each computed from the elements of two registers in its place.
pub open spec fn lanewise(m: Floats, f: Arith, e: Elem, x: Seq<u8>, y: Seq<u8>, n: int) -> Seq<u8> {
    Seq::new(
        n as nat,
        |i: int|
            (m.arith)(f, e, lane(x, e, i / size(e)), lane(y, e, i / size(e)))[i % size(e)],
    )
}

/// `n` bytes of single-precision elements, each a product added to the element in its place.
pub open spec fn lanewise_fma(m: Floats, x: Seq<u8>, y: Seq<u8>, z: Seq<u8>, n: int) -> Seq<u8> {
    Seq::new(
        n as nat,
        |i: int|
            (m.fma)(
                lane(x, Elem::F32, i / 4),
                lane(y, Elem::F32, i / 4),
                lane(z, Elem::F32, i / 4),
            )[i % 4],
    )
}

/// `n` bytes that repeat one single-precision element.
pub open spec fn repeated(b: Seq<u8>, n: int) -> Seq<u8> {
    Seq::new(n as nat, |i: int| b[i % 4])
}

/// `n` bytes that repeat one double-precision element.
pub open spec fn repeated_double(b: Seq<u8>, n: int) -> Seq<u8> {
    Seq::new(n as nat, |i: int| b[i % 8])
}

/// Bit `k` of a selector, or the number in its bits from `k` on, below `modulus`.
pub open spec fn bits(imm: u8, shifted: int, modulus: int) -> int {
    (imm as int / shifted) % modulus
}

/// The half of 16 bytes that a selector of two bits takes out of two registers.
pub open spec fn half_byte(x: Seq<u8>, y: Seq<u8>, choice: int, i: int) -> u8 {
    if choice < 2 {
        x[choice * 16 + i]
    } else {
        y[(choice - 2) * 16 + i]
    }
}

/// The two halves of 16 bytes that a selector takes out of two registers.
pub open spec fn halves(x: Seq<u8>, y: Seq<u8>, imm: u8) -> Seq<u8> {
    Seq::new(
        32,
        |i: int|
            if i < 16 {
                if bits(imm, 8, 2) == 1 {
                    0
                } else {
                    half_byte(x, y, bits(imm, 1, 4), i)
                }
            } else {
                if bits(imm, 128, 2) == 1 {
                    0
                } else {
                    half_byte(x, y, bits(imm, 16, 4), i - 16)
                }
            },
    )
}

/// The single-precision elements that a selector takes out of each half of two registers.
pub open spec fn shuffled_singles(x: Seq<u8>, y: Seq<u8>, imm: u8) -> Seq<u8> {
    Seq::new(
        32,
        |i: int|
            {
                let base = i / 16 * 16;
                let place = i % 16 / 4;
                if place == 0 {
                    x[base + bits(imm, 1, 4) * 4 + i % 4]
                } else if place == 1 {
                    x[base + bits(imm, 4, 4) * 4 + i % 4]
                } else if place == 2 {
                    y[base + bits(imm, 16, 4) * 4 + i % 4]
                } else {
                    y[base + bits(imm, 64, 4) * 4 + i % 4]
                }
            },
    )
}

/// The double-precision elements that a selector takes out of each half of two registers.
pub open spec fn shuffled_doubles(x: Seq<u8>, y: Seq<u8>, imm: u8) -> Seq<u8> {
    Seq::new(
        32,
        |i: int|
            {
                let place = i / 8;
                if place == 0 {
                    x[bits(imm, 1, 2) * 8 + i % 8]
                } else if place == 1 {
                    y[bits(imm, 2, 2) * 8 + i % 8]
                } else if place == 2 {
                    x[16 + bits(imm, 4, 2) * 8 + i % 8]
                } else {
                    y[16 + bits(imm, 8, 2) * 8 + i % 8]
                }
            },
    )
}

/// `n` zero bytes.
pub open spec fn zeros(n: int) -> Seq<u8> {
    Seq::new(n as nat, |i: int| 0)
}

/// The exclusive or of `n` bytes.
pub open spec fn xor_bytes(x: Seq<u8>, y: Seq<u8>, n: int) -> Seq<u8> {
    if x == y {
        zeros(n)
    } else {
        Seq::new(n as nat, |i: int| x[i] ^ y[i])
    }
}

impl Data {
    /// The number in a register.
    pub open spec fn reg(self, r: Reg) -> int {
        self.gpr[whole(r)]
    }

    /// The bytes of a vector register.
    pub open spec fn wide(self, r: Reg) -> Seq<u8> {
        self.vec[slot(r)]
    }

    /// Puts a number into a register.
    pub open spec fn put(self, r: Reg, x: int) -> Data {
        Data { gpr: self.gpr.insert(whole(r), x), ..self }
    }

    /// Puts bytes into a vector register.
    pub open spec fn put_wide(self, r: Reg, b: Seq<u8>) -> Data {
        Data { vec: self.vec.insert(slot(r), b), ..self }
    }

    /// Puts the result of arithmetic into a register, which leaves something in the flags.
    pub open spec fn put_sum(self, r: Reg, x: int) -> Data {
        Data { gpr: self.gpr.insert(whole(r), wrap(x)), less: None, ..self }
    }

    /// Puts bytes into memory.
    pub open spec fn put_bytes(self, at: int, b: Seq<u8>) -> Data {
        Data { mem: with_bytes(self.mem, at, b), ..self }
    }

    /// The address of a place in memory.
    pub open spec fn address(self, m: Mem) -> int {
        match m.index {
            Some(r) => wrap(self.reg(m.base) + self.reg(r) + m.disp),
            None => wrap(self.reg(m.base) + m.disp),
        }
    }
}

/// The exclusive or of two 64-bit numbers.
pub open spec fn xor(a: int, b: int) -> int {
    if a == b {
        0
    } else {
        ((a as i64) ^ (b as i64)) as int
    }
}

/// The data behind an operation on two registers.
pub open spec fn after_rr(m: Floats, d: Data, op: RrOp, x: Reg, y: Reg) -> Data {
    match op {
        RrOp::Mov => d.put(x, d.reg(y)),
        RrOp::Add => d.put_sum(x, d.reg(x) + d.reg(y)),
        RrOp::Cmp => Data { less: Some(d.reg(x) < d.reg(y)), ..d },
        RrOp::Cmp32 => Data { less: Some(low_half(d.reg(x)) < low_half(d.reg(y))), ..d },
        RrOp::Xor => d.put_sum(x, xor(d.reg(x), d.reg(y))),
        RrOp::Imul => d.put_sum(x, d.reg(x) * d.reg(y)),
        RrOp::Xorps => d.put_wide(
            x,
            low_replaced(d.wide(x), xor_bytes(d.wide(x), d.wide(y), 16), 16),
        ),
        RrOp::Cvtss2sd => d.put_wide(
            x,
            low_replaced(d.wide(x), low((m.widen)(low(d.wide(y), 4)), 8), 8),
        ),
        RrOp::Scalar(f, e) => d.put_wide(
            x,
            low_replaced(
                d.wide(x),
                low((m.arith)(f, e, lane(d.wide(x), e, 0), lane(d.wide(y), e, 0)), size(e)),
                size(e),
            ),
        ),
    }
}

/// The data behind an operation that reads memory.
pub open spec fn after_rm(m: Floats, d: Data, op: RmOp, x: Reg, at: int) -> Data {
    match op {
        RmOp::Mov => d.put(x, word(bytes(d.mem, at, 8))),
        RmOp::Lea => d.put(x, at),
        RmOp::MovScalar(e) => d.put_wide(
            x,
            low_replaced(d.wide(x), bytes(d.mem, at, size(e)), 16),
        ),
        RmOp::MovVector(_, w) => d.put_wide(x, filled(bytes(d.mem, at, width(w)))),
        RmOp::Broadcast(w) => d.put_wide(x, filled(repeated(bytes(d.mem, at, 4), width(w)))),
        RmOp::BroadcastDouble => d.put_wide(x, filled(repeated_double(bytes(d.mem, at, 8), 32))),
    }
}

/// The data behind an operation on three registers.
pub open spec fn after_rrr(m: Floats, d: Data, op: RrrOp, x: Reg, y: Reg, z: Reg) -> Data {
    match op {
        RrrOp::Xor(_, w) => d.put_wide(x, filled(xor_bytes(d.wide(y), d.wide(z), width(w)))),
        RrrOp::Fma(w) => d.put_wide(
            x,
            filled(lanewise_fma(m, d.wide(y), d.wide(z), d.wide(x), width(w))),
        ),
        RrrOp::Packed(f, e, w) => d.put_wide(
            x,
            filled(lanewise(m, f, e, d.wide(y), d.wide(z), width(w))),
        ),
    }
}

/// The data behind an operation on two registers and memory.
pub open spec fn after_rrm(m: Floats, d: Data, op: RrmOp, x: Reg, y: Reg, at: int) -> Data {
    match op {
        RrmOp::Packed(f, e) => d.put_wide(
            x,
            filled(lanewise(m, f, e, d.wide(y), bytes(d.mem, at, 32), 32)),
        ),
        RrmOp::Scalar(f, e) => d.put_wide(
            x,
            filled(
                low_replaced(
                    low(d.wide(y), 16),
                    low((m.arith)(f, e, lane(d.wide(y), e, 0), bytes(d.mem, at, size(e))), size(e)),
                    size(e),
                ).take(16),
            ),
        ),
    }
}

/// The data behind an operation that is no return.
#[verifier::opaque]
pub open spec fn after_op(m: Floats, d: Data, op: Op) -> Data {
    match op {
        Op::Bare(BareOp::Ret) => d,
        Op::Bare(BareOp::Vzeroupper) => Data {
            vec: Map::new(|i: int| true, |i: int| filled(low(d.vec[i], 16))),
            ..d
        },
        Op::Bare(BareOp::Vzeroall) => Data {
            vec: Map::new(|i: int| true, |i: int| zeros(64)),
            ..d
        },
        Op::Rr(o, x, y) => after_rr(m, d, o, x, y),
        Op::Ri(RiOp::Add, x, n) => d.put_sum(x, d.reg(x) + n),
        Op::Ri(RiOp::Sub, x, n) => d.put_sum(x, d.reg(x) - n),
        Op::Ri(RiOp::Cmp, x, n) => Data { less: Some(d.reg(x) < n), ..d },
        Op::Mov64(x, n) => d.put(x, n as int),
        Op::Mov32(x, n) => d.put(x, n as int),
        Op::Scale(x, e) => d.put_sum(x, d.reg(x) * size(e)),
        Op::Rm(o, x, p) => after_rm(m, d, o, x, d.address(p)),
        Op::Mr(MrOp::MovScalar(e), p, x) => d.put_bytes(d.address(p), low(d.wide(x), size(e))),
        Op::Mr(MrOp::MovVector(_, w), p, x) => d.put_bytes(d.address(p), low(d.wide(x), width(w))),
        Op::Rrr(o, x, y, z) => after_rrr(m, d, o, x, y, z),
        Op::Rrm(o, x, y, p) => after_rrm(m, d, o, x, y, d.address(p)),
        Op::Rrri(RrriOp::Perm2f128, x, y, z, n) => d.put_wide(
            x,
            filled(halves(d.wide(y), d.wide(z), n)),
        ),
        Op::Rrri(RrriOp::Shuf(Elem::F32), x, y, z, n) => d.put_wide(
            x,
            filled(shuffled_singles(d.wide(y), d.wide(z), n)),
        ),
        Op::Rrri(RrriOp::Shuf(Elem::F64), x, y, z, n) => d.put_wide(
            x,
            filled(shuffled_doubles(d.wide(y), d.wide(z), n)),
        ),
        Op::Nop(_) => d,
    }
}

/// The data behind the first `k` of some operations.
pub open spec fn after_ops(m: Floats, d: Data, ops: Seq<Op>, k: nat) -> Data
    decreases k,
{
    if k == 0 {
        d
    } else {
        after_op(m, after_ops(m, d, ops, (k - 1) as nat), ops[k - 1])
    }
}

/// The line that a label is placed in.
pub open spec fn line_of_label(lines: Seq<Ins>, l: u64) -> int {
    choose|i: int| 0 <= i < lines.len() && lines[i] == Ins::Place(l)
}

/// Whether a jump is taken, where that is known.
pub open spec fn taken(k: JumpKind, less: Option<bool>) -> Option<bool> {
    match (k, less) {
        (JumpKind::Always, _) => Some(true),
        (JumpKind::GreaterOrEqual, Some(l)) => Some(!l),
        (JumpKind::Less, Some(l)) => Some(l),
        _ => None,
    }
}

/// The data behind saving a register.
pub open spec fn after_push(d: Data, r: Reg) -> Data {
    Data { stack: d.stack.push(d.reg(r)), ..d.put(Reg::Rsp, wrap(d.reg(Reg::Rsp) - 8)) }
}

/// The data behind restoring a register.
pub open spec fn after_pop(d: Data, r: Reg) -> Data {
    Data {
        stack: d.stack.drop_last(),
        ..d.put(Reg::Rsp, wrap(d.reg(Reg::Rsp) + 8)).put(r, d.stack.last())
    }
}

/// The processor behind one step. Outside of the program it stays where it is.
pub open spec fn step(m: Floats, lines: Seq<Ins>, s: State) -> State {
    if 0 <= s.pc < lines.len() {
        match lines[s.pc] {
            Ins::Op(Op::Bare(BareOp::Ret)) => State { pc: returned(), ..s },
            Ins::Op(op) => State { pc: s.pc + 1, data: after_op(m, s.data, op) },
            Ins::Push(r) => State { pc: s.pc + 1, data: after_push(s.data, r) },
            Ins::Pop(r) => if s.data.stack.len() > 0 {
                State { pc: s.pc + 1, data: after_pop(s.data, r) }
            } else {
                State { pc: stuck(), ..s }
            },
            Ins::Jump(k, l) => match taken(k, s.data.less) {
                Some(true) => State { pc: line_of_label(lines, l), ..s },
                Some(false) => State { pc: s.pc + 1, ..s },
                None => State { pc: stuck(), ..s },
            },
            Ins::Place(_) => State { pc: s.pc + 1, ..s },
        }
    } else {
        s
    }
}

/// The processor behind `n` steps.
pub open spec fn run(m: Floats, lines: Seq<Ins>, s: State, n: nat) -> State
    decreases n,
{
    if n == 0 {
        s
    } else {
        run(m, lines, step(m, lines, s), (n - 1) as nat)
    }
}

/// The processor comes from `s` to `t` in some number of steps.
pub open spec fn reaches(m: Floats, lines: Seq<Ins>, s: State, t: State) -> bool {
    exists|n: nat| #[trigger] run(m, lines, s, n) == t
}

} // verus!
