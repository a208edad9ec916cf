//! How the numbers of registers and instructions follow the instruction set.

use vstd::prelude::*;
use super::assembler::{Line, MemArg};
use super::inst;
use super::inst::{
    Arith, BareOp, Elem, Filler, Ins, Mem, MrOp, Op, Reg, RiOp, RmOp, RrOp, RrmOp, RrrOp, RrriOp,
    StackOp,
};
use super::lower;

verus! {

/// The number by which an instruction encodes a register.
pub open spec fn encoding(r: Reg) -> int {
    match r {
        Reg::Rax | Reg::Xmm0 | Reg::Ymm0 | Reg::Zmm0 => 0,
        Reg::Rcx | Reg::Ecx | Reg::Xmm1 | Reg::Ymm1 | Reg::Zmm1 => 1,
        Reg::Rdx | Reg::Xmm2 | Reg::Ymm2 | Reg::Zmm2 => 2,
        Reg::Rbx | Reg::Ymm3 | Reg::Zmm3 => 3,
        Reg::Rsp | Reg::Ymm4 | Reg::Zmm4 => 4,
        Reg::Rbp | Reg::Ymm5 | Reg::Zmm5 => 5,
        Reg::Rsi | Reg::Ymm6 | Reg::Zmm6 => 6,
        Reg::Rdi | Reg::Ymm7 | Reg::Zmm7 => 7,
        Reg::R8 | Reg::R8d | Reg::Zmm8 => 8,
        Reg::R9 => 9,
        Reg::R10 | Reg::R10d => 10,
        Reg::R11 | Reg::R11d => 11,
        Reg::R12 => 12,
        Reg::R13 => 13,
        Reg::R14 => 14,
        Reg::R15 => 15,
    }
}

/// The width of a register in bits.
pub open spec fn register_bits(r: Reg) -> int {
    match r {
        Reg::Ecx | Reg::R8d | Reg::R10d | Reg::R11d => 32,
        Reg::Xmm0 | Reg::Xmm1 | Reg::Xmm2 => 128,
        Reg::Ymm0 | Reg::Ymm1 | Reg::Ymm2 | Reg::Ymm3 | Reg::Ymm4 | Reg::Ymm5 | Reg::Ymm6
        | Reg::Ymm7 => 256,
        Reg::Zmm0 | Reg::Zmm1 | Reg::Zmm2 | Reg::Zmm3 | Reg::Zmm4 | Reg::Zmm5 | Reg::Zmm6
        | Reg::Zmm7 | Reg::Zmm8 => 512,
        _ => 64,
    }
}

/// Registers of one width are numbered by their encoding; the 64-bit ones stand behind the sixteen
/// of 32 bits, and each width of vectors behind the thirty-two of the one before it.
pub proof fn registers_are_numbered_by_encoding(r: Reg)
    ensures
        inst::reg_number(r) == encoding(r) + (if register_bits(r) == 32 {
            37int
        } else if register_bits(r) == 64 {
            37int + 16
        } else if register_bits(r) == 128 {
            77
        } else if register_bits(r) == 256 {
            77int + 32
        } else {
            77int + 64
        }),
{
    reveal(inst::reg_number);
}

/// No two registers have one number.
pub proof fn register_numbers_identify(a: Reg, b: Reg)
    ensures
        inst::reg_number(a) == inst::reg_number(b) <==> a == b,
{
    reveal(inst::reg_number);
}

/// The second byte of the instruction for an arithmetic operation on vectors.
pub open spec fn opcode(f: Arith) -> int {
    match f {
        Arith::Add => 0x58,
        Arith::Mul => 0x59,
        Arith::Sub => 0x5c,
        Arith::Min => 0x5d,
        Arith::Div => 0x5e,
        Arith::Max => 0x5f,
    }
}

/// The instructions of an arithmetic operation stand together, eighteen for each opcode in the
/// order of the opcodes: first those on packed singles, three for each width, then those on packed
/// doubles, then the scalar ones, each followed by its form with three operands.
pub proof fn arithmetic_is_numbered_by_opcode(f: Arith, e: Elem, w: inst::Wide)
    ensures
        ({
            let start = if opcode(f) < 0x5a {
                1336 + 18 * (opcode(f) - 0x58)
            } else {
                1411 + 18 * (opcode(f) - 0x5c)
            };
            let double = if e == Elem::F64 {
                1int
            } else {
                0
            };
            let wide = if w == inst::Wide::Z {
                1int
            } else {
                0
            };
            &&& inst::rrr_code(RrrOp::Packed(f, e, w)) == start + 2 + 6 * double + 3 * wide
            &&& inst::rrm_code(RrmOp::Packed(f, e)) == start + 2 + 6 * double
            &&& inst::rr_code(RrOp::Scalar(f, e)) == start + 12 + 3 * double
            &&& inst::rrm_code(RrmOp::Scalar(f, e)) == inst::rr_code(RrOp::Scalar(f, e)) + 1
        }),
{
    reveal(inst::rrr_code);
    reveal(inst::rrm_code);
    reveal(inst::rr_code);
}

/// The forms of an instruction for the widths and element types of vectors are laid out alike for
/// loads, stores and exclusive or, and a store stands twenty-two behind the load of its kind.
pub proof fn moves_are_numbered_alike(e: Elem, w: inst::Wide)
    ensures
        ({
            let double = if e == Elem::F64 {
                1int
            } else {
                0
            };
            let wide = if w == inst::Wide::Z {
                1int
            } else {
                0
            };
            &&& inst::rm_code(RmOp::MovVector(e, w)) == 895 + 6 * double + 3 * wide
            &&& inst::mr_code(MrOp::MovVector(e, w)) == inst::rm_code(RmOp::MovVector(e, w)) + 22
            &&& inst::rm_code(RmOp::MovScalar(e)) == 905 + 5 * double
            &&& inst::mr_code(MrOp::MovScalar(e)) == inst::rm_code(RmOp::MovScalar(e)) + 22
            &&& inst::rrr_code(RrrOp::Xor(e, w)) == inst::rr_code(RrOp::Xorps) + 2 + 6 * double + 3
                * wide
            &&& inst::rr_code(RrOp::Xorps) == 1324
            &&& inst::rrr_code(RrrOp::Fma(w)) == 3535 + 5 * wide
            &&& inst::rm_code(RmOp::Broadcast(w)) == 2689 + 3 * wide
            &&& inst::rm_code(RmOp::BroadcastDouble) == inst::rm_code(
                RmOp::Broadcast(inst::Wide::Z),
            ) + 1
            &&& inst::rrri_code(RrriOp::Shuf(e)) == 2178 + 6 * double
            &&& inst::rrri_code(RrriOp::Perm2f128) == 3738
            &&& inst::rr_code(RrOp::Cvtss2sd) == 1384
        }),
{
    reveal(inst::rrr_code);
    reveal(inst::rr_code);
    reveal(inst::rm_code);
    reveal(inst::mr_code);
    reveal(inst::rrri_code);
}

/// The digit by which an operation with a number is encoded.
pub open spec fn digit(op: RiOp) -> int {
    match op {
        RiOp::Add => 0,
        RiOp::Sub => 5,
        RiOp::Cmp => 7,
    }
}

/// An operation with a number is numbered by its digit, with the short form thirty-two behind the
/// long one. Only a number that fits a signed byte takes the short form, and `rax` has a form of
/// its own, eight behind the form on two registers.
pub proof fn numbers_take_the_shortest_form(op: RiOp, dst: Reg, imm: i32)
    ensures
        dst != Reg::Rax && -128 <= imm < 128 ==> inst::ri_code(op, dst, imm) == 217 + 32 + 3
            * digit(op),
        dst != Reg::Rax && !(-128 <= imm < 128) ==> inst::ri_code(op, dst, imm) == 217 + 3 * digit(
            op,
        ),
        inst::ri_code(RiOp::Add, Reg::Rax, imm) == inst::rr_code(RrOp::Add) + 8,
        inst::ri_code(RiOp::Cmp, Reg::Rax, imm) == inst::rr_code(RrOp::Cmp) + 8,
        inst::ri_code(RiOp::Sub, Reg::Rax, imm) == 92,
{
    reveal(inst::ri_code);
    reveal(inst::rr_code);
}

/// The operations on general registers, the stack and nothing have their places in the list.
pub proof fn general_instructions_have_their_numbers()
    ensures
        inst::rr_code(RrOp::Add) == 8,
        inst::rr_code(RrOp::Xor) == 97,
        inst::rr_code(RrOp::Cmp) == 110,
        inst::rr_code(RrOp::Cmp32) == inst::rr_code(RrOp::Cmp) - 1,
        inst::rr_code(RrOp::Mov) == 282,
        inst::rm_code(RmOp::Mov) == inst::rr_code(RrOp::Mov) + 4,
        inst::rm_code(RmOp::Lea) == 292,
        inst::rr_code(RrOp::Imul) == 2072,
        inst::stack_code(StackOp::Push) == 126,
        inst::stack_code(StackOp::Pop) == 129,
        inst::bare_code(BareOp::Ret) == 396,
        inst::bare_code(BareOp::Vzeroupper) == 1736,
        inst::bare_code(BareOp::Vzeroall) == inst::bare_code(BareOp::Vzeroupper) + 1,
{
    reveal(inst::rr_code);
    reveal(inst::rm_code);
    reveal(inst::stack_code);
    reveal(inst::bare_code);
}

/// The register that an entry writes to, where it names one in front.
pub open spec fn target(line: Line) -> Option<u8> {
    match line {
        Line::Rr(_, d, _) => Some(d),
        Line::Ri(_, d, _) => Some(d),
        Line::Rm(_, d, _) => Some(d),
        Line::Rrr(_, d, _, _) => Some(d),
        Line::Rrm(_, d, _, _) => Some(d),
        Line::Rrri(_, d, _, _, _) => Some(d),
        _ => None,
    }
}

/// The registers that an entry reads, in order, behind its target.
pub open spec fn sources(line: Line) -> Seq<u8> {
    match line {
        Line::Rr(_, _, s) => seq![s],
        Line::Mr(_, _, s) => seq![s],
        Line::Rrr(_, _, x, y) => seq![x, y],
        Line::Rrm(_, _, x, _) => seq![x],
        Line::Rrri(_, _, x, y, _) => seq![x, y],
        _ => Seq::empty(),
    }
}

/// The entry of an operation names the target of the operation and its sources in their order.
pub proof fn entries_keep_registers(op: Op)
    ensures
        ({
            let line = lower::op_line(op);
            match op {
                Op::Rr(_, d, s) => target(line) == Some(inst::reg_number(d)) && sources(line)
                    == seq![inst::reg_number(s)],
                Op::Ri(_, d, _) => target(line) == Some(inst::reg_number(d)),
                Op::Mov64(d, _) => target(line) == Some(inst::reg_number(d)),
                Op::Mov32(d, _) => target(line) == Some(inst::reg_number(d)),
                Op::Scale(d, _) => target(line) == Some(inst::reg_number(d)),
                Op::Rm(_, d, _) => target(line) == Some(inst::reg_number(d)),
                Op::Mr(_, _, s) => target(line) is None && sources(line) == seq![
                    inst::reg_number(s),
                ],
                Op::Rrr(_, d, x, y) => target(line) == Some(inst::reg_number(d)) && sources(line)
                    == seq![inst::reg_number(x), inst::reg_number(y)],
                Op::Rrm(_, d, x, _) => target(line) == Some(inst::reg_number(d)) && sources(line)
                    == seq![inst::reg_number(x)],
                Op::Rrri(_, d, x, y, _) => target(line) == Some(inst::reg_number(d)) && sources(
                    line,
                ) == seq![inst::reg_number(x), inst::reg_number(y)],
                _ => target(line) is None && sources(line).len() == 0,
            }
        }),
{
}

/// A number goes into the entry as it is; the two moves and the shift by the size of an element
/// are numbered in the order of their opcodes, and the shift multiplies by that size.
pub proof fn entries_keep_numbers(d: Reg, n: i64, m: u32, e: Elem, k: i32)
    ensures
        lower::op_line(Op::Mov64(d, n)) matches Line::Ri(c, _, x) && x == n && c == 358,
        lower::op_line(Op::Mov32(d, m)) matches Line::Ri(c, _, x) && x == m && c == 357,
        lower::op_line(Op::Scale(d, e)) matches Line::Ri(c, _, x) && c == 381 && 0 <= x && (e
            == Elem::F32 ==> vstd::arithmetic::power2::pow2(x as nat) == 4) && (e == Elem::F64
            ==> vstd::arithmetic::power2::pow2(x as nat) == 8),
        lower::op_line(Op::Ri(RiOp::Add, d, k)) matches Line::Ri(_, _, x) && x == k,
        lower::op_line(Op::Ri(RiOp::Sub, d, k)) matches Line::Ri(_, _, x) && x == k,
        lower::op_line(Op::Ri(RiOp::Cmp, d, k)) matches Line::Ri(_, _, x) && x == k,
{
    vstd::arithmetic::power2::lemma2_to64();
}

/// A memory operand keeps its base, its index and its displacement, which takes room only where
/// it is not zero; an index is never scaled.
pub proof fn entries_keep_addresses(m: Mem)
    ensures
        ({
            let a: MemArg = lower::mem_numbers(m);
            &&& a.base == inst::reg_number(m.base)
            &&& m.index matches Some(i) ==> a.index == inst::reg_number(i)
            &&& m.index is None ==> a.index == 0
            &&& a.scale == 1
            &&& a.disp == m.disp
            &&& a.disp_size == 0 <==> m.disp == 0
            &&& m.disp != 0 ==> a.disp_size == 1
        }),
{
}

/// A jump and the place of its label share a number, which is never zero, and different labels
/// have different numbers; a push and a pop of one register differ in the instruction alone.
pub proof fn entries_keep_labels(k: inst::JumpKind, a: u64, b: u64, r: Reg)
    requires
        a < u64::MAX,
        b < u64::MAX,
    ensures
        lower::line_of(Ins::Jump(k, a)) matches Line::Jump(kind, x) && kind == k && x > 0 && (
        lower::line_of(Ins::Place(b)) matches Line::Place(y) && (x == y <==> a == b)),
        lower::line_of(Ins::Push(r)) matches Line::Stack(c, x) && x == inst::reg_number(r) && c
            == inst::stack_code(StackOp::Push),
        lower::line_of(Ins::Pop(r)) matches Line::Stack(c, x) && x == inst::reg_number(r) && c
            == inst::stack_code(StackOp::Pop),
{
}

/// The length of a filler.
pub open spec fn length(f: Filler) -> int {
    match f {
        Filler::One => 1,
        Filler::Two => 2,
        Filler::Three => 3,
        Filler::Four => 4,
        Filler::Five => 5,
        Filler::Six => 6,
        Filler::Seven => 7,
        Filler::Eight => 8,
        Filler::Nine => 9,
    }
}

/// A filler is one instruction that does nothing: the single byte `90`, or `0F 1F` with an address
/// of the length that is wanted and nothing but zeros in it, each with or without a prefix `66`.
/// The byte behind `0F 1F` says whether an index follows (`04`) and whether the displacement has
/// no byte, one or four.
pub proof fn fillers_do_nothing(f: Filler)
    ensures
        ({
            let b = lower::filler_bytes(f);
            let prefixed = length(f) == 2 || length(f) == 6 || length(f) == 9;
            let at = if prefixed {
                1int
            } else {
                0
            };
            let core = length(f) - at;
            let form = if core == 3 {
                0x00u8
            } else if core == 4 {
                0x40
            } else if core == 5 {
                0x44
            } else if core == 7 {
                0x80
            } else {
                0x84
            };
            &&& b.len() == length(f)
            &&& prefixed ==> b[0] == 0x66
            &&& core == 1 ==> b[at] == 0x90
            &&& core > 1 ==> b[at] == 0x0F && b[at + 1] == 0x1F && b[at + 2] == form
            &&& core > 1 ==> forall|i: int| at + 3 <= i < b.len() ==> #[trigger] b[i] == 0
        }),
{
}

/// The filler of a number of bytes has that many.
pub proof fn fillers_have_their_length(n: usize)
    requires
        1 <= n <= 9,
    ensures
        lower::filler_bytes(lower::filler_of(n)).len() == n,
{
}

} // verus!
