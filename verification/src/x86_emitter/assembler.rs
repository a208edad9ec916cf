//! The assembler of the `iced_x86` crate: what it holds, and the calls that fill and read it.
//!
//! Everything that is believed of the crate stands in this file.

use crate::x86_emitter::inst::{
    BareOp, JumpKind, MrOp, Reg, RiOp, RmOp, RrOp, RrmOp, RrrOp, RrriOp, StackOp,
};
use crate::x86_emitter::inst;
use iced_x86::code_asm::{CodeAssembler, CodeLabel};
use iced_x86::{Code, Instruction, MemoryOperand, Register};
use vstd::prelude::*;

verus! {

/// The assembler.
#[verifier::external_type_specification]
#[verifier::external_body]
pub struct ExCodeAssembler(CodeAssembler);

/// A label of an assembler.
#[verifier::external_type_specification]
#[verifier::external_body]
pub struct ExCodeLabel(CodeLabel);

/// A memory operand in the encoder's numbers. The index is 0 where there is none.
#[derive(Debug, Clone, Copy, PartialEq, Eq, Structural)]
pub struct MemArg {
    pub base: u8,
    pub index: u8,
    pub scale: u32,
    pub disp: i64,
    pub disp_size: u32,
}

/// One entry of an assembler: an instruction by its number and operands, a jump, the place of a
/// label, or plain bytes.
pub enum Line {
    Bare(u16),
    Stack(u16, u8),
    Rr(u16, u8, u8),
    Ri(u16, u8, i64),
    Rm(u16, u8, MemArg),
    Mr(u16, MemArg, u8),
    Rrr(u16, u8, u8, u8),
    Rrm(u16, u8, u8, MemArg),
    Rrri(u16, u8, u8, u8, i32),
    Jump(JumpKind, u64),
    Place(u64),
    Bytes(Seq<u8>),
}

/// What has been added to an assembler, in order.
pub uninterp spec fn entries(a: CodeAssembler) -> Seq<Line>;

/// How many labels an assembler has made.
pub uninterp spec fn labels_made(a: CodeAssembler) -> nat;

/// The assembler was made for 64-bit code and keeps its default settings, with no prefix and no
/// anonymous label waiting for the next instruction.
pub uninterp spec fn is_plain(a: CodeAssembler) -> bool;

/// The number of a label; an assembler numbers its labels from 1.
pub uninterp spec fn label_number(l: CodeLabel) -> u64;

/// The machine code of a list of entries at an address, where they can be encoded.
pub uninterp spec fn machine_code(s: Seq<Line>, ip: u64) -> Option<Seq<u8>>;

/// The assembler `b` is `a` with `line` added.
pub open spec fn adds(a: CodeAssembler, b: CodeAssembler, line: Line) -> bool {
    &&& entries(b) == entries(a).push(line)
    &&& labels_made(b) == labels_made(a)
    &&& is_plain(b)
}

/// A label waits for the next instruction.
pub open spec fn label_waits(s: Seq<Line>) -> bool {
    s.len() > 0 && s.last() is Place
}

/// The number of some register that the library uses.
pub open spec fn is_reg(n: u8) -> bool {
    exists|r: Reg| #[trigger] inst::reg_number(r) == n
}

/// A memory operand with registers that the library uses.
pub open spec fn is_mem(m: MemArg) -> bool {
    &&& is_reg(m.base)
    &&& m.index == 0 || is_reg(m.index)
    &&& m.scale == 1
    &&& m.disp_size <= 1
}

/// `CodeAssembler::new` for 64-bit code: an empty assembler.
#[verifier::external_body]
pub(crate) fn new_assembler() -> (r: CodeAssembler)
    ensures
        entries(r) == Seq::<Line>::empty(),
        labels_made(r) == 0,
        is_plain(r),
{
    CodeAssembler::new(64).unwrap()
}

/// `CodeAssembler::create_label`: a label with the next number. Nothing is added.
#[verifier::external_body]
pub(crate) fn new_label(a: &mut CodeAssembler) -> (r: CodeLabel)
    requires
        labels_made(*old(a)) < u64::MAX,
    ensures
        label_number(r) == labels_made(*old(a)) + 1,
        labels_made(*final(a)) == labels_made(*old(a)) + 1,
        entries(*final(a)) == entries(*old(a)),
        is_plain(*final(a)) == is_plain(*old(a)),
{
    a.create_label()
}

/// `CodeAssembler::set_label`: the label addresses the next instruction. It fails for a label
/// that the assembler did not make, one that was placed before, and where another label already
/// waits for the next instruction.
#[verifier::external_body]
pub(crate) fn place_label(a: &mut CodeAssembler, label: CodeLabel)
    requires
        is_plain(*old(a)),
        1 <= label_number(label) <= labels_made(*old(a)),
        !entries(*old(a)).contains(Line::Place(label_number(label))),
        !label_waits(entries(*old(a))),
    ensures
        adds(*old(a), *final(a), Line::Place(label_number(label))),
{
    let mut label = label;
    a.set_label(&mut label).unwrap()
}

/// `CodeAssembler::jmp` to a label: adds the jump that `Instruction::with_branch` makes with the
/// number of the label as its target. That fails only for an instruction that is no branch.
#[verifier::external_body]
pub(crate) fn add_jmp(a: &mut CodeAssembler, label: CodeLabel)
    requires
        is_plain(*old(a)),
    ensures
        adds(*old(a), *final(a), Line::Jump(JumpKind::Always, label_number(label))),
{
    a.jmp(label).unwrap()
}

/// `CodeAssembler::jge` to a label: adds the jump where greater or equal that `Instruction::with_branch` makes with the
/// number of the label as its target. That fails only for an instruction that is no branch.
#[verifier::external_body]
pub(crate) fn add_jge(a: &mut CodeAssembler, label: CodeLabel)
    requires
        is_plain(*old(a)),
    ensures
        adds(*old(a), *final(a), Line::Jump(JumpKind::GreaterOrEqual, label_number(label))),
{
    a.jge(label).unwrap()
}

/// `CodeAssembler::jl` to a label: adds the jump where less that `Instruction::with_branch` makes with the
/// number of the label as its target. That fails only for an instruction that is no branch.
#[verifier::external_body]
pub(crate) fn add_jl(a: &mut CodeAssembler, label: CodeLabel)
    requires
        is_plain(*old(a)),
    ensures
        adds(*old(a), *final(a), Line::Jump(JumpKind::Less, label_number(label))),
{
    a.jl(label).unwrap()
}

/// `CodeAssembler::add_instruction` of `Instruction::with`: an instruction without operands. As
/// every `add_instruction` here, it fails only where an anonymous label waits.
#[verifier::external_body]
pub(crate) fn add_bare(a: &mut CodeAssembler, code: u16)
    requires
        is_plain(*old(a)),
        exists|op: BareOp| #[trigger] inst::bare_code(op) == code,
    ensures
        adds(*old(a), *final(a), Line::Bare(code)),
{
    let code = Code::try_from(code as usize).unwrap();
    a.add_instruction(Instruction::with(code)).unwrap()
}

/// `CodeAssembler::add_instruction` of `Instruction::with1`: an instruction on one register. The
/// `with` functions on registers and memory set the operands and never fail.
#[verifier::external_body]
pub(crate) fn add_stack(a: &mut CodeAssembler, code: u16, reg: u8)
    requires
        is_plain(*old(a)),
        exists|op: StackOp| #[trigger] inst::stack_code(op) == code,
        is_reg(reg),
    ensures
        adds(*old(a), *final(a), Line::Stack(code, reg)),
{
    let code = Code::try_from(code as usize).unwrap();
    let reg = Register::try_from(reg as usize).unwrap();
    a.add_instruction(Instruction::with1(code, reg).unwrap()).unwrap()
}

/// `CodeAssembler::add_instruction` of `Instruction::with2` on two registers.
#[verifier::external_body]
pub(crate) fn add_rr(a: &mut CodeAssembler, code: u16, dst: u8, src: u8)
    requires
        is_plain(*old(a)),
        exists|op: RrOp| #[trigger] inst::rr_code(op) == code,
        is_reg(dst),
        is_reg(src),
    ensures
        adds(*old(a), *final(a), Line::Rr(code, dst, src)),
{
    let code = Code::try_from(code as usize).unwrap();
    let dst = Register::try_from(dst as usize).unwrap();
    let src = Register::try_from(src as usize).unwrap();
    a.add_instruction(Instruction::with2(code, dst, src).unwrap()).unwrap()
}

/// The form of an instruction holds the number: any for a 64-bit load, a 32-bit word for a 32-bit
/// load, a distance of two or three for a shift, and a signed 32-bit number for the rest, of which
/// the short form holds those of one byte.
pub open spec fn form_holds(code: u16, dst: u8, imm: i64) -> bool {
    ||| code == inst::MOV_IMM64
    ||| code == inst::MOV_IMM32 && 0 <= imm <= u32::MAX
    ||| code == inst::SHL_IMM8 && 2 <= imm <= 3
    ||| exists|op: RiOp, r: Reg, n: i32| #[trigger]
        inst::ri_code(op, r, n) == code && inst::reg_number(r) == dst && n == imm
}

/// `CodeAssembler::add_instruction` of `Instruction::with2` on a register and a number. It fails
/// for a number that the form of the instruction cannot hold.
#[verifier::external_body]
pub(crate) fn add_ri(a: &mut CodeAssembler, code: u16, dst: u8, imm: i64)
    requires
        is_plain(*old(a)),
        is_reg(dst),
        form_holds(code, dst, imm),
    ensures
        adds(*old(a), *final(a), Line::Ri(code, dst, imm)),
{
    let code = Code::try_from(code as usize).unwrap();
    let dst = Register::try_from(dst as usize).unwrap();
    a.add_instruction(Instruction::with2(code, dst, imm).unwrap()).unwrap()
}

/// `CodeAssembler::add_instruction` of `Instruction::with2` on a register and memory.
#[verifier::external_body]
pub(crate) fn add_rm(a: &mut CodeAssembler, code: u16, dst: u8, m: MemArg)
    requires
        is_plain(*old(a)),
        exists|op: RmOp| #[trigger] inst::rm_code(op) == code,
        is_reg(dst),
        is_mem(m),
    ensures
        adds(*old(a), *final(a), Line::Rm(code, dst, m)),
{
    let code = Code::try_from(code as usize).unwrap();
    let dst = Register::try_from(dst as usize).unwrap();
    let base = Register::try_from(m.base as usize).unwrap();
    let index = Register::try_from(m.index as usize).unwrap();
    let m = MemoryOperand::new(base, index, m.scale, m.disp, m.disp_size, false, Register::None);
    a.add_instruction(Instruction::with2(code, dst, m).unwrap()).unwrap()
}

/// `CodeAssembler::add_instruction` of `Instruction::with2` on memory and a register.
#[verifier::external_body]
pub(crate) fn add_mr(a: &mut CodeAssembler, code: u16, m: MemArg, src: u8)
    requires
        is_plain(*old(a)),
        exists|op: MrOp| #[trigger] inst::mr_code(op) == code,
        is_reg(src),
        is_mem(m),
    ensures
        adds(*old(a), *final(a), Line::Mr(code, m, src)),
{
    let code = Code::try_from(code as usize).unwrap();
    let src = Register::try_from(src as usize).unwrap();
    let base = Register::try_from(m.base as usize).unwrap();
    let index = Register::try_from(m.index as usize).unwrap();
    let m = MemoryOperand::new(base, index, m.scale, m.disp, m.disp_size, false, Register::None);
    a.add_instruction(Instruction::with2(code, m, src).unwrap()).unwrap()
}

/// `CodeAssembler::add_instruction` of `Instruction::with3` on three registers.
#[verifier::external_body]
pub(crate) fn add_rrr(a: &mut CodeAssembler, code: u16, dst: u8, x: u8, y: u8)
    requires
        is_plain(*old(a)),
        exists|op: RrrOp| #[trigger] inst::rrr_code(op) == code,
        is_reg(dst),
        is_reg(x),
        is_reg(y),
    ensures
        adds(*old(a), *final(a), Line::Rrr(code, dst, x, y)),
{
    let code = Code::try_from(code as usize).unwrap();
    let dst = Register::try_from(dst as usize).unwrap();
    let x = Register::try_from(x as usize).unwrap();
    let y = Register::try_from(y as usize).unwrap();
    a.add_instruction(Instruction::with3(code, dst, x, y).unwrap()).unwrap()
}

/// `CodeAssembler::add_instruction` of `Instruction::with3` on two registers and memory.
#[verifier::external_body]
pub(crate) fn add_rrm(a: &mut CodeAssembler, code: u16, dst: u8, x: u8, m: MemArg)
    requires
        is_plain(*old(a)),
        exists|op: RrmOp| #[trigger] inst::rrm_code(op) == code,
        is_reg(dst),
        is_reg(x),
        is_mem(m),
    ensures
        adds(*old(a), *final(a), Line::Rrm(code, dst, x, m)),
{
    let code = Code::try_from(code as usize).unwrap();
    let dst = Register::try_from(dst as usize).unwrap();
    let x = Register::try_from(x as usize).unwrap();
    let base = Register::try_from(m.base as usize).unwrap();
    let index = Register::try_from(m.index as usize).unwrap();
    let m = MemoryOperand::new(base, index, m.scale, m.disp, m.disp_size, false, Register::None);
    a.add_instruction(Instruction::with3(code, dst, x, m).unwrap()).unwrap()
}

/// `CodeAssembler::add_instruction` of `Instruction::with4` on three registers and a number of
/// one byte.
#[verifier::external_body]
pub(crate) fn add_rrri(a: &mut CodeAssembler, code: u16, dst: u8, x: u8, y: u8, imm: i32)
    requires
        is_plain(*old(a)),
        exists|op: RrriOp| #[trigger] inst::rrri_code(op) == code,
        is_reg(dst),
        is_reg(x),
        is_reg(y),
        0 <= imm <= 255,
    ensures
        adds(*old(a), *final(a), Line::Rrri(code, dst, x, y, imm)),
{
    let code = Code::try_from(code as usize).unwrap();
    let dst = Register::try_from(dst as usize).unwrap();
    let x = Register::try_from(x as usize).unwrap();
    let y = Register::try_from(y as usize).unwrap();
    a.add_instruction(Instruction::with4(code, dst, x, y, imm).unwrap()).unwrap()
}

/// `CodeAssembler::db`: plain bytes. Up to sixteen of them make one entry, by
/// `Instruction::with_declare_byte`.
#[verifier::external_body]
pub(crate) fn add_bytes(a: &mut CodeAssembler, data: &[u8])
    requires
        is_plain(*old(a)),
        1 <= data@.len() <= 16,
    ensures
        adds(*old(a), *final(a), Line::Bytes(data@)),
{
    a.db(data).unwrap()
}

/// `CodeAssembler::assemble`: the machine code of what was added, at the address `ip`. Which
/// bytes these are is left unsaid: that is the encoding of the processor's instructions. There is
/// no code where an entry cannot be encoded or a label still waits for an instruction. A jump to a
/// label without a place is encoded as a jump to the address that is the number of the label.
#[verifier::external_body]
pub(crate) fn assemble(a: &mut CodeAssembler, ip: u64) -> (r: Option<Vec<u8>>)
    requires
        is_plain(*old(a)),
    ensures
        r is Some <==> machine_code(entries(*old(a)), ip) is Some,
        r is Some ==> Some(r->Some_0@) == machine_code(entries(*old(a)), ip),
{
    a.assemble(ip).ok()
}

} // verus!
