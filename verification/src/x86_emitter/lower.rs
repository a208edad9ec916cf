//! From programs to machine code, and fillers between them.

use crate::x86_emitter::assembler;
use crate::x86_emitter::assembler::{
    add_bare, add_bytes, add_jge, add_jl, add_jmp, add_mr, add_ri, add_rm, add_rr, add_rrm,
    add_rrr, add_rrri, add_stack, assemble, new_assembler, new_label, place_label, MemArg,
};
use crate::x86_emitter::inst;
use crate::x86_emitter::inst::{
    code_of_bare, code_of_mr, code_of_ri, code_of_rm, code_of_rr, code_of_rrm, code_of_rrr,
    code_of_rrri, code_of_stack, number_of_reg, size_shift, Filler, Ins, JumpKind, Mem, Op, Reg,
    StackOp,
};
use crate::x86_emitter::program;
use crate::x86_emitter::program::Program;
use iced_x86::code_asm::{CodeAssembler, CodeLabel};
use vstd::prelude::*;

verus! {

/// Address that machine code is laid out for.
pub const BASE_ADDRESS: u64 = 0x10000;

/// A memory operand in the encoder's numbers. A displacement takes room only where there is one.
pub open spec fn mem_numbers(m: Mem) -> MemArg {
    MemArg {
        base: inst::reg_number(m.base),
        index: match m.index {
            Some(r) => inst::reg_number(r),
            None => 0,
        },
        scale: 1,
        disp: m.disp as i64,
        disp_size: if m.disp == 0 {
            0
        } else {
            1
        },
    }
}

fn mem_arg(m: Mem) -> (r: MemArg)
    ensures
        r == mem_numbers(m),
        assembler::is_mem(r),
{
    let index: u8 = match m.index {
        Some(r) => number_of_reg(r),
        None => 0,
    };
    let disp_size: u32 = if m.disp == 0 {
        0
    } else {
        1
    };
    MemArg { base: number_of_reg(m.base), index, scale: 1, disp: m.disp as i64, disp_size }
}

/// The bytes of a filler.
pub open spec fn filler_bytes(f: Filler) -> Seq<u8> {
    match f {
        Filler::One => seq![0x90u8],
        Filler::Two => seq![0x66u8, 0x90],
        Filler::Three => seq![0x0Fu8, 0x1F, 0x00],
        Filler::Four => seq![0x0Fu8, 0x1F, 0x40, 0x00],
        Filler::Five => seq![0x0Fu8, 0x1F, 0x44, 0x00, 0x00],
        Filler::Six => seq![0x66u8, 0x0F, 0x1F, 0x44, 0x00, 0x00],
        Filler::Seven => seq![0x0Fu8, 0x1F, 0x80, 0x00, 0x00, 0x00, 0x00],
        Filler::Eight => seq![0x0Fu8, 0x1F, 0x84, 0x00, 0x00, 0x00, 0x00, 0x00],
        Filler::Nine => seq![0x66u8, 0x0F, 0x1F, 0x84, 0x00, 0x00, 0x00, 0x00, 0x00],
    }
}

fn filler(f: Filler) -> (r: Vec<u8>)
    ensures
        r@ == filler_bytes(f),
        1 <= r@.len() <= 9,
{
    let r: Vec<u8> = match f {
        Filler::One => vec![0x90u8],
        Filler::Two => vec![0x66u8, 0x90],
        Filler::Three => vec![0x0Fu8, 0x1F, 0x00],
        Filler::Four => vec![0x0Fu8, 0x1F, 0x40, 0x00],
        Filler::Five => vec![0x0Fu8, 0x1F, 0x44, 0x00, 0x00],
        Filler::Six => vec![0x66u8, 0x0F, 0x1F, 0x44, 0x00, 0x00],
        Filler::Seven => vec![0x0Fu8, 0x1F, 0x80, 0x00, 0x00, 0x00, 0x00],
        Filler::Eight => vec![0x0Fu8, 0x1F, 0x84, 0x00, 0x00, 0x00, 0x00, 0x00],
        Filler::Nine => vec![0x66u8, 0x0F, 0x1F, 0x84, 0x00, 0x00, 0x00, 0x00, 0x00],
    };
    assert(r@ =~= filler_bytes(f));
    r
}

/// The entry of an operation.
pub open spec fn op_line(op: Op) -> assembler::Line {
    match op {
        Op::Bare(o) => assembler::Line::Bare(inst::bare_code(o)),
        Op::Rr(o, d, s) => assembler::Line::Rr(inst::rr_code(o), inst::reg_number(d), inst::reg_number(s)),
        Op::Ri(o, d, n) => assembler::Line::Ri(inst::ri_code(o, d, n), inst::reg_number(d), n as i64),
        Op::Mov64(d, n) => assembler::Line::Ri(inst::MOV_IMM64, inst::reg_number(d), n),
        Op::Mov32(d, n) => assembler::Line::Ri(inst::MOV_IMM32, inst::reg_number(d), n as i64),
        Op::Scale(d, e) => assembler::Line::Ri(inst::SHL_IMM8, inst::reg_number(d), size_shift(e)),
        Op::Rm(o, d, m) => assembler::Line::Rm(inst::rm_code(o), inst::reg_number(d), mem_numbers(m)),
        Op::Mr(o, m, s) => assembler::Line::Mr(inst::mr_code(o), mem_numbers(m), inst::reg_number(s)),
        Op::Rrr(o, d, x, y) => assembler::Line::Rrr(
            inst::rrr_code(o),
            inst::reg_number(d),
            inst::reg_number(x),
            inst::reg_number(y),
        ),
        Op::Rrm(o, d, x, m) => assembler::Line::Rrm(
            inst::rrm_code(o),
            inst::reg_number(d),
            inst::reg_number(x),
            mem_numbers(m),
        ),
        Op::Rrri(o, d, x, y, n) => assembler::Line::Rrri(
            inst::rrri_code(o),
            inst::reg_number(d),
            inst::reg_number(x),
            inst::reg_number(y),
            n as i32,
        ),
        Op::Nop(f) => assembler::Line::Bytes(filler_bytes(f)),
    }
}

/// The entry of a line. The assembler numbers its labels from 1.
pub open spec fn line_of(i: Ins) -> assembler::Line {
    match i {
        Ins::Op(op) => op_line(op),
        Ins::Push(r) => assembler::Line::Stack(inst::stack_code(StackOp::Push), inst::reg_number(r)),
        Ins::Pop(r) => assembler::Line::Stack(inst::stack_code(StackOp::Pop), inst::reg_number(r)),
        Ins::Jump(k, l) => assembler::Line::Jump(k, (l + 1) as u64),
        Ins::Place(l) => assembler::Line::Place((l + 1) as u64),
    }
}

/// The entries of a list of lines.
pub open spec fn lines_of(s: Seq<Ins>) -> Seq<assembler::Line> {
    s.map_values(|i: Ins| line_of(i))
}

/// The labels of the lines are below `next`.
pub open spec fn labels_below(s: Seq<Ins>, next: int) -> bool {
    forall|i: int|
        0 <= i < s.len() ==> match #[trigger] s[i] {
            Ins::Jump(_, l) => l < next,
            Ins::Place(l) => l < next,
            _ => true,
        }
}

/// In sound labels every label is below the next unused one.
pub proof fn sound_labels_are_below(p: program::Asm)
    requires
        program::sound(p),
        p.open.len() == 0,
    ensures
        labels_below(p.lines, p.next),
{
    assert forall|i: int| 0 <= i < p.lines.len() implies match #[trigger] p.lines[i] {
        Ins::Jump(_, l) => l < p.next,
        Ins::Place(l) => l < p.next,
        _ => true,
    } by {
        if let Ins::Jump(_, l) = p.lines[i] {
            assert(program::is_placed(p.lines, l));
            let j = choose|j: int| 0 <= j < p.lines.len() && p.lines[j] == Ins::Place(l);
            assert(p.lines[j] == Ins::Place(l));
        }
    }
}

/// A complete program: its labels are sound and numbered below the next unused one, and every
/// register that it saves is restored, the last one first.
pub open spec fn is_complete(p: program::Asm) -> bool {
    &&& program::well_labelled(p.lines)
    &&& labels_below(p.lines, p.next)
    &&& p.next <= 1000
    &&& program::stack_after(p.lines) == Some(Seq::<Reg>::empty())
}

/// A sound program without open loops that has left its frame is complete.
pub proof fn complete(p: program::Asm)
    requires
        program::sound(p),
        p.open.len() == 0,
        !p.at_label(),
        p.next <= 1000,
        program::stack_after(p.lines) == Some(Seq::<Reg>::empty()),
    ensures
        is_complete(p),
{
    program::finished_is_well_labelled(p);
    sound_labels_are_below(p);
}

fn add_op(a: &mut CodeAssembler, op: Op)
    requires
        assembler::is_plain(*old(a)),
    ensures
        assembler::adds(*old(a), *final(a), op_line(op)),
{
    match op {
        Op::Bare(o) => add_bare(a, code_of_bare(o)),
        Op::Rr(o, d, s) => add_rr(a, code_of_rr(o), number_of_reg(d), number_of_reg(s)),
        Op::Ri(o, d, n) => add_ri(a, code_of_ri(o, d, n), number_of_reg(d), n as i64),
        Op::Mov64(d, n) => add_ri(a, inst::MOV_IMM64, number_of_reg(d), n),
        Op::Mov32(d, n) => add_ri(a, inst::MOV_IMM32, number_of_reg(d), n as i64),
        Op::Scale(d, e) => add_ri(a, inst::SHL_IMM8, number_of_reg(d), size_shift(e)),
        Op::Rm(o, d, m) => add_rm(a, code_of_rm(o), number_of_reg(d), mem_arg(m)),
        Op::Mr(o, m, s) => add_mr(a, code_of_mr(o), mem_arg(m), number_of_reg(s)),
        Op::Rrr(o, d, x, y) => add_rrr(
            a,
            code_of_rrr(o),
            number_of_reg(d),
            number_of_reg(x),
            number_of_reg(y),
        ),
        Op::Rrm(o, d, x, m) => add_rrm(a, code_of_rrm(o), number_of_reg(d), number_of_reg(x), mem_arg(m)),
        Op::Rrri(o, d, x, y, n) => add_rrri(
            a,
            code_of_rrri(o),
            number_of_reg(d),
            number_of_reg(x),
            number_of_reg(y),
            n as i32,
        ),
        Op::Nop(f) => {
            let bytes = filler(f);
            add_bytes(a, bytes.as_slice())
        },
    }
}

fn add_line(a: &mut CodeAssembler, line: Ins, labels: &Vec<CodeLabel>)
    requires
        assembler::is_plain(*old(a)),
        assembler::labels_made(*old(a)) == labels@.len(),
        forall|i: int|
            0 <= i < labels@.len() ==> assembler::label_number(#[trigger] labels@[i]) == i + 1,
        line matches Ins::Jump(_, l) ==> l < labels@.len(),
        line matches Ins::Place(l) ==> l < labels@.len() && !assembler::entries(*old(a)).contains(
            line_of(line),
        ) && !assembler::label_waits(assembler::entries(*old(a))),
    ensures
        assembler::adds(*old(a), *final(a), line_of(line)),
{
    let count: usize = labels.len();
    assert(count == labels@.len());
    match line {
        Ins::Op(op) => add_op(a, op),
        Ins::Push(r) => add_stack(a, code_of_stack(StackOp::Push), number_of_reg(r)),
        Ins::Pop(r) => add_stack(a, code_of_stack(StackOp::Pop), number_of_reg(r)),
        Ins::Jump(JumpKind::Always, l) => add_jmp(a, labels[l as usize]),
        Ins::Jump(JumpKind::GreaterOrEqual, l) => add_jge(a, labels[l as usize]),
        Ins::Jump(JumpKind::Less, l) => add_jl(a, labels[l as usize]),
        Ins::Place(l) => place_label(a, labels[l as usize]),
    }
}

fn make_labels(a: &mut CodeAssembler, count: u64) -> (r: Option<Vec<CodeLabel>>)
    requires
        assembler::labels_made(*old(a)) == 0,
    ensures
        assembler::entries(*final(a)) == assembler::entries(*old(a)),
        assembler::is_plain(*final(a)) == assembler::is_plain(*old(a)),
        r is None <==> count > usize::MAX,
        r matches Some(v) ==> v@.len() == count && assembler::labels_made(*final(a)) == count
            && forall|i: int|
            0 <= i < v@.len() ==> assembler::label_number(#[trigger] v@[i]) == i + 1,
{
    if count > usize::MAX as u64 {
        return None;
    }
    let mut v: Vec<CodeLabel> = Vec::new();
    let mut made: u64 = 0;
    while made < count
        invariant
            made <= count <= usize::MAX,
            v@.len() == made,
            assembler::entries(*a) == assembler::entries(*old(a)),
            assembler::is_plain(*a) == assembler::is_plain(*old(a)),
            assembler::labels_made(*a) == made,
            forall|i: int|
                0 <= i < v@.len() ==> assembler::label_number(#[trigger] v@[i]) == i + 1,
        decreases count - made,
    {
        let l = new_label(a);
        v.push(l);
        made += 1;
    }
    Some(v)
}

/// The machine code of a program whose labels are sound. There is none where the encoder has
/// none for its lines.
pub fn machine_code_of(p: &Program) -> (r: Option<Vec<u8>>)
    requires
        program::well_labelled(p.lines@),
        labels_below(p.lines@, p.next as int),
        p.next <= usize::MAX,
    ensures
        r is Some <==> assembler::machine_code(lines_of(p.lines@), BASE_ADDRESS) is Some,
        r is Some ==> Some(r->Some_0@) == assembler::machine_code(
            lines_of(p.lines@),
            BASE_ADDRESS,
        ),
{
    let mut a = new_assembler();
    let labels = match make_labels(&mut a, p.next) {
        Some(v) => v,
        None => {
            return None;
        },
    };
    let mut i: usize = 0;
    while i < p.lines.len()
        invariant
            i <= p.lines.len(),
            program::well_labelled(p.lines@),
            labels_below(p.lines@, p.next as int),
            labels@.len() == p.next,
            p.next <= usize::MAX,
            assembler::is_plain(a),
            assembler::labels_made(a) == labels@.len(),
            forall|k: int|
                0 <= k < labels@.len() ==> assembler::label_number(#[trigger] labels@[k]) == k + 1,
            assembler::entries(a) == lines_of(p.lines@.take(i as int)),
        decreases p.lines.len() - i,
    {
        let line: Ins = p.lines[i];
        proof {
            let s = p.lines@;
            let before = assembler::entries(a);
            assert(s[i as int] == line);
            if line is Place {
                if before.contains(line_of(line)) {
                    let j = choose|j: int| 0 <= j < before.len() && before[j] == line_of(line);
                    assert(before[j] == line_of(s[j]));
                    match s[j] {
                        Ins::Place(l) => {
                            assert(s[j] == s[i as int]);
                        },
                        Ins::Op(op) => {},
                        _ => {},
                    }
                }
                if assembler::label_waits(before) {
                    assert(before.last() == line_of(s[i - 1]));
                    match s[i - 1] {
                        Ins::Op(op) => {},
                        _ => {},
                    }
                }
            }
        }
        add_line(&mut a, line, &labels);
        i += 1;
        assert(lines_of(p.lines@.take(i as int)) =~= lines_of(p.lines@.take(i - 1)).push(
            line_of(line),
        ));
    }
    assert(p.lines@.take(i as int) =~= p.lines@);
    assemble(&mut a, BASE_ADDRESS)
}

/// The filler of a number of bytes from one to nine; nine for any other number.
#[verifier::allow_in_spec]
pub fn filler_of(n: usize) -> Filler
    returns
        (match n {
            1 => Filler::One,
            2 => Filler::Two,
            3 => Filler::Three,
            4 => Filler::Four,
            5 => Filler::Five,
            6 => Filler::Six,
            7 => Filler::Seven,
            8 => Filler::Eight,
            _ => Filler::Nine,
        }),
{
    match n {
        1 => Filler::One,
        2 => Filler::Two,
        3 => Filler::Three,
        4 => Filler::Four,
        5 => Filler::Five,
        6 => Filler::Six,
        7 => Filler::Seven,
        8 => Filler::Eight,
        _ => Filler::Nine,
    }
}

/// The fillers of `n` bytes: as many of nine bytes as fit, then one for the rest.
pub open spec fn padding(n: nat) -> Seq<Op>
    decreases n,
{
    if n == 0 {
        Seq::empty()
    } else if n <= 9 {
        seq![Op::Nop(filler_of(n as usize))]
    } else {
        seq![Op::Nop(Filler::Nine)] + padding((n - 9) as nat)
    }
}

/// The bytes that a list of fillers takes.
pub open spec fn filler_size(ops: Seq<Op>) -> nat
    decreases ops.len(),
{
    if ops.len() == 0 {
        0
    } else {
        filler_size(ops.drop_first()) + match ops[0] {
            Op::Nop(f) => filler_bytes(f).len(),
            _ => 0,
        }
    }
}

/// Padding takes exactly the bytes asked for.
pub proof fn padding_is_exact(n: nat)
    ensures
        filler_size(padding(n)) == n,
    decreases n,
{
    let p = padding(n);
    if n == 0 {
    } else if n <= 9 {
        assert(p.drop_first() =~= Seq::<Op>::empty());
        assert(filler_size(p.drop_first()) == 0);
    } else {
        padding_is_exact((n - 9) as nat);
        assert(p.drop_first() =~= padding((n - 9) as nat));
    }
}

/// Adds padding of exactly `n` bytes.
pub fn emit_nop_padding(a: &mut Program, n: usize)
    ensures
        final(a)@ == old(a)@.emit(padding(n as nat)),
{
    let mut ops: Vec<Op> = Vec::new();
    let mut remaining: usize = n;
    while remaining > 9
        invariant
            remaining <= n,
            padding(n as nat) == ops@ + padding(remaining as nat),
        decreases remaining,
    {
        let ghost before = ops@;
        ops.push(Op::Nop(Filler::Nine));
        remaining -= 9;
        assert(before + padding((remaining + 9) as nat) =~= ops@ + padding(remaining as nat));
    }
    if remaining > 0 {
        ops.push(Op::Nop(filler_of(remaining)));
    }
    assert(ops@ =~= padding(n as nat));
    a.emit(&ops);
}

/// The bytes from `current` to the next multiple of `alignment`.
pub open spec fn gap(alignment: int, current: int) -> int {
    (alignment - current % alignment) % alignment
}

/// The gap leads to a multiple, and it is the shortest that does.
pub proof fn gap_aligns(alignment: int, current: int)
    requires
        alignment > 0,
        current >= 0,
    ensures
        0 <= gap(alignment, current) < alignment,
        (current + gap(alignment, current)) % alignment == 0,
{
    let r = current % alignment;
    let q = current / alignment;
    vstd::arithmetic::div_mod::lemma_fundamental_div_mod(current, alignment);
    if r == 0 {
        vstd::arithmetic::div_mod::lemma_mod_self_0(alignment);
    } else {
        vstd::arithmetic::div_mod::lemma_small_mod((alignment - r) as nat, alignment as nat);
        assert(current + (alignment - r) == (q + 1) * alignment) by (nonlinear_arith)
            requires
                current == alignment * q + r,
        ;
        vstd::arithmetic::div_mod::lemma_mod_multiples_basic(q + 1, alignment);
    }
}

/// Pads from `current_len` bytes to the next multiple of `alignment`.
pub fn emit_align(a: &mut Program, alignment: usize, current_len: usize)
    requires
        alignment > 0,
    ensures
        final(a)@ == old(a)@.emit(padding(gap(alignment as int, current_len as int) as nat)),
{
    let past: usize = current_len % alignment;
    let missing: usize = (alignment - past) % alignment;
    if missing > 0 {
        emit_nop_padding(a, missing);
    } else {
        assert(old(a)@.emit(padding(0)).lines =~= old(a)@.lines);
    }
}

} // verus!
