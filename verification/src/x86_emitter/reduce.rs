//! Reduction kernels: the sum, the largest or the smallest element of an array.
//!
//! A kernel is called with the address of the array and the number of elements, and returns a
//! double. It keeps several vectors of partial results, takes whole groups of vectors while more
//! than one group is left, then whole vectors, then combines the partial results into one element,
//! and takes the rest element by element. The partial results start at zero, and for the largest
//! and the smallest element at the first element, where there is one.

use crate::x86_emitter::elementwise::elem_bytes;
use crate::x86_emitter::inst::{
    acc_scalar, acc_vector, add_imm, at, at_sum, bare, clear, compare, fill, mov, packed, scale,
    select, sub_imm, vclear, Arith, BareOp, Elem, Op, Reg, RrOp, RrriOp, Wide,
};
use crate::x86_emitter::kernel;
use crate::x86_emitter::kernel::{reduce_arith_of, CompiledKernel};
use crate::x86_emitter::lower;
use crate::x86_emitter::program;
use crate::x86_emitter::program::{Asm, Program};
use vstd::prelude::*;

verus! {

/// The registers that the kernels save.
pub open spec fn saved() -> Seq<Reg> {
    seq![Reg::Rbx]
}

fn saved_regs() -> (r: Vec<Reg>)
    ensures
        r@ == saved(),
{
    let r: Vec<Reg> = vec![Reg::Rbx];
    assert(r@ =~= saved());
    r
}

/// Keeps the number of elements.
pub open spec fn count() -> Seq<Op> {
    seq![
        mov(Reg::Rbx, Reg::Rsi),
    ]
}

fn count_ops() -> (r: Vec<Op>)
    ensures
        r@ == count(),
{
    let r: Vec<Op> =
        vec![
            mov(Reg::Rbx, Reg::Rsi),
        ];
    assert(r@ =~= count());
    r
}

/// Eight vectors of partial results.
pub open spec fn eight_zeros() -> Seq<Op> {
    seq![
        vclear(Elem::F32, Wide::Y, Reg::Ymm0),
        vclear(Elem::F32, Wide::Y, Reg::Ymm1),
        vclear(Elem::F32, Wide::Y, Reg::Ymm2),
        vclear(Elem::F32, Wide::Y, Reg::Ymm3),
        vclear(Elem::F32, Wide::Y, Reg::Ymm4),
        vclear(Elem::F32, Wide::Y, Reg::Ymm5),
        vclear(Elem::F32, Wide::Y, Reg::Ymm6),
        vclear(Elem::F32, Wide::Y, Reg::Ymm7),
    ]
}

fn eight_zeros_ops() -> (r: Vec<Op>)
    ensures
        r@ == eight_zeros(),
{
    let r: Vec<Op> =
        vec![
            vclear(Elem::F32, Wide::Y, Reg::Ymm0),
            vclear(Elem::F32, Wide::Y, Reg::Ymm1),
            vclear(Elem::F32, Wide::Y, Reg::Ymm2),
            vclear(Elem::F32, Wide::Y, Reg::Ymm3),
            vclear(Elem::F32, Wide::Y, Reg::Ymm4),
            vclear(Elem::F32, Wide::Y, Reg::Ymm5),
            vclear(Elem::F32, Wide::Y, Reg::Ymm6),
            vclear(Elem::F32, Wide::Y, Reg::Ymm7),
        ];
    assert(r@ =~= eight_zeros());
    r
}

/// Four vectors of partial results.
pub open spec fn four_zeros() -> Seq<Op> {
    seq![
        vclear(Elem::F64, Wide::Y, Reg::Ymm0),
        vclear(Elem::F64, Wide::Y, Reg::Ymm1),
        vclear(Elem::F64, Wide::Y, Reg::Ymm2),
        vclear(Elem::F64, Wide::Y, Reg::Ymm3),
    ]
}

fn four_zeros_ops() -> (r: Vec<Op>)
    ensures
        r@ == four_zeros(),
{
    let r: Vec<Op> =
        vec![
            vclear(Elem::F64, Wide::Y, Reg::Ymm0),
            vclear(Elem::F64, Wide::Y, Reg::Ymm1),
            vclear(Elem::F64, Wide::Y, Reg::Ymm2),
            vclear(Elem::F64, Wide::Y, Reg::Ymm3),
        ];
    assert(r@ =~= four_zeros());
    r
}

/// The first element in every place of the partial results.
pub open spec fn seeds(e: Elem) -> Seq<Op> {
    match e {
        Elem::F32 => seq![
            fill(e, Reg::Ymm0, at(Reg::Rdi)),
            fill(e, Reg::Ymm1, at(Reg::Rdi)),
            fill(e, Reg::Ymm2, at(Reg::Rdi)),
            fill(e, Reg::Ymm3, at(Reg::Rdi)),
            fill(e, Reg::Ymm4, at(Reg::Rdi)),
            fill(e, Reg::Ymm5, at(Reg::Rdi)),
            fill(e, Reg::Ymm6, at(Reg::Rdi)),
            fill(e, Reg::Ymm7, at(Reg::Rdi)),
        ],
        Elem::F64 => seq![
            fill(e, Reg::Ymm0, at(Reg::Rdi)),
            fill(e, Reg::Ymm1, at(Reg::Rdi)),
            fill(e, Reg::Ymm2, at(Reg::Rdi)),
            fill(e, Reg::Ymm3, at(Reg::Rdi)),
        ],
    }
}

fn seeds_ops(e: Elem) -> (r: Vec<Op>)
    ensures
        r@ == seeds(e),
{
    let r: Vec<Op> = match e {
        Elem::F32 => vec![
            fill(e, Reg::Ymm0, at(Reg::Rdi)),
            fill(e, Reg::Ymm1, at(Reg::Rdi)),
            fill(e, Reg::Ymm2, at(Reg::Rdi)),
            fill(e, Reg::Ymm3, at(Reg::Rdi)),
            fill(e, Reg::Ymm4, at(Reg::Rdi)),
            fill(e, Reg::Ymm5, at(Reg::Rdi)),
            fill(e, Reg::Ymm6, at(Reg::Rdi)),
            fill(e, Reg::Ymm7, at(Reg::Rdi)),
        ],
        Elem::F64 => vec![
            fill(e, Reg::Ymm0, at(Reg::Rdi)),
            fill(e, Reg::Ymm1, at(Reg::Rdi)),
            fill(e, Reg::Ymm2, at(Reg::Rdi)),
            fill(e, Reg::Ymm3, at(Reg::Rdi)),
        ],
    };
    assert(r@ =~= seeds(e));
    r
}

/// A limit of zero bytes, which ends a loop that is at byte offset 0.
pub open spec fn no_more() -> Seq<Op> {
    seq![
        clear(Reg::Rax),
    ]
}

fn no_more_ops() -> (r: Vec<Op>)
    ensures
        r@ == no_more(),
{
    let r: Vec<Op> =
        vec![
            clear(Reg::Rax),
        ];
    assert(r@ =~= no_more());
    r
}

/// Byte offset 0.
pub open spec fn origin() -> Seq<Op> {
    seq![
        clear(Reg::Rdx),
    ]
}

fn origin_ops() -> (r: Vec<Op>)
    ensures
        r@ == origin(),
{
    let r: Vec<Op> =
        vec![
            clear(Reg::Rdx),
        ];
    assert(r@ =~= origin());
    r
}

/// The last byte offset from which so many bytes can be taken.
pub open spec fn last_offset(e: Elem, bytes: i32) -> Seq<Op> {
    seq![
        mov(Reg::Rax, Reg::Rbx),
        scale(Reg::Rax, e),
        sub_imm(Reg::Rax, bytes),
    ]
}

fn last_offset_ops(e: Elem, bytes: i32) -> (r: Vec<Op>)
    ensures
        r@ == last_offset(e, bytes),
{
    let r: Vec<Op> =
        vec![
            mov(Reg::Rax, Reg::Rbx),
            scale(Reg::Rax, e),
            sub_imm(Reg::Rax, bytes),
        ];
    assert(r@ =~= last_offset(e, bytes));
    r
}

/// The end of the array in bytes.
pub open spec fn byte_limit(e: Elem) -> Seq<Op> {
    seq![
        mov(Reg::Rax, Reg::Rbx),
        scale(Reg::Rax, e),
    ]
}

fn byte_limit_ops(e: Elem) -> (r: Vec<Op>)
    ensures
        r@ == byte_limit(e),
{
    let r: Vec<Op> =
        vec![
            mov(Reg::Rax, Reg::Rbx),
            scale(Reg::Rax, e),
        ];
    assert(r@ =~= byte_limit(e));
    r
}

/// Compares the byte offset with its limit.
pub open spec fn test() -> Seq<Op> {
    seq![
        compare(Reg::Rdx, Reg::Rax),
    ]
}

fn test_ops() -> (r: Vec<Op>)
    ensures
        r@ == test(),
{
    let r: Vec<Op> =
        vec![
            compare(Reg::Rdx, Reg::Rax),
        ];
    assert(r@ =~= test());
    r
}

/// Goes on by so many bytes.
pub open spec fn advance(bytes: i32) -> Seq<Op> {
    seq![
        add_imm(Reg::Rdx, bytes),
    ]
}

fn advance_ops(bytes: i32) -> (r: Vec<Op>)
    ensures
        r@ == advance(bytes),
{
    let r: Vec<Op> =
        vec![
            add_imm(Reg::Rdx, bytes),
        ];
    assert(r@ =~= advance(bytes));
    r
}

/// Takes eight vectors, each into its partial result.
pub open spec fn take_eight(op: Option<Arith>) -> Seq<Op> {
    match op {
        Some(f) => seq![
            acc_vector(f, Elem::F32, Reg::Ymm0, at_sum(Reg::Rdi, Reg::Rdx, 0)),
            acc_vector(f, Elem::F32, Reg::Ymm1, at_sum(Reg::Rdi, Reg::Rdx, 32)),
            acc_vector(f, Elem::F32, Reg::Ymm2, at_sum(Reg::Rdi, Reg::Rdx, 64)),
            acc_vector(f, Elem::F32, Reg::Ymm3, at_sum(Reg::Rdi, Reg::Rdx, 96)),
            acc_vector(f, Elem::F32, Reg::Ymm4, at_sum(Reg::Rdi, Reg::Rdx, 128)),
            acc_vector(f, Elem::F32, Reg::Ymm5, at_sum(Reg::Rdi, Reg::Rdx, 160)),
            acc_vector(f, Elem::F32, Reg::Ymm6, at_sum(Reg::Rdi, Reg::Rdx, 192)),
            acc_vector(f, Elem::F32, Reg::Ymm7, at_sum(Reg::Rdi, Reg::Rdx, 224)),
        ],
        None => Seq::empty(),
    }
}

fn take_eight_ops(op: Option<Arith>) -> (r: Vec<Op>)
    ensures
        r@ == take_eight(op),
{
    let r: Vec<Op> = match op {
        Some(f) => vec![
            acc_vector(f, Elem::F32, Reg::Ymm0, at_sum(Reg::Rdi, Reg::Rdx, 0)),
            acc_vector(f, Elem::F32, Reg::Ymm1, at_sum(Reg::Rdi, Reg::Rdx, 32)),
            acc_vector(f, Elem::F32, Reg::Ymm2, at_sum(Reg::Rdi, Reg::Rdx, 64)),
            acc_vector(f, Elem::F32, Reg::Ymm3, at_sum(Reg::Rdi, Reg::Rdx, 96)),
            acc_vector(f, Elem::F32, Reg::Ymm4, at_sum(Reg::Rdi, Reg::Rdx, 128)),
            acc_vector(f, Elem::F32, Reg::Ymm5, at_sum(Reg::Rdi, Reg::Rdx, 160)),
            acc_vector(f, Elem::F32, Reg::Ymm6, at_sum(Reg::Rdi, Reg::Rdx, 192)),
            acc_vector(f, Elem::F32, Reg::Ymm7, at_sum(Reg::Rdi, Reg::Rdx, 224)),
        ],
        None => Vec::new(),
    };
    assert(r@ =~= take_eight(op));
    r
}

/// Takes four vectors, each into its partial result.
pub open spec fn take_four(op: Option<Arith>) -> Seq<Op> {
    match op {
        Some(f) => seq![
            acc_vector(f, Elem::F64, Reg::Ymm0, at_sum(Reg::Rdi, Reg::Rdx, 0)),
            acc_vector(f, Elem::F64, Reg::Ymm1, at_sum(Reg::Rdi, Reg::Rdx, 32)),
            acc_vector(f, Elem::F64, Reg::Ymm2, at_sum(Reg::Rdi, Reg::Rdx, 64)),
            acc_vector(f, Elem::F64, Reg::Ymm3, at_sum(Reg::Rdi, Reg::Rdx, 96)),
        ],
        None => Seq::empty(),
    }
}

fn take_four_ops(op: Option<Arith>) -> (r: Vec<Op>)
    ensures
        r@ == take_four(op),
{
    let r: Vec<Op> = match op {
        Some(f) => vec![
            acc_vector(f, Elem::F64, Reg::Ymm0, at_sum(Reg::Rdi, Reg::Rdx, 0)),
            acc_vector(f, Elem::F64, Reg::Ymm1, at_sum(Reg::Rdi, Reg::Rdx, 32)),
            acc_vector(f, Elem::F64, Reg::Ymm2, at_sum(Reg::Rdi, Reg::Rdx, 64)),
            acc_vector(f, Elem::F64, Reg::Ymm3, at_sum(Reg::Rdi, Reg::Rdx, 96)),
        ],
        None => Vec::new(),
    };
    assert(r@ =~= take_four(op));
    r
}

/// Takes one vector into the first partial result.
pub open spec fn take_vector(op: Option<Arith>, e: Elem) -> Seq<Op> {
    match op {
        Some(f) => seq![
            acc_vector(f, e, Reg::Ymm0, at_sum(Reg::Rdi, Reg::Rdx, 0)),
        ],
        None => Seq::empty(),
    }
}

fn take_vector_ops(op: Option<Arith>, e: Elem) -> (r: Vec<Op>)
    ensures
        r@ == take_vector(op, e),
{
    let r: Vec<Op> = match op {
        Some(f) => vec![
            acc_vector(f, e, Reg::Ymm0, at_sum(Reg::Rdi, Reg::Rdx, 0)),
        ],
        None => Vec::new(),
    };
    assert(r@ =~= take_vector(op, e));
    r
}

/// Takes one element into the result.
pub open spec fn take_element(op: Option<Arith>, e: Elem) -> Seq<Op> {
    match op {
        Some(f) => seq![
            acc_scalar(f, e, Reg::Xmm0, at_sum(Reg::Rdi, Reg::Rdx, 0)),
        ],
        None => Seq::empty(),
    }
}

fn take_element_ops(op: Option<Arith>, e: Elem) -> (r: Vec<Op>)
    ensures
        r@ == take_element(op, e),
{
    let r: Vec<Op> = match op {
        Some(f) => vec![
            acc_scalar(f, e, Reg::Xmm0, at_sum(Reg::Rdi, Reg::Rdx, 0)),
        ],
        None => Vec::new(),
    };
    assert(r@ =~= take_element(op, e));
    r
}

/// Combines the eight partial results into the first.
pub open spec fn join_eight(op: Option<Arith>) -> Seq<Op> {
    match op {
        Some(f) => seq![
            packed(f, Elem::F32, Wide::Y, Reg::Ymm0, Reg::Ymm0, Reg::Ymm1),
            packed(f, Elem::F32, Wide::Y, Reg::Ymm0, Reg::Ymm0, Reg::Ymm2),
            packed(f, Elem::F32, Wide::Y, Reg::Ymm0, Reg::Ymm0, Reg::Ymm3),
            packed(f, Elem::F32, Wide::Y, Reg::Ymm0, Reg::Ymm0, Reg::Ymm4),
            packed(f, Elem::F32, Wide::Y, Reg::Ymm0, Reg::Ymm0, Reg::Ymm5),
            packed(f, Elem::F32, Wide::Y, Reg::Ymm0, Reg::Ymm0, Reg::Ymm6),
            packed(f, Elem::F32, Wide::Y, Reg::Ymm0, Reg::Ymm0, Reg::Ymm7),
        ],
        None => Seq::empty(),
    }
}

fn join_eight_ops(op: Option<Arith>) -> (r: Vec<Op>)
    ensures
        r@ == join_eight(op),
{
    let r: Vec<Op> = match op {
        Some(f) => vec![
            packed(f, Elem::F32, Wide::Y, Reg::Ymm0, Reg::Ymm0, Reg::Ymm1),
            packed(f, Elem::F32, Wide::Y, Reg::Ymm0, Reg::Ymm0, Reg::Ymm2),
            packed(f, Elem::F32, Wide::Y, Reg::Ymm0, Reg::Ymm0, Reg::Ymm3),
            packed(f, Elem::F32, Wide::Y, Reg::Ymm0, Reg::Ymm0, Reg::Ymm4),
            packed(f, Elem::F32, Wide::Y, Reg::Ymm0, Reg::Ymm0, Reg::Ymm5),
            packed(f, Elem::F32, Wide::Y, Reg::Ymm0, Reg::Ymm0, Reg::Ymm6),
            packed(f, Elem::F32, Wide::Y, Reg::Ymm0, Reg::Ymm0, Reg::Ymm7),
        ],
        None => Vec::new(),
    };
    assert(r@ =~= join_eight(op));
    r
}

/// Combines the four partial results into the first.
pub open spec fn join_four(op: Option<Arith>) -> Seq<Op> {
    match op {
        Some(f) => seq![
            packed(f, Elem::F64, Wide::Y, Reg::Ymm0, Reg::Ymm0, Reg::Ymm1),
            packed(f, Elem::F64, Wide::Y, Reg::Ymm0, Reg::Ymm0, Reg::Ymm2),
            packed(f, Elem::F64, Wide::Y, Reg::Ymm0, Reg::Ymm0, Reg::Ymm3),
        ],
        None => Seq::empty(),
    }
}

fn join_four_ops(op: Option<Arith>) -> (r: Vec<Op>)
    ensures
        r@ == join_four(op),
{
    let r: Vec<Op> = match op {
        Some(f) => vec![
            packed(f, Elem::F64, Wide::Y, Reg::Ymm0, Reg::Ymm0, Reg::Ymm1),
            packed(f, Elem::F64, Wide::Y, Reg::Ymm0, Reg::Ymm0, Reg::Ymm2),
            packed(f, Elem::F64, Wide::Y, Reg::Ymm0, Reg::Ymm0, Reg::Ymm3),
        ],
        None => Vec::new(),
    };
    assert(r@ =~= join_four(op));
    r
}

/// Combines the rearranged vector with the first.
pub open spec fn join(op: Option<Arith>, e: Elem) -> Seq<Op> {
    match op {
        Some(f) => seq![
            packed(f, e, Wide::Y, Reg::Ymm0, Reg::Ymm0, Reg::Ymm1),
        ],
        None => Seq::empty(),
    }
}

fn join_ops(op: Option<Arith>, e: Elem) -> (r: Vec<Op>)
    ensures
        r@ == join(op, e),
{
    let r: Vec<Op> = match op {
        Some(f) => vec![
            packed(f, e, Wide::Y, Reg::Ymm0, Reg::Ymm0, Reg::Ymm1),
        ],
        None => Vec::new(),
    };
    assert(r@ =~= join(op, e));
    r
}

/// Swaps the halves of the vector.
pub open spec fn swap_halves() -> Seq<Op> {
    seq![
        select(RrriOp::Perm2f128, Reg::Ymm1, Reg::Ymm0, 0x01),
    ]
}

fn swap_halves_ops() -> (r: Vec<Op>)
    ensures
        r@ == swap_halves(),
{
    let r: Vec<Op> =
        vec![
            select(RrriOp::Perm2f128, Reg::Ymm1, Reg::Ymm0, 0x01),
        ];
    assert(r@ =~= swap_halves());
    r
}

/// Rearranges the elements within each half.
pub open spec fn shuffle(e: Elem, by: u8) -> Seq<Op> {
    seq![
        select(RrriOp::Shuf(e), Reg::Ymm1, Reg::Ymm0, by),
    ]
}

fn shuffle_ops(e: Elem, by: u8) -> (r: Vec<Op>)
    ensures
        r@ == shuffle(e, by),
{
    let r: Vec<Op> =
        vec![
            select(RrriOp::Shuf(e), Reg::Ymm1, Reg::Ymm0, by),
        ];
    assert(r@ =~= shuffle(e, by));
    r
}

/// The result as a double.
pub open spec fn widen() -> Seq<Op> {
    seq![
        Op::Rr(RrOp::Cvtss2sd, Reg::Xmm0, Reg::Xmm0),
    ]
}

fn widen_ops() -> (r: Vec<Op>)
    ensures
        r@ == widen(),
{
    let r: Vec<Op> =
        vec![
            Op::Rr(RrOp::Cvtss2sd, Reg::Xmm0, Reg::Xmm0),
        ];
    assert(r@ =~= widen());
    r
}

/// Leaves the vector registers clean.
pub open spec fn clear_upper() -> Seq<Op> {
    seq![
        bare(BareOp::Vzeroupper),
    ]
}

fn clear_upper_ops() -> (r: Vec<Op>)
    ensures
        r@ == clear_upper(),
{
    let r: Vec<Op> =
        vec![
            bare(BareOp::Vzeroupper),
        ];
    assert(r@ =~= clear_upper());
    r
}

/// Whether the operation picks one of its operands, so that a reduction starts from an element.
#[verifier::allow_in_spec]
pub fn is_choice(op: Option<Arith>) -> bool
    returns
        (match op {
            Some(Arith::Max) => true,
            Some(Arith::Min) => true,
            _ => false,
        }),
{
    match op {
        Some(Arith::Max) => true,
        Some(Arith::Min) => true,
        _ => false,
    }
}

/// Starts the partial results at the first element, where the operation asks for it and there is
/// an element: a loop of at most one round.
pub open spec fn seeded(p: Asm, op: Option<Arith>, e: Elem) -> Asm {
    if is_choice(op) {
        p.emit(byte_limit(e))
            .begin()
            .emit(test())
            .exit_if_ge()
            .emit(seeds(e))
            .emit(no_more())
            .end()
    } else {
        p
    }
}

proof fn seeded_keeps(p: Asm, op: Option<Arith>, e: Elem)
    requires
        program::sound(p),
        p.next + 2 <= u64::MAX,
    ensures
        program::sound(seeded(p, op, e)),
        seeded(p, op, e).open == p.open,
        seeded(p, op, e).next <= p.next + 2,
        program::stack_after(seeded(p, op, e).lines) == program::stack_after(p.lines),
{
    if is_choice(op) {
        let q1 = p.emit(byte_limit(e));
        program::emit_keeps(p, byte_limit(e));
        let q2 = q1.begin();
        program::begin_keeps(q1);
        let q3 = q2.emit(test());
        program::emit_keeps(q2, test());
        let q4 = q3.exit_if_ge();
        program::exit_keeps(q3);
        let q5 = q4.emit(seeds(e));
        program::emit_keeps(q4, seeds(e));
        let q6 = q5.emit(no_more());
        program::emit_keeps(q5, no_more());
        let q7 = q6.end();
        program::end_keeps(q6);
    }
}

fn emit_seeded(p: &mut Program, op: Option<Arith>, e: Elem)
    requires
        old(p).next + 2 <= u64::MAX,
    ensures
        final(p)@ == seeded(old(p)@, op, e),
        final(p).next <= old(p).next + 2,
        final(p).open@ == old(p).open@,
{
    if is_choice(op) {
        p.emit(&byte_limit_ops(e));
        p.begin();
        p.emit(&test_ops());
        p.exit_if_ge();
        p.emit(&seeds_ops(e));
        p.emit(&no_more_ops());
        p.end();
    }
}

/// Takes whole vectors.
pub open spec fn vectors(p: Asm, op: Option<Arith>, e: Elem) -> Asm {
    p.emit(last_offset(e, 32))
        .begin()
        .emit(test())
        .exit_if_ge()
        .emit(take_vector(op, e))
        .emit(advance(32))
        .end()
}

proof fn vectors_keeps(p: Asm, op: Option<Arith>, e: Elem)
    requires
        program::sound(p),
        p.next + 2 <= u64::MAX,
    ensures
        program::sound(vectors(p, op, e)),
        vectors(p, op, e).open == p.open,
        vectors(p, op, e).next <= p.next + 2,
        program::stack_after(vectors(p, op, e).lines) == program::stack_after(p.lines),
{
    let q1 = p.emit(last_offset(e, 32));
    program::emit_keeps(p, last_offset(e, 32));
    let q2 = q1.begin();
    program::begin_keeps(q1);
    let q3 = q2.emit(test());
    program::emit_keeps(q2, test());
    let q4 = q3.exit_if_ge();
    program::exit_keeps(q3);
    let q5 = q4.emit(take_vector(op, e));
    program::emit_keeps(q4, take_vector(op, e));
    let q6 = q5.emit(advance(32));
    program::emit_keeps(q5, advance(32));
    let q7 = q6.end();
    program::end_keeps(q6);
}

fn emit_vectors(p: &mut Program, op: Option<Arith>, e: Elem)
    requires
        old(p).next + 2 <= u64::MAX,
    ensures
        final(p)@ == vectors(old(p)@, op, e),
        final(p).next <= old(p).next + 2,
        final(p).open@ == old(p).open@,
{
    p.emit(&last_offset_ops(e, 32));
    p.begin();
    p.emit(&test_ops());
    p.exit_if_ge();
    p.emit(&take_vector_ops(op, e));
    p.emit(&advance_ops(32));
    p.end();
}

/// Takes single elements.
pub open spec fn elements(p: Asm, op: Option<Arith>, e: Elem) -> Asm {
    p.emit(byte_limit(e))
        .begin()
        .emit(test())
        .exit_if_ge()
        .emit(take_element(op, e))
        .emit(advance(elem_bytes(e)))
        .end()
}

proof fn elements_keeps(p: Asm, op: Option<Arith>, e: Elem)
    requires
        program::sound(p),
        p.next + 2 <= u64::MAX,
    ensures
        program::sound(elements(p, op, e)),
        elements(p, op, e).open == p.open,
        elements(p, op, e).next <= p.next + 2,
        program::stack_after(elements(p, op, e).lines) == program::stack_after(p.lines),
{
    let q1 = p.emit(byte_limit(e));
    program::emit_keeps(p, byte_limit(e));
    let q2 = q1.begin();
    program::begin_keeps(q1);
    let q3 = q2.emit(test());
    program::emit_keeps(q2, test());
    let q4 = q3.exit_if_ge();
    program::exit_keeps(q3);
    let q5 = q4.emit(take_element(op, e));
    program::emit_keeps(q4, take_element(op, e));
    let q6 = q5.emit(advance(elem_bytes(e)));
    program::emit_keeps(q5, advance(elem_bytes(e)));
    let q7 = q6.end();
    program::end_keeps(q6);
}

fn emit_elements(p: &mut Program, op: Option<Arith>, e: Elem)
    requires
        old(p).next + 2 <= u64::MAX,
    ensures
        final(p)@ == elements(old(p)@, op, e),
        final(p).next <= old(p).next + 2,
        final(p).open@ == old(p).open@,
{
    p.emit(&byte_limit_ops(e));
    p.begin();
    p.emit(&test_ops());
    p.exit_if_ge();
    p.emit(&take_element_ops(op, e));
    p.emit(&advance_ops(elem_bytes(e)));
    p.end();
}

/// Takes groups of eight vectors.
pub open spec fn groups_of_eight(p: Asm, op: Option<Arith>) -> Asm {
    p.emit(last_offset(Elem::F32, 256))
        .begin()
        .emit(test())
        .exit_if_ge()
        .emit(take_eight(op))
        .emit(advance(256))
        .end()
}

proof fn groups_of_eight_keeps(p: Asm, op: Option<Arith>)
    requires
        program::sound(p),
        p.next + 2 <= u64::MAX,
    ensures
        program::sound(groups_of_eight(p, op)),
        groups_of_eight(p, op).open == p.open,
        groups_of_eight(p, op).next <= p.next + 2,
        program::stack_after(groups_of_eight(p, op).lines) == program::stack_after(p.lines),
{
    let q1 = p.emit(last_offset(Elem::F32, 256));
    program::emit_keeps(p, last_offset(Elem::F32, 256));
    let q2 = q1.begin();
    program::begin_keeps(q1);
    let q3 = q2.emit(test());
    program::emit_keeps(q2, test());
    let q4 = q3.exit_if_ge();
    program::exit_keeps(q3);
    let q5 = q4.emit(take_eight(op));
    program::emit_keeps(q4, take_eight(op));
    let q6 = q5.emit(advance(256));
    program::emit_keeps(q5, advance(256));
    let q7 = q6.end();
    program::end_keeps(q6);
}

fn emit_groups_of_eight(p: &mut Program, op: Option<Arith>)
    requires
        old(p).next + 2 <= u64::MAX,
    ensures
        final(p)@ == groups_of_eight(old(p)@, op),
        final(p).next <= old(p).next + 2,
        final(p).open@ == old(p).open@,
{
    p.emit(&last_offset_ops(Elem::F32, 256));
    p.begin();
    p.emit(&test_ops());
    p.exit_if_ge();
    p.emit(&take_eight_ops(op));
    p.emit(&advance_ops(256));
    p.end();
}

/// Takes groups of four vectors.
pub open spec fn groups_of_four(p: Asm, op: Option<Arith>) -> Asm {
    p.emit(last_offset(Elem::F64, 128))
        .begin()
        .emit(test())
        .exit_if_ge()
        .emit(take_four(op))
        .emit(advance(128))
        .end()
}

proof fn groups_of_four_keeps(p: Asm, op: Option<Arith>)
    requires
        program::sound(p),
        p.next + 2 <= u64::MAX,
    ensures
        program::sound(groups_of_four(p, op)),
        groups_of_four(p, op).open == p.open,
        groups_of_four(p, op).next <= p.next + 2,
        program::stack_after(groups_of_four(p, op).lines) == program::stack_after(p.lines),
{
    let q1 = p.emit(last_offset(Elem::F64, 128));
    program::emit_keeps(p, last_offset(Elem::F64, 128));
    let q2 = q1.begin();
    program::begin_keeps(q1);
    let q3 = q2.emit(test());
    program::emit_keeps(q2, test());
    let q4 = q3.exit_if_ge();
    program::exit_keeps(q3);
    let q5 = q4.emit(take_four(op));
    program::emit_keeps(q4, take_four(op));
    let q6 = q5.emit(advance(128));
    program::emit_keeps(q5, advance(128));
    let q7 = q6.end();
    program::end_keeps(q6);
}

fn emit_groups_of_four(p: &mut Program, op: Option<Arith>)
    requires
        old(p).next + 2 <= u64::MAX,
    ensures
        final(p)@ == groups_of_four(old(p)@, op),
        final(p).next <= old(p).next + 2,
        final(p).open@ == old(p).open@,
{
    p.emit(&last_offset_ops(Elem::F64, 128));
    p.begin();
    p.emit(&test_ops());
    p.exit_if_ge();
    p.emit(&take_four_ops(op));
    p.emit(&advance_ops(128));
    p.end();
}

/// The kernel for single precision.
pub open spec fn single_kernel(op: Option<Arith>) -> Asm {
    let p1 = Asm::empty()
        .enter(saved())
        .emit(count())
        .emit(eight_zeros())
        .emit(origin());
    let p2 = groups_of_eight(seeded(p1, op, Elem::F32), op);
    let p3 = vectors(p2, op, Elem::F32);
    let p4 = p3.emit(join_eight(op))
        .emit(swap_halves())
        .emit(join(op, Elem::F32))
        .emit(shuffle(Elem::F32, 0x4E))
        .emit(join(op, Elem::F32))
        .emit(shuffle(Elem::F32, 0xB1))
        .emit(join(op, Elem::F32));
    let p5 = elements(p4, op, Elem::F32);
    p5.emit(widen())
        .emit(clear_upper())
        .leave(saved())
}

/// Every kernel of this form has sound labels and keeps the registers that it saved.
pub proof fn single_kernel_is_sound(op: Option<Arith>)
    ensures
        lower::is_complete(single_kernel(op)),
{
    let q0 = Asm::empty();
    program::empty_is_sound();
    let q1 = q0.enter(saved());
    program::enter_keeps(q0, saved());
    let q2 = q1.emit(count());
    program::emit_keeps(q1, count());
    let q3 = q2.emit(eight_zeros());
    program::emit_keeps(q2, eight_zeros());
    let q4 = q3.emit(origin());
    program::emit_keeps(q3, origin());
    let r4 = seeded(q4, op, Elem::F32);
    seeded_keeps(q4, op, Elem::F32);
    let q5 = groups_of_eight(r4, op);
    groups_of_eight_keeps(r4, op);
    let q6 = vectors(q5, op, Elem::F32);
    vectors_keeps(q5, op, Elem::F32);
    let q7 = q6.emit(join_eight(op));
    program::emit_keeps(q6, join_eight(op));
    let q8 = q7.emit(swap_halves());
    program::emit_keeps(q7, swap_halves());
    let q9 = q8.emit(join(op, Elem::F32));
    program::emit_keeps(q8, join(op, Elem::F32));
    let q10 = q9.emit(shuffle(Elem::F32, 0x4E));
    program::emit_keeps(q9, shuffle(Elem::F32, 0x4E));
    let q11 = q10.emit(join(op, Elem::F32));
    program::emit_keeps(q10, join(op, Elem::F32));
    let q12 = q11.emit(shuffle(Elem::F32, 0xB1));
    program::emit_keeps(q11, shuffle(Elem::F32, 0xB1));
    let q13 = q12.emit(join(op, Elem::F32));
    program::emit_keeps(q12, join(op, Elem::F32));
    let q14 = elements(q13, op, Elem::F32);
    elements_keeps(q13, op, Elem::F32);
    let q15 = q14.emit(widen());
    program::emit_keeps(q14, widen());
    let q16 = q15.emit(clear_upper());
    program::emit_keeps(q15, clear_upper());
    let q17 = q16.leave(saved());
    program::leave_keeps(q16, saved());
    lower::complete(q17);
}

fn build_single_kernel(op: Option<Arith>) -> (r: Program)
    ensures
        r@ == single_kernel(op),
        lower::is_complete(r@),
{
    proof {
        single_kernel_is_sound(op);
    }
    let mut p = Program::new();
    p.enter(&saved_regs());
    p.emit(&count_ops());
    p.emit(&eight_zeros_ops());
    p.emit(&origin_ops());
    emit_seeded(&mut p, op, Elem::F32);
    emit_groups_of_eight(&mut p, op);
    emit_vectors(&mut p, op, Elem::F32);
    p.emit(&join_eight_ops(op));
    p.emit(&swap_halves_ops());
    p.emit(&join_ops(op, Elem::F32));
    p.emit(&shuffle_ops(Elem::F32, 0x4E));
    p.emit(&join_ops(op, Elem::F32));
    p.emit(&shuffle_ops(Elem::F32, 0xB1));
    p.emit(&join_ops(op, Elem::F32));
    emit_elements(&mut p, op, Elem::F32);
    p.emit(&widen_ops());
    p.emit(&clear_upper_ops());
    p.leave(&saved_regs());
    p
}

/// The kernel for double precision.
pub open spec fn double_kernel(op: Option<Arith>) -> Asm {
    let p1 = Asm::empty()
        .enter(saved())
        .emit(count())
        .emit(four_zeros())
        .emit(origin());
    let p2 = groups_of_four(seeded(p1, op, Elem::F64), op);
    let p3 = vectors(p2, op, Elem::F64);
    let p4 = p3.emit(join_four(op))
        .emit(swap_halves())
        .emit(join(op, Elem::F64))
        .emit(shuffle(Elem::F64, 0x05))
        .emit(join(op, Elem::F64));
    let p5 = elements(p4, op, Elem::F64);
    p5.emit(clear_upper())
        .leave(saved())
}

/// Every kernel of this form has sound labels and keeps the registers that it saved.
pub proof fn double_kernel_is_sound(op: Option<Arith>)
    ensures
        lower::is_complete(double_kernel(op)),
{
    let q0 = Asm::empty();
    program::empty_is_sound();
    let q1 = q0.enter(saved());
    program::enter_keeps(q0, saved());
    let q2 = q1.emit(count());
    program::emit_keeps(q1, count());
    let q3 = q2.emit(four_zeros());
    program::emit_keeps(q2, four_zeros());
    let q4 = q3.emit(origin());
    program::emit_keeps(q3, origin());
    let r4 = seeded(q4, op, Elem::F64);
    seeded_keeps(q4, op, Elem::F64);
    let q5 = groups_of_four(r4, op);
    groups_of_four_keeps(r4, op);
    let q6 = vectors(q5, op, Elem::F64);
    vectors_keeps(q5, op, Elem::F64);
    let q7 = q6.emit(join_four(op));
    program::emit_keeps(q6, join_four(op));
    let q8 = q7.emit(swap_halves());
    program::emit_keeps(q7, swap_halves());
    let q9 = q8.emit(join(op, Elem::F64));
    program::emit_keeps(q8, join(op, Elem::F64));
    let q10 = q9.emit(shuffle(Elem::F64, 0x05));
    program::emit_keeps(q9, shuffle(Elem::F64, 0x05));
    let q11 = q10.emit(join(op, Elem::F64));
    program::emit_keeps(q10, join(op, Elem::F64));
    let q12 = elements(q11, op, Elem::F64);
    elements_keeps(q11, op, Elem::F64);
    let q13 = q12.emit(clear_upper());
    program::emit_keeps(q12, clear_upper());
    let q14 = q13.leave(saved());
    program::leave_keeps(q13, saved());
    lower::complete(q14);
}

fn build_double_kernel(op: Option<Arith>) -> (r: Program)
    ensures
        r@ == double_kernel(op),
        lower::is_complete(r@),
{
    proof {
        double_kernel_is_sound(op);
    }
    let mut p = Program::new();
    p.enter(&saved_regs());
    p.emit(&count_ops());
    p.emit(&four_zeros_ops());
    p.emit(&origin_ops());
    emit_seeded(&mut p, op, Elem::F64);
    emit_groups_of_four(&mut p, op);
    emit_vectors(&mut p, op, Elem::F64);
    p.emit(&join_four_ops(op));
    p.emit(&swap_halves_ops());
    p.emit(&join_ops(op, Elem::F64));
    p.emit(&shuffle_ops(Elem::F64, 0x05));
    p.emit(&join_ops(op, Elem::F64));
    emit_elements(&mut p, op, Elem::F64);
    p.emit(&clear_upper_ops());
    p.leave(&saved_regs());
    p
}

impl CompiledKernel {
    /// The reduction of single-precision elements: operation 0 is the sum, 1 the largest and 2 the
    /// smallest of the elements. It is zero where there is no element.
    pub fn compile_reduce_avx2_f32(op: u8) -> (r: Option<CompiledKernel>)
        ensures
            kernel::compiles(r, single_kernel(reduce_arith_of(op)), 0, 0, 0),
    {
        CompiledKernel::finalize(&build_single_kernel(reduce_arith_of(op)), 0, 0, 0)
    }

    /// The reduction of double-precision elements, by the same operations.
    pub fn compile_reduce_avx2_f64(op: u8) -> (r: Option<CompiledKernel>)
        ensures
            kernel::compiles(r, double_kernel(reduce_arith_of(op)), 0, 0, 0),
    {
        CompiledKernel::finalize(&build_double_kernel(reduce_arith_of(op)), 0, 0, 0)
    }
}

} // verus!
