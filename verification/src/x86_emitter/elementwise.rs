//! Elementwise kernels: `dst[i] = a[i] op b[i]`.
//!
//! A kernel is called with the addresses of `dst`, `a` and `b` and the number of elements. It goes
//! through the arrays by byte offset, first by whole vectors while more than one vector is left,
//! then by single elements.

use crate::x86_emitter::inst::{
    add_imm, at, bare, clear, compare, lea_sum, load, mov, packed, scalar, scale, store, sub_imm,
    vload, vstore, Arith, BareOp, Elem, Op, Reg, Wide,
};
use crate::x86_emitter::isa::ISALevel;
use crate::x86_emitter::kernel;
use crate::x86_emitter::kernel::{arith_of, CompiledKernel};
use crate::x86_emitter::lower;
use crate::x86_emitter::program;
use crate::x86_emitter::program::{Asm, Program};
use vstd::prelude::*;

verus! {

/// The registers that the kernels save.
pub open spec fn saved() -> Seq<Reg> {
    seq![Reg::Rbx, Reg::R12]
}

fn saved_regs() -> (r: Vec<Reg>)
    ensures
        r@ == saved(),
{
    let r: Vec<Reg> = vec![Reg::Rbx, Reg::R12];
    assert(r@ =~= saved());
    r
}

/// The first vector register of a width.
#[verifier::allow_in_spec]
pub fn first(w: Wide) -> Reg
    returns
        (match w {
            Wide::Y => Reg::Ymm0,
            Wide::Z => Reg::Zmm0,
        }),
{
    match w {
        Wide::Y => Reg::Ymm0,
        Wide::Z => Reg::Zmm0,
    }
}

/// The second vector register of a width.
#[verifier::allow_in_spec]
pub fn second(w: Wide) -> Reg
    returns
        (match w {
            Wide::Y => Reg::Ymm1,
            Wide::Z => Reg::Zmm1,
        }),
{
    match w {
        Wide::Y => Reg::Ymm1,
        Wide::Z => Reg::Zmm1,
    }
}

/// Bytes of a vector.
#[verifier::allow_in_spec]
pub fn vector_bytes(w: Wide) -> i32
    returns
        (match w {
            Wide::Y => 32i32,
            Wide::Z => 64i32,
        }),
{
    match w {
        Wide::Y => 32,
        Wide::Z => 64,
    }
}

/// Bytes of an element.
#[verifier::allow_in_spec]
pub fn elem_bytes(e: Elem) -> i32
    returns
        (match e {
            Elem::F32 => 4i32,
            Elem::F64 => 8i32,
        }),
{
    match e {
        Elem::F32 => 4,
        Elem::F64 => 8,
    }
}

/// Keeps the arguments and starts at byte offset 0.
pub open spec fn arguments() -> Seq<Op> {
    seq![
        mov(Reg::R10, Reg::Rdi),
        mov(Reg::R11, Reg::Rsi),
        mov(Reg::R12, Reg::Rdx),
        mov(Reg::Rbx, Reg::Rcx),
        clear(Reg::Rcx),
    ]
}

fn arguments_ops() -> (r: Vec<Op>)
    ensures
        r@ == arguments(),
{
    let r: Vec<Op> =
        vec![
            mov(Reg::R10, Reg::Rdi),
            mov(Reg::R11, Reg::Rsi),
            mov(Reg::R12, Reg::Rdx),
            mov(Reg::Rbx, Reg::Rcx),
            clear(Reg::Rcx),
        ];
    assert(r@ =~= arguments());
    r
}

/// The end of the arrays in bytes.
pub open spec fn byte_limit(e: Elem) -> Seq<Op> {
    seq![
        mov(Reg::Rax, Reg::Rbx),
        scale(Reg::Rax, e),
    ]
}

fn byte_limit_ops(e: Elem) -> (r: Vec<Op>)
    ensures
        r@ == byte_limit(e),
{
    let r: Vec<Op> =
        vec![
            mov(Reg::Rax, Reg::Rbx),
            scale(Reg::Rax, e),
        ];
    assert(r@ =~= byte_limit(e));
    r
}

/// The last byte offset from which a whole vector can be taken.
pub open spec fn vector_limit(e: Elem, w: Wide) -> Seq<Op> {
    seq![
        mov(Reg::Rax, Reg::Rbx),
        scale(Reg::Rax, e),
        sub_imm(Reg::Rax, vector_bytes(w)),
    ]
}

fn vector_limit_ops(e: Elem, w: Wide) -> (r: Vec<Op>)
    ensures
        r@ == vector_limit(e, w),
{
    let r: Vec<Op> =
        vec![
            mov(Reg::Rax, Reg::Rbx),
            scale(Reg::Rax, e),
            sub_imm(Reg::Rax, vector_bytes(w)),
        ];
    assert(r@ =~= vector_limit(e, w));
    r
}

/// Compares the byte offset with the limit.
pub open spec fn at_limit() -> Seq<Op> {
    seq![
        compare(Reg::Rcx, Reg::Rax),
    ]
}

fn at_limit_ops() -> (r: Vec<Op>)
    ensures
        r@ == at_limit(),
{
    let r: Vec<Op> =
        vec![
            compare(Reg::Rcx, Reg::Rax),
        ];
    assert(r@ =~= at_limit());
    r
}

/// Loads an element of each input.
pub open spec fn load_pair(e: Elem) -> Seq<Op> {
    seq![
        lea_sum(Reg::Rdx, Reg::R11, Reg::Rcx),
        load(e, Reg::Xmm0, at(Reg::Rdx)),
        lea_sum(Reg::Rdx, Reg::R12, Reg::Rcx),
        load(e, Reg::Xmm1, at(Reg::Rdx)),
    ]
}

fn load_pair_ops(e: Elem) -> (r: Vec<Op>)
    ensures
        r@ == load_pair(e),
{
    let r: Vec<Op> =
        vec![
            lea_sum(Reg::Rdx, Reg::R11, Reg::Rcx),
            load(e, Reg::Xmm0, at(Reg::Rdx)),
            lea_sum(Reg::Rdx, Reg::R12, Reg::Rcx),
            load(e, Reg::Xmm1, at(Reg::Rdx)),
        ];
    assert(r@ =~= load_pair(e));
    r
}

/// Combines the two elements; an unknown operation keeps the first.
pub open spec fn combine(op: Option<Arith>, e: Elem) -> Seq<Op> {
    match op {
        Some(f) => seq![
            scalar(f, e, Reg::Xmm0, Reg::Xmm1),
        ],
        None => Seq::empty(),
    }
}

fn combine_ops(op: Option<Arith>, e: Elem) -> (r: Vec<Op>)
    ensures
        r@ == combine(op, e),
{
    let r: Vec<Op> = match op {
        Some(f) => vec![
            scalar(f, e, Reg::Xmm0, Reg::Xmm1),
        ],
        None => Vec::new(),
    };
    assert(r@ =~= combine(op, e));
    r
}

/// Stores the result and goes on by one element.
pub open spec fn store_one(e: Elem) -> Seq<Op> {
    seq![
        lea_sum(Reg::Rdx, Reg::R10, Reg::Rcx),
        store(e, at(Reg::Rdx), Reg::Xmm0),
        add_imm(Reg::Rcx, elem_bytes(e)),
    ]
}

fn store_one_ops(e: Elem) -> (r: Vec<Op>)
    ensures
        r@ == store_one(e),
{
    let r: Vec<Op> =
        vec![
            lea_sum(Reg::Rdx, Reg::R10, Reg::Rcx),
            store(e, at(Reg::Rdx), Reg::Xmm0),
            add_imm(Reg::Rcx, elem_bytes(e)),
        ];
    assert(r@ =~= store_one(e));
    r
}

/// Loads a vector of each input.
pub open spec fn load_vectors(e: Elem, w: Wide) -> Seq<Op> {
    seq![
        lea_sum(Reg::Rdx, Reg::R11, Reg::Rcx),
        vload(e, w, first(w), at(Reg::Rdx)),
        lea_sum(Reg::Rdx, Reg::R12, Reg::Rcx),
        vload(e, w, second(w), at(Reg::Rdx)),
    ]
}

fn load_vectors_ops(e: Elem, w: Wide) -> (r: Vec<Op>)
    ensures
        r@ == load_vectors(e, w),
{
    let r: Vec<Op> =
        vec![
            lea_sum(Reg::Rdx, Reg::R11, Reg::Rcx),
            vload(e, w, first(w), at(Reg::Rdx)),
            lea_sum(Reg::Rdx, Reg::R12, Reg::Rcx),
            vload(e, w, second(w), at(Reg::Rdx)),
        ];
    assert(r@ =~= load_vectors(e, w));
    r
}

/// Combines the two vectors; an unknown operation keeps the first.
pub open spec fn combine_vectors(op: Option<Arith>, e: Elem, w: Wide) -> Seq<Op> {
    match op {
        Some(f) => seq![
            packed(f, e, w, first(w), first(w), second(w)),
        ],
        None => Seq::empty(),
    }
}

fn combine_vectors_ops(op: Option<Arith>, e: Elem, w: Wide) -> (r: Vec<Op>)
    ensures
        r@ == combine_vectors(op, e, w),
{
    let r: Vec<Op> = match op {
        Some(f) => vec![
            packed(f, e, w, first(w), first(w), second(w)),
        ],
        None => Vec::new(),
    };
    assert(r@ =~= combine_vectors(op, e, w));
    r
}

/// Stores the result and goes on by one vector.
pub open spec fn store_vector(e: Elem, w: Wide) -> Seq<Op> {
    seq![
        lea_sum(Reg::Rdx, Reg::R10, Reg::Rcx),
        vstore(e, w, at(Reg::Rdx), first(w)),
        add_imm(Reg::Rcx, vector_bytes(w)),
    ]
}

fn store_vector_ops(e: Elem, w: Wide) -> (r: Vec<Op>)
    ensures
        r@ == store_vector(e, w),
{
    let r: Vec<Op> =
        vec![
            lea_sum(Reg::Rdx, Reg::R10, Reg::Rcx),
            vstore(e, w, at(Reg::Rdx), first(w)),
            add_imm(Reg::Rcx, vector_bytes(w)),
        ];
    assert(r@ =~= store_vector(e, w));
    r
}

/// Leaves the vector registers clean.
pub open spec fn clear_upper() -> Seq<Op> {
    seq![
        bare(BareOp::Vzeroupper),
    ]
}

fn clear_upper_ops() -> (r: Vec<Op>)
    ensures
        r@ == clear_upper(),
{
    let r: Vec<Op> =
        vec![
            bare(BareOp::Vzeroupper),
        ];
    assert(r@ =~= clear_upper());
    r
}

/// The result is 0.
pub open spec fn succeed() -> Seq<Op> {
    seq![
        clear(Reg::Rax),
    ]
}

fn succeed_ops() -> (r: Vec<Op>)
    ensures
        r@ == succeed(),
{
    let r: Vec<Op> =
        vec![
            clear(Reg::Rax),
        ];
    assert(r@ =~= succeed());
    r
}

/// Goes on by single elements up to the limit.
pub open spec fn scalar_loop(p: Asm, op: Option<Arith>, e: Elem) -> Asm {
    p.emit(byte_limit(e))
        .begin()
        .emit(at_limit())
        .exit_if_ge()
        .emit(load_pair(e))
        .emit(combine(op, e))
        .emit(store_one(e))
        .end()
}

proof fn scalar_loop_keeps(p: Asm, op: Option<Arith>, e: Elem)
    requires
        program::sound(p),
        p.next + 2 <= u64::MAX,
    ensures
        program::sound(scalar_loop(p, op, e)),
        scalar_loop(p, op, e).open == p.open,
        scalar_loop(p, op, e).next <= p.next + 2,
        program::stack_after(scalar_loop(p, op, e).lines) == program::stack_after(p.lines),
{
    let q1 = p.emit(byte_limit(e));
    program::emit_keeps(p, byte_limit(e));
    let q2 = q1.begin();
    program::begin_keeps(q1);
    let q3 = q2.emit(at_limit());
    program::emit_keeps(q2, at_limit());
    let q4 = q3.exit_if_ge();
    program::exit_keeps(q3);
    let q5 = q4.emit(load_pair(e));
    program::emit_keeps(q4, load_pair(e));
    let q6 = q5.emit(combine(op, e));
    program::emit_keeps(q5, combine(op, e));
    let q7 = q6.emit(store_one(e));
    program::emit_keeps(q6, store_one(e));
    let q8 = q7.end();
    program::end_keeps(q7);
}

fn emit_scalar_loop(p: &mut Program, op: Option<Arith>, e: Elem)
    requires
        old(p).next + 2 <= u64::MAX,
    ensures
        final(p)@ == scalar_loop(old(p)@, op, e),
        final(p).next <= old(p).next + 2,
        final(p).open@ == old(p).open@,
{
    p.emit(&byte_limit_ops(e));
    p.begin();
    p.emit(&at_limit_ops());
    p.exit_if_ge();
    p.emit(&load_pair_ops(e));
    p.emit(&combine_ops(op, e));
    p.emit(&store_one_ops(e));
    p.end();
}

/// Goes on by whole vectors.
pub open spec fn vector_loop(p: Asm, op: Option<Arith>, e: Elem, w: Wide) -> Asm {
    p.emit(vector_limit(e, w))
        .begin()
        .emit(at_limit())
        .exit_if_ge()
        .emit(load_vectors(e, w))
        .emit(combine_vectors(op, e, w))
        .emit(store_vector(e, w))
        .end()
}

proof fn vector_loop_keeps(p: Asm, op: Option<Arith>, e: Elem, w: Wide)
    requires
        program::sound(p),
        p.next + 2 <= u64::MAX,
    ensures
        program::sound(vector_loop(p, op, e, w)),
        vector_loop(p, op, e, w).open == p.open,
        vector_loop(p, op, e, w).next <= p.next + 2,
        program::stack_after(vector_loop(p, op, e, w).lines) == program::stack_after(p.lines),
{
    let q1 = p.emit(vector_limit(e, w));
    program::emit_keeps(p, vector_limit(e, w));
    let q2 = q1.begin();
    program::begin_keeps(q1);
    let q3 = q2.emit(at_limit());
    program::emit_keeps(q2, at_limit());
    let q4 = q3.exit_if_ge();
    program::exit_keeps(q3);
    let q5 = q4.emit(load_vectors(e, w));
    program::emit_keeps(q4, load_vectors(e, w));
    let q6 = q5.emit(combine_vectors(op, e, w));
    program::emit_keeps(q5, combine_vectors(op, e, w));
    let q7 = q6.emit(store_vector(e, w));
    program::emit_keeps(q6, store_vector(e, w));
    let q8 = q7.end();
    program::end_keeps(q7);
}

fn emit_vector_loop(p: &mut Program, op: Option<Arith>, e: Elem, w: Wide)
    requires
        old(p).next + 2 <= u64::MAX,
    ensures
        final(p)@ == vector_loop(old(p)@, op, e, w),
        final(p).next <= old(p).next + 2,
        final(p).open@ == old(p).open@,
{
    p.emit(&vector_limit_ops(e, w));
    p.begin();
    p.emit(&at_limit_ops());
    p.exit_if_ge();
    p.emit(&load_vectors_ops(e, w));
    p.emit(&combine_vectors_ops(op, e, w));
    p.emit(&store_vector_ops(e, w));
    p.end();
}

/// The kernel that takes single elements only.
pub open spec fn scalar_kernel(op: Option<Arith>, e: Elem) -> Asm {
    let p1 = Asm::empty()
        .enter(saved())
        .emit(arguments());
    let p2 = scalar_loop(p1, op, e);
    p2.emit(succeed())
        .leave(saved())
}

/// Every kernel of this form has sound labels and keeps the registers that it saved.
pub proof fn scalar_kernel_is_sound(op: Option<Arith>, e: Elem)
    ensures
        lower::is_complete(scalar_kernel(op, e)),
{
    let q0 = Asm::empty();
    program::empty_is_sound();
    let q1 = q0.enter(saved());
    program::enter_keeps(q0, saved());
    let q2 = q1.emit(arguments());
    program::emit_keeps(q1, arguments());
    let q3 = scalar_loop(q2, op, e);
    scalar_loop_keeps(q2, op, e);
    let q4 = q3.emit(succeed());
    program::emit_keeps(q3, succeed());
    let q5 = q4.leave(saved());
    program::leave_keeps(q4, saved());
    lower::complete(q5);
}

fn build_scalar_kernel(op: Option<Arith>, e: Elem) -> (r: Program)
    ensures
        r@ == scalar_kernel(op, e),
        lower::is_complete(r@),
{
    proof {
        scalar_kernel_is_sound(op, e);
    }
    let mut p = Program::new();
    p.enter(&saved_regs());
    p.emit(&arguments_ops());
    emit_scalar_loop(&mut p, op, e);
    p.emit(&succeed_ops());
    p.leave(&saved_regs());
    p
}

/// The kernel that takes whole vectors first.
pub open spec fn vector_kernel(op: Option<Arith>, e: Elem, w: Wide) -> Asm {
    let p1 = Asm::empty()
        .enter(saved())
        .emit(arguments());
    let p2 = vector_loop(p1, op, e, w);
    let p3 = scalar_loop(p2, op, e);
    p3.emit(clear_upper())
        .emit(succeed())
        .leave(saved())
}

/// Every kernel of this form has sound labels and keeps the registers that it saved.
pub proof fn vector_kernel_is_sound(op: Option<Arith>, e: Elem, w: Wide)
    ensures
        lower::is_complete(vector_kernel(op, e, w)),
{
    let q0 = Asm::empty();
    program::empty_is_sound();
    let q1 = q0.enter(saved());
    program::enter_keeps(q0, saved());
    let q2 = q1.emit(arguments());
    program::emit_keeps(q1, arguments());
    let q3 = vector_loop(q2, op, e, w);
    vector_loop_keeps(q2, op, e, w);
    let q4 = scalar_loop(q3, op, e);
    scalar_loop_keeps(q3, op, e);
    let q5 = q4.emit(clear_upper());
    program::emit_keeps(q4, clear_upper());
    let q6 = q5.emit(succeed());
    program::emit_keeps(q5, succeed());
    let q7 = q6.leave(saved());
    program::leave_keeps(q6, saved());
    lower::complete(q7);
}

fn build_vector_kernel(op: Option<Arith>, e: Elem, w: Wide) -> (r: Program)
    ensures
        r@ == vector_kernel(op, e, w),
        lower::is_complete(r@),
{
    proof {
        vector_kernel_is_sound(op, e, w);
    }
    let mut p = Program::new();
    p.enter(&saved_regs());
    p.emit(&arguments_ops());
    emit_vector_loop(&mut p, op, e, w);
    emit_scalar_loop(&mut p, op, e);
    p.emit(&clear_upper_ops());
    p.emit(&succeed_ops());
    p.leave(&saved_regs());
    p
}

impl CompiledKernel {
    /// Single precision, one element at a time.
    pub fn compile_elementwise(op: u8) -> (r: Option<CompiledKernel>)
        ensures
            kernel::compiles(r, scalar_kernel(arith_of(op), Elem::F32), 0, 0, 0),
    {
        CompiledKernel::finalize(&build_scalar_kernel(arith_of(op), Elem::F32), 0, 0, 0)
    }

    /// Double precision, one element at a time.
    pub fn compile_elementwise_f64(op: u8) -> (r: Option<CompiledKernel>)
        ensures
            kernel::compiles(r, scalar_kernel(arith_of(op), Elem::F64), 0, 0, 0),
    {
        CompiledKernel::finalize(&build_scalar_kernel(arith_of(op), Elem::F64), 0, 0, 0)
    }

    /// Single precision, 256-bit vectors.
    pub fn compile_elementwise_avx2(op: u8) -> (r: Option<CompiledKernel>)
        ensures
            kernel::compiles(r, vector_kernel(arith_of(op), Elem::F32, Wide::Y), 0, 0, 0),
    {
        CompiledKernel::finalize(&build_vector_kernel(arith_of(op), Elem::F32, Wide::Y), 0, 0, 0)
    }

    /// Double precision, 256-bit vectors.
    pub fn compile_elementwise_avx2_f64(op: u8) -> (r: Option<CompiledKernel>)
        ensures
            kernel::compiles(r, vector_kernel(arith_of(op), Elem::F64, Wide::Y), 0, 0, 0),
    {
        CompiledKernel::finalize(&build_vector_kernel(arith_of(op), Elem::F64, Wide::Y), 0, 0, 0)
    }

    /// Double precision, 512-bit vectors.
    pub fn compile_elementwise_avx512_f64(op: u8) -> (r: Option<CompiledKernel>)
        ensures
            kernel::compiles(r, vector_kernel(arith_of(op), Elem::F64, Wide::Z), 0, 0, 0),
    {
        CompiledKernel::finalize(&build_vector_kernel(arith_of(op), Elem::F64, Wide::Z), 0, 0, 0)
    }

    /// Double precision, for the given instruction set.
    pub fn compile_elementwise_best_f64(op: u8, level: ISALevel) -> (r: Option<CompiledKernel>)
        ensures
            kernel::compiles(
                r,
                match level {
                    ISALevel::AVX512 => vector_kernel(arith_of(op), Elem::F64, Wide::Z),
                    ISALevel::AVX2 => vector_kernel(arith_of(op), Elem::F64, Wide::Y),
                    ISALevel::SSE => scalar_kernel(arith_of(op), Elem::F64),
                },
                0,
                0,
                0,
            ),
    {
        match level {
            ISALevel::AVX512 => Self::compile_elementwise_avx512_f64(op),
            ISALevel::AVX2 => Self::compile_elementwise_avx2_f64(op),
            ISALevel::SSE => Self::compile_elementwise_f64(op),
        }
    }

    /// Single precision, for the given instruction set.
    pub fn compile_elementwise_best_f32(op: u8, level: ISALevel) -> (r: Option<CompiledKernel>)
        ensures
            kernel::compiles(
                r,
                match level {
                    ISALevel::SSE => scalar_kernel(arith_of(op), Elem::F32),
                    _ => vector_kernel(arith_of(op), Elem::F32, Wide::Y),
                },
                0,
                0,
                0,
            ),
    {
        match level {
            ISALevel::AVX2 | ISALevel::AVX512 => Self::compile_elementwise_avx2(op),
            ISALevel::SSE => Self::compile_elementwise(op),
        }
    }
}

} // verus!
