//! What recording and compiling a trace amounts to.

use vstd::prelude::*;
use crate::types::{BinOpKind, Instr, UnOpKind, Value};
use super::compiler::{fold_constants, CompileRequest, CompiledTrace, NameSuffix, NativeCode};
use super::guard::Guard;
use super::jit::TracingJIT;
use super::numbering::Known;
use super::recorder::{Trace, TraceInstruction, TraceRecorder};
use super::tier::TierState;
use super::values::ValueType;

verus! {

/// An operator whose operands may be swapped.
pub open spec fn swaps(op: BinOpKind) -> bool {
    op == BinOpKind::Add || op == BinOpKind::Mul || op == BinOpKind::Min || op == BinOpKind::Max
        || op == BinOpKind::BitAnd || op == BinOpKind::BitOr || op == BinOpKind::BitXor
}

/// A computation that is repeated right behind itself becomes a copy of the first result, unless
/// the first result overwrote an operand. Where the operands may be swapped, so does the
/// computation with its operands swapped.
pub proof fn repeated_computation_becomes_a_copy(
    k: Known,
    d: u16,
    op: BinOpKind,
    l: u16,
    r: u16,
    e: u16,
)
    requires
        super::numbering::identity(k, d, op, l, r) is None,
        d != l,
        d != r,
        e != d,
        super::numbering::numbered(k, Instr::BinOp(d, op, l, r)).0 == Instr::BinOp(d, op, l, r),
    ensures
        ({
            let after = super::numbering::known_after(k, Instr::BinOp(d, op, l, r));
            &&& super::numbering::numbered(after, Instr::BinOp(e, op, l, r)).0 == Instr::Move(e, d)
            &&& swaps(op) ==> super::numbering::numbered(after, Instr::BinOp(e, op, r, l)).0
                == Instr::Move(e, d)
        }),
{
    let i = Instr::BinOp(d, op, l, r);
    let after = super::numbering::known_after(k, i);
    let n = super::numbering::value_number(super::numbering::canonical(i)).unwrap();
    assert(!super::numbering::number_reads(n, d));
    assert(after.computed.dom().contains(n) && after.computed[n] == d);
    assert(super::numbering::constant_in(after, l) == super::numbering::constant_in(k, l));
    assert(super::numbering::constant_in(after, r) == super::numbering::constant_in(k, r));
    let j = Instr::BinOp(e, op, l, r);
    assert(super::numbering::value_number(super::numbering::canonical(j)) == Some(n));
    assert(super::numbering::identity(after, e, op, l, r) is None);
    if swaps(op) {
        let w = Instr::BinOp(e, op, r, l);
        assert(super::numbering::value_number(super::numbering::canonical(w)) == Some(n));
        assert(super::numbering::identity(after, e, op, r, l) is None);
    }
}

/// A load into another slot between a computation and its repetition changes nothing: the
/// repetition still becomes a copy of the first result.
pub proof fn computation_outlives_other_loads(
    k: Known,
    d: u16,
    op: BinOpKind,
    l: u16,
    r: u16,
    e: u16,
    x: u16,
    v: i64,
)
    requires
        super::numbering::identity(k, d, op, l, r) is None,
        d != l,
        d != r,
        e != d,
        x != d,
        x != l,
        x != r,
        super::numbering::numbered(k, Instr::BinOp(d, op, l, r)).0 == Instr::BinOp(d, op, l, r),
    ensures
        ({
            let first = super::numbering::known_after(k, Instr::BinOp(d, op, l, r));
            let after = super::numbering::known_after(first, Instr::LoadI64(x, v));
            super::numbering::numbered(after, Instr::BinOp(e, op, l, r)).0 == Instr::Move(e, d)
        }),
{
    let i = Instr::BinOp(d, op, l, r);
    let first = super::numbering::known_after(k, i);
    let after = super::numbering::known_after(first, Instr::LoadI64(x, v));
    let n = super::numbering::value_number(super::numbering::canonical(i)).unwrap();
    lemma_computation_is_known(k, d, op, l, r, x);
    lemma_load_keeps(first, n, x, v);
    lemma_known_is_copied(after, n, d, op, l, r, e);
}

proof fn lemma_computation_is_known(k: Known, d: u16, op: BinOpKind, l: u16, r: u16, x: u16)
    requires
        super::numbering::identity(k, d, op, l, r) is None,
        d != l,
        d != r,
        x != l,
        x != r,
        super::numbering::numbered(k, Instr::BinOp(d, op, l, r)).0 == Instr::BinOp(d, op, l, r),
    ensures
        ({
            let i = Instr::BinOp(d, op, l, r);
            let after = super::numbering::known_after(k, i);
            let n = super::numbering::value_number(super::numbering::canonical(i)).unwrap();
            &&& after.computed.dom().contains(n)
            &&& after.computed[n] == d
            &&& !super::numbering::number_reads(n, x)
            &&& super::numbering::identity(after, d, op, l, r) is None
        }),
{
    let i = Instr::BinOp(d, op, l, r);
    let after = super::numbering::known_after(k, i);
    let n = super::numbering::value_number(super::numbering::canonical(i)).unwrap();
    assert(!super::numbering::number_reads(n, d));
    assert(super::numbering::constant_in(after, l) == super::numbering::constant_in(k, l));
    assert(super::numbering::constant_in(after, r) == super::numbering::constant_in(k, r));
}

proof fn lemma_load_keeps(k: Known, n: u64, x: u16, v: i64)
    requires
        k.computed.dom().contains(n),
        k.computed[n] != x,
        !super::numbering::number_reads(n, x),
    ensures
        ({
            let after = super::numbering::known_after(k, Instr::LoadI64(x, v));
            &&& after.computed.dom().contains(n)
            &&& after.computed[n] == k.computed[n]
            &&& forall|s: u16|
                s != x ==> #[trigger] super::numbering::constant_in(after, s)
                    == super::numbering::constant_in(k, s)
        }),
{
}

proof fn lemma_known_is_copied(
    k: Known,
    n: u64,
    d: u16,
    op: BinOpKind,
    l: u16,
    r: u16,
    e: u16,
)
    requires
        super::numbering::value_number(
            super::numbering::canonical(Instr::BinOp(d, op, l, r)),
        ) == Some(n),
        k.computed.dom().contains(n),
        k.computed[n] == d,
        e != d,
        super::numbering::identity(k, d, op, l, r) is None,
    ensures
        super::numbering::numbered(k, Instr::BinOp(e, op, l, r)).0 == Instr::Move(e, d),
{
    let j = Instr::BinOp(e, op, l, r);
    assert(super::numbering::value_number(super::numbering::canonical(j)) == Some(n));
    assert(super::numbering::identity(k, e, op, l, r) is None);
}

/// A unary computation that is repeated right behind itself becomes a copy too.
pub proof fn repeated_unary_computation_becomes_a_copy(
    k: Known,
    d: u16,
    op: UnOpKind,
    s: u16,
    e: u16,
)
    requires
        d != s,
        e != d,
        super::numbering::numbered(k, Instr::UnOp(d, op, s)).0 == Instr::UnOp(d, op, s),
    ensures
        super::numbering::numbered(
            super::numbering::known_after(k, Instr::UnOp(d, op, s)),
            Instr::UnOp(e, op, s),
        ).0 == Instr::Move(e, d),
{
    let i = Instr::UnOp(d, op, s);
    let n = super::numbering::value_number(i).unwrap();
    assert(!super::numbering::number_reads(n, d));
}

/// What the recorder does with operands that are known: adding or subtracting zero and multiplying
/// by one leaves a copy of the other operand, multiplying by zero leaves zero, and so do the
/// identities of bits on one slot.
pub proof fn identities_are_resolved(k: Known, d: u16, l: u16, r: u16)
    ensures
        ({
            let zero = |s: u16| k.constant.dom().contains(s as u64) && k.constant[s as u64] == 0;
            let one = |s: u16| k.constant.dom().contains(s as u64) && k.constant[s as u64] == 1;
            let out = |op: BinOpKind| super::numbering::numbered(k, Instr::BinOp(d, op, l, r)).0;
            &&& zero(r) ==> out(BinOpKind::Add) == Instr::Move(d, l)
            &&& zero(l) && !zero(r) ==> out(BinOpKind::Add) == Instr::Move(d, r)
            &&& zero(r) ==> out(BinOpKind::Sub) == Instr::Move(d, l)
            &&& one(r) ==> out(BinOpKind::Mul) == Instr::Move(d, l)
            &&& one(l) && !one(r) ==> out(BinOpKind::Mul) == Instr::Move(d, r)
            &&& (zero(l) || zero(r)) && !one(l) && !one(r) ==> out(BinOpKind::Mul)
                == Instr::LoadI64(d, 0)
            &&& l == r ==> out(BinOpKind::BitXor) == Instr::LoadI64(d, 0)
            &&& l == r ==> out(BinOpKind::BitOr) == Instr::Move(d, l)
            &&& l == r ==> out(BinOpKind::BitAnd) == Instr::Move(d, l)
        }),
{
}

/// A loaded integer or truth value is known from then on, and is recorded as it is.
pub proof fn loaded_constants_are_known(k: Known, d: u16, i: i32, j: i64, b: bool)
    ensures
        super::numbering::constant_in(
            super::numbering::known_after(k, Instr::LoadI32(d, i)),
            d,
        ) == Some(i as i64),
        super::numbering::constant_in(
            super::numbering::known_after(k, Instr::LoadI64(d, j)),
            d,
        ) == Some(j),
        super::numbering::constant_in(
            super::numbering::known_after(k, Instr::LoadBool(d, b)),
            d,
        ) == Some(
            if b {
                1i64
            } else {
                0i64
            },
        ),
        super::numbering::numbered(k, Instr::LoadI32(d, i)).0 == Instr::LoadI32(d, i),
        super::numbering::numbered(k, Instr::LoadI64(d, j)).0 == Instr::LoadI64(d, j),
        super::numbering::numbered(k, Instr::LoadBool(d, b)).0 == Instr::LoadBool(d, b),
{
}

/// Past a transfer of control no computation is known, while what is known of constants stays.
pub proof fn control_ends_computations(k: Known, off: i32, s: u16)
    ensures
        ({
            let after = |i: Instr| super::numbering::known_after(k, i);
            &&& after(Instr::Jump(off)).computed.dom() == Set::<u64>::empty()
            &&& after(Instr::JumpFalse(s, off)).computed.dom() == Set::<u64>::empty()
            &&& after(Instr::JumpTrue(s, off)).computed.dom() == Set::<u64>::empty()
            &&& after(Instr::Return(s)).computed.dom() == Set::<u64>::empty()
            &&& after(Instr::Jump(off)).constant == k.constant
            &&& after(Instr::JumpFalse(s, off)).constant == k.constant
            &&& after(Instr::JumpTrue(s, off)).constant == k.constant
            &&& after(Instr::Return(s)).constant == k.constant
        }),
{
    let a = super::numbering::known_after(k, Instr::Jump(off));
    let b = super::numbering::known_after(k, Instr::JumpFalse(s, off));
    let c = super::numbering::known_after(k, Instr::JumpTrue(s, off));
    let d = super::numbering::known_after(k, Instr::Return(s));
    assert(a.computed.dom() =~= Set::<u64>::empty());
    assert(b.computed.dom() =~= Set::<u64>::empty());
    assert(c.computed.dom() =~= Set::<u64>::empty());
    assert(d.computed.dom() =~= Set::<u64>::empty());
}

/// The operators that are folded compute what they say, wrapping around where the exact result is
/// out of range; no other operator is folded.
pub proof fn folding_computes(op: BinOpKind, a: i64, b: i64)
    ensures
        op == BinOpKind::Add && i64::MIN <= a + b <= i64::MAX ==> fold_constants(op, a, b) == Some(
            (a + b) as i64,
        ),
        op == BinOpKind::Sub && i64::MIN <= a - b <= i64::MAX ==> fold_constants(op, a, b) == Some(
            (a - b) as i64,
        ),
        op == BinOpKind::Mul && i64::MIN <= a * b <= i64::MAX ==> fold_constants(op, a, b) == Some(
            (a * b) as i64,
        ),
        op == BinOpKind::Add && a + b > i64::MAX ==> fold_constants(op, a, b) == Some(
            (a + b - 0x1_0000_0000_0000_0000) as i64,
        ),
        op == BinOpKind::Sub && a - b > i64::MAX ==> fold_constants(op, a, b) == Some(
            (a - b - 0x1_0000_0000_0000_0000) as i64,
        ),
        op == BinOpKind::BitAnd ==> fold_constants(op, a, b) == Some(a & b),
        op == BinOpKind::BitOr ==> fold_constants(op, a, b) == Some(a | b),
        op == BinOpKind::BitXor ==> fold_constants(op, a, b) == Some(a ^ b),
        fold_constants(op, a, b) is Some <==> op == BinOpKind::Add || op == BinOpKind::Sub || op
            == BinOpKind::Mul || op == BinOpKind::BitAnd || op == BinOpKind::BitOr || op
            == BinOpKind::BitXor,
{
}

proof fn lemma_load_stays(v: Seq<TraceInstruction>, i: int, s: u16, a: i64, k: nat)
    requires
        0 <= i < k <= v.len(),
        v[i].instruction == Instr::LoadI64(s, a),
        forall|m: int|
            i < m < k ==> super::numbering::written((#[trigger] v[m]).instruction) != Some(s),
    ensures
        super::compiler::loads_at(v, k).dom().contains(s as u64),
        super::compiler::loads_at(v, k)[s as u64] == a,
    decreases k,
{
    if i < k - 1 {
        lemma_load_stays(v, i, s, a, (k - 1) as nat);
        assert(super::numbering::written(v[k - 1].instruction) != Some(s));
    }
}

/// An operator on two slots into which constants were loaded before, and which nothing has written
/// since, becomes the load of its value where the operator is one that is folded. It stays at its
/// place in the bytecode.
pub proof fn operators_on_constants_are_folded(
    v: Seq<TraceInstruction>,
    i: int,
    j: int,
    k: int,
    d: u16,
    op: BinOpKind,
    l: u16,
    r: u16,
    a: i64,
    b: i64,
)
    requires
        0 <= i < k,
        0 <= j < k,
        k < v.len(),
        v[i].instruction == Instr::LoadI64(l, a),
        v[j].instruction == Instr::LoadI64(r, b),
        forall|m: int|
            i < m < k ==> super::numbering::written((#[trigger] v[m]).instruction) != Some(l),
        forall|m: int|
            j < m < k ==> super::numbering::written((#[trigger] v[m]).instruction) != Some(r),
        v[k].instruction == Instr::BinOp(d, op, l, r),
        fold_constants(op, a, b) is Some,
    ensures
        super::compiler::optimized(v)[k].instruction == Instr::LoadI64(
            d,
            fold_constants(op, a, b).unwrap(),
        ),
        super::compiler::optimized(v)[k].original_pc == v[k].original_pc,
{
    lemma_load_stays(v, i, l, a, k as nat);
    lemma_load_stays(v, j, r, b, k as nat);
}

/// Folding keeps the number of instructions, the place of each in the bytecode, and everything but
/// operators that it folds.
pub proof fn folding_keeps_the_rest(v: Seq<TraceInstruction>, k: int)
    requires
        0 <= k < v.len(),
    ensures
        super::compiler::optimized(v).len() == v.len(),
        super::compiler::optimized(v)[k].original_pc == v[k].original_pc,
        !(v[k].instruction is BinOp) ==> super::compiler::optimized(v)[k] == v[k],
        super::compiler::bare(v).len() == v.len(),
        super::compiler::bare(v)[k] == v[k].instruction,
        super::compiler::optimized(v)[k] != v[k] ==> super::compiler::optimized(v)[k].instruction
            is LoadI64 && super::numbering::written(super::compiler::optimized(v)[k].instruction)
            == super::numbering::written(v[k].instruction),
{
}

/// A slot is a parameter exactly if an operator, a copy or a return reads it and no load, operator
/// or copy defines it.
pub proof fn parameters_are_read_and_not_defined(v: Seq<TraceInstruction>, s: u16)
    ensures
        super::compiler::parameters(v).contains(s) <==> {
            &&& exists|i: int|
                0 <= i < v.len() && match (#[trigger] v[i]).instruction {
                    Instr::BinOp(_, _, l, r) => l == s || r == s,
                    Instr::UnOp(_, _, x) => x == s,
                    Instr::Move(_, x) => x == s,
                    Instr::Return(x) => x == s,
                    _ => false,
                }
            &&& forall|i: int|
                0 <= i < v.len() ==> match (#[trigger] v[i]).instruction {
                    Instr::LoadI32(d, _) => d != s,
                    Instr::LoadI64(d, _) => d != s,
                    Instr::LoadF32(d, _) => d != s,
                    Instr::LoadF64(d, _) => d != s,
                    Instr::LoadBool(d, _) => d != s,
                    Instr::LoadUnit(d) => d != s,
                    Instr::BinOp(d, _, _, _) => d != s,
                    Instr::UnOp(d, _, _) => d != s,
                    Instr::Move(d, _) => d != s,
                    _ => true,
                }
        },
        super::compiler::param_count(v) == super::compiler::parameters(v).len(),
{
    if super::compiler::is_parameter(v, s) {
        let i = choose|i: int|
            0 <= i < v.len() && super::compiler::reads_slot((#[trigger] v[i]).instruction, s);
        assert(0 <= i < v.len());
        assert forall|j: int| 0 <= j < v.len() implies match (#[trigger] v[j]).instruction {
            Instr::LoadI32(d, _) => d != s,
            Instr::LoadI64(d, _) => d != s,
            Instr::LoadF32(d, _) => d != s,
            Instr::LoadF64(d, _) => d != s,
            Instr::LoadBool(d, _) => d != s,
            Instr::LoadUnit(d) => d != s,
            Instr::BinOp(d, _, _, _) => d != s,
            Instr::UnOp(d, _, _) => d != s,
            Instr::Move(d, _) => d != s,
            _ => true,
        } by {
            assert(!super::compiler::defines_slot(v[j].instruction, s));
        }
    }
}

/// The function of a trace is named after its number, with the tier behind it but for plain code.
pub proof fn functions_are_named_after_traces(id: u32)
    ensures
        super::compiler::function_name(id, NameSuffix::Plain) == "trace_"@ + crate::text::decimal(
            id as nat,
        ) + ""@,
        super::compiler::function_name(id, NameSuffix::Tier2) == "trace_"@ + crate::text::decimal(
            id as nat,
        ) + "_tier2"@,
        super::compiler::function_name(id, NameSuffix::Tier4) == "trace_"@ + crate::text::decimal(
            id as nat,
        ) + "_tier4"@,
{
}

/// A request carries the number and the guards of its trace, the name of its function, the
/// instructions to compile and the number of its parameters.
pub proof fn request_carries_the_trace(
    q: CompileRequest,
    t: Trace,
    instrs: Seq<Instr>,
    suffix: NameSuffix,
)
    requires
        super::compiler::is_request(q, t, instrs, suffix),
    ensures
        q.trace_id == t.id,
        q.name@ == super::compiler::function_name(t.id, suffix),
        q.instrs@ == instrs,
        q.guard_count == t.guards@.len(),
        q.param_count == super::compiler::parameters(t.instructions@).len(),
{
}

/// A compiled trace carries the number and the guards of its trace, its code, and how many
/// instructions and parameters were compiled.
pub proof fn compiled_trace_carries_the_trace(
    c: CompiledTrace,
    t: Trace,
    instrs: Seq<Instr>,
    code: NativeCode,
)
    requires
        super::jit::is_compiled(c, t, instrs, code),
    ensures
        c.trace_id == t.id,
        c.native_code == code,
        c.guard_count == t.guards@.len(),
        c.instruction_count == instrs.len(),
        c.param_count == super::compiler::parameters(t.instructions@).len(),
{
}

/// What a loop optimizer made is compiled, and the plain instructions where it made nothing.
pub proof fn optimized_loops_are_preferred(loops: Seq<Instr>, plain: Seq<Instr>)
    ensures
        loops.len() > 0 ==> super::compiler::preferred(loops, plain) == loops,
        loops.len() == 0 ==> super::compiler::preferred(loops, plain) == plain,
{
}

/// The checksum of no bytes is its starting value; one more byte is mixed in by an exclusive or,
/// and the result multiplied by a fixed prime.
pub proof fn checksum_takes_in_each_byte(v: Seq<u8>, b: u8)
    ensures
        super::compiler::fnv1a(v, 0) == 0xcbf29ce484222325,
        super::compiler::fnv1a(v.push(b), v.len() + 1) == (super::compiler::fnv1a(v, v.len())
            ^ b as u64).wrapping_mul(0x100000001b3),
{
    lemma_checksum_of_prefix(v, v.push(b), v.len());
}

proof fn lemma_checksum_of_prefix(a: Seq<u8>, b: Seq<u8>, k: nat)
    requires
        k <= a.len(),
        k <= b.len(),
        forall|i: int| 0 <= i < k ==> a[i] == b[i],
    ensures
        super::compiler::fnv1a(a, k) == super::compiler::fnv1a(b, k),
    decreases k,
{
    if k > 0 {
        lemma_checksum_of_prefix(a, b, (k - 1) as nat);
    }
}

/// The first hundred executions leave a trace in its first tier, the next nine hundred in the
/// optimized one, and any further one earns the global tier.
pub proof fn tiers_by_executions(count: u64)
    ensures
        super::tier::tier_for(count) == TierState::Tier1Baseline <==> count <= 100,
        super::tier::tier_for(count) == TierState::Tier2Optimized <==> 100 < count <= 1000,
        super::tier::tier_for(count) == TierState::Tier4Global <==> count > 1000,
{
}

/// Integers of every width are one type, tensors of every kind are one type, and every other value
/// has a type of its own.
pub proof fn values_have_their_types(v: Value)
    ensures
        super::values::type_of_value(v) == ValueType::I64 <==> v is I8 || v is I16 || v is I32 || v
            is I64 || v is U8 || v is U16 || v is U32 || v is U64,
        super::values::type_of_value(v) == ValueType::F32 <==> v is F32,
        super::values::type_of_value(v) == ValueType::F64 <==> v is F64,
        super::values::type_of_value(v) == ValueType::Bool <==> v is Bool,
        super::values::type_of_value(v) == ValueType::Unit <==> v is Unit,
        super::values::type_of_value(v) == ValueType::Tensor <==> v is Tensor || v is TensorF32 || v
            is TensorFast,
{
}

/// The failure that is reported is that of the first guard that fails, with its slot and the type
/// that its argument has.
pub proof fn first_failing_guard_is_reported(guards: Seq<Guard>, args: Seq<Value>, k: int, i: int)
    requires
        0 <= k <= i < guards.len(),
        guards[i].slot < args.len(),
        super::values::type_of_value(args[guards[i].slot as int]) != guards[i].expected_type,
        forall|j: int|
            k <= j < i && (#[trigger] guards[j]).slot < args.len() ==> super::values::type_of_value(
                args[guards[j].slot as int],
            ) == guards[j].expected_type,
    ensures
        super::jit::first_failure(guards, args, k) == Some(
            (guards[i].slot, super::values::type_of_value(args[guards[i].slot as int])),
        ),
    decreases i - k,
{
    if k < i {
        let g = guards[k];
        first_failing_guard_is_reported(guards, args, k + 1, i);
    }
}

/// The distinct guards hold each guard once and no other.
pub proof fn distinct_guards_hold_each_once(guards: Seq<Guard>, k: nat)
    requires
        k <= guards.len(),
    ensures
        super::recorder::distinct_guards(guards, k).no_duplicates(),
        forall|i: int|
            0 <= i < k ==> super::recorder::distinct_guards(guards, k).contains(
                ((#[trigger] guards[i]).slot, guards[i].expected_type),
            ),
        forall|j: int|
            0 <= j < super::recorder::distinct_guards(guards, k).len() ==> exists|i: int|
                0 <= i < k && ((#[trigger] guards[i]).slot, guards[i].expected_type)
                    == #[trigger] super::recorder::distinct_guards(guards, k)[j],
    decreases k,
{
    if k > 0 {
        distinct_guards_hold_each_once(guards, (k - 1) as nat);
        let before = super::recorder::distinct_guards(guards, (k - 1) as nat);
        let all = super::recorder::distinct_guards(guards, k);
        let g = (guards[k - 1].slot, guards[k - 1].expected_type);
        super::guard::guard_is_added_once(before, g);
        assert forall|i: int| 0 <= i < k implies all.contains(
            ((#[trigger] guards[i]).slot, guards[i].expected_type),
        ) by {
            let x = (guards[i].slot, guards[i].expected_type);
            if i < k - 1 {
                let p = choose|p: int| 0 <= p < before.len() && before[p] == x;
                assert(all[p] == x);
            } else if !before.contains(g) {
                assert(all[before.len() as int] == g);
            }
        }
        assert forall|j: int| 0 <= j < all.len() implies exists|i: int|
            0 <= i < k && ((#[trigger] guards[i]).slot, guards[i].expected_type)
                == #[trigger] all[j] by {
            if j < before.len() {
                assert(all[j] == before[j]);
                let i = choose|i: int|
                    0 <= i < k - 1 && ((#[trigger] guards[i]).slot, guards[i].expected_type)
                        == before[j];
                assert(0 <= i < k && (guards[i].slot, guards[i].expected_type) == all[j]);
            } else {
                assert((guards[k - 1].slot, guards[k - 1].expected_type) == all[j]);
            }
        }
    }
}

/// A guard is attached to the last instruction and changes nothing else; without instructions
/// there is nothing to attach it to.
pub proof fn guard_is_attached_to_the_last(v: Seq<TraceInstruction>, g: Guard, i: int)
    ensures
        ({
            let w = super::recorder::with_last_guard(v, g);
            &&& w.len() == v.len()
            &&& 0 <= i < v.len() - 1 ==> w[i] == v[i]
            &&& v.len() > 0 ==> w.last().guard == Some(g) && w.last().instruction
                == v.last().instruction && w.last().original_pc == v.last().original_pc
        }),
{
}

/// The trace of a number is the one that was finished last with it.
pub proof fn last_trace_of_a_number_is_taken(traces: Seq<Trace>, id: u32, i: int)
    requires
        0 <= i < traces.len(),
    ensures
        super::recorder::place_of(traces, id) == Some(i) <==> traces[i].id == id && forall|j: int|
            i < j < traces.len() ==> (#[trigger] traces[j]).id != id,
    decreases traces.len(),
{
    if traces.last().id != id {
        let shorter = traces.drop_last();
        if i < shorter.len() {
            last_trace_of_a_number_is_taken(shorter, id, i);
            assert forall|j: int| i < j < shorter.len() implies #[trigger] shorter[j]
                == traces[j] by {}
            if super::recorder::place_of(traces, id) == Some(i) {
                assert forall|j: int| i < j < traces.len() implies (#[trigger] traces[j]).id
                    != id by {
                    if j < shorter.len() {
                        assert(shorter[j].id != id);
                    }
                }
            }
        } else {
            lemma_place_in_range(shorter, id);
        }
    } else {
        assert(traces[traces.len() - 1].id == id);
    }
}

proof fn lemma_place_in_range(traces: Seq<Trace>, id: u32)
    ensures
        super::recorder::place_of(traces, id) matches Some(i) ==> 0 <= i < traces.len(),
    decreases traces.len(),
{
    if traces.len() > 0 {
        lemma_place_in_range(traces.drop_last(), id);
    }
}

/// An entry is recorded from the visit on that reaches the trigger, and not one visit earlier.
pub proof fn recording_starts_at_the_trigger(j: TracingJIT, c: u64)
    ensures
        j.should_start_tracing(j.trace_trigger),
        c < j.trace_trigger ==> !j.should_start_tracing(c),
        c > j.trace_trigger ==> j.should_start_tracing(c),
{
}

/// A trace is compiled from the execution on that reaches the trigger, and not one earlier.
pub proof fn compiling_starts_at_the_trigger(j: TracingJIT, t: Trace)
    ensures
        t.execution_count == j.compile_trigger ==> j.should_compile(&t),
        t.execution_count < j.compile_trigger ==> !j.should_compile(&t),
        t.execution_count > j.compile_trigger ==> j.should_compile(&t),
{
}

/// A trace earns the optimized tier where a hundredth of its count, rounded down, has reached the
/// trigger of the first compilation.
pub proof fn optimizing_takes_a_hundred_times_as_long(j: TracingJIT, c: u64)
    ensures
        j.should_compile_tier2(c) <==> c / 100 >= j.compile_trigger,
{
}

/// A trace of the longest length is kept, and one instruction more is too much; nothing is
/// dropped where nothing is recorded.
pub proof fn longest_trace_is_kept(r: TraceRecorder)
    ensures
        r.current() is None ==> !r.should_abort_trace(),
        r.current() matches Some(t) ==> {
            &&& t.instructions@.len() == r.length_limit() ==> !r.should_abort_trace()
            &&& t.instructions@.len() < r.length_limit() ==> !r.should_abort_trace()
            &&& t.instructions@.len() == r.length_limit() + 1 ==> r.should_abort_trace()
            &&& t.instructions@.len() > r.length_limit() + 1 ==> r.should_abort_trace()
        },
{
}

/// Visits add up: an entry that was never visited counts zero, one more visit counts one more,
/// and the visits of other entries do not count.
pub proof fn visits_add_up(counters: Map<u64, u64>, pc: u64, other: u64)
    requires
        super::jit::count_at(counters, pc) < u64::MAX,
    ensures
        super::jit::count_at(Map::empty(), pc) == 0,
        ({
            let after = counters.insert(pc, (super::jit::count_at(counters, pc) + 1) as u64);
            &&& super::jit::count_at(after, pc) == super::jit::count_at(counters, pc) + 1
            &&& other != pc ==> super::jit::count_at(after, other) == super::jit::count_at(
                counters,
                other,
            )
        }),
{
}

/// A new trace has its number and its entry, and nothing was recorded, guarded, left or executed
/// in it.
pub proof fn new_trace_is_empty(t: Trace, id: u32, entry: usize)
    requires
        super::recorder::is_fresh(t, id, entry),
    ensures
        t.id == id,
        t.entry_pc == entry,
        t.instructions@.len() == 0,
        t.guards@.len() == 0,
        t.side_exits@.len() == 0,
        t.execution_count == 0,
        t.slot_types@.len() == 0,
{
}

/// A new compiler records nothing before the trigger and has counted, recorded and compiled
/// nothing.
pub proof fn new_compiler_has_seen_nothing(j: TracingJIT, trace: u64, compile: u64, pc: u64)
    requires
        j.is_new(trace, compile),
    ensures
        super::jit::count_at(j.counters(), pc) == 0,
        trace > 0 ==> !j.should_start_tracing(super::jit::count_at(j.counters(), pc)),
        j.should_start_tracing(trace),
        j.traces_recorded == 0,
        j.traces_compiled == 0,
        j.deoptimizations == 0,
        j.recorder.current() is None,
        j.recorder.finished().len() == 0,
{
}

} // verus!
