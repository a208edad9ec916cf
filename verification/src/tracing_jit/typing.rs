//! How types spread over the slots of a trace, said instruction by instruction and of whole traces.

use vstd::prelude::*;
use crate::types::{BinOpKind, Instr, UnOpKind};
use super::recorder::{Trace, TraceInstruction};
use super::values::ValueType;

verus! {

/// One of the six comparisons.
pub open spec fn compares(op: BinOpKind) -> bool {
    op == BinOpKind::Eq || op == BinOpKind::Ne || op == BinOpKind::Lt || op == BinOpKind::Le || op
        == BinOpKind::Gt || op == BinOpKind::Ge
}

/// After a unary operator on a slot of known type, its destination has that same type, and the
/// operand keeps it. On a slot of unknown type both are integers.
pub proof fn unary_operator_keeps_the_type(
    types: Map<u64, ValueType>,
    d: u16,
    op: UnOpKind,
    s: u16,
)
    ensures
        ({
            let after = super::layout::typed(types, Instr::UnOp(d, op, s));
            &&& after.dom().contains(d as u64) && after.dom().contains(s as u64)
            &&& types.dom().contains(s as u64) ==> after[d as u64] == types[s as u64]
                && after[s as u64] == types[s as u64]
            &&& !types.dom().contains(s as u64) ==> after[d as u64] == ValueType::I64
                && after[s as u64] == ValueType::I64
        }),
{
}

/// A copy has the type of what is copied. Where that is unknown nothing is learned.
pub proof fn copy_has_the_type_of_its_source(types: Map<u64, ValueType>, d: u16, s: u16)
    ensures
        ({
            let after = super::layout::typed(types, Instr::Move(d, s));
            &&& types.dom().contains(s as u64) ==> after.dom().contains(d as u64)
                && after[d as u64] == types[s as u64] && after[s as u64] == types[s as u64]
            &&& !types.dom().contains(s as u64) ==> after == types
        }),
{
}

/// A load gives its slot the type of the constant: integers of either width are 64-bit integers.
pub proof fn loads_have_the_type_of_their_constant(
    types: Map<u64, ValueType>,
    d: u16,
    i: i32,
    j: i64,
    f: u32,
    g: u64,
    b: bool,
)
    ensures
        super::layout::typed(types, Instr::LoadI32(d, i))[d as u64] == ValueType::I64,
        super::layout::typed(types, Instr::LoadI64(d, j))[d as u64] == ValueType::I64,
        super::layout::typed(types, Instr::LoadF32(d, f))[d as u64] == ValueType::F32,
        super::layout::typed(types, Instr::LoadF64(d, g))[d as u64] == ValueType::F64,
        super::layout::typed(types, Instr::LoadBool(d, b))[d as u64] == ValueType::Bool,
        super::layout::typed(types, Instr::LoadI32(d, i)).dom().contains(d as u64),
        super::layout::typed(types, Instr::LoadI64(d, j)).dom().contains(d as u64),
        super::layout::typed(types, Instr::LoadF32(d, f)).dom().contains(d as u64),
        super::layout::typed(types, Instr::LoadF64(d, g)).dom().contains(d as u64),
        super::layout::typed(types, Instr::LoadBool(d, b)).dom().contains(d as u64),
{
}

/// A comparison is a truth value whatever it compares.
pub proof fn comparisons_are_truth_values(
    types: Map<u64, ValueType>,
    d: u16,
    op: BinOpKind,
    l: u16,
    r: u16,
)
    requires
        compares(op),
    ensures
        super::layout::typed(types, Instr::BinOp(d, op, l, r)).dom().contains(d as u64),
        super::layout::typed(types, Instr::BinOp(d, op, l, r))[d as u64] == ValueType::Bool,
{
}

/// Arithmetic on slots of known types is on doubles if one of them is a double, on single floats
/// if one of them is a single float and none a double, and otherwise on integers. The order of the
/// operands does not matter.
pub proof fn arithmetic_takes_the_wider_float(
    types: Map<u64, ValueType>,
    d: u16,
    op: BinOpKind,
    l: u16,
    r: u16,
)
    requires
        !compares(op),
        types.dom().contains(l as u64),
        types.dom().contains(r as u64),
    ensures
        ({
            let t = super::layout::typed(types, Instr::BinOp(d, op, l, r))[d as u64];
            let x = types[l as u64];
            let y = types[r as u64];
            &&& super::layout::typed(types, Instr::BinOp(d, op, l, r)).dom().contains(d as u64)
            &&& t == super::layout::typed(types, Instr::BinOp(d, op, r, l))[d as u64]
            &&& t == ValueType::F64 <==> x == ValueType::F64 || y == ValueType::F64
            &&& t == ValueType::F32 <==> (x == ValueType::F32 || y == ValueType::F32) && x
                != ValueType::F64 && y != ValueType::F64
            &&& t == ValueType::I64 || t == ValueType::F32 || t == ValueType::F64
        }),
{
}

/// Arithmetic takes an operand of unknown type for an integer and notes that it is one.
pub proof fn unknown_operands_are_integers(
    types: Map<u64, ValueType>,
    d: u16,
    op: BinOpKind,
    l: u16,
    r: u16,
)
    requires
        !compares(op),
        !types.dom().contains(l as u64),
    ensures
        ({
            let known = types.insert(l as u64, ValueType::I64);
            let after = super::layout::typed(types, Instr::BinOp(d, op, l, r));
            &&& after == super::layout::typed(known, Instr::BinOp(d, op, l, r))
            &&& l != d ==> after.dom().contains(l as u64) && after[l as u64] == ValueType::I64
            &&& super::layout::typed(types, Instr::BinOp(d, op, r, l)) == super::layout::typed(
                known,
                Instr::BinOp(d, op, r, l),
            )
        }),
{
    let known = types.insert(l as u64, ValueType::I64);
    assert(super::layout::typed(types, Instr::BinOp(d, op, l, r)) =~= super::layout::typed(
        known,
        Instr::BinOp(d, op, l, r),
    ));
    assert(super::layout::typed(types, Instr::BinOp(d, op, r, l)) =~= super::layout::typed(
        known,
        Instr::BinOp(d, op, r, l),
    ));
}

/// The slot whose type an instruction decides, if it decides one.
pub open spec fn target(i: Instr) -> Option<u16> {
    match i {
        Instr::LoadI32(d, _) => Some(d),
        Instr::LoadI64(d, _) => Some(d),
        Instr::LoadF32(d, _) => Some(d),
        Instr::LoadF64(d, _) => Some(d),
        Instr::LoadBool(d, _) => Some(d),
        Instr::BinOp(d, _, _, _) => Some(d),
        Instr::UnOp(d, _, _) => Some(d),
        Instr::Move(d, _) => Some(d),
        _ => None,
    }
}

/// An instruction changes no known type but that of its target, and no slot is forgotten.
pub proof fn known_types_stay(types: Map<u64, ValueType>, i: Instr, slot: u16)
    requires
        types.dom().contains(slot as u64),
    ensures
        super::layout::typed(types, i).dom().contains(slot as u64),
        target(i) != Some(slot) ==> super::layout::typed(types, i)[slot as u64]
            == types[slot as u64],
        target(i) is None ==> super::layout::typed(types, i) == types,
{
}

/// A load of a constant of the given type.
pub open spec fn loads(i: Instr, t: ValueType) -> bool {
    match i {
        Instr::LoadI32(_, _) => t == ValueType::I64,
        Instr::LoadI64(_, _) => t == ValueType::I64,
        Instr::LoadF32(_, _) => t == ValueType::F32,
        Instr::LoadF64(_, _) => t == ValueType::F64,
        _ => false,
    }
}

/// Whether one of the first `k` instructions decides the type of a slot.
pub open spec fn written_before(v: Seq<TraceInstruction>, slot: u16, k: int) -> bool {
    exists|j: int| 0 <= j < k && target((#[trigger] v[j]).instruction) == Some(slot)
}

/// Whether instruction `k` computes in one type: it loads a constant of the type, applies
/// arithmetic or a unary operator to slots that were written before, copies such a slot, or
/// writes no slot.
pub open spec fn computes_in(v: Seq<TraceInstruction>, k: int, t: ValueType) -> bool {
    match v[k].instruction {
        Instr::BinOp(_, op, l, r) => !compares(op) && written_before(v, l, k) && written_before(
            v,
            r,
            k,
        ),
        Instr::UnOp(_, _, s) => written_before(v, s, k),
        Instr::Move(_, s) => written_before(v, s, k),
        Instr::Store(_, _) => true,
        Instr::Jump(_) => true,
        Instr::JumpFalse(_, _) => true,
        Instr::JumpTrue(_, _) => true,
        Instr::Return(_) => true,
        Instr::Nop => true,
        i => loads(i, t),
    }
}

/// Whether every slot that has a type has this one.
spec fn all_have(types: Map<u64, ValueType>, t: ValueType) -> bool {
    forall|k: u64| #[trigger] types.dom().contains(k) ==> types[k] == t
}

proof fn lemma_types_stay_one(v: Seq<TraceInstruction>, k: nat, t: ValueType)
    requires
        k <= v.len(),
        t == ValueType::I64 || t == ValueType::F32 || t == ValueType::F64,
        forall|j: int| 0 <= j < v.len() ==> #[trigger] computes_in(v, j, t),
    ensures
        all_have(super::recorder::slot_types_of(v, k), t),
        forall|s: u16| #[trigger]
            written_before(v, s, k as int) <==> super::recorder::slot_types_of(
                v,
                k,
            ).dom().contains(s as u64),
    decreases k,
{
    if k > 0 {
        let m = (k - 1) as nat;
        lemma_types_stay_one(v, m, t);
        let before = super::recorder::slot_types_of(v, m);
        let after = super::recorder::slot_types_of(v, k);
        let i = v[k - 1].instruction;
        assert(computes_in(v, k - 1, t));
        assert(after == super::layout::typed(before, i));
        assert forall|s: u16| #[trigger]
            written_before(v, s, k as int) <==> after.dom().contains(s as u64) by {
            if written_before(v, s, m as int) {
                let j = choose|j: int|
                    0 <= j < m && target((#[trigger] v[j]).instruction) == Some(s);
                assert(written_before(v, s, k as int));
                known_types_stay(before, i, s);
            } else if target(i) == Some(s) {
                assert(target(v[k - 1].instruction) == Some(s));
                assert(written_before(v, s, k as int));
                assert(after.dom().contains(s as u64));
            } else {
                if written_before(v, s, k as int) {
                    let j = choose|j: int|
                        0 <= j < k && target((#[trigger] v[j]).instruction) == Some(s);
                    assert(j != k - 1);
                    assert(false);
                }
                assert(!before.dom().contains(s as u64));
            }
        }
    } else {
        assert forall|s: u16| #[trigger]
            written_before(v, s, 0) <==> super::recorder::slot_types_of(v, 0).dom().contains(
                s as u64,
            ) by {}
    }
}

/// A recorded trace whose loads are all of one numeric type, and whose operators are arithmetic or
/// unary on slots that it has written, is specialized to that type: all its slots have it. So a
/// trace on doubles alone is specialized to doubles.
pub proof fn traces_of_one_type_are_specialized(t: Trace, f: Trace, ty: ValueType, first: int)
    requires
        super::recorder::finished_from(t, f),
        ty == ValueType::I64 || ty == ValueType::F32 || ty == ValueType::F64,
        forall|j: int| 0 <= j < t.instructions@.len() ==> #[trigger] computes_in(
            t.instructions@,
            j,
            ty,
        ),
        0 <= first < t.instructions@.len(),
        loads(t.instructions@[first].instruction, ty),
    ensures
        f.specialized_type == Some(ty),
        forall|s: int|
            0 <= s < f.slot_types@.len() ==> (#[trigger] f.slot_types@[s] is None
                || f.slot_types@[s] == Some(ty)),
        forall|s: u16| #[trigger]
            written_before(t.instructions@, s, t.instructions@.len() as int) ==> s
                < f.slot_types@.len() && f.slot_types@[s as int] == Some(ty)
                && f.unboxed_slots@[s as int] is Some,
{
    let v = t.instructions@;
    let n = v.len();
    let types = super::recorder::slot_types_of(v, n);
    lemma_types_stay_one(v, n, ty);
    assert(target(v[first].instruction) is Some);
    let d = target(v[first].instruction).unwrap();
    assert(written_before(v, d, n as int));
    assert(super::layout::one_type(types, ty));
    assert forall|u: ValueType| super::layout::one_type(types, u) implies u == ty by {
        assert(types.dom().contains(d as u64));
    }
    assert(super::layout::common_type(types) == Some(ty));
    assert forall|s: u16| #[trigger] written_before(v, s, n as int) implies s
        < f.slot_types@.len() && f.slot_types@[s as int] == Some(ty)
        && f.unboxed_slots@[s as int] is Some by {
        assert(types.dom().contains(s as u64));
        assert(s as u64 == (s as int) as u64);
    }
}

/// Where two slots have different types, a trace is specialized to no type; where it is
/// specialized, all slots of known type have that one.
pub proof fn mixed_traces_are_not_specialized(t: Trace, f: Trace, a: u64, b: u64)
    requires
        super::recorder::finished_from(t, f),
    ensures
        ({
            let types = super::recorder::slot_types_of(t.instructions@, t.instructions@.len());
            &&& types.dom().contains(a) && types.dom().contains(b) && types[a] != types[b]
                ==> f.specialized_type is None
            &&& f.specialized_type is Some && types.dom().contains(a) ==> f.specialized_type
                == Some(types[a])
            &&& types.dom().contains(a) && (forall|k: u64| #[trigger]
                types.dom().contains(k) ==> types[k] == types[a]) ==> f.specialized_type == Some(
                types[a],
            )
        }),
{
    let types = super::recorder::slot_types_of(t.instructions@, t.instructions@.len());
    if types.dom().contains(a) && (forall|k: u64| #[trigger]
        types.dom().contains(k) ==> types[k] == types[a]) {
        assert(super::layout::one_type(types, types[a]));
    }
}

/// Whether all slots up to `last` have one type.
pub open spec fn all_slots_have(types: Map<u64, ValueType>, last: nat, t: ValueType) -> bool {
    forall|x: u64|
        #![trigger types[x]]
        #![trigger types.dom().contains(x)]
        x <= last ==> types.dom().contains(x) && types[x] == t
}

/// Slots of one type without a gap stand side by side: the place of each is its number times the
/// size of the type, which is eight bytes for integers and doubles, four for single floats and one
/// for truth values.
pub proof fn slots_of_one_type_stand_side_by_side(
    types: Map<u64, ValueType>,
    t: ValueType,
    slot: nat,
)
    requires
        slot <= 0xffff,
        t == ValueType::I64 || t == ValueType::F64 || t == ValueType::F32 || t == ValueType::Bool,
        all_slots_have(types, slot, t),
    ensures
        super::layout::unboxed_place(types, slot) == Some(
            slot * if t == ValueType::Bool {
                1int
            } else if t == ValueType::F32 {
                4
            } else {
                8
            },
        ),
{
    lemma_side_by_side(types, t, slot, slot);
    assert(types.dom().contains(slot as u64));
}

proof fn lemma_side_by_side(types: Map<u64, ValueType>, t: ValueType, k: nat, slot: nat)
    requires
        k <= slot <= 0xffff,
        t == ValueType::I64 || t == ValueType::F64 || t == ValueType::F32 || t == ValueType::Bool,
        all_slots_have(types, slot, t),
    ensures
        super::layout::buffer_end(types, k) == k * if t == ValueType::Bool {
            1int
        } else if t == ValueType::F32 {
            4
        } else {
            8
        },
    decreases k,
{
    if k > 0 {
        lemma_side_by_side(types, t, (k - 1) as nat, slot);
        assert(types.dom().contains((k - 1) as u64));
    }
}

/// Only numbers and truth values of known type have a place in the buffer.
pub proof fn only_plain_values_are_unboxed(types: Map<u64, ValueType>, slot: u16)
    ensures
        super::layout::unboxed_place(types, slot as nat) is Some <==> types.dom().contains(
            slot as u64,
        ) && (types[slot as u64] == ValueType::I64 || types[slot as u64] == ValueType::F64
            || types[slot as u64] == ValueType::F32 || types[slot as u64] == ValueType::Bool),
{
    assert((slot as nat) as u64 == slot as u64);
}

/// A value takes as many bytes as its place is a multiple of: eight for an integer and a double,
/// half of that for a single, and one for a truth value.
pub proof fn values_take_their_width(t: ValueType)
    ensures
        super::layout::unboxed_size(t) == super::layout::unboxed_align(t),
        super::layout::unboxed_size(ValueType::F64) == 8,
        super::layout::unboxed_size(ValueType::I64) == 8,
        2 * super::layout::unboxed_size(ValueType::F32) == super::layout::unboxed_size(
            ValueType::F64,
        ),
        super::layout::unboxed_size(ValueType::Bool) == 1,
{
}

/// The first slot that is unboxed stands at the beginning of the buffer, and the next one stands
/// as close behind it as the alignment of its type allows.
pub proof fn places_are_close_together(types: Map<u64, ValueType>, a: nat, b: nat)
    requires
        a < b <= 0x10000,
        super::layout::unboxed_place(types, a) is Some,
        super::layout::unboxed_place(types, b) is Some,
        forall|k: nat| a < k < b ==> #[trigger] super::layout::unboxed_place(types, k) is None,
    ensures
        ({
            let end = super::layout::unboxed_place(types, a)->0 + super::layout::unboxed_size(
                types[a as u64],
            );
            let place = super::layout::unboxed_place(types, b)->0;
            let align = super::layout::unboxed_align(types[b as u64]) as int;
            &&& end <= place < end + align
            &&& place % align == 0
        }),
        (forall|k: nat| k < a ==> #[trigger] super::layout::unboxed_place(types, k) is None)
            ==> super::layout::unboxed_place(types, a)->0 == 0,
{
    super::layout::unboxed_places_do_not_overlap(types, a, b);
    lemma_end_stays(types, a + 1, b);
    let e = super::layout::buffer_end(types, b);
    let align = super::layout::unboxed_align(types[b as u64]) as int;
    assert((e + align - 1) / align * align <= e + align - 1) by (nonlinear_arith)
        requires
            align > 0,
    ;
    if forall|k: nat| k < a ==> #[trigger] super::layout::unboxed_place(types, k) is None {
        lemma_end_stays(types, 0, a);
        let first = super::layout::unboxed_align(types[a as u64]) as int;
        assert((0 + first - 1) / first == 0) by (nonlinear_arith)
            requires
                first > 0,
        ;
        assert(super::layout::aligned_up(0, first) == 0);
    }
}

proof fn lemma_end_stays(types: Map<u64, ValueType>, a: nat, b: nat)
    requires
        a <= b <= 0x10000,
        forall|k: nat| a <= k < b ==> #[trigger] super::layout::unboxed_place(types, k) is None,
    ensures
        super::layout::buffer_end(types, b) == super::layout::buffer_end(types, a),
    decreases b,
{
    if a < b {
        let k = (b - 1) as nat;
        lemma_end_stays(types, a, k);
        assert(super::layout::unboxed_place(types, k) is None);
    }
}

/// There is one number of slots: one more than the largest slot with a type, and one where there
/// is none.
pub proof fn slots_are_counted_once(types: Map<u64, ValueType>, n: nat, m: nat, k: u64)
    requires
        super::layout::slot_count(types, n),
        super::layout::slot_count(types, m),
        n <= 0x10000,
        m <= 0x10000,
    ensures
        n == m,
        types.dom().contains(k) ==> k < n,
        !types.dom().contains((n - 1) as u64) ==> n == 1,
{
    if n < m {
        assert(types.dom().contains((m - 1) as u64));
    }
    if m < n {
        assert(types.dom().contains((n - 1) as u64));
    }
}

/// The lists of a trace tell of each slot its type where it has one and its place where it is
/// unboxed.
pub proof fn lists_describe_the_slots(types: Map<u64, ValueType>, n: nat, i: nat)
    requires
        i < n,
    ensures
        super::layout::type_list(types, n).len() == n,
        super::layout::place_list(types, n).len() == n,
        super::layout::type_list(types, n)[i as int] is Some <==> types.dom().contains(i as u64),
        types.dom().contains(i as u64) ==> super::layout::type_list(types, n)[i as int] == Some(
            types[i as u64],
        ),
        super::layout::place_list(types, n)[i as int] is Some <==> types.dom().contains(i as u64)
            && (types[i as u64] == ValueType::F64 || types[i as u64] == ValueType::F32
            || types[i as u64] == ValueType::I64 || types[i as u64] == ValueType::Bool),
{
}

} // verus!
