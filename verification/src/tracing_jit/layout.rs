//! Types of the slots of a trace, and their places in the unboxed buffer.

use vstd::prelude::*;
use rustc_hash::FxHashMap;
use crate::fx::{fx_get, fx_insert, fx_keys};
use crate::types::Instr;
use super::values::ValueType;

verus! {

/// Whether values of this type can stand in the unboxed buffer.
#[verifier::allow_in_spec]
pub fn is_unboxable(t: ValueType) -> (r: bool)
    returns
        matches!(t, ValueType::I64 | ValueType::F64 | ValueType::F32 | ValueType::Bool),
{
    matches!(t, ValueType::I64 | ValueType::F64 | ValueType::F32 | ValueType::Bool)
}

/// Bytes that a value of this type takes in the unboxed buffer.
#[verifier::allow_in_spec]
pub fn unboxed_size(t: ValueType) -> (r: u32)
    returns
        (match t {
            ValueType::F32 => 4u32,
            ValueType::Bool => 1,
            _ => 8,
        }),
{
    match t {
        ValueType::F32 => 4,
        ValueType::Bool => 1,
        _ => 8,
    }
}

/// Number of bytes of which the place of a value of this type is a multiple.
#[verifier::allow_in_spec]
pub fn unboxed_align(t: ValueType) -> (r: u32)
    returns
        (match t {
            ValueType::F32 => 4u32,
            ValueType::Bool => 1,
            _ => 8,
        }),
{
    match t {
        ValueType::F32 => 4,
        ValueType::Bool => 1,
        _ => 8,
    }
}

/// The type of a slot as far as it is known, otherwise an integer.
pub open spec fn type_or_int(types: Map<u64, ValueType>, slot: u16) -> ValueType {
    if types.dom().contains(slot as u64) {
        types[slot as u64]
    } else {
        ValueType::I64
    }
}

/// `types` with a slot of unknown type taken for an integer.
pub open spec fn defaulted(types: Map<u64, ValueType>, slot: u16) -> Map<u64, ValueType> {
    if types.dom().contains(slot as u64) {
        types
    } else {
        types.insert(slot as u64, ValueType::I64)
    }
}

/// The type of arithmetic on two types: the wider float, otherwise an integer.
#[verifier::allow_in_spec]
pub fn arithmetic_type(l: ValueType, r: ValueType) -> (t: ValueType)
    returns
        (if l == ValueType::F64 || r == ValueType::F64 {
            ValueType::F64
        } else if l == ValueType::F32 || r == ValueType::F32 {
            ValueType::F32
        } else {
            ValueType::I64
        }),
{
    if l == ValueType::F64 || r == ValueType::F64 {
        ValueType::F64
    } else if l == ValueType::F32 || r == ValueType::F32 {
        ValueType::F32
    } else {
        ValueType::I64
    }
}

/// The types of the slots after an instruction: loads have the type of their constant,
/// comparisons are truth values, arithmetic and copies take over the types of their operands.
pub open spec fn typed(types: Map<u64, ValueType>, i: Instr) -> Map<u64, ValueType> {
    match i {
        Instr::LoadI32(d, _) | Instr::LoadI64(d, _) => types.insert(d as u64, ValueType::I64),
        Instr::LoadF32(d, _) => types.insert(d as u64, ValueType::F32),
        Instr::LoadF64(d, _) => types.insert(d as u64, ValueType::F64),
        Instr::LoadBool(d, _) => types.insert(d as u64, ValueType::Bool),
        Instr::BinOp(d, op, l, r) => {
            let t = if op.is_comparison() {
                ValueType::Bool
            } else {
                arithmetic_type(type_or_int(types, l), type_or_int(types, r))
            };
            defaulted(defaulted(types.insert(d as u64, t), l), r)
        },
        Instr::UnOp(d, _, s) => defaulted(types.insert(d as u64, type_or_int(types, s)), s),
        Instr::Move(d, s) => if types.dom().contains(s as u64) {
            types.insert(d as u64, types[s as u64])
        } else {
            types
        },
        _ => types,
    }
}

/// All keys are slot numbers.
pub open spec fn keys_are_slots(types: Map<u64, ValueType>) -> bool {
    forall|k: u64| #[trigger] types.dom().contains(k) ==> k <= 0xffff
}

fn type_of_slot(types: &FxHashMap<u64, ValueType>, slot: u16) -> (r: Option<ValueType>)
    ensures
        r == (if types@.dom().contains(slot as u64) {
            Some(types@[slot as u64])
        } else {
            None
        }),
{
    match fx_get(types, slot as u64) {
        Some(t) => Some(*t),
        None => None,
    }
}

fn default_slot(types: &mut FxHashMap<u64, ValueType>, slot: u16)
    ensures
        final(types)@ == defaulted(old(types)@, slot),
{
    if type_of_slot(types, slot).is_none() {
        fx_insert(types, slot as u64, ValueType::I64);
    }
}

/// Notes the types that an instruction gives its slots.
pub fn collect_slot_types(instr: &Instr, types: &mut FxHashMap<u64, ValueType>)
    ensures
        final(types)@ == typed(old(types)@, *instr),
{
    match *instr {
        Instr::LoadI32(dst, _) => {
            fx_insert(types, dst as u64, ValueType::I64);
        },
        Instr::LoadI64(dst, _) => {
            fx_insert(types, dst as u64, ValueType::I64);
        },
        Instr::LoadF32(dst, _) => {
            fx_insert(types, dst as u64, ValueType::F32);
        },
        Instr::LoadF64(dst, _) => {
            fx_insert(types, dst as u64, ValueType::F64);
        },
        Instr::LoadBool(dst, _) => {
            fx_insert(types, dst as u64, ValueType::Bool);
        },
        Instr::BinOp(dst, op, lhs, rhs) => {
            let result: ValueType = if op.is_comparison() {
                ValueType::Bool
            } else {
                let l: ValueType = type_of_slot(types, lhs).unwrap_or(ValueType::I64);
                let r: ValueType = type_of_slot(types, rhs).unwrap_or(ValueType::I64);
                arithmetic_type(l, r)
            };
            fx_insert(types, dst as u64, result);
            default_slot(types, lhs);
            default_slot(types, rhs);
        },
        Instr::UnOp(dst, _, src) => {
            let t: ValueType = type_of_slot(types, src).unwrap_or(ValueType::I64);
            fx_insert(types, dst as u64, t);
            default_slot(types, src);
        },
        Instr::Move(dst, src) => {
            if let Some(t) = type_of_slot(types, src) {
                fx_insert(types, dst as u64, t);
            }
        },
        _ => {},
    }
}

/// The smallest multiple of `align` that is not below `x`.
pub open spec fn aligned_up(x: int, align: int) -> int {
    (x + align - 1) / align * align
}

/// First free place in the unboxed buffer after the slots before `k` have theirs.
pub open spec fn buffer_end(types: Map<u64, ValueType>, k: nat) -> int
    decreases k,
{
    if k == 0 {
        0
    } else {
        let slot = (k - 1) as u64;
        let before = buffer_end(types, (k - 1) as nat);
        if types.dom().contains(slot) && is_unboxable(types[slot]) {
            aligned_up(before, unboxed_align(types[slot]) as int) + unboxed_size(types[slot])
        } else {
            before
        }
    }
}

/// Place of a slot in the unboxed buffer, if its type can stand there: the first aligned place
/// behind the slots before it.
pub open spec fn unboxed_place(types: Map<u64, ValueType>, slot: nat) -> Option<int> {
    if types.dom().contains(slot as u64) && is_unboxable(types[slot as u64]) {
        Some(
            aligned_up(buffer_end(types, slot), unboxed_align(types[slot as u64]) as int),
        )
    } else {
        None
    }
}

/// Number of slots that a trace describes: one more than the largest, at least one.
pub open spec fn slot_count(types: Map<u64, ValueType>, n: nat) -> bool {
    &&& n >= 1
    &&& forall|k: u64| #[trigger] types.dom().contains(k) ==> k < n
    &&& n > 1 ==> types.dom().contains((n - 1) as u64)
}

/// The types of the first `n` slots.
pub open spec fn type_list(types: Map<u64, ValueType>, n: nat) -> Seq<Option<ValueType>> {
    Seq::new(
        n,
        |i: int|
            if types.dom().contains(i as u64) {
                Some(types[i as u64])
            } else {
                None
            },
    )
}

/// The places of the first `n` slots in the unboxed buffer.
pub open spec fn place_list(types: Map<u64, ValueType>, n: nat) -> Seq<Option<u32>> {
    Seq::new(
        n,
        |i: int|
            match unboxed_place(types, i as nat) {
                Some(p) => Some(p as u32),
                None => None,
            },
    )
}

/// Whether all slots have one type, and there is a slot.
pub open spec fn one_type(types: Map<u64, ValueType>, t: ValueType) -> bool {
    &&& exists|k: u64| #[trigger] types.dom().contains(k)
    &&& forall|k: u64| #[trigger] types.dom().contains(k) ==> types[k] == t
}

/// The type that all slots have, if they have one.
pub open spec fn common_type(types: Map<u64, ValueType>) -> Option<ValueType> {
    if exists|t: ValueType| one_type(types, t) {
        Some(choose|t: ValueType| one_type(types, t))
    } else {
        None
    }
}

proof fn lemma_aligned_up(x: int, align: int)
    requires
        x >= 0,
        align == 1 || align == 4 || align == 8,
    ensures
        x <= aligned_up(x, align) <= x + 7,
        aligned_up(x, align) % align == 0,
{
}

proof fn lemma_buffer_bound(types: Map<u64, ValueType>, k: nat)
    ensures
        0 <= buffer_end(types, k) <= 15 * k,
    decreases k,
{
    if k > 0 {
        lemma_buffer_bound(types, (k - 1) as nat);
        if types.dom().contains((k - 1) as u64) && is_unboxable(types[(k - 1) as u64]) {
            lemma_aligned_up(
                buffer_end(types, (k - 1) as nat),
                unboxed_align(types[(k - 1) as u64]) as int,
            );
        }
    }
}

/// The number of slots that a trace describes.
pub fn count_slots(types: &FxHashMap<u64, ValueType>) -> (r: usize)
    requires
        keys_are_slots(types@),
    ensures
        slot_count(types@, r as nat),
        r <= 0x1_0000,
{
    let keys: Vec<u64> = fx_keys(types);
    let mut largest: u64 = 0;
    let mut i: usize = 0;
    proof {
        assert forall|j: int| 0 <= j < keys@.len() implies types@.dom().contains(
            #[trigger] keys@[j],
        ) by {
            assert(keys@.to_set().contains(keys@[j]));
        }
    }
    while i < keys.len()
        invariant
            i <= keys@.len(),
            keys_are_slots(types@),
            forall|j: int| 0 <= j < keys@.len() ==> types@.dom().contains(#[trigger] keys@[j]),
            largest <= 0xffff,
            largest > 0 ==> types@.dom().contains(largest),
            forall|j: int| 0 <= j < i ==> (#[trigger] keys@[j]) <= largest,
        decreases keys.len() - i,
    {
        assert(types@.dom().contains(keys@[i as int]));
        if keys[i] > largest {
            largest = keys[i];
        }
        i += 1;
    }
    proof {
        assert forall|k: u64| #[trigger] types@.dom().contains(k) implies k < largest + 1 by {
            assert(keys@.to_set().contains(k));
            let j = choose|j: int| 0 <= j < keys@.len() && keys@[j] == k;
            assert(keys@[j] <= largest);
        }
    }
    largest as usize + 1
}

/// The types of the slots, their places in the unboxed buffer and their common type.
pub fn lay_out(types: &FxHashMap<u64, ValueType>) -> (r: (
    Vec<Option<ValueType>>,
    Vec<Option<u32>>,
    Option<ValueType>,
))
    requires
        keys_are_slots(types@),
    ensures
        slot_count(types@, r.0@.len()),
        r.0@ == type_list(types@, r.0@.len()),
        r.1@ == place_list(types@, r.0@.len()),
        r.2 == common_type(types@),
{
    let n: usize = count_slots(types);
    let ghost m = types@;
    let mut list: Vec<Option<ValueType>> = Vec::new();
    let mut places: Vec<Option<u32>> = Vec::new();
    let mut offset: u32 = 0;
    let mut first: Option<ValueType> = None;
    let mut same: bool = true;
    let mut slot: usize = 0;
    while slot < n
        invariant
            m == types@,
            slot <= n <= 0x1_0000,
            list@ == type_list(m, slot as nat),
            places@ == place_list(m, slot as nat),
            offset == buffer_end(m, slot as nat),
            first is None <==> forall|k: u64| #[trigger] m.dom().contains(k) ==> k >= slot,
            first matches Some(t) ==> exists|k: u64| #[trigger]
                m.dom().contains(k) && k < slot && m[k] == t,
            same == forall|k: u64| #[trigger]
                m.dom().contains(k) && k < slot ==> Some(m[k]) == first,
        decreases n - slot,
    {
        let ghost before = slot as nat;
        proof {
            lemma_buffer_bound(m, before);
        }
        let here: Option<ValueType> = match fx_get(types, slot as u64) {
            Some(t) => Some(*t),
            None => None,
        };
        match here {
            Some(t) => {
                assert(m.dom().contains(slot as u64) && m[slot as u64] == t);
                if is_unboxable(t) {
                    proof {
                        lemma_aligned_up(buffer_end(m, before), unboxed_align(t) as int);
                    }
                    let align: u32 = unboxed_align(t);
                    let place: u32 = (offset + align - 1) / align * align;
                    places.push(Some(place));
                    offset = place + unboxed_size(t);
                } else {
                    places.push(None);
                }
                match first {
                    Some(f) => {
                        if f != t {
                            same = false;
                        }
                    },
                    None => {
                        first = Some(t);
                    },
                }
            },
            None => {
                places.push(None);
            },
        }
        list.push(here);
        slot += 1;
        assert(list@ =~= type_list(m, slot as nat));
        assert(places@ =~= place_list(m, slot as nat));
        proof {
            assert(same == forall|k: u64| #[trigger]
                m.dom().contains(k) && k < slot ==> Some(m[k]) == first) by {
                if here is Some {
                    assert(m.dom().contains((slot - 1) as u64));
                }
            }
        }
    }
    let common: Option<ValueType> = if same {
        first
    } else {
        None
    };
    proof {
        assert(forall|k: u64| #[trigger] m.dom().contains(k) ==> k < n);
        if common is Some {
            assert(one_type(m, common->0));
            let t = choose|t: ValueType| one_type(m, t);
            let k = choose|k: u64| #[trigger] m.dom().contains(k);
            assert(m[k] == t && m[k] == common->0);
        } else if exists|t: ValueType| one_type(m, t) {
            let t = choose|t: ValueType| one_type(m, t);
            let k = choose|k: u64| #[trigger] m.dom().contains(k);
            assert(k < n);
            assert(first is Some);
            let q = choose|q: u64| #[trigger] m.dom().contains(q) && q < n && m[q] == first->0;
            assert(m[q] == t);
            assert(same);
        }
    }
    (list, places, common)
}

/// Places in the unboxed buffer are aligned for their types and do not overlap: each slot ends
/// before the next one that has a place begins.
pub proof fn unboxed_places_do_not_overlap(types: Map<u64, ValueType>, a: nat, b: nat)
    requires
        a < b,
        unboxed_place(types, a) is Some,
        unboxed_place(types, b) is Some,
    ensures
        unboxed_place(types, a)->0 + unboxed_size(types[a as u64]) <= unboxed_place(types, b)->0,
        unboxed_place(types, b)->0 % (unboxed_align(types[b as u64]) as int) == 0,
{
    lemma_buffer_bound(types, b);
    lemma_aligned_up(buffer_end(types, b), unboxed_align(types[b as u64]) as int);
    lemma_buffer_grows(types, a + 1, b);
}

proof fn lemma_buffer_grows(types: Map<u64, ValueType>, a: nat, b: nat)
    requires
        a <= b,
    ensures
        buffer_end(types, a) <= buffer_end(types, b),
    decreases b,
{
    if a < b {
        lemma_buffer_grows(types, a, (b - 1) as nat);
        lemma_buffer_bound(types, (b - 1) as nat);
        if types.dom().contains((b - 1) as u64) && is_unboxable(types[(b - 1) as u64]) {
            lemma_aligned_up(
                buffer_end(types, (b - 1) as nat),
                unboxed_align(types[(b - 1) as u64]) as int,
            );
        }
    }
}

} // verus!
