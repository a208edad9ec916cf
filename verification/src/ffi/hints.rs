//! Hints that go with optimized instructions, and their bytes.

use vstd::prelude::*;
use crate::types::BinOpKind;
use super::config::FfiElementType;

verus! {

/// A hint on how to generate code for an instruction.
#[derive(Debug, Clone, Copy, PartialEq, Eq, Structural)]
pub enum SimdHintKind {
    /// Pack scalar operations into one vector operation.
    VectorPack {
        /// Operator.
        op: BinOpKind,
        /// Number of lanes.
        width: usize,
        /// First slot of the left operands.
        src1_base: u16,
        /// First slot of the right operands.
        src2_base: u16,
        /// First slot of the results.
        dst_base: u16,
    },
    /// Use a matrix unit.
    MatrixOuterProduct,
    /// Keep a slot in a register.
    ForceRegisterLock {
        /// The slot.
        slot: u16,
        /// The register.
        physical_reg: u8,
    },
    /// Release the register of a slot.
    ForceRegisterUnlock {
        /// The slot.
        slot: u16,
    },
    /// Compute a transcendental function on vectors.
    TranscendentalVectorize {
        /// Number of the function.
        kind: u8,
        /// Slot of the argument.
        input_slot: u16,
        /// Slot of the result.
        output_slot: u16,
        /// Number of lanes.
        width: usize,
    },
    /// Load for a later iteration.
    SoftwarePipelineLoad,
    /// Keep a register.
    RegisterLock,
    /// A tile begins or ends.
    TileLoopBoundary,
    /// A micro kernel begins or ends.
    MicroKernelRegion,
    /// An index set is split.
    IndexSetSplit,
    /// Softmax over tiles.
    OnlineSoftmaxReduction {
        /// Slot of the running maximum.
        running_max: u16,
        /// Slot of the running sum.
        running_sum: u16,
        /// Slot of the accumulator.
        accumulator: u16,
        /// Number of elements in a tile.
        block_size: usize,
    },
    /// Convert between element types.
    PrecisionConvert {
        /// Slot to read.
        src_slot: u16,
        /// Slot to write.
        dst_slot: u16,
        /// Type to convert from.
        src_type: FfiElementType,
        /// Type to convert to.
        dst_type: FfiElementType,
    },
    /// Swap two buffers.
    DoubleBufferSwap {
        /// First buffer.
        buffer_a: u16,
        /// Second buffer.
        buffer_b: u16,
    },
    /// Fetch ahead.
    AsyncPrefetch {
        /// The slot.
        slot: u16,
        /// How far ahead.
        distance: usize,
    },
    /// Add a gradient.
    AdjointAccumulate {
        /// Slot of the value.
        forward_slot: u16,
        /// Slot of its gradient.
        adjoint_slot: u16,
        /// Operator that accumulates.
        op: BinOpKind,
    },
    /// A branch with a known probability.
    StochasticBranchHint {
        /// Slot of the condition.
        slot: u16,
        /// Probability that it is taken, in parts of 255.
        taken: u8,
    },
    /// Any other hint.
    Other,
}

impl SimdHintKind {
    /// The byte that stands for the kind of this hint.
    #[verifier::allow_in_spec]
    pub fn kind_byte(&self) -> (r: u8)
        returns
            (match self {
                SimdHintKind::VectorPack { .. } => 1u8,
                SimdHintKind::MatrixOuterProduct => 2,
                SimdHintKind::ForceRegisterLock { .. } => 3,
                SimdHintKind::ForceRegisterUnlock { .. } => 4,
                SimdHintKind::TranscendentalVectorize { .. } => 5,
                SimdHintKind::SoftwarePipelineLoad => 6,
                SimdHintKind::RegisterLock => 7,
                SimdHintKind::TileLoopBoundary => 8,
                SimdHintKind::MicroKernelRegion => 9,
                SimdHintKind::IndexSetSplit => 10,
                SimdHintKind::OnlineSoftmaxReduction { .. } => 11,
                SimdHintKind::PrecisionConvert { .. } => 12,
                SimdHintKind::DoubleBufferSwap { .. } => 13,
                SimdHintKind::AsyncPrefetch { .. } => 14,
                SimdHintKind::AdjointAccumulate { .. } => 15,
                SimdHintKind::StochasticBranchHint { .. } => 16,
                SimdHintKind::Other => 0,
            }),
    {
        match self {
            SimdHintKind::VectorPack { .. } => 1,
            SimdHintKind::MatrixOuterProduct => 2,
            SimdHintKind::ForceRegisterLock { .. } => 3,
            SimdHintKind::ForceRegisterUnlock { .. } => 4,
            SimdHintKind::TranscendentalVectorize { .. } => 5,
            SimdHintKind::SoftwarePipelineLoad => 6,
            SimdHintKind::RegisterLock => 7,
            SimdHintKind::TileLoopBoundary => 8,
            SimdHintKind::MicroKernelRegion => 9,
            SimdHintKind::IndexSetSplit => 10,
            SimdHintKind::OnlineSoftmaxReduction { .. } => 11,
            SimdHintKind::PrecisionConvert { .. } => 12,
            SimdHintKind::DoubleBufferSwap { .. } => 13,
            SimdHintKind::AsyncPrefetch { .. } => 14,
            SimdHintKind::AdjointAccumulate { .. } => 15,
            SimdHintKind::StochasticBranchHint { .. } => 16,
            SimdHintKind::Other => 0,
        }
    }
}

/// Low byte of a number.
pub open spec fn low(x: int) -> u8 {
    (x % 256) as u8
}

/// Second byte of a number.
pub open spec fn high(x: int) -> u8 {
    (x / 256 % 256) as u8
}

/// The bytes that follow the kind of a hint: slots with their low byte first, then what else
/// the kind tells.
pub open spec fn slot_bytes(hint: SimdHintKind) -> Seq<u8> {
    match hint {
        SimdHintKind::ForceRegisterLock { slot, physical_reg } => seq![
            low(slot as int),
            high(slot as int),
            physical_reg,
            0,
            0,
            0,
        ],
        SimdHintKind::ForceRegisterUnlock { slot } => seq![
            low(slot as int),
            high(slot as int),
            0,
            0,
            0,
            0,
        ],
        SimdHintKind::VectorPack { op, width, src1_base, src2_base, dst_base } => seq![
            low(dst_base as int),
            high(dst_base as int),
            low(src1_base as int),
            low(width as int),
            0,
            0,
        ],
        SimdHintKind::AdjointAccumulate { forward_slot, adjoint_slot, op } => seq![
            low(forward_slot as int),
            high(forward_slot as int),
            low(adjoint_slot as int),
            high(adjoint_slot as int),
            0,
            0,
        ],
        SimdHintKind::DoubleBufferSwap { buffer_a, buffer_b } => seq![
            low(buffer_a as int),
            high(buffer_a as int),
            low(buffer_b as int),
            high(buffer_b as int),
            0,
            0,
        ],
        SimdHintKind::AsyncPrefetch { slot, distance } => seq![
            low(slot as int),
            high(slot as int),
            low(distance as int),
            high(distance as int),
            0,
            0,
        ],
        SimdHintKind::StochasticBranchHint { slot, taken } => seq![
            low(slot as int),
            high(slot as int),
            taken,
            0,
            0,
            0,
        ],
        _ => seq![0, 0, 0, 0, 0, 0],
    }
}

fn low_byte(x: usize) -> (r: u8)
    ensures
        r == low(x as int),
{
    (x % 256) as u8
}

fn high_byte(x: usize) -> (r: u8)
    ensures
        r == high(x as int),
{
    (x / 256 % 256) as u8
}

/// The six bytes that follow the kind of a hint.
pub fn hint_to_slot_bytes(hint: &SimdHintKind) -> (r: [u8; 6])
    ensures
        r@ == slot_bytes(*hint),
{
    let r: [u8; 6] = match *hint {
        SimdHintKind::ForceRegisterLock { slot, physical_reg } => [
            low_byte(slot as usize),
            high_byte(slot as usize),
            physical_reg,
            0,
            0,
            0,
        ],
        SimdHintKind::ForceRegisterUnlock { slot } => [
            low_byte(slot as usize),
            high_byte(slot as usize),
            0,
            0,
            0,
            0,
        ],
        SimdHintKind::VectorPack { op: _, width, src1_base, src2_base: _, dst_base } => [
            low_byte(dst_base as usize),
            high_byte(dst_base as usize),
            low_byte(src1_base as usize),
            low_byte(width),
            0,
            0,
        ],
        SimdHintKind::AdjointAccumulate { forward_slot, adjoint_slot, op: _ } => [
            low_byte(forward_slot as usize),
            high_byte(forward_slot as usize),
            low_byte(adjoint_slot as usize),
            high_byte(adjoint_slot as usize),
            0,
            0,
        ],
        SimdHintKind::DoubleBufferSwap { buffer_a, buffer_b } => [
            low_byte(buffer_a as usize),
            high_byte(buffer_a as usize),
            low_byte(buffer_b as usize),
            high_byte(buffer_b as usize),
            0,
            0,
        ],
        SimdHintKind::AsyncPrefetch { slot, distance } => [
            low_byte(slot as usize),
            high_byte(slot as usize),
            low_byte(distance),
            high_byte(distance),
            0,
            0,
        ],
        SimdHintKind::StochasticBranchHint { slot, taken } => [
            low_byte(slot as usize),
            high_byte(slot as usize),
            taken,
            0,
            0,
            0,
        ],
        _ => [0, 0, 0, 0, 0, 0],
    };
    assert(r@ =~= slot_bytes(*hint));
    r
}

/// A hint with the place of the instruction that it is for.
pub type PlacedHint = (usize, SimdHintKind);

/// The bytes of the first `k` hints: for each its kind and the six bytes that follow.
pub open spec fn hints_bytes(hints: Seq<PlacedHint>, k: nat) -> Seq<u8>
    decreases k,
{
    if k == 0 {
        Seq::empty()
    } else {
        hints_bytes(hints, (k - 1) as nat).push(hints[k - 1].1.kind_byte()) + slot_bytes(
            hints[k - 1].1,
        )
    }
}

/// The bytes of a list of hints.
pub fn serialize_hints(hints: &Vec<PlacedHint>) -> (r: Vec<u8>)
    ensures
        r@ == hints_bytes(hints@, hints@.len()),
{
    let mut out: Vec<u8> = Vec::new();
    let mut k: usize = 0;
    while k < hints.len()
        invariant
            k <= hints@.len(),
            out@ == hints_bytes(hints@, k as nat),
        decreases hints.len() - k,
    {
        let hint: SimdHintKind = hints[k].1;
        out.push(hint.kind_byte());
        let ghost head = out@;
        let bytes: [u8; 6] = hint_to_slot_bytes(&hint);
        let mut j: usize = 0;
        while j < 6
            invariant
                j <= 6,
                bytes@.len() == 6,
                out@ == head + bytes@.take(j as int),
            decreases 6 - j,
        {
            out.push(bytes[j]);
            j += 1;
            assert(out@ =~= head + bytes@.take(j as int));
        }
        assert(bytes@.take(6) =~= bytes@);
        k += 1;
    }
    out
}

/// Each hint takes seven bytes.
pub proof fn hint_size(hints: Seq<PlacedHint>, k: nat)
    requires
        k <= hints.len(),
    ensures
        hints_bytes(hints, k).len() == 7 * k,
    decreases k,
{
    if k > 0 {
        hint_size(hints, (k - 1) as nat);
    }
}

/// The low and the high byte of a slot give the slot back.
pub proof fn slot_bytes_round_trip(slot: u16)
    ensures
        low(slot as int) + 256 * high(slot as int) == slot,
{
}

/// Whether `v` has a hint for place `pc` among the first `k`.
pub open spec fn has_place(v: Seq<PlacedHint>, pc: usize, k: int) -> bool {
    exists|i: int| 0 <= i < k && (#[trigger] v[i]).0 == pc
}

/// Whether the hints stand in strictly ascending order of their places.
pub open spec fn ascending(v: Seq<PlacedHint>) -> bool {
    forall|i: int, j: int| 0 <= i < j < v.len() ==> v[i].0 < v[j].0
}

/// Whether `h` is the first hint of `v` for its place, among the first `k`.
pub open spec fn is_first(v: Seq<PlacedHint>, h: PlacedHint, k: int) -> bool {
    exists|i: int| 0 <= i < k && #[trigger] v[i] == h && !has_place(v, h.0, i)
}

/// Whether `out` lists for each place among the first `k` hints of `v` the first hint for it, in
/// ascending order of the places.
pub open spec fn is_tidy(out: Seq<PlacedHint>, v: Seq<PlacedHint>, k: int) -> bool {
    &&& ascending(out)
    &&& forall|i: int| 0 <= i < out.len() ==> is_first(v, #[trigger] out[i], k)
    &&& forall|pc: usize| #[trigger]
        has_place(v, pc, k) ==> has_place(out, pc, out.len() as int)
}

/// Sorts hints by their places and keeps one for each place: the one that came first.
pub fn sort_and_dedup(hints: &Vec<PlacedHint>) -> (r: Vec<PlacedHint>)
    ensures
        is_tidy(r@, hints@, hints@.len() as int),
{
    let ghost v = hints@;
    let mut out: Vec<PlacedHint> = Vec::new();
    let mut k: usize = 0;
    while k < hints.len()
        invariant
            v == hints@,
            k <= v.len(),
            is_tidy(out@, v, k as int),
        decreases hints.len() - k,
    {
        let h: PlacedHint = hints[k];
        let ghost before = out@;
        let mut p: usize = 0;
        while p < out.len() && out[p].0 < h.0
            invariant
                p <= out@.len(),
                out@ == before,
                forall|i: int| 0 <= i < p ==> (#[trigger] out@[i]).0 < h.0,
            decreases out.len() - p,
        {
            p += 1;
        }
        if p < out.len() && out[p].0 == h.0 {
            proof {
                lemma_tidy_skip(before, v, k as int, p as int);
            }
        } else {
            out.insert(p, h);
            proof {
                assert(p < before.len() ==> before[p as int].0 > h.0);
                lemma_tidy_insert(before, v, k as int, p as int);
            }
        }
        k += 1;
    }
    out
}

proof fn lemma_first_grows(v: Seq<PlacedHint>, h: PlacedHint, k: int)
    requires
        is_first(v, h, k),
    ensures
        is_first(v, h, k + 1),
{
    let i = choose|i: int| 0 <= i < k && #[trigger] v[i] == h && !has_place(v, h.0, i);
    assert(v[i] == h);
}

proof fn lemma_tidy_skip(out: Seq<PlacedHint>, v: Seq<PlacedHint>, k: int, p: int)
    requires
        0 <= k < v.len(),
        is_tidy(out, v, k),
        0 <= p < out.len(),
        out[p].0 == v[k].0,
    ensures
        is_tidy(out, v, k + 1),
{
    assert forall|i: int| 0 <= i < out.len() implies is_first(v, #[trigger] out[i], k + 1) by {
        lemma_first_grows(v, out[i], k);
    }
    assert forall|pc: usize| #[trigger] has_place(v, pc, k + 1) implies has_place(
        out,
        pc,
        out.len() as int,
    ) by {
        let i = choose|i: int| 0 <= i < k + 1 && (#[trigger] v[i]).0 == pc;
        if i == k {
            assert(out[p].0 == pc);
        } else {
            assert(has_place(v, pc, k));
        }
    }
}

proof fn lemma_tidy_insert(out: Seq<PlacedHint>, v: Seq<PlacedHint>, k: int, p: int)
    requires
        0 <= k < v.len(),
        is_tidy(out, v, k),
        0 <= p <= out.len(),
        forall|i: int| 0 <= i < p ==> (#[trigger] out[i]).0 < v[k].0,
        p < out.len() ==> out[p].0 > v[k].0,
    ensures
        is_tidy(out.insert(p, v[k]), v, k + 1),
{
    let h = v[k];
    let after = out.insert(p, h);
    assert forall|i: int, j: int| 0 <= i < j < after.len() implies after[i].0 < after[j].0 by {
        if i < p && j > p {
            assert(out[i].0 < out[j - 1].0);
        } else if i == p {
            assert(p < j - 1 ==> out[p].0 < out[j - 1].0);
        } else if i > p {
            assert(out[i - 1].0 < out[j - 1].0);
        } else if j < p {
            assert(out[i].0 < out[j].0);
        }
    }
    assert(!has_place(v, h.0, k)) by {
        if has_place(v, h.0, k) {
            assert(has_place(out, h.0, out.len() as int));
            let q = choose|q: int| 0 <= q < out.len() && (#[trigger] out[q]).0 == h.0;
            if q > p {
                assert(out[p].0 < out[q].0);
            }
        }
    }
    assert forall|i: int| 0 <= i < after.len() implies is_first(v, #[trigger] after[i], k + 1) by {
        if i < p {
            lemma_first_grows(v, out[i], k);
        } else if i > p {
            lemma_first_grows(v, out[i - 1], k);
        } else {
            assert(v[k] == after[i]);
        }
    }
    assert forall|pc: usize| #[trigger] has_place(v, pc, k + 1) implies has_place(
        after,
        pc,
        after.len() as int,
    ) by {
        let i = choose|i: int| 0 <= i < k + 1 && (#[trigger] v[i]).0 == pc;
        if i == k {
            assert(after[p].0 == pc);
        } else {
            assert(has_place(v, pc, k));
            let q = choose|q: int| 0 <= q < out.len() && (#[trigger] out[q]).0 == pc;
            if q < p {
                assert(after[q].0 == pc);
            } else {
                assert(after[q + 1].0 == pc);
            }
        }
    }
}

/// The tidy form of a list of hints is unique.
pub proof fn tidy_is_unique(a: Seq<PlacedHint>, b: Seq<PlacedHint>, v: Seq<PlacedHint>)
    requires
        is_tidy(a, v, v.len() as int),
        is_tidy(b, v, v.len() as int),
    ensures
        a == b,
{
    lemma_tidy_prefix(a, b, v, a.len() as int);
    lemma_tidy_prefix(b, a, v, b.len() as int);
    assert(a =~= b);
}

proof fn lemma_tidy_prefix(a: Seq<PlacedHint>, b: Seq<PlacedHint>, v: Seq<PlacedHint>, n: int)
    requires
        is_tidy(a, v, v.len() as int),
        is_tidy(b, v, v.len() as int),
        0 <= n <= a.len(),
    ensures
        n <= b.len(),
        forall|i: int| 0 <= i < n ==> a[i] == b[i],
    decreases n,
{
    if n > 0 {
        lemma_tidy_prefix(a, b, v, n - 1);
        let m = n - 1;
        let q = lemma_tidy_find(a, b, v, m);
        if q < m {
            assert(a[q].0 < a[m].0);
        } else if q > m {
            let r = lemma_tidy_find(b, a, v, m);
            if r < m {
                assert(b[r].0 < b[m].0);
            } else if r > m {
                assert(a[m].0 < a[r].0);
                assert(b[m].0 < b[q].0);
            }
        }
    }
}

/// A hint of one tidy form stands somewhere in the other.
proof fn lemma_tidy_find(a: Seq<PlacedHint>, b: Seq<PlacedHint>, v: Seq<PlacedHint>, m: int) -> (q:
    int)
    requires
        is_tidy(a, v, v.len() as int),
        is_tidy(b, v, v.len() as int),
        0 <= m < a.len(),
    ensures
        0 <= q < b.len(),
        b[q] == a[m],
{
    let n = v.len() as int;
    assert(is_first(v, a[m], n));
    let i = choose|i: int| 0 <= i < n && #[trigger] v[i] == a[m] && !has_place(v, a[m].0, i);
    assert(has_place(v, a[m].0, n)) by {
        assert(v[i].0 == a[m].0);
    }
    assert(has_place(b, a[m].0, b.len() as int));
    let q = choose|q: int| 0 <= q < b.len() && (#[trigger] b[q]).0 == a[m].0;
    assert(is_first(v, b[q], n));
    let j = choose|j: int| 0 <= j < n && #[trigger] v[j] == b[q] && !has_place(v, b[q].0, j);
    if i < j {
        assert(v[i].0 == b[q].0);
    } else if j < i {
        assert(v[j].0 == a[m].0);
    }
    q
}

} // verus!
