//! What the stages of the optimizer make of a block, said of the block that comes out.

use vstd::prelude::*;
use crate::types::{BinOpKind, Instr};
use super::config::{
    build_profile_for_target, detect_simd_level_internal, parse_domain, parse_element_type,
    parse_target, CpuFeatures, FfiElementType, FfiHardwareTarget, FfiMathDomain, FfiPolyConfig,
    FfiSimdLevel,
};
use super::hints::{PlacedHint, SimdHintKind};
use super::pipeline::{
    Adjoint, BlockView, FfiPolyResult, FlashAttention, MicroKernelConfig, StageResults,
    TranscendentalFusion,
};

verus! {

/// Where transcendental functions were found and their fusion is enabled, the instructions of the
/// resulting block are exactly those that the fusion made, provided that no later stage adds any.
/// Each function that was found has its hint at the last of these instructions.
pub proof fn fused_instructions_are_the_block(
    c: FfiPolyConfig,
    k: MicroKernelConfig,
    base: BlockView,
    s: StageResults,
    f: TranscendentalFusion,
    r: BlockView,
    i: int,
)
    requires
        c.enable_transcendental_fusion,
        s.fusion == Some(f),
        f.found@.len() > 0,
        !c.enable_mixed_precision || (parse_element_type(c.compute_type) != FfiElementType::INT8
            && parse_element_type(c.compute_type) != FfiElementType::BF16),
        !c.enable_ad || s.adjoint is None,
        0 <= i < f.found@.len(),
        super::pipeline::is_tidied(r, super::pipeline::staged(c, k, base, s)),
    ensures
        r.instrs == f.fused@,
        super::pipeline::staged(c, k, base, s).hints.contains(
            (
                if f.fused@.len() == 0 {
                    0usize
                } else {
                    (f.fused@.len() - 1) as usize
                },
                SimdHintKind::TranscendentalVectorize {
                    kind: f.found@[i].kind,
                    input_slot: f.found@[i].input_slot,
                    output_slot: f.found@[i].output_slot,
                    width: f.found@[i].vector_width,
                },
            ),
        ),
{
    instructions_of_the_block(c, k, base, s, r);
    assert(r.instrs =~= f.fused@);
    lemma_hints_stay(c, k, base, s);
    let b1 = after_flash(c, base, s);
    let b2 = after_fusion(c, base, s);
    let all = super::pipeline::transcendental_hints(
        f.found@,
        super::pipeline::last_place(f.fused@.len()),
    );
    assert(b2.hints[b1.hints.len() + i] == all[i]);
    assert(super::pipeline::staged(c, k, base, s).hints[b1.hints.len() + i] == all[i]);
}

spec fn after_flash(c: FfiPolyConfig, base: BlockView, s: StageResults) -> BlockView {
    match s.flash {
        Some(f) if c.enable_flash_attention => super::pipeline::with_flash(base, f),
        _ => base,
    }
}

spec fn after_fusion(c: FfiPolyConfig, base: BlockView, s: StageResults) -> BlockView {
    match s.fusion {
        Some(f) if c.enable_transcendental_fusion => super::pipeline::with_fusion(
            after_flash(c, base, s),
            f,
        ),
        _ => after_flash(c, base, s),
    }
}

spec fn after_precision(c: FfiPolyConfig, base: BlockView, s: StageResults) -> BlockView {
    if c.enable_mixed_precision {
        super::pipeline::with_precision(
            after_fusion(c, base, s),
            parse_element_type(c.compute_type),
            s.precision,
        )
    } else {
        after_fusion(c, base, s)
    }
}

spec fn after_buffering(
    c: FfiPolyConfig,
    k: MicroKernelConfig,
    base: BlockView,
    s: StageResults,
) -> BlockView {
    if c.enable_double_buffering && k.double_buffer_count >= 2 {
        super::pipeline::with_double_buffer(after_precision(c, base, s), k)
    } else {
        after_precision(c, base, s)
    }
}

/// Whether one list of hints begins with another.
spec fn begins_with(v: Seq<PlacedHint>, head: Seq<PlacedHint>) -> bool {
    head.len() <= v.len() && forall|i: int| 0 <= i < head.len() ==> #[trigger] v[i] == head[i]
}

proof fn lemma_hints_stay(c: FfiPolyConfig, k: MicroKernelConfig, base: BlockView, s: StageResults)
    ensures
        begins_with(after_flash(c, base, s).hints, base.hints),
        begins_with(after_fusion(c, base, s).hints, after_flash(c, base, s).hints),
        begins_with(after_precision(c, base, s).hints, after_fusion(c, base, s).hints),
        begins_with(after_buffering(c, k, base, s).hints, after_precision(c, base, s).hints),
        begins_with(
            super::pipeline::staged(c, k, base, s).hints,
            after_buffering(c, k, base, s).hints,
        ),
        begins_with(super::pipeline::staged(c, k, base, s).hints, after_precision(c, base, s).hints),
        begins_with(super::pipeline::staged(c, k, base, s).hints, after_fusion(c, base, s).hints),
        begins_with(super::pipeline::staged(c, k, base, s).hints, after_flash(c, base, s).hints),
        begins_with(super::pipeline::staged(c, k, base, s).hints, base.hints),
{
    let end = super::pipeline::staged(c, k, base, s).hints;
    let h4 = after_buffering(c, k, base, s).hints;
    let h3 = after_precision(c, base, s).hints;
    let h2 = after_fusion(c, base, s).hints;
    let h1 = after_flash(c, base, s).hints;
    assert(begins_with(h1, base.hints));
    assert(begins_with(h2, h1));
    assert(begins_with(h3, h2));
    assert(begins_with(h4, h3));
    assert(begins_with(end, h4));
    assert(begins_with(end, h3)) by {
        assert forall|i: int| 0 <= i < h3.len() implies #[trigger] end[i] == h3[i] by {
            assert(h4[i] == h3[i]);
        }
    }
    assert(begins_with(end, h2)) by {
        assert forall|i: int| 0 <= i < h2.len() implies #[trigger] end[i] == h2[i] by {
            assert(h3[i] == h2[i]);
        }
    }
    assert(begins_with(end, h1)) by {
        assert forall|i: int| 0 <= i < h1.len() implies #[trigger] end[i] == h1[i] by {
            assert(h2[i] == h1[i]);
        }
    }
    assert(begins_with(end, base.hints)) by {
        assert forall|i: int| 0 <= i < base.hints.len() implies #[trigger] end[i]
            == base.hints[i] by {
            assert(h1[i] == base.hints[i]);
        }
    }
}

/// The instructions of the block are, in this order: those that pack quantized values, where
/// precision is mixed on 8-bit integers or brain floats; those that the fusion of transcendental
/// functions made, where it found any, or else those of the block that came in with the tiles of
/// an attention behind them; and those of the gradient.
pub proof fn instructions_of_the_block(
    c: FfiPolyConfig,
    k: MicroKernelConfig,
    base: BlockView,
    s: StageResults,
    r: BlockView,
)
    requires
        super::pipeline::is_tidied(r, super::pipeline::staged(c, k, base, s)),
    ensures
        ({
            let t = parse_element_type(c.compute_type);
            let packed = c.enable_mixed_precision && (t == FfiElementType::INT8 || t
                == FfiElementType::BF16);
            let pack = if packed {
                s.precision.pack@
            } else {
                Seq::empty()
            };
            let tiles = match s.flash {
                Some(f) if c.enable_flash_attention => f.tiles@,
                _ => Seq::<Instr>::empty(),
            };
            let middle = match s.fusion {
                Some(f) if c.enable_transcendental_fusion && f.found@.len() > 0 => f.fused@,
                _ => base.instrs + tiles,
            };
            let gradient = match s.adjoint {
                Some(a) if c.enable_ad => a.instrs@,
                _ => Seq::<Instr>::empty(),
            };
            r.instrs == pack + middle + gradient
        }),
{
    let t = parse_element_type(c.compute_type);
    let packed = c.enable_mixed_precision && (t == FfiElementType::INT8 || t
        == FfiElementType::BF16);
    let pack = if packed {
        s.precision.pack@
    } else {
        Seq::empty()
    };
    let tiles = match s.flash {
        Some(f) if c.enable_flash_attention => f.tiles@,
        _ => Seq::<Instr>::empty(),
    };
    let middle = match s.fusion {
        Some(f) if c.enable_transcendental_fusion && f.found@.len() > 0 => f.fused@,
        _ => base.instrs + tiles,
    };
    let gradient = match s.adjoint {
        Some(a) if c.enable_ad => a.instrs@,
        _ => Seq::<Instr>::empty(),
    };
    assert(after_flash(c, base, s).instrs =~= base.instrs + tiles);
    assert(after_fusion(c, base, s).instrs =~= middle);
    assert(after_precision(c, base, s).instrs =~= pack + middle);
    assert(after_buffering(c, k, base, s).instrs =~= pack + middle);
    assert(r.instrs =~= pack + middle + gradient);
}

/// An attention that was found leaves a hint at the start that names its three slots and the size
/// of its tiles, where looking for attention is enabled.
pub proof fn attention_leaves_its_hint(
    c: FfiPolyConfig,
    k: MicroKernelConfig,
    base: BlockView,
    s: StageResults,
    f: FlashAttention,
)
    requires
        c.enable_flash_attention,
        s.flash == Some(f),
    ensures
        super::pipeline::staged(c, k, base, s).hints.contains(
            (
                0usize,
                SimdHintKind::OnlineSoftmaxReduction {
                    running_max: f.running_max_slot,
                    running_sum: f.running_sum_slot,
                    accumulator: f.accumulator_slot,
                    block_size: f.block_size,
                },
            ),
        ),
{
    lemma_hints_stay(c, k, base, s);
    let h1 = after_flash(c, base, s).hints;
    assert(super::pipeline::staged(c, k, base, s).hints[h1.len() - 1] == h1[h1.len() - 1]);
}

/// In mixed precision, a storage type other than the type that is computed in is converted to it
/// at the start, and an accumulator type other than it is converted to at the last instruction
/// before packing. Where the types are equal nothing is converted.
pub proof fn precision_is_converted(
    c: FfiPolyConfig,
    k: MicroKernelConfig,
    base: BlockView,
    s: StageResults,
)
    requires
        c.enable_mixed_precision,
    ensures
        ({
            let t = parse_element_type(c.compute_type);
            let end = super::pipeline::staged(c, k, base, s).hints;
            let calm = FfiPolyConfig { enable_mixed_precision: false, ..c };
            let n = match s.fusion {
                Some(f) if c.enable_transcendental_fusion && f.found@.len() > 0 => f.fused@.len(),
                _ => base.instrs.len() + match s.flash {
                    Some(f) if c.enable_flash_attention => f.tiles@.len(),
                    _ => 0,
                },
            };
            let last = if n == 0 {
                0usize
            } else {
                (n - 1) as usize
            };
            &&& s.precision.storage_type != t ==> end.contains(
                (
                    0usize,
                    SimdHintKind::PrecisionConvert {
                        src_slot: 0,
                        dst_slot: 0,
                        src_type: s.precision.storage_type,
                        dst_type: t,
                    },
                ),
            )
            &&& s.precision.accumulator_type != t ==> end.contains(
                (
                    last,
                    SimdHintKind::PrecisionConvert {
                        src_slot: 0,
                        dst_slot: 0,
                        src_type: t,
                        dst_type: s.precision.accumulator_type,
                    },
                ),
            )
            &&& s.precision.storage_type == t && s.precision.accumulator_type == t && (t
                != FfiElementType::INT8 && t != FfiElementType::BF16)
                ==> super::pipeline::staged(c, k, base, s) == super::pipeline::staged(
                calm,
                k,
                base,
                s,
            )
        }),
{
    lemma_hints_stay(c, k, base, s);
    let t = parse_element_type(c.compute_type);
    let end = super::pipeline::staged(c, k, base, s).hints;
    let h2 = after_fusion(c, base, s).hints;
    let h3 = after_precision(c, base, s).hints;
    if s.precision.storage_type != t {
        assert(end[h2.len() as int] == h3[h2.len() as int]);
    }
    if s.precision.accumulator_type != t {
        assert(end[h3.len() - 1] == h3[h3.len() - 1]);
    }
    let calm = FfiPolyConfig { enable_mixed_precision: false, ..c };
    if s.precision.storage_type == t && s.precision.accumulator_type == t && t
        != FfiElementType::INT8 && t != FfiElementType::BF16 {
        assert(after_precision(c, base, s) =~= after_precision(calm, base, s));
        assert(super::pipeline::staged(c, k, base, s) =~= super::pipeline::staged(calm, k, base, s));
    }
}

proof fn lemma_fetches(n: nat, tile: int, distance: usize)
    requires
        tile > 0,
        n <= usize::MAX,
    ensures
        forall|p: usize|
            p < n && p as int % tile == 0 ==> super::pipeline::prefetches(
                n,
                tile,
                distance,
            ).contains((p, #[trigger] fetch(p, distance))),
        forall|i: int|
            0 <= i < super::pipeline::prefetches(n, tile, distance).len() ==> {
                let h = #[trigger] super::pipeline::prefetches(n, tile, distance)[i];
                h.0 < n && h.0 as int % tile == 0 && h.1 == fetch(h.0, distance)
            },
    decreases n,
{
    if n > 0 {
        let m = (n - 1) as nat;
        lemma_fetches(m, tile, distance);
        let before = super::pipeline::prefetches(m, tile, distance);
        let all = super::pipeline::prefetches(n, tile, distance);
        assert forall|p: usize| p < n && p as int % tile == 0 implies all.contains(
            (p, #[trigger] fetch(p, distance)),
        ) by {
            if p < m {
                assert(before.contains((p, fetch(p, distance))));
                let i = choose|i: int|
                    0 <= i < before.len() && before[i] == (p, fetch(p, distance));
                assert(all[i] == before[i]);
            } else {
                assert(p == m);
                assert(all[all.len() - 1] == (p, fetch(p, distance)));
            }
        }
        assert forall|i: int| 0 <= i < all.len() implies {
            let h = #[trigger] all[i];
            h.0 < n && h.0 as int % tile == 0 && h.1 == fetch(h.0, distance)
        } by {
            if i < before.len() {
                assert(all[i] == before[i]);
            }
        }
    }
}

/// The hint that fetches ahead by a distance.
pub open spec fn fetch(place: usize, distance: usize) -> SimdHintKind {
    SimdHintKind::AsyncPrefetch { slot: 0, distance }
}

/// Doubled buffers leave one hint at the start that swaps the two buffers, and one at every place
/// that is a multiple of the tile height, and at no other, that fetches ahead by the distance of
/// the kernel; a height of zero counts as one.
pub proof fn buffers_are_swapped_and_fetched(
    c: FfiPolyConfig,
    k: MicroKernelConfig,
    base: BlockView,
    s: StageResults,
    place: usize,
)
    requires
        c.enable_double_buffering,
        k.double_buffer_count >= 2,
        super::pipeline::staged(c, k, base, s).instrs.len() <= usize::MAX,
    ensures
        ({
            let end = super::pipeline::staged(c, k, base, s).hints;
            let quiet = FfiPolyConfig { enable_double_buffering: false, enable_ad: false, ..c };
            let before = super::pipeline::staged(quiet, k, base, s);
            let tile = if k.tile_m == 0 {
                1int
            } else {
                k.tile_m as int
            };
            &&& end.contains((0usize, SimdHintKind::DoubleBufferSwap { buffer_a: 6000, buffer_b: 6001 }))
            &&& place < before.instrs.len() && place as int % tile == 0 ==> end.contains(
                (place, fetch(place, k.prefetch_distance)),
            )
            &&& !before.hints.contains((place, fetch(place, k.prefetch_distance))) && (place
                >= before.instrs.len() || place as int % tile != 0) ==> !end.contains(
                (place, fetch(place, k.prefetch_distance)),
            )
        }),
{
    lemma_hints_stay(c, k, base, s);
    let end = super::pipeline::staged(c, k, base, s).hints;
    let quiet = FfiPolyConfig { enable_double_buffering: false, enable_ad: false, ..c };
    let before = super::pipeline::staged(quiet, k, base, s);
    let h3 = after_precision(c, base, s);
    let h4 = after_buffering(c, k, base, s).hints;
    assert(before == h3);
    let tile = if k.tile_m == 0 {
        1int
    } else {
        k.tile_m as int
    };
    let n = h3.instrs.len();
    assert(n <= super::pipeline::staged(c, k, base, s).instrs.len());
    lemma_fetches(n, tile, k.prefetch_distance);
    let fetches = super::pipeline::prefetches(n, tile, k.prefetch_distance);
    let mark = h3.hints.len() as int;
    assert(end[mark] == h4[mark]);
    let wanted = (place, fetch(place, k.prefetch_distance));
    if place < n && place as int % tile == 0 {
        let i = choose|i: int| 0 <= i < fetches.len() && fetches[i] == wanted;
        assert(h4[mark + 1 + i] == fetches[i]);
        assert(end[mark + 1 + i] == h4[mark + 1 + i]);
    }
    if !before.hints.contains(wanted) && (place >= n || place as int % tile != 0) && end.contains(
        wanted,
    ) {
        let i = choose|i: int| 0 <= i < end.len() && end[i] == wanted;
        if i < mark {
            assert(end[i] == h4[i] && h4[i] == h3.hints[i]);
            assert(before.hints[i] == wanted);
        } else if i < h4.len() {
            assert(end[i] == h4[i]);
            if i > mark {
                assert(h4[i] == fetches[i - mark - 1]);
            }
        }
    }
}

/// A gradient links every slot to the slot of its gradient with a hint at the start that adds.
pub proof fn gradient_links_its_slots(
    c: FfiPolyConfig,
    k: MicroKernelConfig,
    base: BlockView,
    s: StageResults,
    a: Adjoint,
    i: int,
)
    requires
        c.enable_ad,
        s.adjoint == Some(a),
        0 <= i < a.slot_to_adjoint@.len(),
    ensures
        super::pipeline::staged(c, k, base, s).hints.contains(
            (
                0usize,
                SimdHintKind::AdjointAccumulate {
                    forward_slot: a.slot_to_adjoint@[i].0,
                    adjoint_slot: a.slot_to_adjoint@[i].1,
                    op: BinOpKind::Add,
                },
            ),
        ),
        super::pipeline::staged_specialized(
            c,
            k,
            base,
            s.precision.accumulator_type,
            Some(a),
        ).hints.contains(
            (
                0usize,
                SimdHintKind::AdjointAccumulate {
                    forward_slot: a.slot_to_adjoint@[i].0,
                    adjoint_slot: a.slot_to_adjoint@[i].1,
                    op: BinOpKind::Add,
                },
            ),
        ),
{
    let h4 = after_buffering(c, k, base, s).hints;
    let end = super::pipeline::staged(c, k, base, s).hints;
    let links = super::pipeline::adjoint_hints(a.slot_to_adjoint@);
    assert(end =~= h4 + links);
    assert(end[h4.len() + i] == links[i]);
    let m = s.precision.accumulator_type;
    let short = super::pipeline::staged_specialized(c, k, base, m, Some(a)).hints;
    let front = super::pipeline::staged_specialized(c, k, base, m, None).hints;
    assert(short =~= front + links);
    assert(short[front.len() + i] == links[i]);
}

/// No hint of the block that came in is lost before the hints are sorted, and they stay in front
/// in their order.
pub proof fn incoming_hints_stay_in_front(
    c: FfiPolyConfig,
    k: MicroKernelConfig,
    base: BlockView,
    s: StageResults,
    i: int,
)
    requires
        0 <= i < base.hints.len(),
    ensures
        super::pipeline::staged(c, k, base, s).hints[i] == base.hints[i],
        super::pipeline::staged_specialized(
            c,
            k,
            base,
            s.precision.accumulator_type,
            s.adjoint,
        ).hints[i] == base.hints[i],
{
    lemma_hints_stay(c, k, base, s);
}

/// The specialised optimizer leaves the instructions as they are but for those of a gradient,
/// which follow them. In mixed precision it converts to the accumulator type at the start, and
/// doubled buffers leave the hint that swaps them.
pub proof fn specialised_block(
    c: FfiPolyConfig,
    k: MicroKernelConfig,
    base: BlockView,
    accumulator: FfiElementType,
    adjoint: Option<Adjoint>,
    r: BlockView,
)
    requires
        super::pipeline::is_tidied(
            r,
            super::pipeline::staged_specialized(c, k, base, accumulator, adjoint),
        ),
    ensures
        r.instrs == base.instrs + match adjoint {
            Some(a) if c.enable_ad => a.instrs@,
            _ => Seq::<Instr>::empty(),
        },
        c.enable_mixed_precision && parse_element_type(c.compute_type) != accumulator
            ==> super::pipeline::staged_specialized(
            c,
            k,
            base,
            accumulator,
            adjoint,
        ).hints.contains(
            (
                0usize,
                SimdHintKind::PrecisionConvert {
                    src_slot: 0,
                    dst_slot: 0,
                    src_type: parse_element_type(c.compute_type),
                    dst_type: accumulator,
                },
            ),
        ),
        c.enable_double_buffering && k.double_buffer_count >= 2
            ==> super::pipeline::staged_specialized(
            c,
            k,
            base,
            accumulator,
            adjoint,
        ).hints.contains(
            (0usize, SimdHintKind::DoubleBufferSwap { buffer_a: 6000, buffer_b: 6001 }),
        ),
{
    let gradient = match adjoint {
        Some(a) if c.enable_ad => a.instrs@,
        _ => Seq::<Instr>::empty(),
    };
    assert(r.instrs =~= base.instrs + gradient);
    let end = super::pipeline::staged_specialized(c, k, base, accumulator, adjoint).hints;
    let n = base.hints.len() as int;
    let converts = c.enable_mixed_precision && parse_element_type(c.compute_type) != accumulator;
    if converts {
        assert(end[n].0 == 0);
        assert(end.contains(end[n]));
    }
    if c.enable_double_buffering && k.double_buffer_count >= 2 {
        let p = if converts {
            n + 1
        } else {
            n
        };
        assert(end[p] == super::pipeline::swap_hint());
    }
}

/// A result carries the sizes of its kernel, each in its own field, and the byte of the vector
/// instructions: 0 for none, then one more for each step from SSE2 over AVX and AVX2 with fused
/// multiply-add to AVX-512.
pub proof fn result_carries_the_sizes(
    r: FfiPolyResult,
    k: MicroKernelConfig,
    level: FfiSimdLevel,
)
    requires
        super::pipeline::has_sizes(r, k, level),
    ensures
        r.tile_m == k.tile_m,
        r.tile_n == k.tile_n,
        r.tile_k == k.tile_k,
        r.accumulator_registers == k.accumulator_registers,
        r.prefetch_distance == k.prefetch_distance,
        r.simd_level == 0 <==> level == FfiSimdLevel::NoSimd,
        r.simd_level == 1 <==> level == FfiSimdLevel::SSE2,
        r.simd_level == 2 <==> level == FfiSimdLevel::AVX,
        r.simd_level == 3 <==> level == FfiSimdLevel::AVX2FMA,
        r.simd_level == 4 <==> level == FfiSimdLevel::AVX512,
{
}

/// The bytes that link slots to gradients can be read back: six for each link, the kind of the
/// hint first, then both slots with their low byte first, then zero.
pub proof fn links_can_be_read_back(v: Seq<(u16, u16)>, k: nat, i: int)
    requires
        k <= v.len(),
        0 <= i < k,
    ensures
        super::pipeline::adjoint_bytes(v, k).len() == 6 * k,
        ({
            let b = super::pipeline::adjoint_bytes(v, k);
            &&& b[6 * i] == 15
            &&& b[6 * i + 1] + 256 * b[6 * i + 2] == v[i].0
            &&& b[6 * i + 3] + 256 * b[6 * i + 4] == v[i].1
            &&& b[6 * i + 5] == 0
        }),
    decreases k,
{
    let m = (k - 1) as nat;
    lemma_link_length(v, m);
    if i < k - 1 {
        links_can_be_read_back(v, m, i);
    }
}

proof fn lemma_link_length(v: Seq<(u16, u16)>, k: nat)
    ensures
        super::pipeline::adjoint_bytes(v, k).len() == 6 * k,
    decreases k,
{
    if k > 0 {
        lemma_link_length(v, (k - 1) as nat);
    }
}

/// The hint at a place of the serialized list begins at seven times that place, with the byte of
/// its kind, and its slots can be read back from the bytes behind it.
pub proof fn hints_can_be_read_back(hints: Seq<PlacedHint>, k: nat, i: int)
    requires
        k <= hints.len(),
        0 <= i < k,
    ensures
        ({
            let b = super::hints::hints_bytes(hints, k);
            let word = |p: int| b[7 * i + p] + 256 * b[7 * i + p + 1];
            &&& b[7 * i] == hints[i].1.kind_byte()
            &&& match hints[i].1 {
                SimdHintKind::ForceRegisterLock { slot, physical_reg } => word(1) == slot && b[7 * i
                    + 3] == physical_reg,
                SimdHintKind::ForceRegisterUnlock { slot } => word(1) == slot,
                SimdHintKind::VectorPack { op, width, src1_base, src2_base, dst_base } => word(1)
                    == dst_base && (src1_base < 256 ==> b[7 * i + 3] == src1_base) && (width < 256
                    ==> b[7 * i + 4] == width),
                SimdHintKind::AdjointAccumulate { forward_slot, adjoint_slot, op } => word(1)
                    == forward_slot && word(3) == adjoint_slot,
                SimdHintKind::DoubleBufferSwap { buffer_a, buffer_b } => word(1) == buffer_a
                    && word(3) == buffer_b,
                SimdHintKind::AsyncPrefetch { slot, distance } => word(1) == slot && (distance
                    < 65536 ==> word(3) == distance),
                SimdHintKind::StochasticBranchHint { slot, taken } => word(1) == slot && b[7 * i
                    + 3] == taken,
                _ => forall|p: int| 1 <= p <= 6 ==> #[trigger] b[7 * i + p] == 0,
            }
        }),
    decreases k,
{
    let m = (k - 1) as nat;
    super::hints::hint_size(hints, m);
    let head = super::hints::hints_bytes(hints, m);
    let b = super::hints::hints_bytes(hints, k);
    if i < k - 1 {
        hints_can_be_read_back(hints, m, i);
        assert forall|q: int| 0 <= q < 7 * m implies b[q] == head[q] by {}
        assert forall|p: int| 1 <= p <= 6 implies #[trigger] b[7 * i + p] == head[7 * i + p] by {}
        assert(b[7 * i] == head[7 * i]);
    } else {
        let tail = super::hints::slot_bytes(hints[i].1);
        assert forall|p: int| 1 <= p <= 6 implies #[trigger] b[7 * i + p] == tail[p - 1] by {}
        assert(b[7 * i] == hints[i].1.kind_byte());
        assert(b[7 * i + 1] == tail[0] && b[7 * i + 2] == tail[1] && b[7 * i + 3] == tail[2] && b[7
            * i + 4] == tail[3]);
    }
}

/// The bytes that a hint has no use for are zero: the last two of every hint, the one before them
/// where there is one slot and at most one byte beside it, and the one before that where there is
/// nothing beside the slot.
pub proof fn unused_bytes_are_zero(hints: Seq<PlacedHint>, k: nat, i: int)
    requires
        k <= hints.len(),
        0 <= i < k,
    ensures
        ({
            let b = super::hints::hints_bytes(hints, k);
            let h = hints[i].1;
            &&& b[7 * i + 5] == 0
            &&& b[7 * i + 6] == 0
            &&& h is ForceRegisterLock || h is ForceRegisterUnlock || h is StochasticBranchHint
                ==> b[7 * i + 4] == 0
            &&& h is ForceRegisterUnlock ==> b[7 * i + 3] == 0
        }),
    decreases k,
{
    let m = (k - 1) as nat;
    super::hints::hint_size(hints, m);
    let head = super::hints::hints_bytes(hints, m);
    let b = super::hints::hints_bytes(hints, k);
    if i < k - 1 {
        unused_bytes_are_zero(hints, m, i);
        assert forall|p: int| 1 <= p <= 6 implies #[trigger] b[7 * i + p] == head[7 * i + p] by {}
    } else {
        let tail = super::hints::slot_bytes(hints[i].1);
        assert forall|p: int| 1 <= p <= 6 implies #[trigger] b[7 * i + p] == tail[p - 1] by {}
        assert(b[7 * i + 3] == tail[2] && b[7 * i + 4] == tail[3] && b[7 * i + 5] == tail[4] && b[7
            * i + 6] == tail[5]);
    }
}

/// Every kind of hint has a byte of its own: the kinds are numbered from one in the order of
/// their declaration, and any other hint is zero.
pub proof fn hint_kinds_have_their_bytes(h: SimdHintKind)
    ensures
        h.kind_byte() == 1 <==> h is VectorPack,
        h.kind_byte() == 2 <==> h is MatrixOuterProduct,
        h.kind_byte() == 3 <==> h is ForceRegisterLock,
        h.kind_byte() == 4 <==> h is ForceRegisterUnlock,
        h.kind_byte() == 5 <==> h is TranscendentalVectorize,
        h.kind_byte() == 6 <==> h is SoftwarePipelineLoad,
        h.kind_byte() == 7 <==> h is RegisterLock,
        h.kind_byte() == 8 <==> h is TileLoopBoundary,
        h.kind_byte() == 9 <==> h is MicroKernelRegion,
        h.kind_byte() == 10 <==> h is IndexSetSplit,
        h.kind_byte() == 11 <==> h is OnlineSoftmaxReduction,
        h.kind_byte() == 12 <==> h is PrecisionConvert,
        h.kind_byte() == 13 <==> h is DoubleBufferSwap,
        h.kind_byte() == 14 <==> h is AsyncPrefetch,
        h.kind_byte() == 15 <==> h is AdjointAccumulate,
        h.kind_byte() == 16 <==> h is StochasticBranchHint,
        h.kind_byte() == 0 <==> h is Other,
{
}

/// Of the hints for one place the first stays, those of different places stand in ascending
/// order, and nothing else is in the sorted list.
pub proof fn first_hint_of_a_place_stays(out: Seq<PlacedHint>, v: Seq<PlacedHint>, i: int)
    requires
        super::hints::is_tidy(out, v, v.len() as int),
        0 <= i < v.len(),
    ensures
        (forall|j: int| 0 <= j < i ==> (#[trigger] v[j]).0 != v[i].0) ==> out.contains(v[i]),
        forall|p: int|
            0 <= p < out.len() ==> exists|j: int|
                0 <= j < v.len() && #[trigger] v[j] == #[trigger] out[p] && forall|q: int|
                    0 <= q < j ==> (#[trigger] v[q]).0 != v[j].0,
        forall|p: int, q: int| 0 <= p < q < out.len() ==> (#[trigger] out[p]).0 < (#[trigger] out[q]).0,
{
    let n = v.len() as int;
    if forall|j: int| 0 <= j < i ==> (#[trigger] v[j]).0 != v[i].0 {
        assert(super::hints::has_place(v, v[i].0, n));
        let p = choose|p: int| 0 <= p < out.len() && (#[trigger] out[p]).0 == v[i].0;
        assert(super::hints::is_first(v, out[p], n));
        let j = choose|j: int|
            0 <= j < n && #[trigger] v[j] == out[p] && !super::hints::has_place(v, out[p].0, j);
        if i < j {
            assert(v[i].0 == out[p].0);
        }
        assert(out[p] == v[i]);
    }
    assert forall|p: int| 0 <= p < out.len() implies exists|j: int|
        0 <= j < v.len() && #[trigger] v[j] == #[trigger] out[p] && forall|q: int|
            0 <= q < j ==> (#[trigger] v[q]).0 != v[j].0 by {
        assert(super::hints::is_first(v, out[p], n));
        let j = choose|j: int|
            0 <= j < n && #[trigger] v[j] == out[p] && !super::hints::has_place(v, out[p].0, j);
        assert(v[j] == out[p]);
    }
}

/// The level of vector instructions is that of the widest set whose needs are met: AVX-512 needs
/// AVX2 beside it, and so does fused multiply-add.
pub proof fn simd_level_exactly(cpu: CpuFeatures)
    ensures
        detect_simd_level_internal(cpu) == FfiSimdLevel::AVX512 <==> cpu.avx512f && cpu.avx2,
        detect_simd_level_internal(cpu) == FfiSimdLevel::AVX2FMA <==> cpu.fma && cpu.avx2
            && !cpu.avx512f,
        detect_simd_level_internal(cpu) == FfiSimdLevel::AVX <==> cpu.avx && (!cpu.avx2 || (
        !cpu.avx512f && !cpu.fma)),
        detect_simd_level_internal(cpu) == FfiSimdLevel::SSE2 <==> cpu.sse2 && !cpu.avx && (
        !cpu.avx2 || (!cpu.avx512f && !cpu.fma)),
{
}

/// Each domain, target and element type is the meaning of one byte, and every other byte means
/// what is usual: floating point, a server, and 32-bit floats.
pub proof fn bytes_have_their_meaning(raw: u8)
    ensures
        parse_domain(raw) == FfiMathDomain::ExactFraction <==> raw == 1,
        parse_domain(raw) == FfiMathDomain::SymbolicVariable <==> raw == 2,
        parse_target(raw) == FfiHardwareTarget::EdgeDevice <==> raw == 1,
        parse_target(raw) == FfiHardwareTarget::TensorAccelerator <==> raw == 2,
        parse_element_type(raw) == FfiElementType::FP64 <==> raw == 0,
        parse_element_type(raw) == FfiElementType::FP16 <==> raw == 2,
        parse_element_type(raw) == FfiElementType::BF16 <==> raw == 3,
        parse_element_type(raw) == FfiElementType::INT8 <==> raw == 4,
        parse_element_type(raw) == FfiElementType::INT4 <==> raw == 5,
{
}

/// An accelerator has twice the peak, four times the bandwidth and twice the caches of a server,
/// and a device has a twelfth of the peak, half of the first cache and a quarter of the second.
pub proof fn targets_differ_in_scale(t: FfiHardwareTarget)
    ensures
        ({
            let server = build_profile_for_target(&FfiHardwareTarget::ServerX86);
            let p = build_profile_for_target(&t);
            &&& server.peak_gflops == 3072
            &&& server.mem_bandwidth_gb_per_sec == 200
            &&& server.l1_cache_bytes == 32 * 1024
            &&& server.l2_cache_bytes == 512 * 1024
            &&& t == FfiHardwareTarget::TensorAccelerator ==> p.peak_gflops == 2
                * server.peak_gflops && p.mem_bandwidth_gb_per_sec == 4
                * server.mem_bandwidth_gb_per_sec && p.l1_cache_bytes == 2 * server.l1_cache_bytes
                && p.l2_cache_bytes == 2 * server.l2_cache_bytes
            &&& t == FfiHardwareTarget::EdgeDevice ==> 12 * p.peak_gflops == server.peak_gflops
                && p.mem_bandwidth_gb_per_sec == 34 && 2 * p.l1_cache_bytes
                == server.l1_cache_bytes && 4 * p.l2_cache_bytes == server.l2_cache_bytes
        }),
{
}

/// Where the host passes nothing, an optimization and a gradient are on 32-bit floats of four
/// bytes for a server; the two ask for opposite stages, but neither for mixed precision.
pub proof fn defaults_ask_for_opposite_stages()
    ensures
        ({
            let o = FfiPolyConfig::for_optimization();
            let a = FfiPolyConfig::for_adjoint();
            &&& parse_element_type(o.compute_type) == FfiElementType::FP32 && parse_element_type(
                a.compute_type,
            ) == FfiElementType::FP32
            &&& o.element_size() == 4 && a.element_size() == 4
            &&& parse_target(o.target) == FfiHardwareTarget::ServerX86 && parse_target(a.target)
                == FfiHardwareTarget::ServerX86
            &&& parse_domain(o.domain) == FfiMathDomain::RealFloat && parse_domain(a.domain)
                == FfiMathDomain::RealFloat
            &&& o.enable_flash_attention && !a.enable_flash_attention
            &&& o.enable_transcendental_fusion && !a.enable_transcendental_fusion
            &&& o.enable_double_buffering && !a.enable_double_buffering
            &&& !o.enable_mixed_precision && !a.enable_mixed_precision
            &&& !o.enable_ad && a.enable_ad
        }),
{
}

/// The size of an element is the one that the host passed, and one where it passed zero.
pub proof fn element_size_is_positive(c: FfiPolyConfig)
    ensures
        c.element_size() > 0,
        c.element_bytes > 0 ==> c.element_size() == c.element_bytes,
        c.element_bytes == 0 ==> c.element_size() == 1,
{
}

/// The message of a byte that is no instruction names the place, and its two digits give the byte
/// back.
pub proof fn failure_names_the_byte(offset: usize, byte: u8)
    ensures
        ({
            let d = |c: char|
                if '0' <= c <= '9' {
                    c as int - '0' as int
                } else {
                    c as int - 'a' as int + 10
                };
            let h = super::stream::hex_byte(byte);
            h.len() == 2 && 16 * d(h[0]) + d(h[1]) == byte && (forall|i: int|
                0 <= i < 2 ==> '0' <= #[trigger] h[i] <= '9' || 'a' <= h[i] <= 'f')
        }),
        exists|tail: Seq<char>|
            super::stream::failure_text(offset, byte)
                == "Failed to deserialize instruction at offset "@ + crate::text::decimal(
                offset as nat,
            ) + #[trigger] (" (byte: 0x"@ + tail),
{
    let tail = super::stream::hex_byte(byte) + ")"@;
    assert(super::stream::failure_text(offset, byte)
        =~= "Failed to deserialize instruction at offset "@ + crate::text::decimal(offset as nat)
        + (" (byte: 0x"@ + tail));
    let h = super::stream::hex_byte(byte);
    let x = byte as int / 16;
    let y = byte as int % 16;
    assert(16 * x + y == byte && 0 <= x < 16 && 0 <= y < 16);
}

} // verus!
