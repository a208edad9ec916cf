//! Assembly of an optimized block from what the stages of the optimizer found.

use vstd::prelude::*;
use crate::types::{BinOpKind, Instr};
use super::config::{parse_element_type, FfiElementType, FfiPolyConfig, FfiSimdLevel};
use super::hints;
use super::hints::{serialize_hints, sort_and_dedup, PlacedHint, SimdHintKind};

verus! {

/// First of the two buffers that are swapped.
pub const BUFFER_A: u16 = 6000;

/// Second of the two buffers that are swapped.
pub const BUFFER_B: u16 = 6001;

/// Optimized instructions with their hints.
#[derive(Debug)]
pub struct PolyBlock {
    /// The instructions.
    pub instrs: Vec<Instr>,
    /// The hints, each with the place of its instruction.
    pub hints: Vec<PlacedHint>,
}

/// What a block holds.
#[verifier::ext_equal]
pub struct BlockView {
    /// The instructions.
    pub instrs: Seq<Instr>,
    /// The hints.
    pub hints: Seq<PlacedHint>,
}

impl View for PolyBlock {
    type V = BlockView;

    open spec fn view(&self) -> BlockView {
        BlockView { instrs: self.instrs@, hints: self.hints@ }
    }
}

/// Tile sizes and buffering of a kernel.
#[derive(Debug, Clone, Copy, PartialEq, Eq, Structural)]
pub struct MicroKernelConfig {
    /// Rows of a tile.
    pub tile_m: usize,
    /// Columns of a tile.
    pub tile_n: usize,
    /// Depth of a tile.
    pub tile_k: usize,
    /// Registers that accumulate.
    pub accumulator_registers: usize,
    /// How far ahead is fetched.
    pub prefetch_distance: usize,
    /// Number of buffers.
    pub double_buffer_count: usize,
}

/// An attention that was found, with its tiles.
#[derive(Debug)]
pub struct FlashAttention {
    /// Slot of the running maximum.
    pub running_max_slot: u16,
    /// Slot of the running sum.
    pub running_sum_slot: u16,
    /// Slot of the accumulator.
    pub accumulator_slot: u16,
    /// Number of elements in a tile.
    pub block_size: usize,
    /// Instructions of the tiles.
    pub tiles: Vec<Instr>,
}

/// A transcendental function that was found.
#[derive(Debug, Clone, Copy, PartialEq, Eq, Structural)]
pub struct Transcendental {
    /// Number of the function.
    pub kind: u8,
    /// Slot of the argument.
    pub input_slot: u16,
    /// Slot of the result.
    pub output_slot: u16,
    /// Number of lanes.
    pub vector_width: usize,
}

/// The transcendental functions that were found, with the instructions after fusing them.
#[derive(Debug)]
pub struct TranscendentalFusion {
    /// The functions.
    pub found: Vec<Transcendental>,
    /// The instructions after fusing them.
    pub fused: Vec<Instr>,
}

/// The types of a computation in mixed precision.
#[derive(Debug)]
pub struct MixedPrecision {
    /// Type of values in memory.
    pub storage_type: FfiElementType,
    /// Type of accumulators.
    pub accumulator_type: FfiElementType,
    /// Instructions that pack quantized values.
    pub pack: Vec<Instr>,
}

/// The gradient of a computation.
#[derive(Debug)]
pub struct Adjoint {
    /// Slots with the slots of their gradients.
    pub slot_to_adjoint: Vec<(u16, u16)>,
    /// Instructions of the gradient.
    pub instrs: Vec<Instr>,
}

/// What the stages of the optimizer found.
#[derive(Debug)]
pub struct StageResults {
    /// Attention, if there is one.
    pub flash: Option<FlashAttention>,
    /// Transcendental functions, if the computation has a loop nest.
    pub fusion: Option<TranscendentalFusion>,
    /// Types in mixed precision.
    pub precision: MixedPrecision,
    /// Gradient, if the computation has a loop nest.
    pub adjoint: Option<Adjoint>,
}

/// Place of the last of `n` instructions, or 0 where there is none.
pub open spec fn last_place(n: nat) -> usize {
    if n == 0 {
        0
    } else {
        (n - 1) as usize
    }
}

/// A block with an attention: its hint stands at the start, its tiles follow the instructions.
pub open spec fn with_flash(b: BlockView, f: FlashAttention) -> BlockView {
    BlockView {
        instrs: b.instrs + f.tiles@,
        hints: b.hints.push(
            (
                0,
                SimdHintKind::OnlineSoftmaxReduction {
                    running_max: f.running_max_slot,
                    running_sum: f.running_sum_slot,
                    accumulator: f.accumulator_slot,
                    block_size: f.block_size,
                },
            ),
        ),
    }
}

/// The hints for transcendental functions, all at one place.
pub open spec fn transcendental_hints(v: Seq<Transcendental>, place: usize) -> Seq<PlacedHint> {
    Seq::new(
        v.len(),
        |i: int|
            (
                place,
                SimdHintKind::TranscendentalVectorize {
                    kind: v[i].kind,
                    input_slot: v[i].input_slot,
                    output_slot: v[i].output_slot,
                    width: v[i].vector_width,
                },
            ),
    )
}

/// A block with its transcendental functions fused: their hints stand at the last instruction.
pub open spec fn with_fusion(b: BlockView, f: TranscendentalFusion) -> BlockView {
    if f.found@.len() == 0 {
        b
    } else {
        BlockView {
            instrs: f.fused@,
            hints: b.hints + transcendental_hints(f.found@, last_place(f.fused@.len())),
        }
    }
}

/// A conversion at a place, unless the types are equal.
pub open spec fn with_conversion(
    v: Seq<PlacedHint>,
    place: usize,
    src_type: FfiElementType,
    dst_type: FfiElementType,
) -> Seq<PlacedHint> {
    if src_type == dst_type {
        v
    } else {
        v.push(
            (
                place,
                SimdHintKind::PrecisionConvert { src_slot: 0, dst_slot: 0, src_type, dst_type },
            ),
        )
    }
}

/// Whether values of this type are packed before a computation.
#[verifier::allow_in_spec]
pub fn is_packed(t: FfiElementType) -> (r: bool)
    returns
        t == FfiElementType::INT8 || t == FfiElementType::BF16,
{
    t == FfiElementType::INT8 || t == FfiElementType::BF16
}

/// A block in mixed precision: inputs are converted at the start, results at the end, and
/// packed types are packed before everything else.
pub open spec fn with_precision(b: BlockView, compute: FfiElementType, m: MixedPrecision) -> BlockView {
    let start = with_conversion(b.hints, 0, m.storage_type, compute);
    BlockView {
        instrs: if is_packed(compute) {
            m.pack@ + b.instrs
        } else {
            b.instrs
        },
        hints: with_conversion(start, last_place(b.instrs.len()), compute, m.accumulator_type),
    }
}

/// The fetches for the first `n` places: one at each multiple of the tile height.
pub open spec fn prefetches(n: nat, tile: int, distance: usize) -> Seq<PlacedHint>
    decreases n,
{
    if n == 0 {
        Seq::empty()
    } else {
        let before = prefetches((n - 1) as nat, tile, distance);
        if (n - 1) % tile == 0 {
            before.push(((n - 1) as usize, SimdHintKind::AsyncPrefetch { slot: 0, distance }))
        } else {
            before
        }
    }
}

/// The greater of `x` and 1.
pub open spec fn at_least_one(x: usize) -> int {
    if x < 1 {
        1
    } else {
        x as int
    }
}

/// The hint that buffers are swapped.
pub open spec fn swap_hint() -> PlacedHint {
    (0, SimdHintKind::DoubleBufferSwap { buffer_a: BUFFER_A, buffer_b: BUFFER_B })
}

/// A block with doubled buffers.
pub open spec fn with_double_buffer(b: BlockView, k: MicroKernelConfig) -> BlockView {
    BlockView {
        hints: b.hints.push(swap_hint()) + prefetches(
            b.instrs.len(),
            at_least_one(k.tile_m),
            k.prefetch_distance,
        ),
        ..b
    }
}

/// The hints that link slots to their gradients.
pub open spec fn adjoint_hints(v: Seq<(u16, u16)>) -> Seq<PlacedHint> {
    Seq::new(
        v.len(),
        |i: int|
            (
                0usize,
                SimdHintKind::AdjointAccumulate {
                    forward_slot: v[i].0,
                    adjoint_slot: v[i].1,
                    op: BinOpKind::Add,
                },
            ),
    )
}

/// A block with its gradient behind it.
pub open spec fn with_adjoint(b: BlockView, a: Adjoint) -> BlockView {
    BlockView {
        instrs: b.instrs + a.instrs@,
        hints: b.hints + adjoint_hints(a.slot_to_adjoint@),
    }
}

/// The block after the stages that the configuration enables, in their order.
pub open spec fn staged(
    c: FfiPolyConfig,
    k: MicroKernelConfig,
    base: BlockView,
    s: StageResults,
) -> BlockView {
    let b1 = match s.flash {
        Some(f) => if c.enable_flash_attention {
            with_flash(base, f)
        } else {
            base
        },
        None => base,
    };
    let b2 = match s.fusion {
        Some(f) => if c.enable_transcendental_fusion {
            with_fusion(b1, f)
        } else {
            b1
        },
        None => b1,
    };
    let b3 = if c.enable_mixed_precision {
        with_precision(b2, parse_element_type(c.compute_type), s.precision)
    } else {
        b2
    };
    let b4 = if c.enable_double_buffering && k.double_buffer_count >= 2 {
        with_double_buffer(b3, k)
    } else {
        b3
    };
    match s.adjoint {
        Some(a) => if c.enable_ad {
            with_adjoint(b4, a)
        } else {
            b4
        },
        None => b4,
    }
}

/// The block after the stages of the specialised optimizer, which has done attention and
/// transcendental functions itself.
pub open spec fn staged_specialized(
    c: FfiPolyConfig,
    k: MicroKernelConfig,
    base: BlockView,
    accumulator: FfiElementType,
    adjoint: Option<Adjoint>,
) -> BlockView {
    let b1 = if c.enable_mixed_precision {
        BlockView {
            hints: with_conversion(
                base.hints,
                0,
                parse_element_type(c.compute_type),
                accumulator,
            ),
            ..base
        }
    } else {
        base
    };
    let b2 = if c.enable_double_buffering && k.double_buffer_count >= 2 {
        BlockView { hints: b1.hints.push(swap_hint()), ..b1 }
    } else {
        b1
    };
    match adjoint {
        Some(a) => if c.enable_ad {
            with_adjoint(b2, a)
        } else {
            b2
        },
        None => b2,
    }
}

/// Whether `r` is the block `b` with its hints sorted, one for each place.
pub open spec fn is_tidied(r: BlockView, b: BlockView) -> bool {
    r.instrs == b.instrs && hints::is_tidy(r.hints, b.hints, b.hints.len() as int)
}

fn append_instrs(out: &mut Vec<Instr>, more: &Vec<Instr>)
    ensures
        final(out)@ == old(out)@ + more@,
{
    let ghost start = out@;
    let mut i: usize = 0;
    assert(out@ =~= start + more@.take(0));
    while i < more.len()
        invariant
            i <= more@.len(),
            out@ == start + more@.take(i as int),
        decreases more.len() - i,
    {
        out.push(more[i]);
        i += 1;
        assert(out@ =~= start + more@.take(i as int));
    }
    assert(more@.take(i as int) =~= more@);
}

fn push_conversion(
    out: &mut Vec<PlacedHint>,
    place: usize,
    src_type: FfiElementType,
    dst_type: FfiElementType,
)
    ensures
        final(out)@ == with_conversion(old(out)@, place, src_type, dst_type),
{
    if src_type != dst_type {
        out.push(
            (
                place,
                SimdHintKind::PrecisionConvert { src_slot: 0, dst_slot: 0, src_type, dst_type },
            ),
        );
    }
}

impl PolyBlock {
    fn last_place(&self) -> (r: usize)
        ensures
            r == last_place(self@.instrs.len()),
    {
        if self.instrs.len() == 0 {
            0
        } else {
            self.instrs.len() - 1
        }
    }

    /// Adds an attention that was found.
    pub fn add_flash_attention(&mut self, f: &FlashAttention)
        ensures
            final(self)@ == with_flash(old(self)@, *f),
    {
        self.hints.push(
            (
                0,
                SimdHintKind::OnlineSoftmaxReduction {
                    running_max: f.running_max_slot,
                    running_sum: f.running_sum_slot,
                    accumulator: f.accumulator_slot,
                    block_size: f.block_size,
                },
            ),
        );
        append_instrs(&mut self.instrs, &f.tiles);
    }

    /// Replaces the instructions by those in which the transcendental functions are fused.
    pub fn add_transcendentals(&mut self, f: TranscendentalFusion)
        ensures
            final(self)@ == with_fusion(old(self)@, f),
    {
        if f.found.len() == 0 {
            return;
        }
        self.instrs = f.fused;
        let place: usize = self.last_place();
        let ghost start = self.hints@;
        let ghost all = transcendental_hints(f.found@, place);
        let mut i: usize = 0;
        assert(self.hints@ =~= start + all.take(0));
        while i < f.found.len()
            invariant
                i <= f.found@.len(),
                self.instrs@ == f.fused@,
                all == transcendental_hints(f.found@, place),
                self.hints@ == start + all.take(i as int),
            decreases f.found.len() - i,
        {
            let t: Transcendental = f.found[i];
            self.hints.push(
                (
                    place,
                    SimdHintKind::TranscendentalVectorize {
                        kind: t.kind,
                        input_slot: t.input_slot,
                        output_slot: t.output_slot,
                        width: t.vector_width,
                    },
                ),
            );
            i += 1;
            assert(self.hints@ =~= start + all.take(i as int));
        }
        assert(all.take(i as int) =~= all);
    }

    /// Adds the conversions and the packing of mixed precision.
    pub fn add_mixed_precision(&mut self, compute: FfiElementType, m: &MixedPrecision)
        ensures
            final(self)@ == with_precision(old(self)@, compute, *m),
    {
        push_conversion(&mut self.hints, 0, m.storage_type, compute);
        let place: usize = self.last_place();
        push_conversion(&mut self.hints, place, compute, m.accumulator_type);
        if is_packed(compute) {
            let mut combined: Vec<Instr> = Vec::new();
            append_instrs(&mut combined, &m.pack);
            append_instrs(&mut combined, &self.instrs);
            assert(combined@ =~= m.pack@ + old(self)@.instrs);
            self.instrs = combined;
        }
    }

    /// Adds the hints of doubled buffers.
    pub fn add_double_buffering(&mut self, k: &MicroKernelConfig)
        ensures
            final(self)@ == with_double_buffer(old(self)@, *k),
    {
        self.hints.push((0, SimdHintKind::DoubleBufferSwap { buffer_a: BUFFER_A, buffer_b: BUFFER_B }));
        let ghost start = self.hints@;
        let tile: usize = if k.tile_m < 1 {
            1
        } else {
            k.tile_m
        };
        let mut pc: usize = 0;
        assert(self.hints@ =~= start + prefetches(0, tile as int, k.prefetch_distance));
        while pc < self.instrs.len()
            invariant
                pc <= self.instrs@.len(),
                self.instrs@ == old(self).instrs@,
                tile > 0,
                self.hints@ == start + prefetches(pc as nat, tile as int, k.prefetch_distance),
            decreases self.instrs.len() - pc,
        {
            if pc % tile == 0 {
                self.hints.push(
                    (pc, SimdHintKind::AsyncPrefetch { slot: 0, distance: k.prefetch_distance }),
                );
            }
            pc += 1;
            assert(self.hints@ =~= start + prefetches(
                pc as nat,
                tile as int,
                k.prefetch_distance,
            ));
        }
    }

    /// Adds the gradient.
    pub fn add_adjoint(&mut self, a: &Adjoint)
        ensures
            final(self)@ == with_adjoint(old(self)@, *a),
    {
        let ghost start = self.hints@;
        let ghost all = adjoint_hints(a.slot_to_adjoint@);
        let mut i: usize = 0;
        assert(self.hints@ =~= start + all.take(0));
        while i < a.slot_to_adjoint.len()
            invariant
                i <= a.slot_to_adjoint@.len(),
                self.instrs@ == old(self).instrs@,
                all == adjoint_hints(a.slot_to_adjoint@),
                self.hints@ == start + all.take(i as int),
            decreases a.slot_to_adjoint.len() - i,
        {
            let (forward_slot, adjoint_slot) = a.slot_to_adjoint[i];
            self.hints.push(
                (
                    0,
                    SimdHintKind::AdjointAccumulate {
                        forward_slot,
                        adjoint_slot,
                        op: BinOpKind::Add,
                    },
                ),
            );
            i += 1;
            assert(self.hints@ =~= start + all.take(i as int));
        }
        assert(all.take(i as int) =~= all);
        append_instrs(&mut self.instrs, &a.instrs);
    }
}

/// Assembles the block of the standard optimizer: the stages that the configuration enables in
/// their order, then the hints sorted by place with one for each place.
pub fn poly_optimize_trace(
    config: &FfiPolyConfig,
    kernel: &MicroKernelConfig,
    base: PolyBlock,
    stages: StageResults,
) -> (r: PolyBlock)
    ensures
        is_tidied(r@, staged(*config, *kernel, base@, stages)),
{
    let mut block: PolyBlock = base;
    if config.enable_flash_attention {
        if let Some(f) = &stages.flash {
            block.add_flash_attention(f);
        }
    }
    if config.enable_transcendental_fusion {
        if let Some(f) = stages.fusion {
            block.add_transcendentals(f);
        }
    }
    if config.enable_mixed_precision {
        block.add_mixed_precision(parse_element_type(config.compute_type), &stages.precision);
    }
    if config.enable_double_buffering && kernel.double_buffer_count >= 2 {
        block.add_double_buffering(kernel);
    }
    if config.enable_ad {
        if let Some(a) = &stages.adjoint {
            block.add_adjoint(a);
        }
    }
    let tidy: Vec<PlacedHint> = sort_and_dedup(&block.hints);
    PolyBlock { instrs: block.instrs, hints: tidy }
}

/// Assembles the block of the specialised optimizer.
pub fn poly_optimize_specialized(
    config: &FfiPolyConfig,
    kernel: &MicroKernelConfig,
    base: PolyBlock,
    accumulator: FfiElementType,
    adjoint: Option<Adjoint>,
) -> (r: PolyBlock)
    ensures
        is_tidied(r@, staged_specialized(*config, *kernel, base@, accumulator, adjoint)),
{
    let mut block: PolyBlock = base;
    if config.enable_mixed_precision {
        push_conversion(
            &mut block.hints,
            0,
            parse_element_type(config.compute_type),
            accumulator,
        );
    }
    if config.enable_double_buffering && kernel.double_buffer_count >= 2 {
        block.hints.push(
            (0, SimdHintKind::DoubleBufferSwap { buffer_a: BUFFER_A, buffer_b: BUFFER_B }),
        );
    }
    if config.enable_ad {
        if let Some(a) = &adjoint {
            block.add_adjoint(a);
        }
    }
    let tidy: Vec<PlacedHint> = sort_and_dedup(&block.hints);
    PolyBlock { instrs: block.instrs, hints: tidy }
}

/// What the host gets back.
#[derive(Debug)]
pub struct FfiPolyResult {
    /// Bytes of the instructions.
    pub optimized_instrs: Vec<u8>,
    /// Bytes of the hints.
    pub hints: Vec<u8>,
    /// Number of instructions.
    pub instr_count: usize,
    /// Number of hints.
    pub hint_count: usize,
    /// Whether there is a result.
    pub success: bool,
    /// Rows of a tile.
    pub tile_m: usize,
    /// Columns of a tile.
    pub tile_n: usize,
    /// Depth of a tile.
    pub tile_k: usize,
    /// Registers that accumulate.
    pub accumulator_registers: usize,
    /// How far ahead is fetched.
    pub prefetch_distance: usize,
    /// Byte of the vector instructions that the processor has.
    pub simd_level: u8,
    /// Bits of the estimated speed.
    pub estimated_gflops: u64,
}

/// Whether a result carries the sizes of a kernel.
pub open spec fn has_sizes(r: FfiPolyResult, k: MicroKernelConfig, level: FfiSimdLevel) -> bool {
    &&& r.tile_m == k.tile_m
    &&& r.tile_n == k.tile_n
    &&& r.tile_k == k.tile_k
    &&& r.accumulator_registers == k.accumulator_registers
    &&& r.prefetch_distance == k.prefetch_distance
    &&& r.simd_level == level.code()
}

impl Default for FfiPolyResult {
    fn default() -> (r: Self)
        ensures
            r.optimized_instrs@.len() == 0,
            r.hints@.len() == 0,
            r.instr_count == 0,
            r.hint_count == 0,
            !r.success,
            r.tile_m == 0,
            r.tile_n == 0,
            r.tile_k == 0,
            r.accumulator_registers == 0,
            r.prefetch_distance == 0,
            r.simd_level == 0,
            r.estimated_gflops == 0,
    {
        FfiPolyResult {
            optimized_instrs: Vec::new(),
            hints: Vec::new(),
            instr_count: 0,
            hint_count: 0,
            success: false,
            tile_m: 0,
            tile_n: 0,
            tile_k: 0,
            accumulator_registers: 0,
            prefetch_distance: 0,
            simd_level: 0,
            estimated_gflops: 0,
        }
    }
}

/// The result for an optimized block. `encoded` holds the bytes of its instructions.
pub fn poly_result(
    block: &PolyBlock,
    encoded: Vec<u8>,
    kernel: &MicroKernelConfig,
    level: FfiSimdLevel,
    estimated_gflops: u64,
) -> (r: FfiPolyResult)
    ensures
        r.optimized_instrs == encoded,
        r.hints@ == hints::hints_bytes(block@.hints, block@.hints.len()),
        r.instr_count == block@.instrs.len(),
        r.hint_count == block@.hints.len(),
        r.success == (block@.instrs.len() > 0),
        has_sizes(r, *kernel, level),
        r.estimated_gflops == estimated_gflops,
{
    FfiPolyResult {
        optimized_instrs: encoded,
        hints: serialize_hints(&block.hints),
        instr_count: block.instrs.len(),
        hint_count: block.hints.len(),
        success: block.instrs.len() > 0,
        tile_m: kernel.tile_m,
        tile_n: kernel.tile_n,
        tile_k: kernel.tile_k,
        accumulator_registers: kernel.accumulator_registers,
        prefetch_distance: kernel.prefetch_distance,
        simd_level: level.code(),
        estimated_gflops,
    }
}

/// The bytes that link the first `k` slots to their gradients: the kind, both slots with their
/// low byte first, and the operator.
pub open spec fn adjoint_bytes(v: Seq<(u16, u16)>, k: nat) -> Seq<u8>
    decreases k,
{
    if k == 0 {
        Seq::empty()
    } else {
        adjoint_bytes(v, (k - 1) as nat) + seq![
            15u8,
            hints::low(v[k - 1].0 as int),
            hints::high(v[k - 1].0 as int),
            hints::low(v[k - 1].1 as int),
            hints::high(v[k - 1].1 as int),
            0u8,
        ]
    }
}

fn link_bytes(v: &Vec<(u16, u16)>) -> (r: Vec<u8>)
    ensures
        r@ == adjoint_bytes(v@, v@.len()),
{
    let mut out: Vec<u8> = Vec::new();
    let mut k: usize = 0;
    while k < v.len()
        invariant
            k <= v@.len(),
            out@ == adjoint_bytes(v@, k as nat),
        decreases v.len() - k,
    {
        let (forward, adjoint) = v[k];
        out.push(15);
        out.push((forward % 256) as u8);
        out.push((forward / 256 % 256) as u8);
        out.push((adjoint % 256) as u8);
        out.push((adjoint / 256 % 256) as u8);
        out.push(0);
        k += 1;
        assert(out@ =~= adjoint_bytes(v@, k as nat));
    }
    out
}

/// The result for a gradient. Where the computation has no loop nest there is no gradient: the
/// call fails, and no instructions go back. `encoded` holds the bytes of the instructions of the
/// gradient.
pub fn poly_construct_adjoint(
    adjoint: Option<&Adjoint>,
    encoded: Vec<u8>,
    kernel: &MicroKernelConfig,
    level: FfiSimdLevel,
) -> (r: FfiPolyResult)
    ensures
        has_sizes(r, *kernel, level),
        r.estimated_gflops == 0,
        match adjoint {
            Some(a) => r.success && r.optimized_instrs == encoded && r.hints@ == adjoint_bytes(
                a.slot_to_adjoint@,
                a.slot_to_adjoint@.len(),
            ) && r.instr_count == a.instrs@.len() && r.hint_count == a.slot_to_adjoint@.len(),
            None => !r.success && r.optimized_instrs@.len() == 0 && r.hints@.len() == 0
                && r.instr_count == 0 && r.hint_count == 0,
        },
{
    let success: bool = adjoint.is_some();
    let (optimized_instrs, hints, instr_count, hint_count): (
        Vec<u8>,
        Vec<u8>,
        usize,
        usize,
    ) = match adjoint {
        Some(a) => (
            encoded,
            link_bytes(&a.slot_to_adjoint),
            a.instrs.len(),
            a.slot_to_adjoint.len(),
        ),
        None => (Vec::new(), Vec::new(), 0, 0),
    };
    FfiPolyResult {
        optimized_instrs,
        hints,
        instr_count,
        hint_count,
        success,
        tile_m: kernel.tile_m,
        tile_n: kernel.tile_n,
        tile_k: kernel.tile_k,
        accumulator_registers: kernel.accumulator_registers,
        prefetch_distance: kernel.prefetch_distance,
        simd_level: level.code(),
        estimated_gflops: 0,
    }
}

/// With everything disabled the block keeps its instructions and gets no hint of its own.
pub proof fn disabled_stages_change_nothing(
    c: FfiPolyConfig,
    k: MicroKernelConfig,
    base: BlockView,
    s: StageResults,
)
    requires
        !c.enable_flash_attention,
        !c.enable_transcendental_fusion,
        !c.enable_double_buffering,
        !c.enable_mixed_precision,
        !c.enable_ad,
    ensures
        staged(c, k, base, s) == base,
        staged_specialized(c, k, base, s.precision.accumulator_type, s.adjoint) == base,
{
}

/// Where packing is off and nothing is fused, the instructions of the block stay in front: the
/// stages only add behind them.
pub proof fn stages_only_append(
    c: FfiPolyConfig,
    k: MicroKernelConfig,
    base: BlockView,
    s: StageResults,
)
    requires
        !c.enable_transcendental_fusion,
        !c.enable_mixed_precision || !is_packed(parse_element_type(c.compute_type)),
    ensures
        staged(c, k, base, s).instrs.len() >= base.instrs.len(),
        staged(c, k, base, s).instrs.take(base.instrs.len() as int) == base.instrs,
{
    assert(staged(c, k, base, s).instrs.take(base.instrs.len() as int) =~= base.instrs);
}

} // verus!
