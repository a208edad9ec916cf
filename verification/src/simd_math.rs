//! Vectorizable loops: their detection, their fusion and what to prefetch in them.

use crate::types::{BinOpKind, Instr, UnOpKind};
use vstd::prelude::*;

verus! {

/// An elementwise operation that can be vectorized.
#[derive(Debug, Clone, Copy, PartialEq, Eq, Structural)]
pub enum ElementwiseOp {
    Add,
    Sub,
    Mul,
    Fma,
    Rsqrt,
    Rcp,
    Neg,
    Sqrt,
    Exp,
    Log,
    Sin,
    Cos,
    ScaleAdd,
}

/// A vectorizable elementwise loop.
#[derive(Debug, Clone, Copy, PartialEq, Eq, Structural)]
pub struct ElementwiseLoopInfo {
    /// Slot of the array base pointer.
    pub base_slot: u16,
    /// Slot of the induction variable.
    pub iv_slot: u16,
    /// Slot of the loop bound.
    pub bound_slot: u16,
    /// The operation applied elementwise.
    pub op: ElementwiseOp,
    /// Bytes between elements.
    pub element_stride: u32,
    /// First instruction of the loop.
    pub loop_start: usize,
    /// The backward jump.
    pub loop_end: usize,
}

/// What has been learnt of a loop so far.
#[derive(Debug, Clone, Copy, PartialEq, Eq, Structural)]
pub struct LoopFacts {
    /// Slot of the induction variable.
    pub iv: Option<u16>,
    /// Slot of the bound.
    pub bound: Option<u16>,
    /// The first operation.
    pub op: Option<ElementwiseOp>,
    /// Bytes between elements.
    pub stride: u32,
}

/// The elementwise operation of an operator on two slots.
#[verifier::allow_in_spec]
pub fn elementwise_of(op: BinOpKind) -> Option<ElementwiseOp>
    returns
        (match op {
            BinOpKind::Add => Some(ElementwiseOp::Add),
            BinOpKind::Sub => Some(ElementwiseOp::Sub),
            BinOpKind::Mul => Some(ElementwiseOp::Mul),
            BinOpKind::FmaAdd => Some(ElementwiseOp::Fma),
            _ => None,
        }),
{
    match op {
        BinOpKind::Add => Some(ElementwiseOp::Add),
        BinOpKind::Sub => Some(ElementwiseOp::Sub),
        BinOpKind::Mul => Some(ElementwiseOp::Mul),
        BinOpKind::FmaAdd => Some(ElementwiseOp::Fma),
        _ => None,
    }
}

/// The elementwise operation of an operator on one slot.
#[verifier::allow_in_spec]
pub fn elementwise_of_unary(op: UnOpKind) -> Option<ElementwiseOp>
    returns
        (match op {
            UnOpKind::Sqrt => Some(ElementwiseOp::Sqrt),
            UnOpKind::Neg => Some(ElementwiseOp::Neg),
            _ => None,
        }),
{
    match op {
        UnOpKind::Sqrt => Some(ElementwiseOp::Sqrt),
        UnOpKind::Neg => Some(ElementwiseOp::Neg),
        _ => None,
    }
}

/// The first of two that is there.
#[verifier::allow_in_spec]
pub fn keep_first(a: Option<ElementwiseOp>, b: Option<ElementwiseOp>) -> Option<ElementwiseOp>
    returns
        (match a {
            Some(_) => a,
            None => b,
        }),
{
    match a {
        Some(_) => a,
        None => b,
    }
}

/// The integer that an instruction loads into one of two slots.
#[verifier::allow_in_spec]
pub fn loaded_step(i: Instr, l: u16, r: u16) -> Option<i64>
    returns
        (match i {
            Instr::LoadI32(slot, v) => if slot == r || slot == l {
                Some(v as i64)
            } else {
                None
            },
            Instr::LoadI64(slot, v) => if slot == r || slot == l {
                Some(v)
            } else {
                None
            },
            _ => None,
        }),
{
    match i {
        Instr::LoadI32(slot, v) => if slot == r || slot == l {
            Some(v as i64)
        } else {
            None
        },
        Instr::LoadI64(slot, v) => if slot == r || slot == l {
            Some(v)
        } else {
            None
        },
        _ => None,
    }
}

/// The integer that was last loaded into one of two slots in `start..pc`.
pub open spec fn last_step(s: Seq<Instr>, start: int, pc: int, l: u16, r: u16) -> Option<i64>
    decreases pc - start,
{
    if pc <= start {
        None
    } else {
        match loaded_step(s[pc - 1], l, r) {
            Some(v) => Some(v),
            None => last_step(s, start, pc - 1, l, r),
        }
    }
}

/// The stride for an increment: elements of four bytes, as many as the increment where that is
/// more than one.
pub open spec fn stride_for(old_stride: u32, step: i64) -> u32 {
    if step > 1 {
        ((step as u32) * 4) as u32
    } else {
        old_stride
    }
}

/// What the instruction at `pc` adds to the facts.
pub open spec fn learn(f: LoopFacts, s: Seq<Instr>, start: int, pc: int) -> LoopFacts {
    match s[pc] {
        Instr::BinOp(dst, op, l, r) => {
            let g = if op == BinOpKind::Add && (l == dst || r == dst) {
                match last_step(s, start, pc, l, r) {
                    Some(v) => LoopFacts { iv: Some(dst), stride: stride_for(f.stride, v), ..f },
                    None => f,
                }
            } else {
                f
            };
            let h = match g.iv {
                Some(iv) => if op == BinOpKind::Lt && (l == iv || r == iv) {
                    LoopFacts {
                        bound: Some(
                            if l == iv {
                                r
                            } else {
                                l
                            },
                        ),
                        ..g
                    }
                } else {
                    g
                },
                None => g,
            };
            LoopFacts { op: keep_first(h.op, elementwise_of(op)), ..h }
        },
        Instr::LoadF64(_, _) => LoopFacts { stride: 8, ..f },
        Instr::LoadF32(_, _) => LoopFacts { stride: 4, ..f },
        Instr::UnOp(_, op, _) => LoopFacts { op: keep_first(f.op, elementwise_of_unary(op)), ..f },
        _ => f,
    }
}

/// What the instructions `start..pc` say of a loop.
pub open spec fn facts(s: Seq<Instr>, start: int, pc: int) -> LoopFacts
    decreases pc - start,
{
    if pc <= start {
        LoopFacts { iv: None, bound: None, op: None, stride: 4 }
    } else {
        learn(facts(s, start, pc - 1), s, start, pc - 1)
    }
}

/// The loop `start..=end`, where an induction variable, a bound and an operation are known.
pub open spec fn loop_info(s: Seq<Instr>, start: usize, end: usize) -> Option<ElementwiseLoopInfo> {
    let f = facts(s, start as int, end + 1);
    match (f.iv, f.bound, f.op) {
        (Some(iv), Some(bound), Some(op)) => Some(
            ElementwiseLoopInfo {
                base_slot: 0,
                iv_slot: iv,
                bound_slot: bound,
                op,
                element_stride: f.stride,
                loop_start: start,
                loop_end: end,
            },
        ),
        _ => None,
    }
}

fn find_last_step(s: &[Instr], start: usize, pc: usize, l: u16, r: u16) -> (v: Option<i64>)
    requires
        start <= pc <= s@.len(),
    ensures
        v == last_step(s@, start as int, pc as int, l, r),
{
    let mut p: usize = pc;
    while p > start
        invariant
            start <= p <= pc <= s@.len(),
            last_step(s@, start as int, pc as int, l, r) == last_step(
                s@,
                start as int,
                p as int,
                l,
                r,
            ),
        decreases p,
    {
        let found = loaded_step(s[p - 1], l, r);
        if found.is_some() {
            return found;
        }
        p -= 1;
    }
    None
}

fn learn_from(f: LoopFacts, s: &[Instr], start: usize, pc: usize) -> (r: LoopFacts)
    requires
        start <= pc < s@.len(),
    ensures
        r == learn(f, s@, start as int, pc as int),
{
    let mut g: LoopFacts = f;
    match s[pc] {
        Instr::BinOp(dst, op, l, r) => {
            if op == BinOpKind::Add && (l == dst || r == dst) {
                if let Some(v) = find_last_step(s, start, pc, l, r) {
                    g.iv = Some(dst);
                    if v > 1 {
                        let low: u32 = #[verifier::truncate]
                        (v as u32);
                        g.stride = #[verifier::truncate]
                        ((low as u64 * 4) as u32);
                    }
                }
            }
            if let Some(iv) = g.iv {
                if op == BinOpKind::Lt && (l == iv || r == iv) {
                    g.bound = Some(
                        if l == iv {
                            r
                        } else {
                            l
                        },
                    );
                }
            }
            g.op = keep_first(g.op, elementwise_of(op));
        },
        Instr::LoadF64(_, _) => {
            g.stride = 8;
        },
        Instr::LoadF32(_, _) => {
            g.stride = 4;
        },
        Instr::UnOp(_, op, _) => {
            g.op = keep_first(g.op, elementwise_of_unary(op));
        },
        _ => {},
    }
    g
}

fn analyze_loop_body(s: &[Instr], start: usize, end: usize) -> (r: Option<ElementwiseLoopInfo>)
    requires
        start <= end < s@.len(),
    ensures
        r == loop_info(s@, start, end),
{
    let mut f: LoopFacts = LoopFacts { iv: None, bound: None, op: None, stride: 4 };
    let len: usize = s.len();
    let mut pc: usize = start;
    while pc <= end
        invariant
            start <= pc <= end + 1,
            end < s@.len(),
            len == s@.len(),
            f == facts(s@, start as int, pc as int),
        decreases end + 1 - pc,
    {
        f = learn_from(f, s, start, pc);
        pc += 1;
    }
    match (f.iv, f.bound, f.op) {
        (Some(iv), Some(bound), Some(op)) => Some(
            ElementwiseLoopInfo {
                base_slot: 0,
                iv_slot: iv,
                bound_slot: bound,
                op,
                element_stride: f.stride,
                loop_start: start,
                loop_end: end,
            },
        ),
        _ => None,
    }
}

/// The head of the loop that the instruction at `pc` closes: a jump to itself or to an earlier
/// instruction closes one.
pub open spec fn loop_head(s: Seq<Instr>, pc: int) -> Option<int> {
    match s[pc] {
        Instr::Jump(off) => if 0 <= pc + 1 + off <= pc {
            Some(pc + 1 + off)
        } else {
            None
        },
        _ => None,
    }
}

/// The loop that the instruction at `pc` closes, where it can be vectorized.
pub open spec fn loop_closed_at(s: Seq<Instr>, pc: int) -> Option<ElementwiseLoopInfo> {
    match loop_head(s, pc) {
        Some(head) => loop_info(s, head as usize, pc as usize),
        None => None,
    }
}

/// The vectorizable loops that close in the first `count` instructions, in order.
pub open spec fn loops_in(s: Seq<Instr>, count: int) -> Seq<ElementwiseLoopInfo>
    decreases count,
{
    if count <= 0 {
        Seq::empty()
    } else {
        match loop_closed_at(s, count - 1) {
            Some(info) => loops_in(s, count - 1).push(info),
            None => loops_in(s, count - 1),
        }
    }
}

/// The vectorizable loops of a list of instructions.
pub fn detect_elementwise_loops(instrs: &[Instr]) -> (r: Vec<ElementwiseLoopInfo>)
    requires
        instrs@.len() <= i32::MAX,
    ensures
        r@ == loops_in(instrs@, instrs@.len() as int),
{
    let mut r: Vec<ElementwiseLoopInfo> = Vec::new();
    let mut pc: usize = 0;
    while pc < instrs.len()
        invariant
            pc <= instrs@.len() <= i32::MAX,
            r@ == loops_in(instrs@, pc as int),
        decreases instrs@.len() - pc,
    {
        if let Instr::Jump(off) = instrs[pc] {
            let target: i64 = pc as i64 + 1 + off as i64;
            if 0 <= target && target <= pc as i64 {
                if let Some(info) = analyze_loop_body(instrs, target as usize, pc) {
                    r.push(info);
                }
            }
        }
        pc += 1;
    }
    r
}

/// Every loop that is found lies within the instructions and ends in a backward jump.
pub proof fn found_loops_are_closed(s: Seq<Instr>, count: int, k: int)
    requires
        0 <= count <= s.len() <= i32::MAX,
        0 <= k < loops_in(s, count).len(),
    ensures
        loops_in(s, count)[k].loop_start <= loops_in(s, count)[k].loop_end < count,
        s[loops_in(s, count)[k].loop_end as int] is Jump,
    decreases count,
{
    if count > 0 {
        let before = loops_in(s, count - 1);
        match loop_closed_at(s, count - 1) {
            Some(info) => {
                if k < before.len() {
                    found_loops_are_closed(s, count - 1, k);
                }
            },
            None => {
                found_loops_are_closed(s, count - 1, k);
            },
        }
    }
}

/// A pair of loops that can become one.
#[derive(Debug, Clone, Copy, PartialEq, Eq, Structural)]
pub struct FusedLoopPair {
    /// Place of the first loop.
    pub first: usize,
    /// Place of the second loop.
    pub second: usize,
    /// The slot through which the first hands its result to the second.
    pub intermediate_slot: u16,
    /// The operation of the fused loop.
    pub fused_op: ElementwiseOp,
}

/// The end of a loop, cut off at the last instruction.
pub open spec fn last_of(s: Seq<Instr>, l: ElementwiseLoopInfo) -> int {
    if l.loop_end < s.len() {
        l.loop_end as int
    } else {
        s.len() - 1
    }
}

/// The loop reads through the slot in one of its instructions.
pub open spec fn reads(s: Seq<Instr>, l: ElementwiseLoopInfo, slot: u16) -> bool {
    exists|pc: int|
        l.loop_start <= pc <= last_of(s, l) && (#[trigger] s[pc] matches Instr::Load(_, src) && src
            == slot)
}

/// The slot of the last store in `first.loop_start..pc` that the second loop reads through.
pub open spec fn handed_over(
    s: Seq<Instr>,
    first: ElementwiseLoopInfo,
    second: ElementwiseLoopInfo,
    pc: int,
) -> Option<u16>
    decreases pc - first.loop_start,
{
    if pc <= first.loop_start {
        None
    } else {
        match s[pc - 1] {
            Instr::Store(slot, _) => if reads(s, second, slot) {
                Some(slot)
            } else {
                handed_over(s, first, second, pc - 1)
            },
            _ => handed_over(s, first, second, pc - 1),
        }
    }
}

/// The operation of two fused loops: a product with a sum or a difference behind it is one fused
/// operation, anything else stays the second one.
#[verifier::allow_in_spec]
pub fn fuse_ops(first: ElementwiseOp, second: ElementwiseOp) -> ElementwiseOp
    returns
        (if first == ElementwiseOp::Mul && (second == ElementwiseOp::Add || second
            == ElementwiseOp::Sub) {
            ElementwiseOp::Fma
        } else {
            second
        }),
{
    if first == ElementwiseOp::Mul && (second == ElementwiseOp::Add || second == ElementwiseOp::Sub) {
        ElementwiseOp::Fma
    } else {
        second
    }
}

/// The pair of the loops at two places, where they share bound and stride and the first hands
/// something over to the second.
pub open spec fn pair_of(
    loops: Seq<ElementwiseLoopInfo>,
    s: Seq<Instr>,
    i: int,
    j: int,
) -> Option<FusedLoopPair> {
    let first = loops[i];
    let second = loops[j];
    if first.bound_slot == second.bound_slot && first.element_stride == second.element_stride {
        match handed_over(s, first, second, last_of(s, first) + 1) {
            Some(slot) => Some(
                FusedLoopPair {
                    first: i as usize,
                    second: j as usize,
                    intermediate_slot: slot,
                    fused_op: fuse_ops(first.op, second.op),
                },
            ),
            None => None,
        }
    } else {
        None
    }
}

/// The pairs of the loop at place `i` with the loops behind it, before place `j`.
pub open spec fn pairs_with(
    loops: Seq<ElementwiseLoopInfo>,
    s: Seq<Instr>,
    i: int,
    j: int,
) -> Seq<FusedLoopPair>
    decreases j - i,
{
    if j <= i + 1 {
        Seq::empty()
    } else {
        match pair_of(loops, s, i, j - 1) {
            Some(p) => pairs_with(loops, s, i, j - 1).push(p),
            None => pairs_with(loops, s, i, j - 1),
        }
    }
}

/// The pairs of the first `i` loops, by the first loop and then by the second.
pub open spec fn pairs_upto(loops: Seq<ElementwiseLoopInfo>, s: Seq<Instr>, i: int) -> Seq<
    FusedLoopPair,
>
    decreases i,
{
    if i <= 0 {
        Seq::empty()
    } else {
        pairs_upto(loops, s, i - 1) + pairs_with(loops, s, i - 1, loops.len() as int)
    }
}

fn loop_reads(s: &[Instr], l: &ElementwiseLoopInfo, slot: u16) -> (r: bool)
    requires
        s@.len() > 0,
    ensures
        r == reads(s@, *l, slot),
{
    let end: usize = if l.loop_end < s.len() {
        l.loop_end
    } else {
        s.len() - 1
    };
    let mut pc: usize = l.loop_start;
    while pc <= end
        invariant
            end < s@.len(),
            end == last_of(s@, *l),
            l.loop_start <= pc,
            pc <= end + 1 || pc == l.loop_start,
            forall|q: int|
                l.loop_start <= q < pc ==> !(#[trigger] s@[q] matches Instr::Load(_, src) && src
                    == slot),
        decreases end + 1 - pc,
    {
        if let Instr::Load(_, src) = s[pc] {
            if src == slot {
                assert(s@[pc as int] matches Instr::Load(_, x) && x == slot);
                return true;
            }
        }
        pc += 1;
    }
    false
}

fn find_handed_over(s: &[Instr], first: &ElementwiseLoopInfo, second: &ElementwiseLoopInfo) -> (r:
    Option<u16>)
    requires
        s@.len() > 0,
    ensures
        r == handed_over(s@, *first, *second, last_of(s@, *first) + 1),
{
    let end: usize = if first.loop_end < s.len() {
        first.loop_end
    } else {
        s.len() - 1
    };
    let mut pc: usize = end + 1;
    while pc > first.loop_start
        invariant
            pc <= end + 1 <= s@.len(),
            end == last_of(s@, *first),
            handed_over(s@, *first, *second, end + 1) == handed_over(
                s@,
                *first,
                *second,
                pc as int,
            ),
        decreases pc,
    {
        if let Instr::Store(slot, _) = s[pc - 1] {
            if loop_reads(s, second, slot) {
                return Some(slot);
            }
        }
        pc -= 1;
    }
    None
}

fn fuse_pair(loops: &[ElementwiseLoopInfo], s: &[Instr], i: usize, j: usize) -> (r: Option<
    FusedLoopPair,
>)
    requires
        s@.len() > 0,
        i < loops@.len(),
        j < loops@.len(),
    ensures
        r == pair_of(loops@, s@, i as int, j as int),
{
    let first = &loops[i];
    let second = &loops[j];
    if first.bound_slot != second.bound_slot || first.element_stride != second.element_stride {
        return None;
    }
    match find_handed_over(s, first, second) {
        Some(slot) => Some(
            FusedLoopPair {
                first: i,
                second: j,
                intermediate_slot: slot,
                fused_op: fuse_ops(first.op, second.op),
            },
        ),
        None => None,
    }
}

/// The pairs of loops that can become one, by the first loop and then by the second.
pub fn find_fusion_candidates(loops: &[ElementwiseLoopInfo], instrs: &[Instr]) -> (r: Vec<
    FusedLoopPair,
>)
    requires
        instrs@.len() > 0 || loops@.len() < 2,
    ensures
        r@ == pairs_upto(loops@, instrs@, loops@.len() as int),
{
    let mut r: Vec<FusedLoopPair> = Vec::new();
    let mut i: usize = 0;
    while i < loops.len()
        invariant
            i <= loops@.len(),
            instrs@.len() > 0 || loops@.len() < 2,
            r@ == pairs_upto(loops@, instrs@, i as int),
        decreases loops@.len() - i,
    {
        let ghost before = r@;
        let mut j: usize = i + 1;
        while j < loops.len()
            invariant
                i < j <= loops@.len(),
                instrs@.len() > 0 || loops@.len() < 2,
                r@ == before + pairs_with(loops@, instrs@, i as int, j as int),
            decreases loops@.len() - j,
        {
            if let Some(p) = fuse_pair(loops, instrs, i, j) {
                r.push(p);
            }
            j += 1;
            assert(r@ =~= before + pairs_with(loops@, instrs@, i as int, j as int));
        }
        i += 1;
    }
    r
}

/// How far ahead a loop prefetches.
#[derive(Debug, Clone, Copy, PartialEq, Eq, Structural)]
pub struct PrefetchConfig {
    /// Cache lines ahead for the first level.
    pub l1_ahead_lines: i32,
    /// Cache lines ahead for the second level.
    pub l2_ahead_lines: i32,
    /// Bytes of a cache line.
    pub cache_line_bytes: i32,
    /// Whether to prefetch into the second level.
    pub emit_l2_prefetch: bool,
}

impl Default for PrefetchConfig {
    fn default() -> (r: PrefetchConfig)
        ensures
            r == (PrefetchConfig {
                l1_ahead_lines: 2,
                l2_ahead_lines: 8,
                cache_line_bytes: 64,
                emit_l2_prefetch: true,
            }),
    {
        PrefetchConfig {
            l1_ahead_lines: 2,
            l2_ahead_lines: 8,
            cache_line_bytes: 64,
            emit_l2_prefetch: true,
        }
    }
}

/// The displacements at which a loop prefetches: one for the first level, and one for the second
/// where that is wanted.
pub fn loop_prefetch(iv_offset: i32, config: &PrefetchConfig) -> (r: (i32, Option<i32>))
    requires
        i32::MIN <= config.l1_ahead_lines * config.cache_line_bytes <= i32::MAX,
        i32::MIN <= config.l2_ahead_lines * config.cache_line_bytes <= i32::MAX,
        i32::MIN <= iv_offset + config.l1_ahead_lines * config.cache_line_bytes <= i32::MAX,
        config.emit_l2_prefetch ==> i32::MIN <= iv_offset + config.l2_ahead_lines
            * config.cache_line_bytes <= i32::MAX,
    ensures
        r.0 == iv_offset + config.l1_ahead_lines * config.cache_line_bytes,
        r.1 is Some <==> config.emit_l2_prefetch,
        r.1 matches Some(d) ==> d == iv_offset + config.l2_ahead_lines * config.cache_line_bytes,
        r.1 matches Some(d) ==> d - r.0 == (config.l2_ahead_lines - config.l1_ahead_lines)
            * config.cache_line_bytes,
{
    assert((config.l2_ahead_lines - config.l1_ahead_lines) * config.cache_line_bytes
        == config.l2_ahead_lines * config.cache_line_bytes - config.l1_ahead_lines
        * config.cache_line_bytes) by (nonlinear_arith);
    let near: i32 = iv_offset + config.l1_ahead_lines * config.cache_line_bytes;
    let ahead: i32 = config.l2_ahead_lines * config.cache_line_bytes;
    let far: Option<i32> = if config.emit_l2_prefetch {
        Some(iv_offset + ahead)
    } else {
        None
    };
    (near, far)
}

} // verus!
