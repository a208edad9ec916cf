//! Which loops are found and which of them can become one.

use vstd::prelude::*;
use crate::simd_math::{
    elementwise_of, elementwise_of_unary, fuse_ops, ElementwiseLoopInfo, ElementwiseOp,
    FusedLoopPair, LoopFacts,
};
use crate::types::{BinOpKind, Instr, UnOpKind};

verus! {

/// The loop that a jump back closes, where it can be vectorized, is among those that are found; it
/// begins where the jump leads and ends with the jump.
pub proof fn every_backward_jump_is_looked_at(s: Seq<Instr>, pc: int, off: i32, count: int)
    requires
        0 <= pc < count <= s.len() <= i32::MAX,
        s[pc] == Instr::Jump(off),
        0 <= pc + 1 + off <= pc,
        crate::simd_math::loop_info(s, (pc + 1 + off) as usize, pc as usize) is Some,
    ensures
        ({
            let info = crate::simd_math::loop_info(
                s,
                (pc + 1 + off) as usize,
                pc as usize,
            ).unwrap();
            &&& crate::simd_math::loops_in(s, count).contains(info)
            &&& info.loop_start == pc + 1 + off
            &&& info.loop_end == pc
        }),
    decreases count,
{
    let info = crate::simd_math::loop_info(s, (pc + 1 + off) as usize, pc as usize).unwrap();
    let before = crate::simd_math::loops_in(s, count - 1);
    let all = crate::simd_math::loops_in(s, count);
    if pc == count - 1 {
        assert(all == before.push(info));
        assert(all[before.len() as int] == info);
    } else {
        every_backward_jump_is_looked_at(s, pc, off, count - 1);
        let i = choose|i: int| 0 <= i < before.len() && before[i] == info;
        assert(all[i] == info);
    }
}

/// What one instruction tells of a loop. A load of a float fixes the distance of elements, an
/// operator gives the operation if none was known, and nothing else is changed by them.
pub proof fn learning_from_an_instruction(f: LoopFacts, s: Seq<Instr>, start: int, pc: int)
    ensures
        ({
            let g = crate::simd_math::learn(f, s, start, pc);
            &&& s[pc] is LoadF64 ==> g.stride == 8 && g.iv == f.iv && g.bound == f.bound && g.op
                == f.op
            &&& s[pc] is LoadF32 ==> g.stride == 4 && g.iv == f.iv && g.bound == f.bound && g.op
                == f.op
            &&& s[pc] matches Instr::UnOp(_, op, _) ==> g.stride == f.stride && g.iv == f.iv
                && g.bound == f.bound && (f.op is Some ==> g.op == f.op) && (f.op is None && op
                == UnOpKind::Sqrt ==> g.op == Some(ElementwiseOp::Sqrt)) && (f.op is None && op
                == UnOpKind::Neg ==> g.op == Some(ElementwiseOp::Neg)) && (f.op is None && op
                != UnOpKind::Sqrt && op != UnOpKind::Neg ==> g.op is None)
            &&& s[pc] matches Instr::BinOp(_, op, _, _) ==> (f.op is Some ==> g.op == f.op) && (
            f.op is None && op == BinOpKind::Add ==> g.op == Some(ElementwiseOp::Add)) && (f.op
                is None && op == BinOpKind::Sub ==> g.op == Some(ElementwiseOp::Sub)) && (f.op
                is None && op == BinOpKind::Mul ==> g.op == Some(ElementwiseOp::Mul)) && (f.op
                is None && op == BinOpKind::FmaAdd ==> g.op == Some(ElementwiseOp::Fma)) && (f.op
                is None && op != BinOpKind::Add && op != BinOpKind::Sub && op != BinOpKind::Mul
                && op != BinOpKind::FmaAdd ==> g.op is None)
            &&& s[pc] is Jump || s[pc] is LoadI64 || s[pc] is LoadI32 || s[pc] is Move || s[pc]
                is Load || s[pc] is Store || s[pc] is Nop ==> g == f
        }),
{
}

/// Only an addition to its own target gives an induction variable or another distance, and only
/// where an integer was loaded into one of its operands before it in the loop; only a comparison
/// with the induction variable gives a bound.
pub proof fn other_operators_teach_no_counter(
    f: LoopFacts,
    s: Seq<Instr>,
    start: int,
    pc: int,
    d: u16,
    op: BinOpKind,
    l: u16,
    r: u16,
)
    requires
        0 <= start <= pc < s.len(),
        s[pc] == Instr::BinOp(d, op, l, r),
    ensures
        ({
            let g = crate::simd_math::learn(f, s, start, pc);
            let loaded = exists|p: int|
                start <= p < pc && match #[trigger] s[p] {
                    Instr::LoadI32(slot, _) => slot == l || slot == r,
                    Instr::LoadI64(slot, _) => slot == l || slot == r,
                    _ => false,
                };
            &&& op != BinOpKind::Add || (l != d && r != d) || !loaded ==> g.iv == f.iv && g.stride
                == f.stride
            &&& op == BinOpKind::Add && (l == d || r == d) && loaded ==> g.iv == Some(d)
            &&& op != BinOpKind::Lt || f.iv is None || (f.iv != Some(l) && f.iv != Some(r))
                ==> g.bound == f.bound
        }),
{
    lemma_step_was_loaded(s, start, pc, l, r);
}

proof fn lemma_step_was_loaded(s: Seq<Instr>, start: int, pc: int, l: u16, r: u16)
    requires
        0 <= start <= pc <= s.len(),
    ensures
        crate::simd_math::last_step(s, start, pc, l, r) is Some <==> exists|p: int|
            start <= p < pc && match #[trigger] s[p] {
                Instr::LoadI32(slot, _) => slot == l || slot == r,
                Instr::LoadI64(slot, _) => slot == l || slot == r,
                _ => false,
            },
    decreases pc - start,
{
    if start < pc {
        lemma_step_was_loaded(s, start, pc - 1, l, r);
        let last = s[pc - 1];
        assert(crate::simd_math::loaded_step(last, l, r) is Some <==> match last {
            Instr::LoadI32(slot, _) => slot == l || slot == r,
            Instr::LoadI64(slot, _) => slot == l || slot == r,
            _ => false,
        });
    }
}

/// A slot that is increased by a constant that the loop loaded is the induction variable. An
/// increment of more than one widens the distance to so many elements of four bytes.
pub proof fn increment_gives_the_induction_variable(
    f: LoopFacts,
    s: Seq<Instr>,
    start: int,
    pc: int,
    d: u16,
    t: u16,
    step: i64,
)
    requires
        0 <= start < pc < s.len(),
        s[pc] == Instr::BinOp(d, BinOpKind::Add, d, t) || s[pc] == Instr::BinOp(
            d,
            BinOpKind::Add,
            t,
            d,
        ),
        s[pc - 1] == Instr::LoadI64(t, step),
        step <= 0x3fff_ffff,
    ensures
        ({
            let g = crate::simd_math::learn(f, s, start, pc);
            &&& g.iv == Some(d)
            &&& step > 1 ==> g.stride == 4 * step
            &&& step <= 1 ==> g.stride == f.stride
            &&& g.bound == f.bound
        }),
{
    assert(crate::simd_math::last_step(s, start, pc, d, t) == Some(step));
    assert(crate::simd_math::last_step(s, start, pc, t, d) == Some(step));
}

/// What the induction variable is compared with is the bound, on whichever side it stands.
pub proof fn comparison_gives_the_bound(
    f: LoopFacts,
    s: Seq<Instr>,
    start: int,
    pc: int,
    x: u16,
    iv: u16,
    n: u16,
)
    requires
        f.iv == Some(iv),
    ensures
        s[pc] == Instr::BinOp(x, BinOpKind::Lt, iv, n) ==> crate::simd_math::learn(
            f,
            s,
            start,
            pc,
        ).bound == Some(n),
        s[pc] == Instr::BinOp(x, BinOpKind::Lt, n, iv) && n != iv ==> crate::simd_math::learn(
            f,
            s,
            start,
            pc,
        ).bound == Some(n),
        s[pc] == Instr::BinOp(x, BinOpKind::Lt, iv, n) ==> crate::simd_math::learn(
            f,
            s,
            start,
            pc,
        ).iv == Some(iv),
{
}

/// A counted loop is found whole: an operation, the increment of the induction variable by a loaded
/// constant, the comparison with the bound and the jump back to the operation give exactly that
/// variable, that bound, that operation and the distance of the increment.
pub proof fn counted_loop_is_found(
    s: Seq<Instr>,
    at: int,
    a: u16,
    op: BinOpKind,
    b: u16,
    c: u16,
    t: u16,
    step: i64,
    d: u16,
    x: u16,
    n: u16,
)
    requires
        0 <= at,
        at + 5 <= s.len() <= i32::MAX,
        s[at] == Instr::BinOp(a, op, b, c),
        op == BinOpKind::Sub || op == BinOpKind::Mul || op == BinOpKind::FmaAdd,
        s[at + 1] == Instr::LoadI64(t, step),
        1 <= step <= 0x3fff_ffff,
        s[at + 2] == Instr::BinOp(d, BinOpKind::Add, d, t),
        s[at + 3] == Instr::BinOp(x, BinOpKind::Lt, d, n),
        s[at + 4] == Instr::Jump((-5) as i32),
    ensures
        crate::simd_math::loops_in(s, s.len() as int).contains(
            (ElementwiseLoopInfo {
                base_slot: 0,
                iv_slot: d,
                bound_slot: n,
                op: if op == BinOpKind::Sub {
                    ElementwiseOp::Sub
                } else if op == BinOpKind::Mul {
                    ElementwiseOp::Mul
                } else {
                    ElementwiseOp::Fma
                },
                element_stride: (4 * step) as u32,
                loop_start: at as usize,
                loop_end: (at + 4) as usize,
            }),
        ),
{
    reveal_with_fuel(crate::simd_math::facts, 6);
    let f0 = crate::simd_math::facts(s, at, at);
    let f1 = crate::simd_math::facts(s, at, at + 1);
    let f2 = crate::simd_math::facts(s, at, at + 2);
    let f3 = crate::simd_math::facts(s, at, at + 3);
    let f4 = crate::simd_math::facts(s, at, at + 4);
    let f5 = crate::simd_math::facts(s, at, at + 5);
    assert(f1 == crate::simd_math::learn(f0, s, at, at));
    assert(f2 == crate::simd_math::learn(f1, s, at, at + 1));
    assert(f3 == crate::simd_math::learn(f2, s, at, at + 2));
    assert(f4 == crate::simd_math::learn(f3, s, at, at + 3));
    assert(f5 == crate::simd_math::learn(f4, s, at, at + 4));
    increment_gives_the_induction_variable(f2, s, at, at + 2, d, t, step);
    comparison_gives_the_bound(f3, s, at, at + 3, x, d, n);
    assert(f1.iv is None && f1.stride == 4);
    let info = crate::simd_math::loop_info(s, at as usize, (at + 4) as usize);
    assert(info is Some);
    every_backward_jump_is_looked_at(s, at + 4, (-5) as i32, s.len() as int);
}

/// A product whose result is added to or subtracted from is one fused operation; behind any other
/// operation the second one stays.
pub proof fn products_with_sums_are_fused(a: ElementwiseOp, b: ElementwiseOp)
    ensures
        a == ElementwiseOp::Mul && (b == ElementwiseOp::Add || b == ElementwiseOp::Sub) ==> fuse_ops(
            a,
            b,
        ) == ElementwiseOp::Fma,
        a != ElementwiseOp::Mul ==> fuse_ops(a, b) == b,
        b != ElementwiseOp::Add && b != ElementwiseOp::Sub ==> fuse_ops(a, b) == b,
{
}

/// Two loops with one bound and one distance of elements, of which the first stores through a slot
/// that the second loads through, can become one: the pair is found, with the operation that both
/// amount to.
pub proof fn producer_and_consumer_are_paired(
    loops: Seq<ElementwiseLoopInfo>,
    s: Seq<Instr>,
    i: int,
    j: int,
    store: int,
    load: int,
    slot: u16,
    v: u16,
    w: u16,
)
    requires
        0 <= i < j < loops.len() <= usize::MAX,
        loops[i].bound_slot == loops[j].bound_slot,
        loops[i].element_stride == loops[j].element_stride,
        loops[i].loop_start <= store <= loops[i].loop_end < s.len(),
        loops[j].loop_start <= load <= loops[j].loop_end < s.len(),
        s[store] == Instr::Store(slot, v),
        s[load] == Instr::Load(w, slot),
    ensures
        exists|p: FusedLoopPair|
            {
                &&& #[trigger] crate::simd_math::pairs_upto(loops, s, loops.len() as int).contains(
                    p,
                )
                &&& p.first == i
                &&& p.second == j
                &&& p.fused_op == fuse_ops(loops[i].op, loops[j].op)
            },
{
    assert(crate::simd_math::reads(s, loops[j], slot));
    lemma_handed_over(s, loops[i], loops[j], store, slot, loops[i].loop_end + 1);
    let p = crate::simd_math::pair_of(loops, s, i, j).unwrap();
    lemma_pair_is_listed(loops, s, i, j, loops.len() as int);
    lemma_row_is_listed(loops, s, i, loops.len() as int, p);
    assert(crate::simd_math::pairs_upto(loops, s, loops.len() as int).contains(p));
}

proof fn lemma_handed_over(
    s: Seq<Instr>,
    first: ElementwiseLoopInfo,
    second: ElementwiseLoopInfo,
    store: int,
    slot: u16,
    pc: int,
)
    requires
        first.loop_start <= store < pc,
        s[store] matches Instr::Store(x, _) && x == slot,
        crate::simd_math::reads(s, second, slot),
    ensures
        crate::simd_math::handed_over(s, first, second, pc) is Some,
    decreases pc,
{
    if store < pc - 1 {
        lemma_handed_over(s, first, second, store, slot, pc - 1);
    }
}

proof fn lemma_pair_is_listed(
    loops: Seq<ElementwiseLoopInfo>,
    s: Seq<Instr>,
    i: int,
    j: int,
    k: int,
)
    requires
        0 <= i < j < k <= loops.len(),
        crate::simd_math::pair_of(loops, s, i, j) is Some,
    ensures
        crate::simd_math::pairs_with(loops, s, i, k).contains(
            crate::simd_math::pair_of(loops, s, i, j).unwrap(),
        ),
    decreases k,
{
    let p = crate::simd_math::pair_of(loops, s, i, j).unwrap();
    let before = crate::simd_math::pairs_with(loops, s, i, k - 1);
    let all = crate::simd_math::pairs_with(loops, s, i, k);
    if j == k - 1 {
        assert(all[before.len() as int] == p);
    } else {
        lemma_pair_is_listed(loops, s, i, j, k - 1);
        let q = choose|q: int| 0 <= q < before.len() && before[q] == p;
        assert(all[q] == p);
    }
}

proof fn lemma_row_is_listed(
    loops: Seq<ElementwiseLoopInfo>,
    s: Seq<Instr>,
    i: int,
    k: int,
    p: FusedLoopPair,
)
    requires
        0 <= i < k <= loops.len(),
        crate::simd_math::pairs_with(loops, s, i, loops.len() as int).contains(p),
    ensures
        crate::simd_math::pairs_upto(loops, s, k).contains(p),
    decreases k,
{
    let before = crate::simd_math::pairs_upto(loops, s, k - 1);
    let row = crate::simd_math::pairs_with(loops, s, k - 1, loops.len() as int);
    let all = crate::simd_math::pairs_upto(loops, s, k);
    if i == k - 1 {
        let q = choose|q: int| 0 <= q < row.len() && row[q] == p;
        assert(all[before.len() + q] == p);
    } else {
        lemma_row_is_listed(loops, s, i, k - 1, p);
        let q = choose|q: int| 0 <= q < before.len() && before[q] == p;
        assert(all[q] == p);
    }
}

/// A pair that is found hands something over: the loops share bound and distance, and a store of the
/// first and a load of the second go through the slot that the pair names.
pub proof fn pairs_hand_something_over(
    loops: Seq<ElementwiseLoopInfo>,
    s: Seq<Instr>,
    i: int,
    j: int,
    p: FusedLoopPair,
)
    requires
        0 <= i < loops.len() <= usize::MAX,
        0 <= j < loops.len(),
        s.len() > 0,
        crate::simd_math::pair_of(loops, s, i, j) == Some(p),
    ensures
        p.first == i,
        p.second == j,
        loops[i].bound_slot == loops[j].bound_slot,
        loops[i].element_stride == loops[j].element_stride,
        exists|store: int|
            loops[i].loop_start <= store < s.len() && store <= loops[i].loop_end && (
            #[trigger] s[store] matches Instr::Store(x, _) && x == p.intermediate_slot),
        exists|load: int|
            loops[j].loop_start <= load < s.len() && load <= loops[j].loop_end && (
            #[trigger] s[load] matches Instr::Load(_, x) && x == p.intermediate_slot),
{
    lemma_store_exists(
        s,
        loops[i],
        loops[j],
        crate::simd_math::last_of(s, loops[i]) + 1,
    );
    let slot = p.intermediate_slot;
    let l = loops[j];
    let pc = choose|pc: int|
        l.loop_start <= pc <= crate::simd_math::last_of(s, l) && (#[trigger] s[pc] matches Instr::Load(
            _,
            src,
        ) && src == slot);
    assert(s[pc] matches Instr::Load(_, x) && x == slot);
}

proof fn lemma_store_exists(
    s: Seq<Instr>,
    first: ElementwiseLoopInfo,
    second: ElementwiseLoopInfo,
    pc: int,
)
    requires
        crate::simd_math::handed_over(s, first, second, pc) is Some,
        pc <= crate::simd_math::last_of(s, first) + 1,
    ensures
        ({
            let slot = crate::simd_math::handed_over(s, first, second, pc).unwrap();
            &&& crate::simd_math::reads(s, second, slot)
            &&& exists|store: int|
                first.loop_start <= store < pc && (#[trigger] s[store] matches Instr::Store(x, _) && x
                    == slot)
        }),
    decreases pc - first.loop_start,
{
    let slot = crate::simd_math::handed_over(s, first, second, pc).unwrap();
    let here = s[pc - 1] matches Instr::Store(x, _) && crate::simd_math::reads(s, second, x);
    if here {
        assert(s[pc - 1] matches Instr::Store(x, _) && x == slot);
    } else {
        lemma_store_exists(s, first, second, pc - 1);
        let store = choose|store: int|
            first.loop_start <= store < pc - 1 && (#[trigger] s[store] matches Instr::Store(x, _) && x
                == slot);
        assert(s[store] matches Instr::Store(x, _) && x == slot);
    }
}

/// The operators with an elementwise operation are sums, differences, products and fused ones of two
/// slots, and roots and negations of one.
pub proof fn operators_with_an_elementwise_operation(op: BinOpKind, un: UnOpKind)
    ensures
        elementwise_of(op) == Some(ElementwiseOp::Add) <==> op == BinOpKind::Add,
        elementwise_of(op) == Some(ElementwiseOp::Sub) <==> op == BinOpKind::Sub,
        elementwise_of(op) == Some(ElementwiseOp::Mul) <==> op == BinOpKind::Mul,
        elementwise_of(op) == Some(ElementwiseOp::Fma) <==> op == BinOpKind::FmaAdd,
        elementwise_of_unary(un) == Some(ElementwiseOp::Sqrt) <==> un == UnOpKind::Sqrt,
        elementwise_of_unary(un) == Some(ElementwiseOp::Neg) <==> un == UnOpKind::Neg,
{
}

/// Whether pair `p` comes before pair `q`: its first loop does, or both have one first loop and
/// its second loop does.
pub open spec fn earlier(p: FusedLoopPair, q: FusedLoopPair) -> bool {
    p.first < q.first || (p.first == q.first && p.second < q.second)
}

proof fn lemma_pairs_of_one(
    loops: Seq<ElementwiseLoopInfo>,
    s: Seq<Instr>,
    i: int,
    j: int,
    c: int,
    d: int,
)
    requires
        0 <= i,
        j <= loops.len() <= usize::MAX,
        0 <= c <= d < crate::simd_math::pairs_with(loops, s, i, j).len(),
    ensures
        ({
            let ps = crate::simd_math::pairs_with(loops, s, i, j);
            &&& ps[c].first == i
            &&& i < ps[c].second < j
            &&& crate::simd_math::pair_of(loops, s, i, ps[c].second as int) == Some(ps[c])
            &&& c < d ==> ps[c].second < ps[d].second
        }),
    decreases j - i,
{
    let ps = crate::simd_math::pairs_with(loops, s, i, j);
    if j > i + 1 {
        let before = crate::simd_math::pairs_with(loops, s, i, j - 1);
        if c < before.len() {
            assert(ps[c] == before[c]);
            if d < before.len() {
                assert(ps[d] == before[d]);
                lemma_pairs_of_one(loops, s, i, j - 1, c, d);
            } else {
                lemma_pairs_of_one(loops, s, i, j - 1, c, c);
                assert(crate::simd_math::pair_of(loops, s, i, j - 1) == Some(ps[d]));
            }
        } else {
            assert(crate::simd_math::pair_of(loops, s, i, j - 1) == Some(ps[c]));
        }
    }
}

proof fn lemma_pairs_in_order(
    loops: Seq<ElementwiseLoopInfo>,
    s: Seq<Instr>,
    i: int,
    c: int,
    d: int,
)
    requires
        0 <= i <= loops.len() <= usize::MAX,
        0 <= c <= d < crate::simd_math::pairs_upto(loops, s, i).len(),
    ensures
        ({
            let ps = crate::simd_math::pairs_upto(loops, s, i);
            &&& ps[c].first < i
            &&& ps[c].first < ps[c].second < loops.len()
            &&& crate::simd_math::pair_of(
                loops,
                s,
                ps[c].first as int,
                ps[c].second as int,
            ) == Some(ps[c])
            &&& c < d ==> earlier(ps[c], ps[d])
        }),
    decreases i,
{
    let ps = crate::simd_math::pairs_upto(loops, s, i);
    if i > 0 {
        let n = loops.len() as int;
        let before = crate::simd_math::pairs_upto(loops, s, i - 1);
        let more = crate::simd_math::pairs_with(loops, s, i - 1, n);
        let b = before.len() as int;
        if d < b {
            lemma_pairs_in_order(loops, s, i - 1, c, d);
            assert(ps[c] == before[c] && ps[d] == before[d]);
        } else if c < b {
            lemma_pairs_in_order(loops, s, i - 1, c, c);
            lemma_pairs_of_one(loops, s, i - 1, n, d - b, d - b);
            assert(ps[c] == before[c] && ps[d] == more[d - b]);
        } else {
            lemma_pairs_of_one(loops, s, i - 1, n, c - b, d - b);
            lemma_pairs_of_one(loops, s, i - 1, n, d - b, d - b);
            assert(ps[c] == more[c - b] && ps[d] == more[d - b]);
        }
    }
}

/// Every pair that is found joins a loop with one behind it, and the pairs are listed by their
/// first loop and then by their second, none twice.
pub proof fn pairs_join_two_loops(
    loops: Seq<ElementwiseLoopInfo>,
    s: Seq<Instr>,
    c: int,
    d: int,
)
    requires
        loops.len() <= usize::MAX,
        0 <= c < d < crate::simd_math::pairs_upto(loops, s, loops.len() as int).len(),
    ensures
        ({
            let ps = crate::simd_math::pairs_upto(loops, s, loops.len() as int);
            &&& ps[c].first < ps[c].second < loops.len()
            &&& crate::simd_math::pair_of(
                loops,
                s,
                ps[c].first as int,
                ps[c].second as int,
            ) == Some(ps[c])
            &&& ps[d].first < ps[d].second < loops.len()
            &&& crate::simd_math::pair_of(
                loops,
                s,
                ps[d].first as int,
                ps[d].second as int,
            ) == Some(ps[d])
            &&& earlier(ps[c], ps[d])
        }),
{
    lemma_pairs_in_order(loops, s, loops.len() as int, c, d);
    lemma_pairs_in_order(loops, s, loops.len() as int, d, d);
}

} // verus!
