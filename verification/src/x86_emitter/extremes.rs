//! What a fused maximum or minimum amounts to: it is the result on one of the elements, and no
//! other goes beyond it.

use vstd::prelude::*;
use super::fused;
use super::fused::{Arithmetic, ChunkPlan, Folding, FusedOpDesc, Reduce, Run};
use super::inst::Arith;

verus! {

/// Whether `g` keeps the one of two values that ranks higher.
pub open spec fn keeps_the_higher<T, G: Fn(Reduce, T, T) -> T>(
    g: G,
    reduce: Reduce,
    rank: spec_fn(T) -> int,
) -> bool {
    forall|x: T, y: T, z: T| #[trigger]
        g.ensures((reduce, x, y), z) ==> rank(z) >= rank(x) && rank(z) >= rank(y) && (rank(z)
            == rank(x) || rank(z) == rank(y))
}

/// Whether every result of the operations on element `i` ranks at `height(i)`.
pub open spec fn results_rank<T, F: Fn(Arith, T, T) -> T>(
    f: F,
    ops: Seq<FusedOpDesc>,
    inputs: Seq<Vec<T>>,
    constants: Seq<T>,
    zero: T,
    rank: spec_fn(T) -> int,
    height: spec_fn(int) -> int,
) -> bool {
    forall|i: int, v: T| #[trigger]
        fused::is_result(f, ops, inputs, constants, zero, i, v) ==> rank(v) == height(i)
}

/// Whether `x` is the height of one of the elements that `of` admits, and none of them is higher.
pub open spec fn tops(x: int, height: spec_fn(int) -> int, of: spec_fn(int) -> bool) -> bool {
    &&& forall|i: int| #[trigger] of(i) ==> x >= height(i)
    &&& exists|i: int| #[trigger] of(i) && x == height(i)
}

proof fn lemma_run<T, F: Fn(Arith, T, T) -> T, G: Fn(Reduce, T, T) -> T>(
    f: F,
    g: G,
    ops: Seq<FusedOpDesc>,
    inputs: Seq<Vec<T>>,
    constants: Seq<T>,
    zero: T,
    reduce: Reduce,
    which: Seq<int>,
    run: Run<T>,
    rank: spec_fn(T) -> int,
    height: spec_fn(int) -> int,
    i: int,
)
    requires
        reduce != Reduce::Sum,
        fused::is_run(f, g, ops, inputs, constants, zero, reduce, which, run),
        keeps_the_higher(g, reduce, rank),
        results_rank(f, ops, inputs, constants, zero, rank, height),
        0 <= i < which.len(),
    ensures
        forall|k: int| 0 <= k <= i ==> rank(run.totals[i]) >= height(#[trigger] which[k]),
        exists|k: int| 0 <= k <= i && rank(run.totals[i]) == height(#[trigger] which[k]),
    decreases i,
{
    assert(fused::is_result(f, ops, inputs, constants, zero, which[i], run.values[i]));
    if i == 0 {
        assert(run.totals[0] == run.values[0]);
        assert(rank(run.totals[i]) == height(which[0]));
    } else {
        lemma_run(f, g, ops, inputs, constants, zero, reduce, which, run, rank, height, i - 1);
        assert(g.ensures((reduce, run.totals[i - 1], run.values[i]), run.totals[i]));
        if rank(run.totals[i]) == rank(run.totals[i - 1]) {
            let k = choose|k: int|
                0 <= k <= i - 1 && rank(run.totals[i - 1]) == height(#[trigger] which[k]);
            assert(0 <= k <= i && rank(run.totals[i]) == height(which[k]));
        } else {
            assert(rank(run.totals[i]) == height(which[i]));
        }
    }
}

proof fn lemma_partial<T, F: Fn(Arith, T, T) -> T, G: Fn(Reduce, T, T) -> T>(
    f: F,
    g: G,
    ops: Seq<FusedOpDesc>,
    inputs: Seq<Vec<T>>,
    constants: Seq<T>,
    zero: T,
    reduce: Reduce,
    which: Seq<int>,
    v: Option<T>,
    rank: spec_fn(T) -> int,
    height: spec_fn(int) -> int,
)
    requires
        reduce != Reduce::Sum,
        fused::is_partial(f, g, ops, inputs, constants, zero, reduce, which, v),
        keeps_the_higher(g, reduce, rank),
        results_rank(f, ops, inputs, constants, zero, rank, height),
    ensures
        v is None ==> which.len() == 0,
        v matches Some(x) ==> tops(rank(x), height, |i: int| which.contains(i)),
{
    if v is Some {
        let x = v->0;
        let of = |i: int| which.contains(i);
        let run = choose|run: Run<T>| #[trigger]
            fused::is_run(f, g, ops, inputs, constants, zero, reduce, which, run) && x
                == run.totals.last();
        let n = which.len() - 1;
        lemma_run(f, g, ops, inputs, constants, zero, reduce, which, run, rank, height, n);
        assert forall|i: int| #[trigger] of(i) implies rank(x) >= height(i) by {
            let k = choose|k: int| 0 <= k < which.len() && which[k] == i;
            assert(rank(run.totals[n]) >= height(which[k]));
        }
        let k = choose|k: int| 0 <= k <= n && rank(run.totals[n]) == height(#[trigger] which[k]);
        assert(of(which[k]));
    }
}

/// Whether `x` tops what `of` admits, where it is there, and `of` admits nothing where it is not.
spec fn tops_if_any<T>(
    v: Option<T>,
    rank: spec_fn(T) -> int,
    height: spec_fn(int) -> int,
    of: spec_fn(int) -> bool,
) -> bool {
    match v {
        Some(x) => tops(rank(x), height, of),
        None => forall|i: int| !#[trigger] of(i),
    }
}

proof fn lemma_joined<T, G: Fn(Reduce, T, T) -> T>(
    g: G,
    reduce: Reduce,
    a: Option<T>,
    b: Option<T>,
    r: Option<T>,
    rank: spec_fn(T) -> int,
    height: spec_fn(int) -> int,
    first: spec_fn(int) -> bool,
    second: spec_fn(int) -> bool,
    both: spec_fn(int) -> bool,
)
    requires
        fused::is_joined(g, reduce, a, b, r),
        keeps_the_higher(g, reduce, rank),
        tops_if_any(a, rank, height, first),
        tops_if_any(b, rank, height, second),
        forall|i: int| #[trigger] both(i) <==> first(i) || second(i),
    ensures
        tops_if_any(r, rank, height, both),
{
    match (a, b) {
        (Some(x), Some(y)) => {
            let z = r->0;
            lemma_higher(rank(x), rank(y), rank(z), height, first, second, both);
        },
        (Some(x), None) => {
            let i = choose|i: int| #[trigger] first(i) && rank(x) == height(i);
            assert(both(i));
        },
        (None, Some(y)) => {
            let i = choose|i: int| #[trigger] second(i) && rank(y) == height(i);
            assert(both(i));
        },
        (None, None) => {},
    }
}

proof fn lemma_higher(
    x: int,
    y: int,
    z: int,
    height: spec_fn(int) -> int,
    first: spec_fn(int) -> bool,
    second: spec_fn(int) -> bool,
    both: spec_fn(int) -> bool,
)
    requires
        tops(x, height, first),
        tops(y, height, second),
        z >= x,
        z >= y,
        z == x || z == y,
        forall|i: int| #[trigger] both(i) <==> first(i) || second(i),
    ensures
        tops(z, height, both),
{
    let i = choose|i: int| #[trigger] first(i) && x == height(i);
    let j = choose|j: int| #[trigger] second(j) && y == height(j);
    assert(both(i) && both(j));
    assert forall|k: int| #[trigger] both(k) implies z >= height(k) by {
        if first(k) {
            assert(x >= height(k));
        } else {
            assert(y >= height(k));
        }
    }
}

proof fn lemma_members_below(count: int, unrolled: int, q: int, k: int)
    requires
        0 <= k < fused::members(count, unrolled, q).len(),
    ensures
        0 <= fused::members(count, unrolled, q)[k] < count,
    decreases count,
{
    if count > 0 {
        let before = fused::members(count - 1, unrolled, q);
        if k < before.len() {
            lemma_members_below(count - 1, unrolled, q, k);
        }
    }
}

/// Whether `i` is the element in place `l` of one of the first `count` vectors of `width`.
pub open spec fn in_lane(count: int, width: int, l: int, i: int) -> bool {
    exists|c: int| 0 <= c < count && i == #[trigger] (c * width) + l
}

proof fn lemma_lane_is_partitioned(count: int, unrolled: int, width: int, l: int, i: int)
    ensures
        in_lane(count, width, l, i) <==> (fused::places(count, unrolled, 0, width, l).contains(i)
            || fused::places(count, unrolled, 1, width, l).contains(i) || fused::places(
            count,
            unrolled,
            2,
            width,
            l,
        ).contains(i) || fused::places(count, unrolled, 3, width, l).contains(i)),
{
    if in_lane(count, width, l, i) {
        let c = choose|c: int| 0 <= c < count && i == #[trigger] (c * width) + l;
        let q = fused::goes_to(c, unrolled);
        assert(0 <= q < 4);
        fused::members_are_a_partition(count, unrolled, q, c);
        let m = fused::members(count, unrolled, q);
        let k = choose|k: int| 0 <= k < m.len() && m[k] == c;
        assert(fused::places(count, unrolled, q, width, l)[k] == i);
    }
    lemma_place_is_in_lane(count, unrolled, 0, width, l, i);
    lemma_place_is_in_lane(count, unrolled, 1, width, l, i);
    lemma_place_is_in_lane(count, unrolled, 2, width, l, i);
    lemma_place_is_in_lane(count, unrolled, 3, width, l, i);
}

proof fn lemma_place_is_in_lane(count: int, unrolled: int, q: int, width: int, l: int, i: int)
    ensures
        fused::places(count, unrolled, q, width, l).contains(i) ==> in_lane(count, width, l, i),
{
    let p = fused::places(count, unrolled, q, width, l);
    if p.contains(i) {
        let k = choose|k: int| 0 <= k < p.len() && p[k] == i;
        let c = fused::members(count, unrolled, q)[k];
        lemma_members_below(count, unrolled, q, k);
        assert(i == (c * width) + l);
    }
}

proof fn lemma_lane<T, F: Fn(Arith, T, T) -> T, G: Fn(Reduce, T, T) -> T>(
    f: F,
    g: G,
    ops: Seq<FusedOpDesc>,
    inputs: Seq<Vec<T>>,
    constants: Seq<T>,
    zero: T,
    reduce: Reduce,
    count: int,
    unrolled: int,
    width: int,
    l: int,
    v: T,
    rank: spec_fn(T) -> int,
    height: spec_fn(int) -> int,
)
    requires
        reduce != Reduce::Sum,
        fused::is_lane(f, g, ops, inputs, constants, zero, reduce, count, unrolled, width, l, v),
        keeps_the_higher(g, reduce, rank),
        results_rank(f, ops, inputs, constants, zero, rank, height),
    ensures
        tops(rank(v), height, |i: int| in_lane(count, width, l, i)),
{
    let at = |q: int| fused::places(count, unrolled, q, width, l);
    let p = choose|p: Seq<Option<T>>|
        (forall|q: int|
            0 <= q < 4 ==> fused::is_partial(
                f,
                g,
                ops,
                inputs,
                constants,
                zero,
                reduce,
                fused::places(count, unrolled, q, width, l),
                #[trigger] p[q],
            )) && #[trigger] fused::is_combination(g, reduce, p, Some(v));
    lemma_partial(f, g, ops, inputs, constants, zero, reduce, at(0), p[0], rank, height);
    lemma_partial(f, g, ops, inputs, constants, zero, reduce, at(1), p[1], rank, height);
    lemma_partial(f, g, ops, inputs, constants, zero, reduce, at(2), p[2], rank, height);
    lemma_partial(f, g, ops, inputs, constants, zero, reduce, at(3), p[3], rank, height);
    let h0 = |i: int| at(0).contains(i);
    let h1 = |i: int| at(1).contains(i);
    let h2 = |i: int| at(2).contains(i);
    let h3 = |i: int| at(3).contains(i);
    assert(tops_if_any(p[0], rank, height, h0));
    assert(tops_if_any(p[1], rank, height, h1));
    assert(tops_if_any(p[2], rank, height, h2));
    assert(tops_if_any(p[3], rank, height, h3));
    let (a, b) = choose|a: Option<T>, b: Option<T>|
        #![trigger fused::is_joined(g, reduce, a, p[2], b)]
        fused::is_joined(g, reduce, p[0], p[1], a) && fused::is_joined(g, reduce, a, p[2], b)
            && fused::is_joined(g, reduce, b, p[3], Some(v));
    let h01 = |i: int| h0(i) || h1(i);
    let h012 = |i: int| h01(i) || h2(i);
    let all = |i: int| in_lane(count, width, l, i);
    assert forall|i: int| #[trigger] all(i) <==> h012(i) || h3(i) by {
        lemma_lane_is_partitioned(count, unrolled, width, l, i);
    }
    lemma_joined(g, reduce, p[0], p[1], a, rank, height, h0, h1, h01);
    lemma_joined(g, reduce, a, p[2], b, rank, height, h01, h2, h012);
    lemma_joined(g, reduce, b, p[3], Some(v), rank, height, h012, h3, all);
}

/// Whether `i` is admitted by one of the first `n` lists.
spec fn admitted(of: spec_fn(int, int) -> bool, n: int, i: int) -> bool {
    exists|l: int| 0 <= l < n && #[trigger] of(l, i)
}

proof fn lemma_across<T, G: Fn(Reduce, T, T) -> T>(
    g: G,
    reduce: Reduce,
    xs: Seq<T>,
    v: T,
    rank: spec_fn(T) -> int,
    height: spec_fn(int) -> int,
    of: spec_fn(int, int) -> bool,
)
    requires
        fused::is_across(g, reduce, xs, v),
        fused::halves_to_one(xs.len() as int),
        keeps_the_higher(g, reduce, rank),
        forall|l: int|
            0 <= l < xs.len() ==> tops(rank(#[trigger] xs[l]), height, |i: int| of(l, i)),
    ensures
        tops(rank(v), height, |i: int| admitted(of, xs.len() as int, i)),
    decreases xs.len(),
{
    let n = xs.len() as int;
    let all = |i: int| admitted(of, n, i);
    if n == 1 {
        let one = |i: int| of(0, i);
        assert(tops(rank(xs[0]), height, one));
        assert forall|i: int| #[trigger] all(i) implies rank(v) >= height(i) by {
            assert(one(i));
        }
        let i = choose|i: int| #[trigger] one(i) && rank(xs[0]) == height(i);
        assert(of(0, i));
        assert(all(i));
    } else {
        let ys = choose|ys: Seq<T>|
            ys.len() == xs.len() / 2 && #[trigger] fused::is_level(g, reduce, xs, ys)
                && fused::is_across(g, reduce, ys, v);
        let half = ys.len() as int;
        let pair = |l: int, i: int| of(l, i) || of(l + half, i);
        assert forall|l: int| 0 <= l < ys.len() implies tops(
            rank(#[trigger] ys[l]),
            height,
            |i: int| pair(l, i),
        ) by {
            assert(g.ensures((reduce, xs[l], xs[l + half]), ys[l]));
            assert(tops(rank(xs[l]), height, |i: int| of(l, i)));
            assert(tops(rank(xs[l + half]), height, |i: int| of(l + half, i)));
            lemma_higher(
                rank(xs[l]),
                rank(xs[l + half]),
                rank(ys[l]),
                height,
                |i: int| of(l, i),
                |i: int| of(l + half, i),
                |i: int| pair(l, i),
            );
        }
        lemma_across(g, reduce, ys, v, rank, height, pair);
        let halved = |i: int| admitted(pair, half, i);
        assert forall|i: int| #[trigger] all(i) == halved(i) by {
            if all(i) {
                let l = choose|l: int| 0 <= l < n && #[trigger] of(l, i);
                if l < half {
                    assert(pair(l, i));
                } else {
                    assert(pair(l - half, i));
                }
            }
            if halved(i) {
                let l = choose|l: int| 0 <= l < half && #[trigger] pair(l, i);
                if of(l, i) {
                    assert(of(l, i));
                } else {
                    assert(of(l + half, i));
                }
            }
        }
        let i = choose|i: int| #[trigger] halved(i) && rank(v) == height(i);
        assert(all(i));
        assert forall|k: int| #[trigger] all(k) implies rank(v) >= height(k) by {
            assert(halved(k));
        }
    }
}

/// The maximum or minimum over whole vectors is that of all of their elements.
pub proof fn vectors_give_the_extreme<
    T,
    F: Fn(Arith, T, T) -> T,
    G: Fn(Reduce, T, T) -> T,
>(
    f: F,
    g: G,
    ops: Seq<FusedOpDesc>,
    inputs: Seq<Vec<T>>,
    constants: Seq<T>,
    zero: T,
    reduce: Reduce,
    count: int,
    unrolled: int,
    width: int,
    lanes: Seq<T>,
    v: T,
    rank: spec_fn(T) -> int,
    height: spec_fn(int) -> int,
)
    requires
        reduce != Reduce::Sum,
        fused::is_body(
            f,
            g,
            ops,
            inputs,
            constants,
            zero,
            reduce,
            count,
            unrolled,
            width,
            lanes,
            v,
        ),
        0 < count,
        fused::halves_to_one(width),
        keeps_the_higher(g, reduce, rank),
        results_rank(f, ops, inputs, constants, zero, rank, height),
    ensures
        tops(rank(v), height, |i: int| 0 <= i < count * width),
{
    let of = |l: int, i: int| in_lane(count, width, l, i);
    assert forall|l: int| 0 <= l < lanes.len() implies tops(
        rank(#[trigger] lanes[l]),
        height,
        |i: int| of(l, i),
    ) by {
        lemma_lane(
            f,
            g,
            ops,
            inputs,
            constants,
            zero,
            reduce,
            count,
            unrolled,
            width,
            l,
            lanes[l],
            rank,
            height,
        );
        let a = |i: int| in_lane(count, width, l, i);
        let b = |i: int| of(l, i);
        assert(tops(rank(lanes[l]), height, a));
        assert(a =~= b);
    }
    lemma_across(g, reduce, lanes, v, rank, height, of);
    let all = |i: int| admitted(of, width, i);
    let range = |i: int| 0 <= i < count * width;
    assert forall|i: int| #[trigger] all(i) == range(i) by {
        if all(i) {
            let l = choose|l: int| 0 <= l < width && #[trigger] of(l, i);
            let c = choose|c: int| 0 <= c < count && i == #[trigger] (c * width) + l;
            assert(0 <= c * width + l < count * width) by (nonlinear_arith)
                requires
                    0 <= c < count,
                    0 <= l < width,
            ;
        }
        if range(i) {
            let c = i / width;
            let l = i % width;
            vstd::arithmetic::div_mod::lemma_fundamental_div_mod(i, width);
            vstd::arithmetic::div_mod::lemma_div_pos_is_pos(i, width);
            assert(c < count) by (nonlinear_arith)
                requires
                    width * c + l == i,
                    0 <= l,
                    i < count * width,
                    0 < width,
            ;
            assert(width * c == c * width) by (nonlinear_arith);
            assert(i == (c * width) + l);
            assert(of(l, i));
        }
    }
    assert(all =~= range);
}

proof fn lemma_folding<
    T,
    A,
    F: Fn(Arith, T, T) -> T,
    W: Fn(T) -> A,
    G: Fn(Reduce, A, A) -> A,
>(
    f: F,
    w: W,
    g: G,
    ops: Seq<FusedOpDesc>,
    inputs: Seq<Vec<T>>,
    constants: Seq<T>,
    zero: T,
    start: A,
    reduce: Reduce,
    from: int,
    n: int,
    h: Folding<T, A>,
    rank: spec_fn(T) -> int,
    wide: spec_fn(A) -> int,
    height: spec_fn(int) -> int,
    i: int,
)
    requires
        reduce != Reduce::Sum,
        fused::is_folding(
            f,
            w,
            g,
            ops,
            inputs,
            constants,
            zero,
            start,
            Some(reduce),
            from,
            n,
            h,
        ),
        keeps_the_higher(g, reduce, wide),
        results_rank(f, ops, inputs, constants, zero, rank, height),
        forall|x: T, y: A| #[trigger] w.ensures((x,), y) ==> wide(y) == rank(x),
        0 < i <= n,
    ensures
        tops(wide(h.totals[i]), height, |e: int| from <= e < from + i),
    decreases i,
{
    let k = i - 1;
    let all = |e: int| from <= e < from + i;
    let one = |e: int| e == from + k;
    assert(fused::is_result(f, ops, inputs, constants, zero, from + k, h.values[k]));
    assert(w.ensures((h.values[k],), h.wide[k]));
    assert(fused::takes_in(g, Some(reduce), k == 0, h.totals[k], h.wide[k], h.totals[k + 1]));
    assert(wide(h.wide[k]) == height(from + k));
    if k == 0 {
        assert(all(from));
        assert(wide(h.totals[i]) == height(from));
        assert(tops(wide(h.totals[i]), height, all));
    } else {
        lemma_folding(
            f,
            w,
            g,
            ops,
            inputs,
            constants,
            zero,
            start,
            reduce,
            from,
            n,
            h,
            rank,
            wide,
            height,
            k,
        );
        let before = |e: int| from <= e < from + k;
        assert(one(from + k));
        assert(tops(wide(h.wide[k]), height, one));
        assert(g.ensures((reduce, h.totals[k], h.wide[k]), h.totals[k + 1]));
        lemma_higher(
            wide(h.totals[k]),
            wide(h.wide[k]),
            wide(h.totals[i]),
            height,
            before,
            one,
            all,
        );
    }
}

/// A fused maximum or minimum of one or more elements ranks as high as the result on one of them,
/// and no result on another ranks higher, where of two values the higher is kept, and the vectors,
/// the single elements and the widened values agree on how high a result ranks. For a minimum the
/// lower value is the one that ranks higher.
pub proof fn fused_extreme_tops_every_element<
    T,
    A,
    F: Fn(Arith, T, T) -> T,
    J: Fn(Reduce, T, T) -> T,
    S: Fn(Arith, T, T) -> T,
    W: Fn(T) -> A,
    G: Fn(Reduce, A, A) -> A,
>(
    by: Arithmetic<F, J, S, W, G>,
    ops: Seq<FusedOpDesc>,
    inputs: Seq<Vec<T>>,
    constants: Seq<T>,
    n: int,
    width: int,
    plan: ChunkPlan,
    zero: T,
    start: A,
    reduce: Reduce,
    r: A,
    rank: spec_fn(T) -> int,
    wide: spec_fn(A) -> int,
    height: spec_fn(int) -> int,
)
    requires
        reduce != Reduce::Sum,
        fused::is_reduced(by, ops, inputs, constants, n, width, plan, zero, start, reduce, r),
        fused::plan_fits(plan, n, width),
        width > 0,
        n > 0,
        fused::halves_to_one(width),
        keeps_the_higher(by.join, reduce, rank),
        keeps_the_higher(by.fold, reduce, wide),
        results_rank(by.lane, ops, inputs, constants, zero, rank, height),
        results_rank(by.single, ops, inputs, constants, zero, rank, height),
        forall|x: T, y: A| #[trigger] by.widen.ensures((x,), y) ==> wide(y) == rank(x),
    ensures
        tops(wide(r), height, |i: int| 0 <= i < n),
{
    let (lanes, body, whole, tail) = choose|lanes: Seq<T>, body: T, whole: A, tail: Folding<T, A>|
        #[trigger] fused::is_reduction(
            by,
            ops,
            inputs,
            constants,
            n,
            width,
            plan,
            zero,
            start,
            reduce,
            lanes,
            body,
            whole,
            tail,
            r,
        );
    let count = plan.vectors as int / width;
    let rest = n - plan.vectors;
    let from = plan.vectors as int;
    assert(0 <= count && count * width == plan.vectors) by {
        vstd::arithmetic::div_mod::lemma_fundamental_div_mod(plan.vectors as int, width);
        vstd::arithmetic::div_mod::lemma_div_pos_is_pos(plan.vectors as int, width);
        assert(width * count == count * width) by (nonlinear_arith);
    }
    let all = |i: int| 0 <= i < n;
    let vectors = |i: int| 0 <= i < count * width;
    let singles = |i: int| from <= i < from + rest;
    if rest > 0 {
        lemma_folding(
            by.single,
            by.widen,
            by.fold,
            ops,
            inputs,
            constants,
            zero,
            start,
            reduce,
            from,
            rest,
            tail,
            rank,
            wide,
            height,
            rest,
        );
        assert(tops(wide(tail.totals[rest]), height, singles));
    }
    if count > 0 {
        vectors_give_the_extreme(
            by.lane,
            by.join,
            ops,
            inputs,
            constants,
            zero,
            reduce,
            count,
            plan.unrolled as int / width,
            width,
            lanes,
            body,
            rank,
            height,
        );
        assert(by.widen.ensures((body,), whole));
        assert(tops(wide(whole), height, vectors));
        if rest > 0 {
            assert(by.fold.ensures((reduce, whole, tail.totals.last()), r));
            lemma_higher(
                wide(whole),
                wide(tail.totals[rest]),
                wide(r),
                height,
                vectors,
                singles,
                all,
            );
        } else {
            assert(all =~= vectors);
        }
    } else {
        assert(plan.vectors == 0) by (nonlinear_arith)
            requires
                count * width == plan.vectors,
                count <= 0,
                0 <= count,
        ;
        assert(all =~= singles);
    }
}

} // verus!
