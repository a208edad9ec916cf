//! What a fused sum amounts to where the arithmetic is exact: every element counts once.

use vstd::prelude::*;
use super::fused;
use super::fused::{Arithmetic, ChunkPlan, Folding, FusedOpDesc, Reduce, Run};
use super::inst::Arith;
use super::rows;

verus! {

/// Whether `g` adds exactly: what its sums are worth is the sum of what the summands are worth.
pub open spec fn adds_exactly<T, G: Fn(Reduce, T, T) -> T>(g: G, val: spec_fn(T) -> int) -> bool {
    forall|x: T, y: T, z: T| #[trigger]
        g.ensures((Reduce::Sum, x, y), z) ==> val(z) == val(x) + val(y)
}

/// Whether every result of the operations on element `i` is worth `worth(i)`.
pub open spec fn results_are_worth<T, F: Fn(Arith, T, T) -> T>(
    f: F,
    ops: Seq<FusedOpDesc>,
    inputs: Seq<Vec<T>>,
    constants: Seq<T>,
    zero: T,
    val: spec_fn(T) -> int,
    worth: spec_fn(int) -> int,
) -> bool {
    forall|i: int, v: T| #[trigger]
        fused::is_result(f, ops, inputs, constants, zero, i, v) ==> val(v) == worth(i)
}

/// What the listed elements are worth together.
pub open spec fn sum_over(worth: spec_fn(int) -> int, s: Seq<int>) -> int
    decreases s.len(),
{
    if s.len() == 0 {
        0
    } else {
        sum_over(worth, s.drop_last()) + worth(s.last())
    }
}

/// What the elements from `from` up to `to` are worth together.
pub open spec fn sum_between(worth: spec_fn(int) -> int, from: int, to: int) -> int
    decreases to - from,
{
    if to <= from {
        0
    } else {
        sum_between(worth, from, to - 1) + worth(to - 1)
    }
}

/// What a list of values is worth together.
pub open spec fn total<T>(val: spec_fn(T) -> int, xs: Seq<T>) -> int
    decreases xs.len(),
{
    if xs.len() == 0 {
        0
    } else {
        total(val, xs.drop_last()) + val(xs.last())
    }
}

/// What a result that may be missing is worth.
pub open spec fn worth_of<T>(val: spec_fn(T) -> int, v: Option<T>) -> int {
    match v {
        Some(x) => val(x),
        None => 0,
    }
}

proof fn lemma_run<T, F: Fn(Arith, T, T) -> T, G: Fn(Reduce, T, T) -> T>(
    f: F,
    g: G,
    ops: Seq<FusedOpDesc>,
    inputs: Seq<Vec<T>>,
    constants: Seq<T>,
    zero: T,
    which: Seq<int>,
    run: Run<T>,
    val: spec_fn(T) -> int,
    worth: spec_fn(int) -> int,
    i: int,
)
    requires
        fused::is_run(f, g, ops, inputs, constants, zero, Reduce::Sum, which, run),
        adds_exactly(g, val),
        results_are_worth(f, ops, inputs, constants, zero, val, worth),
        val(zero) == 0,
        0 <= i < which.len(),
    ensures
        val(run.totals[i]) == sum_over(worth, which.take(i + 1)),
    decreases i,
{
    let t = which.take(i + 1);
    assert(t.last() == which[i]);
    assert(t.drop_last() =~= which.take(i));
    assert(sum_over(worth, t) == sum_over(worth, t.drop_last()) + worth(t.last()));
    assert(fused::is_result(f, ops, inputs, constants, zero, which[i], run.values[i]));
    if i == 0 {
        assert(g.ensures((Reduce::Sum, zero, run.values[0]), run.totals[0]));
        assert(sum_over(worth, which.take(0)) == 0);
    } else {
        lemma_run(f, g, ops, inputs, constants, zero, which, run, val, worth, i - 1);
        assert(g.ensures((Reduce::Sum, run.totals[i - 1], run.values[i]), run.totals[i]));
    }
}

proof fn lemma_partial<T, F: Fn(Arith, T, T) -> T, G: Fn(Reduce, T, T) -> T>(
    f: F,
    g: G,
    ops: Seq<FusedOpDesc>,
    inputs: Seq<Vec<T>>,
    constants: Seq<T>,
    zero: T,
    which: Seq<int>,
    v: Option<T>,
    val: spec_fn(T) -> int,
    worth: spec_fn(int) -> int,
)
    requires
        fused::is_partial(f, g, ops, inputs, constants, zero, Reduce::Sum, which, v),
        adds_exactly(g, val),
        results_are_worth(f, ops, inputs, constants, zero, val, worth),
        val(zero) == 0,
    ensures
        worth_of(val, v) == sum_over(worth, which),
{
    if v is Some {
        let run = choose|run: Run<T>| #[trigger]
            fused::is_run(f, g, ops, inputs, constants, zero, Reduce::Sum, which, run) && v->0
                == run.totals.last();
        let i = which.len() - 1;
        lemma_run(f, g, ops, inputs, constants, zero, which, run, val, worth, i);
        assert(which.take(i + 1) =~= which);
    }
}

proof fn lemma_lane<T, F: Fn(Arith, T, T) -> T, G: Fn(Reduce, T, T) -> T>(
    f: F,
    g: G,
    ops: Seq<FusedOpDesc>,
    inputs: Seq<Vec<T>>,
    constants: Seq<T>,
    zero: T,
    count: int,
    unrolled: int,
    width: int,
    l: int,
    v: T,
    val: spec_fn(T) -> int,
    worth: spec_fn(int) -> int,
)
    requires
        fused::is_lane(
            f,
            g,
            ops,
            inputs,
            constants,
            zero,
            Reduce::Sum,
            count,
            unrolled,
            width,
            l,
            v,
        ),
        adds_exactly(g, val),
        results_are_worth(f, ops, inputs, constants, zero, val, worth),
        val(zero) == 0,
    ensures
        val(v) == sum_between(|c: int| worth(c * width + l), 0, count),
{
    let at = |q: int| fused::places(count, unrolled, q, width, l);
    let p = choose|p: Seq<Option<T>>|
        (forall|q: int|
            0 <= q < 4 ==> fused::is_partial(
                f,
                g,
                ops,
                inputs,
                constants,
                zero,
                Reduce::Sum,
                fused::places(count, unrolled, q, width, l),
                #[trigger] p[q],
            )) && #[trigger] fused::is_combination(g, Reduce::Sum, p, Some(v));
    lemma_partial(f, g, ops, inputs, constants, zero, at(0), p[0], val, worth);
    lemma_partial(f, g, ops, inputs, constants, zero, at(1), p[1], val, worth);
    lemma_partial(f, g, ops, inputs, constants, zero, at(2), p[2], val, worth);
    lemma_partial(f, g, ops, inputs, constants, zero, at(3), p[3], val, worth);
    assert(worth_of(val, Some(v)) == worth_of(val, p[0]) + worth_of(val, p[1]) + worth_of(
        val,
        p[2],
    ) + worth_of(val, p[3]));
    lemma_partition(count, unrolled, width, l, worth);
}

proof fn lemma_partition(
    count: int,
    unrolled: int,
    width: int,
    l: int,
    worth: spec_fn(int) -> int,
)
    ensures
        sum_over(worth, fused::places(count, unrolled, 0, width, l)) + sum_over(
            worth,
            fused::places(count, unrolled, 1, width, l),
        ) + sum_over(worth, fused::places(count, unrolled, 2, width, l)) + sum_over(
            worth,
            fused::places(count, unrolled, 3, width, l),
        ) == sum_between(|c: int| worth(c * width + l), 0, count),
    decreases count,
{
    if count > 0 {
        lemma_partition(count - 1, unrolled, width, l, worth);
        lemma_place(count, unrolled, 0, width, l, worth);
        lemma_place(count, unrolled, 1, width, l, worth);
        lemma_place(count, unrolled, 2, width, l, worth);
        lemma_place(count, unrolled, 3, width, l, worth);
        assert(0 <= fused::goes_to(count - 1, unrolled) < 4);
    }
}

proof fn lemma_place(
    count: int,
    unrolled: int,
    q: int,
    width: int,
    l: int,
    worth: spec_fn(int) -> int,
)
    requires
        count > 0,
    ensures
        sum_over(worth, fused::places(count, unrolled, q, width, l)) == sum_over(
            worth,
            fused::places(count - 1, unrolled, q, width, l),
        ) + (if fused::goes_to(count - 1, unrolled) == q {
            worth((count - 1) * width + l)
        } else {
            0
        }),
{
    let before = fused::places(count - 1, unrolled, q, width, l);
    let after = fused::places(count, unrolled, q, width, l);
    if fused::goes_to(count - 1, unrolled) == q {
        assert(after =~= before.push((count - 1) * width + l));
        assert(after.drop_last() =~= before);
    } else {
        assert(after =~= before);
    }
}

proof fn lemma_total_appends<T>(val: spec_fn(T) -> int, a: Seq<T>, b: Seq<T>)
    ensures
        total(val, a + b) == total(val, a) + total(val, b),
    decreases b.len(),
{
    if b.len() == 0 {
        assert(a + b =~= a);
    } else {
        lemma_total_appends(val, a, b.drop_last());
        assert((a + b).drop_last() =~= a + b.drop_last());
    }
}

proof fn lemma_total_of_pairs<T>(val: spec_fn(T) -> int, a: Seq<T>, b: Seq<T>, c: Seq<T>)
    requires
        a.len() == b.len() == c.len(),
        forall|i: int| 0 <= i < c.len() ==> val(#[trigger] c[i]) == val(a[i]) + val(b[i]),
    ensures
        total(val, c) == total(val, a) + total(val, b),
    decreases c.len(),
{
    if c.len() > 0 {
        let n = c.len() - 1;
        lemma_total_of_pairs(val, a.drop_last(), b.drop_last(), c.drop_last());
        assert(val(c[n]) == val(a[n]) + val(b[n]));
    }
}

proof fn lemma_across<T, G: Fn(Reduce, T, T) -> T>(
    g: G,
    xs: Seq<T>,
    v: T,
    val: spec_fn(T) -> int,
)
    requires
        fused::is_across(g, Reduce::Sum, xs, v),
        fused::halves_to_one(xs.len() as int),
        adds_exactly(g, val),
    ensures
        val(v) == total(val, xs),
    decreases xs.len(),
{
    if xs.len() == 1 {
        assert(total(val, xs.drop_last()) == 0);
    } else {
        let ys = choose|ys: Seq<T>|
            ys.len() == xs.len() / 2 && #[trigger] fused::is_level(g, Reduce::Sum, xs, ys)
                && fused::is_across(g, Reduce::Sum, ys, v);
        let half = ys.len() as int;
        let a = xs.take(half);
        let b = xs.skip(half);
        assert(xs =~= a + b);
        assert forall|i: int| 0 <= i < ys.len() implies val(#[trigger] ys[i]) == val(a[i]) + val(
            b[i],
        ) by {
            assert(g.ensures((Reduce::Sum, xs[i], xs[i + half]), ys[i]));
        }
        lemma_total_of_pairs(val, a, b, ys);
        lemma_total_appends(val, a, b);
        lemma_across(g, ys, v, val);
    }
}

/// What lane after lane is worth, and what vector after vector is worth, is the same.
proof fn lemma_by_vectors(worth: spec_fn(int) -> int, count: int, width: int, w: int)
    requires
        0 <= count,
        0 <= w <= width,
    ensures
        sum_between(|l: int| sum_between(|c: int| worth(c * width + l), 0, count), 0, w)
            == sum_between(|c: int| sum_between(|l: int| worth(c * width + l), 0, w), 0, count),
    decreases w,
{
    if w == 0 {
        lemma_of_nothing(|c: int| sum_between(|l: int| worth(c * width + l), 0, w), count);
    } else {
        lemma_by_vectors(worth, count, width, w - 1);
        lemma_one_more_lane(worth, count, width, w);
    }
}

proof fn lemma_of_nothing(h: spec_fn(int) -> int, count: int)
    requires
        forall|c: int| 0 <= c < count ==> #[trigger] h(c) == 0,
    ensures
        sum_between(h, 0, count) == 0,
    decreases count,
{
    if count > 0 {
        lemma_of_nothing(h, count - 1);
        assert(h(count - 1) == 0);
    }
}

proof fn lemma_one_more_lane(worth: spec_fn(int) -> int, count: int, width: int, w: int)
    requires
        0 < w,
    ensures
        sum_between(|c: int| sum_between(|l: int| worth(c * width + l), 0, w), 0, count)
            == sum_between(|c: int| sum_between(|l: int| worth(c * width + l), 0, w - 1), 0, count)
            + sum_between(|c: int| worth(c * width + (w - 1)), 0, count),
    decreases count,
{
    if count > 0 {
        lemma_one_more_lane(worth, count - 1, width, w);
    }
}

proof fn lemma_block(worth: spec_fn(int) -> int, c: int, width: int, w: int)
    requires
        0 <= w,
    ensures
        sum_between(|l: int| worth(c * width + l), 0, w) == sum_between(
            worth,
            c * width,
            c * width + w,
        ),
    decreases w,
{
    if w > 0 {
        lemma_block(worth, c, width, w - 1);
    }
}

proof fn lemma_between_joins(worth: spec_fn(int) -> int, a: int, b: int, c: int)
    requires
        a <= b <= c,
    ensures
        sum_between(worth, a, b) + sum_between(worth, b, c) == sum_between(worth, a, c),
    decreases c - b,
{
    if b < c {
        lemma_between_joins(worth, a, b, c - 1);
    }
}

proof fn lemma_blocks(worth: spec_fn(int) -> int, count: int, width: int)
    requires
        0 <= count,
        0 <= width,
    ensures
        sum_between(|c: int| sum_between(|l: int| worth(c * width + l), 0, width), 0, count)
            == sum_between(worth, 0, count * width),
    decreases count,
{
    if count > 0 {
        let k = count - 1;
        lemma_blocks(worth, k, width);
        lemma_block(worth, k, width, width);
        assert(0 <= k * width && k * width + width == count * width) by (nonlinear_arith)
            requires
                k == count - 1,
                0 <= k,
                0 <= width,
        ;
        lemma_between_joins(worth, 0, k * width, count * width);
    } else {
        assert(count * width == 0) by (nonlinear_arith)
            requires
                count == 0,
        ;
    }
}

proof fn lemma_total_of_lanes<T>(val: spec_fn(T) -> int, xs: Seq<T>, h: spec_fn(int) -> int)
    requires
        forall|l: int| 0 <= l < xs.len() ==> val(#[trigger] xs[l]) == h(l),
    ensures
        total(val, xs) == sum_between(h, 0, xs.len() as int),
    decreases xs.len(),
{
    if xs.len() > 0 {
        let d = xs.drop_last();
        assert forall|l: int| 0 <= l < d.len() implies val(#[trigger] d[l]) == h(l) by {
            assert(d[l] == xs[l]);
        }
        lemma_total_of_lanes(val, d, h);
        assert(val(xs[xs.len() - 1]) == h(xs.len() - 1));
    }
}

/// The sum over whole vectors takes in each of their elements once.
pub proof fn vectors_count_every_element_once<
    T,
    F: Fn(Arith, T, T) -> T,
    G: Fn(Reduce, T, T) -> T,
>(
    f: F,
    g: G,
    ops: Seq<FusedOpDesc>,
    inputs: Seq<Vec<T>>,
    constants: Seq<T>,
    zero: T,
    count: int,
    unrolled: int,
    width: int,
    lanes: Seq<T>,
    v: T,
    val: spec_fn(T) -> int,
    worth: spec_fn(int) -> int,
)
    requires
        fused::is_body(
            f,
            g,
            ops,
            inputs,
            constants,
            zero,
            Reduce::Sum,
            count,
            unrolled,
            width,
            lanes,
            v,
        ),
        0 <= count,
        fused::halves_to_one(width),
        adds_exactly(g, val),
        results_are_worth(f, ops, inputs, constants, zero, val, worth),
        val(zero) == 0,
    ensures
        val(v) == sum_between(worth, 0, count * width),
{
    let by_lane = |l: int| sum_between(|c: int| worth(c * width + l), 0, count);
    assert forall|l: int| 0 <= l < lanes.len() implies val(#[trigger] lanes[l]) == by_lane(l) by {
        lemma_lane(
            f,
            g,
            ops,
            inputs,
            constants,
            zero,
            count,
            unrolled,
            width,
            l,
            lanes[l],
            val,
            worth,
        );
    }
    lemma_across(g, lanes, v, val);
    lemma_total_of_lanes(val, lanes, by_lane);
    lemma_by_vectors(worth, count, width, width);
    lemma_blocks(worth, count, width);
}

proof fn lemma_folding<
    T,
    A,
    F: Fn(Arith, T, T) -> T,
    W: Fn(T) -> A,
    G: Fn(Reduce, A, A) -> A,
>(
    f: F,
    w: W,
    g: G,
    ops: Seq<FusedOpDesc>,
    inputs: Seq<Vec<T>>,
    constants: Seq<T>,
    zero: T,
    start: A,
    from: int,
    n: int,
    h: Folding<T, A>,
    val: spec_fn(T) -> int,
    wide: spec_fn(A) -> int,
    worth: spec_fn(int) -> int,
    i: int,
)
    requires
        fused::is_folding(
            f,
            w,
            g,
            ops,
            inputs,
            constants,
            zero,
            start,
            Some(Reduce::Sum),
            from,
            n,
            h,
        ),
        adds_exactly(g, wide),
        results_are_worth(f, ops, inputs, constants, zero, val, worth),
        forall|x: T, y: A| #[trigger] w.ensures((x,), y) ==> wide(y) == val(x),
        0 <= i <= n,
    ensures
        wide(h.totals[i]) == wide(start) + sum_between(worth, from, from + i),
    decreases i,
{
    if i > 0 {
        let k = i - 1;
        lemma_folding(
            f,
            w,
            g,
            ops,
            inputs,
            constants,
            zero,
            start,
            from,
            n,
            h,
            val,
            wide,
            worth,
            k,
        );
        assert(fused::is_result(f, ops, inputs, constants, zero, from + k, h.values[k]));
        assert(w.ensures((h.values[k],), h.wide[k]));
        assert(g.ensures((Reduce::Sum, h.totals[k], h.wide[k]), h.totals[k + 1]));
    }
}

/// A fused sum is the sum of the results on all elements, each counted once, where the arithmetic
/// is exact: where what its sums are worth is the sum of what the summands are worth, and the
/// vectors, the single elements and the widened values agree on what a result is worth.
pub proof fn fused_sum_counts_every_element_once<
    T,
    A,
    F: Fn(Arith, T, T) -> T,
    J: Fn(Reduce, T, T) -> T,
    S: Fn(Arith, T, T) -> T,
    W: Fn(T) -> A,
    G: Fn(Reduce, A, A) -> A,
>(
    by: Arithmetic<F, J, S, W, G>,
    ops: Seq<FusedOpDesc>,
    inputs: Seq<Vec<T>>,
    constants: Seq<T>,
    n: int,
    width: int,
    plan: ChunkPlan,
    zero: T,
    start: A,
    r: A,
    val: spec_fn(T) -> int,
    wide: spec_fn(A) -> int,
    worth: spec_fn(int) -> int,
)
    requires
        fused::is_reduced(
            by,
            ops,
            inputs,
            constants,
            n,
            width,
            plan,
            zero,
            start,
            Reduce::Sum,
            r,
        ),
        fused::plan_fits(plan, n, width),
        width > 0,
        fused::halves_to_one(width),
        adds_exactly(by.join, val),
        adds_exactly(by.fold, wide),
        results_are_worth(by.lane, ops, inputs, constants, zero, val, worth),
        results_are_worth(by.single, ops, inputs, constants, zero, val, worth),
        forall|x: T, y: A| #[trigger] by.widen.ensures((x,), y) ==> wide(y) == val(x),
        val(zero) == 0,
        wide(start) == 0,
    ensures
        wide(r) == sum_between(worth, 0, n),
{
    let (lanes, body, whole, tail) = choose|lanes: Seq<T>, body: T, whole: A, tail: Folding<T, A>|
        #[trigger] fused::is_reduction(
            by,
            ops,
            inputs,
            constants,
            n,
            width,
            plan,
            zero,
            start,
            Reduce::Sum,
            lanes,
            body,
            whole,
            tail,
            r,
        );
    let count = plan.vectors as int / width;
    let rest = n - plan.vectors;
    assert(0 <= count && count * width == plan.vectors) by {
        vstd::arithmetic::div_mod::lemma_fundamental_div_mod(plan.vectors as int, width);
        vstd::arithmetic::div_mod::lemma_div_pos_is_pos(plan.vectors as int, width);
        assert(width * count == count * width) by (nonlinear_arith);
    }
    lemma_folding(
        by.single,
        by.widen,
        by.fold,
        ops,
        inputs,
        constants,
        zero,
        start,
        plan.vectors as int,
        rest,
        tail,
        val,
        wide,
        worth,
        rest,
    );
    if count > 0 {
        vectors_count_every_element_once(
            by.lane,
            by.join,
            ops,
            inputs,
            constants,
            zero,
            count,
            plan.unrolled as int / width,
            width,
            lanes,
            body,
            val,
            worth,
        );
        assert(by.widen.ensures((body,), whole));
        if rest > 0 {
            assert(by.fold.ensures((Reduce::Sum, whole, tail.totals.last()), r));
        }
    } else {
        assert(plan.vectors == 0) by (nonlinear_arith)
            requires
                count * width == plan.vectors,
                count <= 0,
                0 <= count,
        ;
    }
    lemma_between_joins(worth, 0, plan.vectors as int, n);
}

proof fn lemma_running_total<T, F: Fn(T, T, T) -> T>(
    f: F,
    a: Seq<T>,
    b: Seq<T>,
    i: int,
    j: int,
    n: int,
    k: int,
    count: int,
    zero: T,
    sums: Seq<T>,
    val: spec_fn(T) -> int,
    s: int,
)
    requires
        rows::is_sum(f, a, b, i, j, n, k, count, zero, sums),
        forall|x: T, p: T, q: T, z: T| #[trigger]
            f.ensures((x, p, q), z) ==> val(z) == val(x) + val(p) * val(q),
        val(zero) == 0,
        0 <= s <= count,
    ensures
        val(sums[s]) == sum_between(|t: int| val(a[i * k + t]) * val(b[t * n + j]), 0, s),
    decreases s,
{
    if s > 0 {
        let t = s - 1;
        lemma_running_total(f, a, b, i, j, n, k, count, zero, sums, val, t);
        assert(f.ensures((sums[t], a[i * k + t], b[t * n + j]), sums[t + 1]));
    }
}

/// An element of a product of matrices that are stored row by row, with rows of `k` in the first
/// and rows of `n` in the second, is the sum over the inner index of the products of the elements
/// in its row of the first and in its column of the second, where the arithmetic is exact.
pub proof fn product_element_is_the_inner_product<T, F: Fn(T, T, T) -> T>(
    f: F,
    a: Seq<T>,
    b: Seq<T>,
    i: int,
    j: int,
    n: int,
    k: int,
    zero: T,
    v: T,
    val: spec_fn(T) -> int,
)
    requires
        rows::is_element(f, a, b, i, j, n, k, k, zero, v),
        forall|x: T, p: T, q: T, z: T| #[trigger]
            f.ensures((x, p, q), z) ==> val(z) == val(x) + val(p) * val(q),
        val(zero) == 0,
        0 <= k,
    ensures
        val(v) == sum_between(|t: int| val(a[i * k + t]) * val(b[t * n + j]), 0, k),
{
    let sums = choose|sums: Seq<T>| #[trigger]
        rows::is_sum(f, a, b, i, j, n, k, k, zero, sums) && v == sums.last();
    lemma_running_total(f, a, b, i, j, n, k, k, zero, sums, val, k);
}

} // verus!
