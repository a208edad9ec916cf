//! Which windows and parts of windows an engine lists, and in which order.

use vstd::prelude::*;
use super::boundary::BoundaryView;
use super::engine;
use super::engine::FusionEngine;
use super::explorer;
use super::op::{FusionOp, OpType};

verus! {

/// Whether `b` fuses the `size` operations from `start` on.
pub open spec fn fuses(ops: Seq<FusionOp>, start: int, size: int, b: BoundaryView) -> bool {
    &&& 2 <= size
    &&& 0 <= start
    &&& start + size <= ops.len()
    &&& engine::window_boundary(ops, start, size) == Some(b)
}

/// Whether `b` fuses the `size` operations from `start` on with four fifths of its confidence.
pub open spec fn fuses_part(ops: Seq<FusionOp>, start: int, size: int, b: BoundaryView) -> bool {
    &&& 2 <= size
    &&& 0 <= start
    &&& start + size <= ops.len()
    &&& engine::reduced_boundary(ops, start, size) == Some(b)
}

/// Whether the window of `size` operations from `start` on comes before place `k` of the windows
/// of `z` operations: it is smaller, or as large and starts earlier.
pub open spec fn comes_before(start: int, size: int, k: int, z: int) -> bool {
    size < z || (size == z && start < k)
}

proof fn lemma_listed(e: FusionEngine, ops: Seq<FusionOp>, z: int, k: int, c: int)
    requires
        2 <= z <= ops.len(),
        k <= engine::window_count(ops, z),
        0 <= c < engine::candidates_up_to(e, ops, z, k).len(),
    ensures
        exists|s: int, y: int| #[trigger]
            fuses(ops, s, y, engine::candidates_up_to(e, ops, z, k)[c]) && comes_before(s, y, k, z),
        engine::candidates_up_to(e, ops, z, k)[c].confidence >= e.threshold() || e.speculates(),
    decreases z, k,
{
    let all = engine::candidates_up_to(e, ops, z, k);
    if k > 0 {
        let before = engine::candidates_up_to(e, ops, z, k - 1);
        if c < before.len() {
            lemma_listed(e, ops, z, k - 1, c);
            assert(all[c] == before[c]);
            let (s, y) = choose|s: int, y: int| #[trigger]
                fuses(ops, s, y, before[c]) && comes_before(s, y, k - 1, z);
            assert(fuses(ops, s, y, all[c]) && comes_before(s, y, k, z));
        } else {
            assert(fuses(ops, k - 1, z, all[c]) && comes_before(k - 1, z, k, z));
        }
    } else if z > 2 {
        let count = engine::window_count(ops, z - 1);
        lemma_listed(e, ops, z - 1, count, c);
        let (s, y) = choose|s: int, y: int| #[trigger]
            fuses(ops, s, y, all[c]) && comes_before(s, y, count, z - 1);
        assert(fuses(ops, s, y, all[c]) && comes_before(s, y, k, z));
    }
}

proof fn lemma_listed_in_order(e: FusionEngine, ops: Seq<FusionOp>, z: int, k: int, c: int, d: int)
    requires
        2 <= z <= ops.len(),
        k <= engine::window_count(ops, z),
        0 <= c < d < engine::candidates_up_to(e, ops, z, k).len(),
    ensures
        exists|s: int, y: int, t: int, x: int|
            #[trigger] fuses(ops, s, y, engine::candidates_up_to(e, ops, z, k)[c])
                && #[trigger] fuses(ops, t, x, engine::candidates_up_to(e, ops, z, k)[d])
                && comes_before(s, y, t, x),
    decreases z, k,
{
    let all = engine::candidates_up_to(e, ops, z, k);
    if k > 0 {
        let before = engine::candidates_up_to(e, ops, z, k - 1);
        assert(all[c] == before[c]);
        if d < before.len() {
            lemma_listed_in_order(e, ops, z, k - 1, c, d);
            assert(all[d] == before[d]);
        } else {
            lemma_listed(e, ops, z, k - 1, c);
            let (s, y) = choose|s: int, y: int| #[trigger]
                fuses(ops, s, y, before[c]) && comes_before(s, y, k - 1, z);
            assert(fuses(ops, s, y, all[c]));
            assert(fuses(ops, k - 1, z, all[d]));
        }
    } else if z > 2 {
        lemma_listed_in_order(e, ops, z - 1, engine::window_count(ops, z - 1), c, d);
    }
}

/// What an engine lists as candidates it has confidence enough in, unless it speculates.
pub proof fn candidates_are_trusted(e: FusionEngine, ops: Seq<FusionOp>, c: int)
    requires
        0 <= c < e.candidates(ops).len(),
    ensures
        e.candidates(ops)[c].confidence >= e.threshold() || e.speculates(),
{
    let largest = e.largest_in(ops);
    lemma_listed(e, ops, largest, engine::window_count(ops, largest), c);
}

/// The candidates are listed from the smallest windows to the largest, and those of one size in
/// the order of their first operations; no window is listed twice.
pub proof fn candidates_come_by_size_and_place(e: FusionEngine, ops: Seq<FusionOp>, c: int, d: int)
    requires
        0 <= c < d < e.candidates(ops).len(),
    ensures
        exists|s: int, y: int, t: int, x: int|
            #[trigger] fuses(ops, s, y, e.candidates(ops)[c]) && #[trigger] fuses(
                ops,
                t,
                x,
                e.candidates(ops)[d],
            ) && comes_before(s, y, t, x),
{
    let largest = e.largest_in(ops);
    lemma_listed_in_order(e, ops, largest, engine::window_count(ops, largest), c, d);
}

proof fn lemma_base_stays(
    e: FusionEngine,
    ops: Seq<FusionOp>,
    base: Seq<BoundaryView>,
    start: int,
    size: int,
    part: int,
    k: int,
)
    ensures
        base.len() <= engine::parts_up_to(e, ops, base, start, size, part, k).len(),
        forall|i: int|
            0 <= i < base.len() ==> engine::parts_up_to(e, ops, base, start, size, part, k)[i]
                == #[trigger] base[i],
    decreases part, k,
{
    if k > 0 {
        lemma_base_stays(e, ops, base, start, size, part, k - 1);
    } else if part > 2 {
        lemma_base_stays(e, ops, base, start, size, part - 1, size - (part - 1) + 1);
    }
}

proof fn lemma_part_is_listed(
    e: FusionEngine,
    ops: Seq<FusionOp>,
    base: Seq<BoundaryView>,
    start: int,
    size: int,
    part: int,
    k: int,
    p: int,
    j: int,
)
    requires
        2 <= p <= part,
        0 <= j,
        j + p <= size,
        p == part ==> j < k,
        engine::reduced_boundary(ops, start + j, p) is Some,
        engine::reduced_boundary(ops, start + j, p).unwrap().confidence >= e.threshold()
            || e.speculates(),
    ensures
        engine::parts_up_to(e, ops, base, start, size, part, k).contains(
            engine::reduced_boundary(ops, start + j, p).unwrap(),
        ),
    decreases part, k,
{
    let b = engine::reduced_boundary(ops, start + j, p).unwrap();
    let all = engine::parts_up_to(e, ops, base, start, size, part, k);
    if k > 0 {
        let before = engine::parts_up_to(e, ops, base, start, size, part, k - 1);
        if p == part && j == k - 1 {
            assert(all[before.len() as int] == b);
        } else {
            lemma_part_is_listed(e, ops, base, start, size, part, k - 1, p, j);
            let i = choose|i: int| 0 <= i < before.len() && before[i] == b;
            assert(all[i] == b);
        }
    } else {
        lemma_part_is_listed(e, ops, base, start, size, part - 1, size - (part - 1) + 1, p, j);
    }
}

proof fn lemma_part_is_part(
    e: FusionEngine,
    ops: Seq<FusionOp>,
    base: Seq<BoundaryView>,
    start: int,
    size: int,
    part: int,
    k: int,
    c: int,
)
    requires
        0 <= start,
        start + size <= ops.len(),
        2 <= part <= size,
        k <= size - part + 1,
        base.len() <= c < engine::parts_up_to(e, ops, base, start, size, part, k).len(),
    ensures
        exists|s: int, y: int| #[trigger]
            fuses_part(ops, s, y, engine::parts_up_to(e, ops, base, start, size, part, k)[c]),
        engine::parts_up_to(e, ops, base, start, size, part, k)[c].confidence >= e.threshold()
            || e.speculates(),
    decreases part, k,
{
    let all = engine::parts_up_to(e, ops, base, start, size, part, k);
    if k > 0 {
        let before = engine::parts_up_to(e, ops, base, start, size, part, k - 1);
        if c < before.len() {
            lemma_part_is_part(e, ops, base, start, size, part, k - 1, c);
            assert(all[c] == before[c]);
        } else {
            assert(fuses_part(ops, start + k - 1, part, all[c]));
        }
    } else if part > 2 {
        lemma_part_is_part(e, ops, base, start, size, part - 1, size - (part - 1) + 1, c);
    }
}

proof fn lemma_alternative_is_window_or_part(
    e: FusionEngine,
    ops: Seq<FusionOp>,
    z: int,
    k: int,
    c: int,
)
    requires
        2 <= z <= ops.len(),
        k <= engine::window_count(ops, z),
        0 <= c < engine::alternatives_up_to(e, ops, z, k).len(),
    ensures
        ({
            let b = engine::alternatives_up_to(e, ops, z, k)[c];
            ||| exists|s: int, y: int| #[trigger] fuses(ops, s, y, b)
            ||| (exists|s: int, y: int| #[trigger] fuses_part(ops, s, y, b)) && (b.confidence
                >= e.threshold() || e.speculates())
        }),
    decreases z, k,
{
    let all = engine::alternatives_up_to(e, ops, z, k);
    if k > 0 {
        let before = engine::alternatives_up_to(e, ops, z, k - 1);
        let base = engine::with_found(before, engine::window_boundary(ops, k - 1, z));
        lemma_base_stays(e, ops, base, k - 1, z, z, 0);
        if c < before.len() {
            lemma_alternative_is_window_or_part(e, ops, z, k - 1, c);
            assert(base[c] == before[c]);
            assert(all[c] == before[c]);
        } else if c < base.len() {
            assert(all[c] == base[c]);
            assert(fuses(ops, k - 1, z, all[c]));
        } else {
            lemma_part_is_part(e, ops, base, k - 1, z, z, 0, c);
        }
    } else if z > 2 {
        lemma_alternative_is_window_or_part(
            e,
            ops,
            z - 1,
            engine::window_count(ops, z - 1),
            c,
        );
    }
}

/// Every alternative fuses a window, or a part of one with four fifths of its confidence; of parts
/// only those are listed that the engine has confidence enough in, unless it speculates.
pub proof fn alternatives_are_windows_or_parts(e: FusionEngine, ops: Seq<FusionOp>, c: int)
    requires
        0 <= c < e.alternatives(ops).len(),
    ensures
        ({
            let b = e.alternatives(ops)[c];
            ||| exists|s: int, y: int| #[trigger] fuses(ops, s, y, b)
            ||| (exists|s: int, y: int| #[trigger] fuses_part(ops, s, y, b)) && (b.confidence
                >= e.threshold() || e.speculates())
        }),
{
    let largest = e.largest_in(ops);
    lemma_alternative_is_window_or_part(
        e,
        ops,
        largest,
        engine::window_count(ops, largest),
        c,
    );
}

proof fn lemma_part_of_window_is_listed(
    e: FusionEngine,
    ops: Seq<FusionOp>,
    z: int,
    k: int,
    start: int,
    size: int,
    p: int,
    j: int,
)
    requires
        2 <= p < size <= z,
        0 <= start,
        start + size <= ops.len(),
        0 <= j,
        j + p <= size,
        size == z ==> start < k,
        engine::reduced_boundary(ops, start + j, p) is Some,
        engine::reduced_boundary(ops, start + j, p).unwrap().confidence >= e.threshold()
            || e.speculates(),
    ensures
        engine::alternatives_up_to(e, ops, z, k).contains(
            engine::reduced_boundary(ops, start + j, p).unwrap(),
        ),
    decreases z, k,
{
    let b = engine::reduced_boundary(ops, start + j, p).unwrap();
    let all = engine::alternatives_up_to(e, ops, z, k);
    if k > 0 {
        let before = engine::alternatives_up_to(e, ops, z, k - 1);
        let base = engine::with_found(before, engine::window_boundary(ops, k - 1, z));
        if size == z && start == k - 1 {
            lemma_part_is_listed(e, ops, base, k - 1, z, z, 0, p, j);
        } else {
            lemma_part_of_window_is_listed(e, ops, z, k - 1, start, size, p, j);
            lemma_base_stays(e, ops, base, k - 1, z, z, 0);
            let i = choose|i: int| 0 <= i < before.len() && before[i] == b;
            assert(base[i] == b);
            assert(all[i] == b);
        }
    } else {
        lemma_part_of_window_is_listed(
            e,
            ops,
            z - 1,
            engine::window_count(ops, z - 1),
            start,
            size,
            p,
            j,
        );
    }
}

/// A part of a window that forms a pattern is an alternative with four fifths of its confidence,
/// where that is enough or the engine speculates.
pub proof fn trusted_parts_are_alternatives(
    e: FusionEngine,
    ops: Seq<FusionOp>,
    start: int,
    size: int,
    p: int,
    j: int,
)
    requires
        2 <= p < size <= e.largest_window(),
        0 <= start,
        start + size <= ops.len(),
        0 <= j,
        j + p <= size,
        engine::reduced_boundary(ops, start + j, p) is Some,
        engine::reduced_boundary(ops, start + j, p).unwrap().confidence >= e.threshold()
            || e.speculates(),
    ensures
        e.alternatives(ops).contains(engine::reduced_boundary(ops, start + j, p).unwrap()),
{
    let largest = e.largest_in(ops);
    lemma_part_of_window_is_listed(
        e,
        ops,
        largest,
        engine::window_count(ops, largest),
        start,
        size,
        p,
        j,
    );
}

/// Whether `b` was found in a window.
pub open spec fn found_in_window(ops: Seq<FusionOp>, start: int, size: int, b: BoundaryView) -> bool {
    &&& 0 <= start
    &&& start + size <= ops.len()
    &&& explorer::explored_boundary(ops, start, size) == Some(b)
}

/// Whether `b` replaces two matrix products in a row with left factors of one shape and the sum
/// behind them, of which the first stands at `i`.
pub open spec fn factors(ops: Seq<FusionOp>, i: int, b: BoundaryView) -> bool {
    &&& 0 <= i
    &&& i + 2 < ops.len()
    &&& b.indices == seq![i as usize, (i + 1) as usize, (i + 2) as usize]
    &&& ops[i].op_type == OpType::MatMul
    &&& ops[i + 1].op_type == OpType::MatMul
    &&& ops[i + 2].op_type == OpType::Add
    &&& ops[i].input_shapes@.len() == 0 <==> ops[i + 1].input_shapes@.len() == 0
    &&& ops[i].input_shapes@.len() > 0 ==> ops[i].input_shapes@[0]@
        == ops[i + 1].input_shapes@[0]@
}

proof fn lemma_found_in_window(ops: Seq<FusionOp>, z: int, k: int, c: int)
    requires
        2 <= z <= ops.len(),
        k <= engine::window_count(ops, z),
        0 <= c < explorer::explored_windows(ops, z, k).len(),
    ensures
        exists|s: int, y: int| #[trigger]
            found_in_window(ops, s, y, explorer::explored_windows(ops, z, k)[c]),
    decreases z, k,
{
    let all = explorer::explored_windows(ops, z, k);
    if k > 0 {
        let before = explorer::explored_windows(ops, z, k - 1);
        if c < before.len() {
            lemma_found_in_window(ops, z, k - 1, c);
            assert(all[c] == before[c]);
        } else {
            assert(found_in_window(ops, k - 1, z, all[c]));
        }
    } else if z > 2 {
        lemma_found_in_window(ops, z - 1, engine::window_count(ops, z - 1), c);
    } else {
        assert(found_in_window(ops, 0, ops.len() as int, all[c]));
    }
}

proof fn lemma_factoring(ops: Seq<FusionOp>, found: Seq<BoundaryView>, k: int, c: int)
    requires
        k <= ops.len() - 2,
        ops.len() <= usize::MAX,
        found.len() <= c < explorer::explored_factorings(ops, found, k).len(),
    ensures
        exists|i: int| #[trigger]
            factors(ops, i, explorer::explored_factorings(ops, found, k)[c]),
    decreases k,
{
    let all = explorer::explored_factorings(ops, found, k);
    if k > 0 {
        let before = explorer::explored_factorings(ops, found, k - 1);
        if c < before.len() {
            lemma_factoring(ops, found, k - 1, c);
            assert(all[c] == before[c]);
        } else {
            let b = explorer::factored_boundary(ops, k - 1);
            let i = k - 1;
            assert(b.indices =~= seq![i as usize, (i + 1) as usize, (i + 2) as usize]);
            assert(factors(ops, i, all[c]));
        }
    }
}

proof fn lemma_found_stays(ops: Seq<FusionOp>, found: Seq<BoundaryView>, k: int)
    ensures
        found.len() <= explorer::explored_factorings(ops, found, k).len(),
        forall|i: int|
            0 <= i < found.len() ==> explorer::explored_factorings(ops, found, k)[i]
                == #[trigger] found[i],
    decreases k,
{
    if k > 0 {
        lemma_found_stays(ops, found, k - 1);
    }
}

/// An exploration finds nothing but the patterns of windows and the common factors of products.
pub proof fn explored_are_windows_or_factorings(ops: Seq<FusionOp>, c: int)
    requires
        ops.len() <= usize::MAX,
        0 <= c < explorer::explored(ops).len(),
    ensures
        (exists|s: int, y: int| #[trigger] found_in_window(ops, s, y, explorer::explored(ops)[c]))
            || exists|i: int| #[trigger] factors(ops, i, explorer::explored(ops)[c]),
{
    let largest = explorer::explored_largest(ops);
    let windows = if largest < 2 {
        explorer::explored_whole(ops)
    } else {
        explorer::explored_windows(ops, largest, engine::window_count(ops, largest))
    };
    lemma_found_stays(ops, windows, ops.len() - 2);
    if c >= windows.len() {
        lemma_factoring(ops, windows, ops.len() - 2, c);
    } else if largest < 2 {
        assert(found_in_window(ops, 0, ops.len() as int, windows[c]));
    } else {
        lemma_found_in_window(ops, largest, engine::window_count(ops, largest), c);
    }
}

proof fn lemma_kept_apart(v: Seq<BoundaryView>, b: BoundaryView)
    ensures
        explorer::holds_fusion(v, b) <==> exists|j: int|
            0 <= j < v.len() && (#[trigger] v[j]).indices == b.indices && v[j].pattern == b.pattern,
{
    if explorer::holds_fusion(v, b) {
        let j = choose|j: int|
            0 <= j < v.len() && super::boundary::same_fusion(#[trigger] v[j], b);
        assert(v[j].indices == b.indices && v[j].pattern == b.pattern);
    }
    if exists|j: int|
        0 <= j < v.len() && (#[trigger] v[j]).indices == b.indices && v[j].pattern == b.pattern {
        let j = choose|j: int|
            0 <= j < v.len() && (#[trigger] v[j]).indices == b.indices && v[j].pattern == b.pattern;
        assert(super::boundary::same_fusion(v[j], b));
    }
}

/// A proposal names every fusion that was ranked, under its operations and its pattern, and none
/// twice: two entries differ in the one or the other. What was ranked before every other entry for
/// its fusion is the one that stays.
pub proof fn proposal_names_each_fusion_once(v: Seq<BoundaryView>, k: nat, i: int, a: int, b: int)
    requires
        k <= v.len(),
        0 <= i < k,
        0 <= a < b < engine::without_repeats(v, k).len(),
    ensures
        ({
            let r = engine::without_repeats(v, k);
            &&& exists|j: int|
                0 <= j < r.len() && (#[trigger] r[j]).indices == v[i].indices && r[j].pattern
                    == v[i].pattern
            &&& r[a].indices != r[b].indices || r[a].pattern != r[b].pattern
            &&& (forall|h: int|
                0 <= h < i ==> (#[trigger] v[h]).indices != v[i].indices || v[h].pattern
                    != v[i].pattern) ==> r.contains(v[i])
        }),
{
    engine::proposals_name_once(v, k);
    let r = engine::without_repeats(v, k);
    lemma_kept_apart(r, v[i]);
    assert(explorer::holds_fusion(r, v[i]));
    assert(!super::boundary::same_fusion(r[a], r[b]));
    if forall|h: int|
        0 <= h < i ==> (#[trigger] v[h]).indices != v[i].indices || v[h].pattern != v[i].pattern {
        lemma_first_is_kept(v, k, i);
    }
}

proof fn lemma_repeats_come_from(v: Seq<BoundaryView>, k: nat, j: int)
    requires
        k <= v.len(),
        0 <= j < engine::without_repeats(v, k).len(),
    ensures
        exists|h: int| 0 <= h < k && #[trigger] v[h] == engine::without_repeats(v, k)[j],
    decreases k,
{
    let r = engine::without_repeats(v, k);
    let before = engine::without_repeats(v, (k - 1) as nat);
    if j < before.len() {
        lemma_repeats_come_from(v, (k - 1) as nat, j);
        let h = choose|h: int| 0 <= h < k - 1 && #[trigger] v[h] == before[j];
        assert(v[h] == r[j]);
    } else {
        assert(v[k - 1] == r[j]);
    }
}

proof fn lemma_first_is_kept(v: Seq<BoundaryView>, k: nat, i: int)
    requires
        k <= v.len(),
        0 <= i < k,
        forall|h: int|
            0 <= h < i ==> (#[trigger] v[h]).indices != v[i].indices || v[h].pattern
                != v[i].pattern,
    ensures
        engine::without_repeats(v, k).contains(v[i]),
    decreases k,
{
    let r = engine::without_repeats(v, k);
    let before = engine::without_repeats(v, (k - 1) as nat);
    if i < k - 1 {
        lemma_first_is_kept(v, (k - 1) as nat, i);
        let j = choose|j: int| 0 <= j < before.len() && before[j] == v[i];
        assert(r[j] == v[i]);
    } else {
        lemma_kept_apart(before, v[i]);
        if explorer::holds_fusion(before, v[i]) {
            let j = choose|j: int|
                0 <= j < before.len() && (#[trigger] before[j]).indices == v[i].indices
                    && before[j].pattern == v[i].pattern;
            lemma_repeats_come_from(v, (k - 1) as nat, j);
            let h = choose|h: int| 0 <= h < k - 1 && #[trigger] v[h] == before[j];
            assert(v[h].indices == v[i].indices);
        }
        assert(r[before.len() as int] == v[i]);
    }
}

/// Merging takes nothing from elsewhere, and every fusion of the second list is in the result
/// under its operations and its pattern.
pub proof fn merging_takes_from_both(
    v: Seq<BoundaryView>,
    more: Seq<BoundaryView>,
    k: nat,
    i: int,
    j: int,
)
    requires
        k <= more.len(),
        0 <= i < k,
        0 <= j < explorer::merged(v, more, k).len(),
    ensures
        ({
            let all = explorer::merged(v, more, k);
            &&& v.contains(all[j]) || more.contains(all[j])
            &&& exists|h: int|
                0 <= h < all.len() && (#[trigger] all[h]).indices == more[i].indices
                    && all[h].pattern == more[i].pattern
        }),
{
    super::exploration::merging_loses_nothing(v, more, k, i);
    lemma_kept_apart(explorer::merged(v, more, k), more[i]);
    lemma_merged_from(v, more, k, j);
}

proof fn lemma_merged_from(v: Seq<BoundaryView>, more: Seq<BoundaryView>, k: nat, j: int)
    requires
        k <= more.len(),
        0 <= j < explorer::merged(v, more, k).len(),
    ensures
        v.contains(explorer::merged(v, more, k)[j]) || more.contains(
            explorer::merged(v, more, k)[j],
        ),
    decreases k,
{
    if k > 0 {
        let before = explorer::merged(v, more, (k - 1) as nat);
        let all = explorer::merged(v, more, k);
        if j < before.len() {
            lemma_merged_from(v, more, (k - 1) as nat, j);
            assert(all[j] == before[j]);
        } else {
            assert(more[k - 1] == all[j]);
        }
    } else {
        assert(v[j] == explorer::merged(v, more, k)[j]);
    }
}

/// An engine that speculates lists every window that forms a pattern, and so everything that the
/// engine lists from which it was made.
pub proof fn speculating_loses_nothing(
    e: FusionEngine,
    of: FusionEngine,
    ops: Seq<FusionOp>,
    c: int,
)
    requires
        engine::is_speculative(e, of),
        0 <= c < of.candidates(ops).len(),
    ensures
        e.candidates(ops).contains(of.candidates(ops)[c]),
{
    super::estimates::candidates_are_the_admitted_windows(of, ops, 0, 0, c);
    let (s, z) = choose|s: int, z: int|
        2 <= z <= of.largest_window() && 0 <= s && s + z <= ops.len()
            && #[trigger] engine::window_boundary(ops, s, z) == Some(of.candidates(ops)[c]);
    super::estimates::candidates_are_the_admitted_windows(e, ops, s, z, 0);
}

/// The standard engine fuses two to eight operations at a time and has a confidence of three
/// tenths or more in each fusion that it lists.
pub proof fn standard_engine_lists(e: FusionEngine, ops: Seq<FusionOp>, c: int)
    requires
        engine::is_standard(e),
        0 <= c < e.candidates(ops).len(),
    ensures
        exists|s: int, z: int|
            2 <= z <= 8 && #[trigger] fuses(ops, s, z, e.candidates(ops)[c]),
        e.candidates(ops)[c].confidence >= crate::ieee::THREE_TENTHS,
{
    candidates_are_trusted(e, ops, c);
    super::estimates::candidates_are_the_admitted_windows(e, ops, 0, 0, c);
    let (s, z) = choose|s: int, z: int|
        2 <= z <= e.largest_window() && 0 <= s && s + z <= ops.len()
            && #[trigger] engine::window_boundary(ops, s, z) == Some(e.candidates(ops)[c]);
    assert(fuses(ops, s, z, e.candidates(ops)[c]));
}

/// The standard engine lists every pattern of up to eight operations that it has confidence enough
/// in.
pub proof fn standard_engine_finds(e: FusionEngine, ops: Seq<FusionOp>, start: int, size: int)
    requires
        engine::is_standard(e),
        2 <= size <= 8,
        0 <= start,
        start + size <= ops.len(),
        engine::window_boundary(ops, start, size) is Some,
        engine::window_boundary(ops, start, size).unwrap().confidence
            >= crate::ieee::THREE_TENTHS,
    ensures
        e.candidates(ops).contains(engine::window_boundary(ops, start, size).unwrap()),
{
    super::estimates::candidates_are_the_admitted_windows(e, ops, start, size, 0);
}

/// What a choice starts from holds everything that the exploration finds, in its order, and of
/// each fusion that the engine chose one with its operations and its pattern.
pub proof fn choice_starts_from_both(
    e: FusionEngine,
    ops: Seq<FusionOp>,
    speedups: Seq<u64>,
    i: int,
    j: int,
)
    ensures
        ({
            let all = explorer::merged_candidates(e, ops, speedups);
            let chosen = super::ranking::greedy_choice(e.candidates(ops), speedups);
            &&& 0 <= i < explorer::explored(ops).len() ==> i < all.len() && all[i]
                == explorer::explored(ops)[i]
            &&& 0 <= j < chosen.len() ==> exists|h: int|
                0 <= h < all.len() && (#[trigger] all[h]).indices == chosen[j].indices
                    && all[h].pattern == chosen[j].pattern
        }),
{
    let chosen = super::ranking::greedy_choice(e.candidates(ops), speedups);
    let found = explorer::explored(ops);
    super::exploration::merging_loses_nothing(found, chosen, chosen.len(), i);
    super::exploration::merging_loses_nothing(found, chosen, chosen.len(), j);
    if 0 <= j < chosen.len() {
        lemma_kept_apart(explorer::merged_candidates(e, ops, speedups), chosen[j]);
    }
}

} // verus!
