//! Ranking by score, best first, and the greedy choice along a ranking.

use vstd::prelude::*;
use super::boundary;
use super::boundary::{BoundaryView, FusionBoundary};

verus! {

/// Whether entry `a` comes before entry `b`: its score is higher, or it is equal and `a` is the
/// earlier entry.
pub open spec fn outranks(scores: Seq<u64>, a: int, b: int) -> bool {
    scores[a] > scores[b] || (scores[a] == scores[b] && a < b)
}

/// Whether `order` lists all entries, each before those that it outranks.
pub open spec fn is_ranking(order: Seq<usize>, scores: Seq<u64>) -> bool {
    &&& order.len() == scores.len()
    &&& forall|i: int| 0 <= i < order.len() ==> (#[trigger] order[i]) < scores.len()
    &&& forall|i: int, j: int|
        0 <= i < j < order.len() ==> outranks(scores, order[i] as int, order[j] as int)
}

/// The ranking of the entries.
pub open spec fn ranked(scores: Seq<u64>) -> Seq<usize> {
    choose|order: Seq<usize>| is_ranking(order, scores)
}

proof fn lemma_ranking_covers(order: Seq<usize>, scores: Seq<u64>, x: usize)
    requires
        is_ranking(order, scores),
        x < scores.len(),
    ensures
        order.contains(x),
{
    let ints = Seq::new(order.len(), |i: int| order[i] as int);
    assert(ints.no_duplicates()) by {
        assert forall|i: int, j: int|
            0 <= i < ints.len() && 0 <= j < ints.len() && i != j implies ints[i] != ints[j] by {
            if i < j {
                assert(outranks(scores, order[i] as int, order[j] as int));
            } else {
                assert(outranks(scores, order[j] as int, order[i] as int));
            }
        }
    }
    ints.unique_seq_to_set();
    let all = vstd::set_lib::set_int_range(0, scores.len() as int);
    vstd::set_lib::lemma_int_range(0, scores.len() as int);
    assert(ints.to_set().subset_of(all)) by {
        assert forall|y: int| ints.to_set().contains(y) implies all.contains(y) by {
            let i = choose|i: int| 0 <= i < ints.len() && ints[i] == y;
            assert(order[i] < scores.len());
        }
    }
    vstd::set_lib::lemma_subset_equality(ints.to_set(), all);
    assert(ints.to_set().contains(x as int));
    let i = choose|i: int| 0 <= i < ints.len() && ints[i] == x as int;
    assert(order[i] == x);
}

proof fn lemma_ranking_agrees(a: Seq<usize>, b: Seq<usize>, scores: Seq<u64>, i: int)
    requires
        is_ranking(a, scores),
        is_ranking(b, scores),
        0 <= i < a.len(),
        forall|j: int| 0 <= j < i ==> a[j] == b[j],
    ensures
        !outranks(scores, a[i] as int, b[i] as int),
{
    lemma_ranking_covers(b, scores, a[i]);
    let j = choose|j: int| 0 <= j < b.len() && b[j] == a[i];
    if j < i {
        assert(a[j] == a[i]);
        assert(outranks(scores, a[j] as int, a[i] as int));
    } else if j > i {
        assert(outranks(scores, b[i] as int, b[j] as int));
    }
}

/// Scores have one ranking only.
pub proof fn ranking_is_unique(a: Seq<usize>, b: Seq<usize>, scores: Seq<u64>)
    requires
        is_ranking(a, scores),
        is_ranking(b, scores),
    ensures
        a == b,
{
    lemma_ranking_prefix(a, b, scores, a.len() as int);
    assert(a =~= b);
}

proof fn lemma_ranking_prefix(a: Seq<usize>, b: Seq<usize>, scores: Seq<u64>, n: int)
    requires
        is_ranking(a, scores),
        is_ranking(b, scores),
        0 <= n <= a.len(),
    ensures
        forall|j: int| 0 <= j < n ==> a[j] == b[j],
    decreases n,
{
    if n > 0 {
        lemma_ranking_prefix(a, b, scores, n - 1);
        if a[n - 1] != b[n - 1] {
            lemma_ranking_agrees(a, b, scores, n - 1);
            lemma_ranking_agrees(b, a, scores, n - 1);
        }
    }
}

/// Entry `k` goes behind the entries ranked so far that score at least as high.
proof fn lemma_insert_ranked(before: Seq<usize>, scores: Seq<u64>, k: usize, pos: int)
    requires
        k < scores.len(),
        is_ranking(before, scores.take(k as int)),
        0 <= pos <= k,
        forall|i: int| 0 <= i < pos ==> scores[(#[trigger] before[i]) as int] >= scores[k as int],
        pos < k ==> scores[before[pos] as int] < scores[k as int],
    ensures
        is_ranking(before.insert(pos, k), scores.take(k + 1)),
{
    let seen = scores.take(k as int);
    let next = scores.take(k + 1);
    let order = before.insert(pos, k);
    assert(forall|i: int| 0 <= i < k ==> #[trigger] next[i] == scores[i]);
    assert(forall|i: int| 0 <= i < k ==> #[trigger] seen[i] == scores[i]);
    assert forall|i: int, j: int| 0 <= i < j < order.len() implies outranks(
        next,
        order[i] as int,
        order[j] as int,
    ) by {
        if i < pos && j < pos {
            assert(outranks(seen, before[i] as int, before[j] as int));
        } else if i < pos && j == pos {
            assert(scores[before[i] as int] >= scores[k as int]);
        } else if i < pos {
            assert(outranks(seen, before[i] as int, before[j - 1] as int));
        } else if i == pos {
            assert(before[pos] < seen.len());
            if j - 1 > pos {
                assert(outranks(seen, before[pos] as int, before[j - 1] as int));
            }
        } else {
            assert(outranks(seen, before[i - 1] as int, before[j - 1] as int));
        }
    }
    assert forall|i: int| 0 <= i < order.len() implies (#[trigger] order[i]) < next.len() by {
        if i < pos {
            assert(before[i] < seen.len());
        } else if i > pos {
            assert(before[i - 1] < seen.len());
        }
    }
}

proof fn lemma_insert_place(before: Seq<usize>, scores: Seq<u64>, k: usize, from: int) -> (pos: int)
    requires
        k < scores.len(),
        before.len() == k,
        0 <= from <= k,
        forall|i: int| 0 <= i < from ==> scores[(#[trigger] before[i]) as int] >= scores[k as int],
    ensures
        0 <= pos <= k,
        forall|i: int| 0 <= i < pos ==> scores[(#[trigger] before[i]) as int] >= scores[k as int],
        pos < k ==> scores[before[pos] as int] < scores[k as int],
    decreases k - from,
{
    if from < k && scores[before[from] as int] >= scores[k as int] {
        lemma_insert_place(before, scores, k, from + 1)
    } else {
        from
    }
}

proof fn lemma_prefix_has_ranking(scores: Seq<u64>, k: int) -> (order: Seq<usize>)
    requires
        0 <= k <= scores.len() <= usize::MAX,
    ensures
        is_ranking(order, scores.take(k)),
    decreases k,
{
    if k == 0 {
        Seq::empty()
    } else {
        let before = lemma_prefix_has_ranking(scores, k - 1);
        let pos = lemma_insert_place(before, scores, (k - 1) as usize, 0);
        lemma_insert_ranked(before, scores, (k - 1) as usize, pos);
        before.insert(pos, (k - 1) as usize)
    }
}

/// All scores have a ranking.
pub proof fn ranking_exists(scores: Seq<u64>)
    requires
        scores.len() <= usize::MAX,
    ensures
        is_ranking(ranked(scores), scores),
{
    lemma_prefix_has_ranking(scores, scores.len() as int);
    assert(scores.take(scores.len() as int) =~= scores);
}

/// Ranks the entries by score, highest first; equal scores keep the order of the entries.
pub fn rank(scores: &[u64]) -> (order: Vec<usize>)
    ensures
        is_ranking(order@, scores@),
        order@ == ranked(scores@),
{
    let mut order: Vec<usize> = Vec::new();
    let mut k: usize = 0;
    while k < scores.len()
        invariant
            k <= scores@.len(),
            is_ranking(order@, scores@.take(k as int)),
        decreases scores.len() - k,
    {
        let ghost seen = scores@.take(k as int);
        let mut pos: usize = 0;
        while pos < k && scores[order[pos]] >= scores[k]
            invariant
                pos <= k < scores@.len(),
                seen == scores@.take(k as int),
                is_ranking(order@, seen),
                order@.len() == k,
                forall|i: int| 0 <= i < pos ==> scores@[(#[trigger] order@[i]) as int]
                    >= scores@[k as int],
            decreases k - pos,
        {
            assert(order@[pos as int] < seen.len());
            pos += 1;
        }
        let ghost before = order@;
        order.insert(pos, k);
        proof {
            lemma_insert_ranked(before, scores@, k, pos as int);
            assert(order@ =~= before.insert(pos as int, k));
        }
        k += 1;
    }
    proof {
        assert(scores@.take(k as int) =~= scores@);
        ranking_is_unique(order@, ranked(scores@), scores@);
    }
    order
}

/// Whether `c` shares an operation with one of the boundaries in `v`.
pub open spec fn overlaps_any(v: Seq<BoundaryView>, c: BoundaryView) -> bool {
    exists|i: int| 0 <= i < v.len() && boundary::overlap(#[trigger] v[i], c)
}

/// The boundaries that are picked along the first `k` places of an order: each that shares no
/// operation with one picked before it.
pub open spec fn picked(candidates: Seq<BoundaryView>, order: Seq<usize>, k: nat) -> Seq<
    BoundaryView,
>
    decreases k,
{
    if k == 0 {
        Seq::empty()
    } else {
        let before = picked(candidates, order, (k - 1) as nat);
        let c = candidates[order[k - 1] as int];
        if overlaps_any(before, c) {
            before
        } else {
            before.push(c)
        }
    }
}

/// The greedy choice: along the ranking by score, each candidate that shares no operation with
/// one picked before it.
pub open spec fn greedy_choice(candidates: Seq<BoundaryView>, scores: Seq<u64>) -> Seq<
    BoundaryView,
> {
    picked(candidates, ranked(scores), scores.len())
}

/// Picks along the ranking by score each candidate that shares no operation with one picked
/// before it.
pub fn select_greedily(candidates: &Vec<FusionBoundary>, scores: &[u64]) -> (r: Vec<
    FusionBoundary,
>)
    requires
        candidates@.len() == scores@.len(),
    ensures
        boundary::views(r@) == greedy_choice(boundary::views(candidates@), scores@),
{
    let order: Vec<usize> = rank(scores);
    let ghost cs = boundary::views(candidates@);
    let mut selected: Vec<FusionBoundary> = Vec::new();
    assert(boundary::views(selected@) =~= picked(cs, order@, 0));
    let mut k: usize = 0;
    while k < order.len()
        invariant
            k <= order@.len(),
            cs == boundary::views(candidates@),
            candidates@.len() == scores@.len(),
            is_ranking(order@, scores@),
            boundary::views(selected@) == picked(cs, order@, k as nat),
        decreases order.len() - k,
    {
        assert(order@[k as int] < scores@.len());
        let c: &FusionBoundary = &candidates[order[k]];
        let mut free: bool = true;
        let mut i: usize = 0;
        while i < selected.len() && free
            invariant
                i <= selected@.len(),
                free == forall|j: int| 0 <= j < i ==> !boundary::overlap(#[trigger] boundary::views(selected@)[j], c@),
            decreases selected.len() - i,
        {
            assert(boundary::views(selected@)[i as int] == selected@[i as int]@);
            if selected[i].overlaps(c) {
                free = false;
            }
            i += 1;
        }
        assert(free == !overlaps_any(boundary::views(selected@), c@));
        assert(cs[order@[k as int] as int] == c@);
        let ghost before = selected@;
        if free {
            selected.push(c.clone());
            assert(boundary::views(selected@) =~= boundary::views(before).push(c@));
        }
        k += 1;
    }
    assert(order@ == ranked(scores@));
    selected
}

/// The boundaries that are picked share no operation.
pub proof fn picked_is_disjoint(candidates: Seq<BoundaryView>, order: Seq<usize>, k: nat)
    ensures
        boundary::disjoint(picked(candidates, order, k)),
    decreases k,
{
    if k > 0 {
        picked_is_disjoint(candidates, order, (k - 1) as nat);
        let before = picked(candidates, order, (k - 1) as nat);
        let c = candidates[order[k - 1] as int];
        if !overlaps_any(before, c) {
            assert forall|i: int, j: int| 0 <= i < j < before.push(c).len() implies !boundary::overlap(
                before.push(c)[i],
                before.push(c)[j],
            ) by {
                if j == before.len() {
                    assert(!boundary::overlap(before[i], c));
                }
            }
        }
    }
}

/// Each candidate along the order is picked or shares an operation with one that was picked.
pub proof fn picked_is_maximal(candidates: Seq<BoundaryView>, order: Seq<usize>, k: nat, i: int)
    requires
        0 <= i < k,
    ensures
        ({
            let c = candidates[order[i] as int];
            picked(candidates, order, k).contains(c) || overlaps_any(
                picked(candidates, order, k),
                c,
            )
        }),
    decreases k,
{
    let c = candidates[order[i] as int];
    let before = picked(candidates, order, (k - 1) as nat);
    let after = picked(candidates, order, k);
    if i == k - 1 {
        if !overlaps_any(before, c) {
            assert(after[before.len() as int] == c);
        }
    } else {
        picked_is_maximal(candidates, order, (k - 1) as nat, i);
        if before.contains(c) {
            let j = choose|j: int| 0 <= j < before.len() && before[j] == c;
            assert(after[j] == c);
        } else {
            let j = choose|j: int| 0 <= j < before.len() && boundary::overlap(#[trigger] before[j], c);
            assert(after[j] == before[j]);
        }
    }
}

/// Every boundary that is picked is one of the candidates.
pub proof fn picked_from_candidates(candidates: Seq<BoundaryView>, order: Seq<usize>, k: nat)
    requires
        k <= order.len(),
        forall|i: int| 0 <= i < order.len() ==> (#[trigger] order[i]) < candidates.len(),
    ensures
        forall|i: int|
            0 <= i < picked(candidates, order, k).len() ==> candidates.contains(
                #[trigger] picked(candidates, order, k)[i],
            ),
    decreases k,
{
    if k > 0 {
        picked_from_candidates(candidates, order, (k - 1) as nat);
        let before = picked(candidates, order, (k - 1) as nat);
        let after = picked(candidates, order, k);
        assert(order[k - 1] < candidates.len());
        assert(candidates.contains(candidates[order[k - 1] as int]));
        assert forall|i: int| 0 <= i < after.len() implies candidates.contains(
            #[trigger] after[i],
        ) by {
            if i < before.len() {
                assert(after[i] == before[i]);
            }
        }
    }
}

/// What is chosen greedily shares no operation, is made of candidates, and leaves out only
/// candidates that share an operation with one that was chosen.
pub proof fn greedy_choice_is_maximal(candidates: Seq<BoundaryView>, scores: Seq<u64>)
    requires
        candidates.len() == scores.len() <= usize::MAX,
    ensures
        boundary::disjoint(greedy_choice(candidates, scores)),
        forall|i: int|
            0 <= i < greedy_choice(candidates, scores).len() ==> candidates.contains(
                #[trigger] greedy_choice(candidates, scores)[i],
            ),
        forall|i: int|
            0 <= i < candidates.len() ==> greedy_choice(candidates, scores).contains(
                #[trigger] candidates[i],
            ) || overlaps_any(greedy_choice(candidates, scores), candidates[i]),
{
    let order = ranked(scores);
    ranking_exists(scores);
    picked_is_disjoint(candidates, order, scores.len());
    picked_from_candidates(candidates, order, scores.len());
    assert forall|i: int| 0 <= i < candidates.len() implies greedy_choice(
        candidates,
        scores,
    ).contains(#[trigger] candidates[i]) || overlaps_any(
        greedy_choice(candidates, scores),
        candidates[i],
    ) by {
        lemma_ranking_covers(order, scores, i as usize);
        let j = choose|j: int| 0 <= j < order.len() && order[j] == i as usize;
        picked_is_maximal(candidates, order, scores.len(), j);
    }
}

/// A ranking lists every entry.
pub proof fn ranking_holds_all(order: Seq<usize>, scores: Seq<u64>, x: usize)
    requires
        is_ranking(order, scores),
        x < scores.len(),
    ensures
        order.contains(x),
{
    lemma_ranking_covers(order, scores, x);
}

} // verus!
