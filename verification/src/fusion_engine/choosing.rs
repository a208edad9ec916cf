//! What the two ways of choosing boundaries choose, said of the candidates and their scores.

use vstd::prelude::*;
use super::boundary;
use super::boundary::BoundaryView;
use super::ilp;
use super::ranking;

verus! {

/// Whether candidate `a` goes before candidate `b`: its score is higher, or the scores are equal
/// and it was listed first.
pub open spec fn goes_first(scores: Seq<u64>, a: int, b: int) -> bool {
    scores[a] > scores[b] || (scores[a] == scores[b] && a < b)
}

/// Whether candidate `j` was chosen, goes before candidate `i` and names one of its operations.
pub open spec fn displaces(
    candidates: Seq<BoundaryView>,
    scores: Seq<u64>,
    j: int,
    i: int,
) -> bool {
    &&& 0 <= j < candidates.len()
    &&& goes_first(scores, j, i)
    &&& ranking::greedy_choice(candidates, scores).contains(candidates[j])
    &&& exists|op: usize|
        #[trigger] candidates[j].indices.contains(op) && candidates[i].indices.contains(op)
}

proof fn lemma_kept(candidates: Seq<BoundaryView>, order: Seq<usize>, k: nat, m: nat, c: BoundaryView)
    requires
        k <= m,
        ranking::picked(candidates, order, k).contains(c),
    ensures
        ranking::picked(candidates, order, m).contains(c),
    decreases m,
{
    if k < m {
        lemma_kept(candidates, order, k, (m - 1) as nat, c);
        let before = ranking::picked(candidates, order, (m - 1) as nat);
        let after = ranking::picked(candidates, order, m);
        let i = choose|i: int| 0 <= i < before.len() && before[i] == c;
        assert(after[i] == c);
    }
}

/// Whether `c` is the candidate at one of the first `k` places of the order.
spec fn from_places(
    candidates: Seq<BoundaryView>,
    order: Seq<usize>,
    k: nat,
    p: int,
    c: BoundaryView,
) -> bool {
    0 <= p < k && candidates[order[p] as int] == c
}

proof fn lemma_picked_place(candidates: Seq<BoundaryView>, order: Seq<usize>, k: nat, i: int)
    requires
        0 <= i < ranking::picked(candidates, order, k).len(),
    ensures
        exists|p: int| #[trigger]
            from_places(candidates, order, k, p, ranking::picked(candidates, order, k)[i]),
    decreases k,
{
    let after = ranking::picked(candidates, order, k);
    let before = ranking::picked(candidates, order, (k - 1) as nat);
    if i < before.len() {
        lemma_picked_place(candidates, order, (k - 1) as nat, i);
        let p = choose|p: int| #[trigger]
            from_places(candidates, order, (k - 1) as nat, p, before[i]);
        assert(after[i] == before[i]);
        assert(from_places(candidates, order, k, p, after[i]));
    } else {
        assert(from_places(candidates, order, k, k - 1, after[i]));
    }
}

proof fn lemma_place_of(scores: Seq<u64>, i: int) -> (p: int)
    requires
        0 <= i < scores.len() <= usize::MAX,
    ensures
        0 <= p < ranking::ranked(scores).len(),
        ranking::ranked(scores)[p] == i,
{
    let order = ranking::ranked(scores);
    ranking::ranking_exists(scores);
    ranking::ranking_holds_all(order, scores, i as usize);
    choose|p: int| 0 <= p < order.len() && order[p] == i as usize
}

/// A candidate is chosen greedily unless one was chosen that goes before it and names one of its
/// operations: nothing with a lower score displaces it.
pub proof fn only_better_candidates_displace(
    candidates: Seq<BoundaryView>,
    scores: Seq<u64>,
    i: int,
)
    requires
        candidates.len() == scores.len() <= usize::MAX,
        0 <= i < candidates.len(),
    ensures
        ranking::greedy_choice(candidates, scores).contains(candidates[i]) || exists|j: int|
            #[trigger] displaces(candidates, scores, j, i),
{
    let order = ranking::ranked(scores);
    let n = scores.len();
    let p = lemma_place_of(scores, i);
    ranking::ranking_exists(scores);
    let before = ranking::picked(candidates, order, p as nat);
    let c = candidates[i];
    if ranking::overlaps_any(before, c) {
        let q = choose|q: int| 0 <= q < before.len() && boundary::overlap(#[trigger] before[q], c);
        lemma_picked_place(candidates, order, p as nat, q);
        let s = choose|s: int| #[trigger] from_places(candidates, order, p as nat, s, before[q]);
        let j = order[s] as int;
        assert(ranking::outranks(scores, order[s] as int, order[p] as int));
        assert(before.contains(candidates[j]));
        lemma_kept(candidates, order, p as nat, n, candidates[j]);
        assert(displaces(candidates, scores, j, i));
    } else {
        let after = ranking::picked(candidates, order, (p + 1) as nat);
        assert(after[before.len() as int] == c);
        lemma_kept(candidates, order, (p + 1) as nat, n, c);
    }
}

/// The candidate that goes before all others is chosen greedily, and it is the first in the
/// choice.
pub proof fn best_candidate_is_chosen(candidates: Seq<BoundaryView>, scores: Seq<u64>, i: int)
    requires
        candidates.len() == scores.len() <= usize::MAX,
        0 <= i < candidates.len(),
        forall|j: int| 0 <= j < scores.len() && j != i ==> goes_first(scores, i, j),
    ensures
        ranking::greedy_choice(candidates, scores).len() > 0,
        ranking::greedy_choice(candidates, scores)[0] == candidates[i],
{
    let order = ranking::ranked(scores);
    ranking::ranking_exists(scores);
    let p = lemma_place_of(scores, i);
    if p > 0 {
        assert(ranking::outranks(scores, order[0] as int, order[p] as int));
        assert(goes_first(scores, i, order[0] as int));
    }
    lemma_first_stays(candidates, order, scores.len());
}

proof fn lemma_first_stays(candidates: Seq<BoundaryView>, order: Seq<usize>, k: nat)
    requires
        k > 0,
    ensures
        ranking::picked(candidates, order, k).len() > 0,
        ranking::picked(candidates, order, k)[0] == candidates[order[0] as int],
    decreases k,
{
    let before = ranking::picked(candidates, order, (k - 1) as nat);
    if k > 1 {
        lemma_first_stays(candidates, order, (k - 1) as nat);
    } else {
        assert(before.len() == 0);
        assert(!ranking::overlaps_any(before, candidates[order[0] as int]));
    }
}

/// Whether candidates `x` and `y`, chosen at places `a` and `b`, stand in the order of their
/// scores.
pub open spec fn in_score_order(
    candidates: Seq<BoundaryView>,
    scores: Seq<u64>,
    first: BoundaryView,
    second: BoundaryView,
    x: int,
    y: int,
) -> bool {
    &&& 0 <= x < candidates.len()
    &&& 0 <= y < candidates.len()
    &&& candidates[x] == first
    &&& candidates[y] == second
    &&& goes_first(scores, x, y)
}

proof fn lemma_picked_in_order(
    candidates: Seq<BoundaryView>,
    scores: Seq<u64>,
    order: Seq<usize>,
    k: nat,
    a: int,
    b: int,
)
    requires
        candidates.len() == scores.len(),
        ranking::is_ranking(order, scores),
        k <= order.len(),
        0 <= a < b < ranking::picked(candidates, order, k).len(),
    ensures
        exists|x: int, y: int| #[trigger]
            in_score_order(
                candidates,
                scores,
                ranking::picked(candidates, order, k)[a],
                ranking::picked(candidates, order, k)[b],
                x,
                y,
            ),
    decreases k,
{
    let after = ranking::picked(candidates, order, k);
    let before = ranking::picked(candidates, order, (k - 1) as nat);
    assert(after[a] == before[a]);
    if b < before.len() {
        assert(after[b] == before[b]);
        lemma_picked_in_order(candidates, scores, order, (k - 1) as nat, a, b);
    } else {
        lemma_picked_place(candidates, order, (k - 1) as nat, a);
        let p = choose|p: int| #[trigger]
            from_places(candidates, order, (k - 1) as nat, p, before[a]);
        assert(ranking::outranks(scores, order[p] as int, order[k - 1] as int));
        assert(in_score_order(
            candidates,
            scores,
            after[a],
            after[b],
            order[p] as int,
            order[k - 1] as int,
        ));
    }
}

/// The greedy choice lists its candidates from the highest score to the lowest.
pub proof fn chosen_by_falling_score(
    candidates: Seq<BoundaryView>,
    scores: Seq<u64>,
    a: int,
    b: int,
)
    requires
        candidates.len() == scores.len() <= usize::MAX,
        0 <= a < b < ranking::greedy_choice(candidates, scores).len(),
    ensures
        exists|x: int, y: int| #[trigger]
            in_score_order(
                candidates,
                scores,
                ranking::greedy_choice(candidates, scores)[a],
                ranking::greedy_choice(candidates, scores)[b],
                x,
                y,
            ),
{
    ranking::ranking_exists(scores);
    lemma_picked_in_order(candidates, scores, ranking::ranked(scores), scores.len(), a, b);
}

/// How many of the first `k` flags are set.
pub open spec fn flags_set(chosen: Seq<bool>, k: nat) -> nat
    decreases k,
{
    if k == 0 {
        0
    } else {
        flags_set(chosen, (k - 1) as nat) + (if chosen[k - 1] {
            1nat
        } else {
            0nat
        })
    }
}

proof fn lemma_flags_grow(chosen: Seq<bool>, k: nat, m: nat)
    requires
        k <= m,
    ensures
        flags_set(chosen, k) <= flags_set(chosen, m),
    decreases m,
{
    if k < m {
        lemma_flags_grow(chosen, k, (m - 1) as nat);
    }
}

proof fn lemma_choice_by_flags(v: Seq<BoundaryView>, chosen: Seq<bool>, k: nat)
    requires
        k <= v.len(),
    ensures
        ilp::solver_choice(v, chosen, k).len() == flags_set(chosen, k),
        forall|i: int|
            0 <= i < k && chosen[i] ==> ilp::solver_choice(v, chosen, k)[#[trigger] flags_set(
                chosen,
                i as nat,
            ) as int] == v[i],
    decreases k,
{
    if k > 0 {
        lemma_choice_by_flags(v, chosen, (k - 1) as nat);
        assert forall|i: int| 0 <= i < k && chosen[i] implies ilp::solver_choice(
            v,
            chosen,
            k,
        )[#[trigger] flags_set(chosen, i as nat) as int] == v[i] by {
            lemma_flags_grow(chosen, (i + 1) as nat, k);
            if i < k - 1 {
                lemma_flags_grow(chosen, (i + 1) as nat, (k - 1) as nat);
            }
        }
    }
}

/// Where the solver answered, exactly the candidates whose variable it set are selected, in the
/// order in which they were listed: a candidate stands behind as many as were set before it.
pub proof fn solver_decides(
    candidates: Seq<BoundaryView>,
    answer: &[bool],
    speedups: Seq<u64>,
)
    requires
        answer@.len() == candidates.len(),
    ensures
        ilp::selection(candidates, Some(answer), speedups).len() == flags_set(
            answer@,
            candidates.len(),
        ),
        forall|i: int|
            0 <= i < candidates.len() && answer@[i] ==> ilp::selection(
                candidates,
                Some(answer),
                speedups,
            )[#[trigger] flags_set(answer@, i as nat) as int] == candidates[i],
{
    lemma_choice_by_flags(candidates, answer@, candidates.len());
}

/// Where the solver failed, a candidate is selected unless one with a speedup that goes before
/// its own names one of its operations.
pub proof fn speedup_decides_without_solver(
    candidates: Seq<BoundaryView>,
    speedups: Seq<u64>,
    i: int,
)
    requires
        candidates.len() == speedups.len() <= usize::MAX,
        0 <= i < candidates.len(),
    ensures
        ilp::selection(candidates, None, speedups).contains(candidates[i]) || exists|j: int|
            #[trigger] displaces(candidates, speedups, j, i),
        boundary::disjoint(ilp::selection(candidates, None, speedups)),
{
    only_better_candidates_displace(candidates, speedups, i);
    ranking::greedy_choice_is_maximal(candidates, speedups);
}

} // verus!
