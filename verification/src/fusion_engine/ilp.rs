//! Selection of boundaries by integer linear programming.
//!
//! Each candidate has a variable that is 0 or 1. For each operation at most one of the
//! candidates that name it may be chosen. The objective, the sum of the speedups of the chosen
//! candidates, is left to the solver.

use vstd::prelude::*;
use super::boundary;
use super::boundary::{holds_index, BoundaryView, FusionBoundary};
use super::ranking;
use super::ranking::select_greedily;

verus! {

/// The candidates among the first `k` that name operation `op`.
pub open spec fn naming(candidates: Seq<BoundaryView>, op: usize, k: nat) -> Seq<usize>
    decreases k,
{
    if k == 0 {
        Seq::empty()
    } else if candidates[k - 1].indices.contains(op) {
        naming(candidates, op, (k - 1) as nat).push((k - 1) as usize)
    } else {
        naming(candidates, op, (k - 1) as nat)
    }
}

/// The constraints for the operations before place `ops`: for each that some candidate names,
/// the candidates that name it.
pub open spec fn constraints_up_to(candidates: Seq<BoundaryView>, ops: int) -> Seq<Seq<usize>>
    decreases ops,
{
    if ops <= 0 {
        Seq::empty()
    } else {
        let row = naming(candidates, (ops - 1) as usize, candidates.len());
        if row.len() == 0 {
            constraints_up_to(candidates, ops - 1)
        } else {
            constraints_up_to(candidates, ops - 1).push(row)
        }
    }
}

/// Whether no candidate names an operation at or behind place `bound`.
pub open spec fn bounded_by(candidates: Seq<BoundaryView>, bound: int) -> bool {
    forall|c: int, i: int|
        0 <= c < candidates.len() && 0 <= i < candidates[c].indices.len() ==> (
        #[trigger] candidates[c].indices[i]) < bound
}

/// The contents of a list of rows.
pub open spec fn rows(v: Seq<Vec<usize>>) -> Seq<Seq<usize>> {
    Seq::new(v.len(), |i: int| v[i]@)
}

/// The candidates among the first `k` that the solver chose.
pub open spec fn solver_choice(candidates: Seq<BoundaryView>, chosen: Seq<bool>, k: nat) -> Seq<
    BoundaryView,
>
    decreases k,
{
    if k == 0 {
        Seq::empty()
    } else if chosen[k - 1] {
        solver_choice(candidates, chosen, (k - 1) as nat).push(candidates[k - 1])
    } else {
        solver_choice(candidates, chosen, (k - 1) as nat)
    }
}

/// The boundaries that are selected: those that the solver chose, or, where it failed, the
/// greedy choice by speedup.
pub open spec fn selection(
    candidates: Seq<BoundaryView>,
    solution: Option<&[bool]>,
    speedups: Seq<u64>,
) -> Seq<BoundaryView> {
    match solution {
        Some(s) => solver_choice(candidates, s@, candidates.len()),
        None => ranking::greedy_choice(candidates, speedups),
    }
}

/// Whether for no operation two candidates that name it were chosen.
pub open spec fn feasible(candidates: Seq<BoundaryView>, chosen: Seq<bool>) -> bool {
    forall|op: usize, a: int, b: int|
        0 <= a < b < candidates.len() && #[trigger] candidates[a].indices.contains(op)
            && #[trigger] candidates[b].indices.contains(op) ==> !(chosen[a] && chosen[b])
}

fn row_of(candidates: &[FusionBoundary], op: usize) -> (r: Vec<usize>)
    ensures
        r@ == naming(boundary::views(candidates@), op, candidates@.len()),
{
    let ghost v = boundary::views(candidates@);
    let mut row: Vec<usize> = Vec::new();
    let mut k: usize = 0;
    while k < candidates.len()
        invariant
            k <= candidates@.len(),
            v == boundary::views(candidates@),
            row@ == naming(v, op, k as nat),
        decreases candidates.len() - k,
    {
        assert(v[k as int] == candidates@[k as int]@);
        if holds_index(&candidates[k].op_indices, op) {
            row.push(k);
        }
        k += 1;
    }
    row
}

/// The largest place that a candidate names, or 0 where none names any.
fn largest_op(candidates: &[FusionBoundary]) -> (r: usize)
    ensures
        bounded_by(boundary::views(candidates@), r + 1),
        r > 0 ==> exists|c: int|
            0 <= c < candidates@.len() && #[trigger] boundary::views(
                candidates@,
            )[c].indices.contains(r),
{
    let ghost v = boundary::views(candidates@);
    let mut largest: usize = 0;
    let mut k: usize = 0;
    while k < candidates.len()
        invariant
            k <= candidates@.len(),
            v == boundary::views(candidates@),
            forall|c: int, i: int|
                0 <= c < k && 0 <= i < v[c].indices.len() ==> (#[trigger] v[c].indices[i])
                    <= largest,
            largest > 0 ==> exists|c: int|
                0 <= c < candidates@.len() && #[trigger] v[c].indices.contains(largest),
        decreases candidates.len() - k,
    {
        let list: &Vec<usize> = &candidates[k].op_indices;
        assert(v[k as int].indices == list@);
        let mut i: usize = 0;
        while i < list.len()
            invariant
                i <= list@.len(),
                k < candidates@.len(),
                v == boundary::views(candidates@),
                v[k as int].indices == list@,
                forall|j: int| 0 <= j < i ==> (#[trigger] list@[j]) <= largest,
                forall|c: int, j: int|
                    0 <= c < k && 0 <= j < v[c].indices.len() ==> (#[trigger] v[c].indices[j])
                        <= largest,
                largest > 0 ==> exists|c: int|
                    0 <= c < candidates@.len() && #[trigger] v[c].indices.contains(largest),
            decreases list.len() - i,
        {
            if list[i] > largest {
                largest = list[i];
                assert(list@[i as int] == largest);
                assert(v[k as int].indices.contains(largest));
            }
            i += 1;
        }
        k += 1;
    }
    largest
}

/// The constraints of the selection: for each operation that some candidate names, in ascending
/// order, the candidates of which at most one may be chosen.
pub fn selection_constraints(candidates: &[FusionBoundary]) -> (r: Vec<Vec<usize>>)
    ensures
        exists|bound: int|
            bounded_by(boundary::views(candidates@), bound) && rows(r@)
                == #[trigger] constraints_up_to(boundary::views(candidates@), bound),
{
    let ghost v = boundary::views(candidates@);
    let mut out: Vec<Vec<usize>> = Vec::new();
    let last: usize = largest_op(candidates);
    let mut op: usize = 0;
    let mut done: bool = false;
    assert(rows(out@) =~= constraints_up_to(v, 0));
    while !done
        invariant
            op <= last,
            v == boundary::views(candidates@),
            !done ==> rows(out@) == constraints_up_to(v, op as int),
            done ==> op == last && rows(out@) == constraints_up_to(v, last + 1),
        decreases
            last - op + (if done {
                0int
            } else {
                1int
            }),
    {
        let row: Vec<usize> = row_of(candidates, op);
        let ghost held = out@;
        let ghost r = row@;
        if row.len() > 0 {
            out.push(row);
            assert(rows(out@) =~= rows(held).push(r));
        }
        assert(rows(out@) =~= constraints_up_to(v, op + 1));
        if op < last {
            op += 1;
        } else {
            done = true;
        }
    }
    assert(bounded_by(v, last + 1));
    out
}

/// The boundaries to fuse: those that the solver chose, or, where it failed, the greedy choice
/// by speedup.
///
/// `solution` holds for each candidate whether the solver set its variable, and is `None` where
/// the solver failed. `speedups` holds the bits of the estimated speedup of each candidate.
pub fn ilp_select_boundaries(
    candidates: &Vec<FusionBoundary>,
    solution: Option<&[bool]>,
    speedups: &[u64],
) -> (r: Vec<FusionBoundary>)
    requires
        speedups@.len() == candidates@.len(),
        solution matches Some(s) ==> s@.len() == candidates@.len(),
    ensures
        boundary::views(r@) == selection(boundary::views(candidates@), solution, speedups@),
{
    match solution {
        Some(chosen) => {
            let ghost v = boundary::views(candidates@);
            let mut out: Vec<FusionBoundary> = Vec::new();
            assert(boundary::views(out@) =~= solver_choice(v, chosen@, 0));
            let mut k: usize = 0;
            while k < candidates.len()
                invariant
                    k <= candidates@.len(),
                    chosen@.len() == candidates@.len(),
                    v == boundary::views(candidates@),
                    boundary::views(out@) == solver_choice(v, chosen@, k as nat),
                decreases candidates.len() - k,
            {
                assert(v[k as int] == candidates@[k as int]@);
                if chosen[k] {
                    let ghost held = out@;
                    out.push(candidates[k].clone());
                    assert(boundary::views(out@) =~= boundary::views(held).push(v[k as int]));
                }
                k += 1;
            }
            out
        },
        None => select_greedily(candidates, speedups),
    }
}

proof fn lemma_naming_holds(v: Seq<BoundaryView>, op: usize, k: nat, a: int)
    requires
        k <= v.len() <= usize::MAX,
        0 <= a < v.len(),
    ensures
        naming(v, op, k).contains(a as usize) <==> a < k && v[a].indices.contains(op),
        forall|i: int|
            0 <= i < naming(v, op, k).len() ==> (#[trigger] naming(v, op, k)[i]) < k,
    decreases k,
{
    if k > 0 {
        lemma_naming_holds(v, op, (k - 1) as nat, a);
        let before = naming(v, op, (k - 1) as nat);
        let after = naming(v, op, k);
        if a == k - 1 && v[a].indices.contains(op) {
            assert(after[before.len() as int] == a as usize);
        }
        if before.contains(a as usize) {
            let i = choose|i: int| 0 <= i < before.len() && before[i] == a as usize;
            assert(after[i] == a as usize);
        }
        if after.contains(a as usize) {
            let i = choose|i: int| 0 <= i < after.len() && after[i] == a as usize;
            if i < before.len() {
                assert(before[i] == a as usize);
            }
        }
    }
}

/// An operation that some candidate names has its constraint: two candidates that name it stand
/// in one row.
pub proof fn constraints_cover_conflicts(
    v: Seq<BoundaryView>,
    bound: int,
    op: usize,
    a: int,
    b: int,
)
    requires
        v.len() <= usize::MAX,
        0 <= op < bound <= usize::MAX + 1,
        0 <= a < v.len(),
        0 <= b < v.len(),
        v[a].indices.contains(op),
        v[b].indices.contains(op),
    ensures
        exists|i: int|
            0 <= i < constraints_up_to(v, bound).len() && (#[trigger] constraints_up_to(
                v,
                bound,
            )[i]).contains(a as usize) && constraints_up_to(v, bound)[i].contains(b as usize),
    decreases bound,
{
    let all = constraints_up_to(v, bound);
    let row = naming(v, op, v.len());
    lemma_naming_holds(v, op, v.len(), a);
    lemma_naming_holds(v, op, v.len(), b);
    if op == bound - 1 {
        assert(all[all.len() - 1] == row);
    } else {
        constraints_cover_conflicts(v, bound - 1, op, a, b);
        let before = constraints_up_to(v, bound - 1);
        let i = choose|i: int|
            0 <= i < before.len() && (#[trigger] before[i]).contains(a as usize)
                && before[i].contains(b as usize);
        assert(all[i] == before[i]);
    }
}

/// A choice that chooses at most one candidate of each constraint is feasible.
pub proof fn constraints_give_feasibility(
    v: Seq<BoundaryView>,
    bound: int,
    chosen: Seq<bool>,
)
    requires
        v.len() <= usize::MAX,
        chosen.len() == v.len(),
        0 <= bound <= usize::MAX + 1,
        bounded_by(v, bound),
        forall|i: int, a: usize, b: usize|
            0 <= i < constraints_up_to(v, bound).len() && a != b && #[trigger] constraints_up_to(
                v,
                bound,
            )[i].contains(a) && #[trigger] constraints_up_to(v, bound)[i].contains(b)
                && a < v.len() && b < v.len() ==> !(chosen[a as int] && chosen[b as int]),
    ensures
        feasible(v, chosen),
{
    assert forall|op: usize, a: int, b: int|
        0 <= a < b < v.len() && #[trigger] v[a].indices.contains(op)
            && #[trigger] v[b].indices.contains(op) implies !(chosen[a] && chosen[b]) by {
        let i = choose|i: int| 0 <= i < v[a].indices.len() && v[a].indices[i] == op;
        assert(v[a].indices[i] < bound);
        constraints_cover_conflicts(v, bound, op, a, b);
        let all = constraints_up_to(v, bound);
        let r = choose|r: int|
            0 <= r < all.len() && (#[trigger] all[r]).contains(a as usize) && all[r].contains(
                b as usize,
            );
        assert(all[r].contains(a as usize) && all[r].contains(b as usize));
    }
}

/// Whether `b` is a chosen one of the first `k` candidates.
spec fn is_chosen(v: Seq<BoundaryView>, chosen: Seq<bool>, k: int, b: BoundaryView) -> bool {
    exists|a: int| 0 <= a < k && chosen[a] && #[trigger] v[a] == b
}

proof fn lemma_solver_choice_source(v: Seq<BoundaryView>, chosen: Seq<bool>, k: nat)
    requires
        k <= v.len(),
        chosen.len() == v.len(),
        feasible(v, chosen),
    ensures
        boundary::disjoint(solver_choice(v, chosen, k)),
        forall|i: int|
            0 <= i < solver_choice(v, chosen, k).len() ==> is_chosen(
                v,
                chosen,
                k as int,
                #[trigger] solver_choice(v, chosen, k)[i],
            ),
    decreases k,
{
    if k > 0 {
        lemma_solver_choice_source(v, chosen, (k - 1) as nat);
        let before = solver_choice(v, chosen, (k - 1) as nat);
        let after = solver_choice(v, chosen, k);
        assert forall|i: int| 0 <= i < after.len() implies is_chosen(
            v,
            chosen,
            k as int,
            #[trigger] after[i],
        ) by {
            if i < before.len() {
                assert(after[i] == before[i]);
                assert(is_chosen(v, chosen, k - 1, before[i]));
                let a = choose|a: int|
                    0 <= a < k - 1 && chosen[a] && #[trigger] v[a] == before[i];
                assert(v[a] == after[i]);
            } else {
                assert(v[k - 1] == after[i]);
            }
        }
        assert forall|i: int, j: int| 0 <= i < j < after.len() implies !boundary::overlap(
            after[i],
            after[j],
        ) by {
            if j < before.len() {
                assert(after[i] == before[i] && after[j] == before[j]);
            } else {
                assert(after[i] == before[i]);
                assert(is_chosen(v, chosen, k - 1, before[i]));
                let a = choose|a: int|
                    0 <= a < k - 1 && chosen[a] && #[trigger] v[a] == before[i];
                if boundary::overlap(after[i], after[j]) {
                    let x = choose|x: usize| #[trigger]
                        after[i].indices.contains(x) && after[j].indices.contains(x);
                    assert(v[a].indices.contains(x) && v[k - 1].indices.contains(x));
                }
            }
        }
    }
}

/// The boundaries of a feasible choice share no operation.
pub proof fn feasible_choice_is_disjoint(v: Seq<BoundaryView>, chosen: Seq<bool>)
    requires
        chosen.len() == v.len(),
        feasible(v, chosen),
    ensures
        boundary::disjoint(solver_choice(v, chosen, v.len())),
{
    lemma_solver_choice_source(v, chosen, v.len());
}

} // verus!
