//! Groups of independent element-wise operations on tensors of one shape.

use vstd::prelude::*;
use rustc_hash::FxHashMap;
use crate::ieee::ONE;
use super::boundary;
use super::boundary::{BoundaryView, FusionBoundary};
use super::classify::same_shape;
use super::dtype::{DType, TensorShape};
use super::op::FusionOp;
use super::pattern::FusionPattern;
use super::savings::{launch_savings, KERNEL_LAUNCH_OVERHEAD_BYTES};

verus! {

/// What a map from shapes to places holds: for each shape the places pushed for it.
pub uninterp spec fn shape_groups(m: FxHashMap<Vec<i64>, Vec<usize>>) -> Map<Seq<i64>, Seq<usize>>;

/// `FxHashMap::default`: the map that holds nothing.
#[verifier::external_body]
fn new_groups() -> (m: FxHashMap<Vec<i64>, Vec<usize>>)
    ensures
        shape_groups(m).dom() == Set::<Seq<i64>>::empty(),
{
    FxHashMap::default()
}

/// `FxHashMap::entry` with `or_default` and a push on the entry: the place goes behind those
/// that the shape has so far; a shape that has none yet starts with it.
#[verifier::external_body]
fn push_to_group(m: &mut FxHashMap<Vec<i64>, Vec<usize>>, shape: Vec<i64>, place: usize)
    ensures
        shape_groups(*final(m)) == shape_groups(*old(m)).insert(
            shape@,
            places_of(shape_groups(*old(m)), shape@).push(place),
        ),
{
    m.entry(shape).or_default().push(place);
}

/// `FxHashMap::into_iter`, collected: each shape once with its places, in no particular order.
#[verifier::external_body]
fn into_groups(m: FxHashMap<Vec<i64>, Vec<usize>>) -> (r: Vec<(Vec<i64>, Vec<usize>)>)
    ensures
        forall|i: int|
            0 <= i < r@.len() ==> shape_groups(m).dom().contains((#[trigger] r@[i]).0@)
                && shape_groups(m)[r@[i].0@] == r@[i].1@,
        forall|i: int, j: int| 0 <= i < j < r@.len() ==> r@[i].0@ != r@[j].0@,
        forall|shape: Seq<i64>| #[trigger]
            shape_groups(m).dom().contains(shape) ==> exists|i: int|
                0 <= i < r@.len() && (#[trigger] r@[i]).0@ == shape,
{
    m.into_iter().collect()
}

/// The places that a shape has in a map of groups.
pub open spec fn places_of(m: Map<Seq<i64>, Seq<usize>>, shape: Seq<i64>) -> Seq<usize> {
    if m.dom().contains(shape) {
        m[shape]
    } else {
        Seq::empty()
    }
}

/// Whether the operation at place `i` is element-wise with this output shape, no scalar.
pub open spec fn is_member(ops: Seq<FusionOp>, shape: Seq<i64>, i: int) -> bool {
    ops[i].op_type.is_elementwise() && ops[i].output_shape@.len() > 0 && ops[i].output_shape@
        == shape
}

/// The members of a shape among the first `k` operations.
pub open spec fn members(ops: Seq<FusionOp>, shape: Seq<i64>, k: nat) -> Seq<usize>
    decreases k,
{
    if k == 0 {
        Seq::empty()
    } else if is_member(ops, shape, k - 1) {
        members(ops, shape, (k - 1) as nat).push((k - 1) as usize)
    } else {
        members(ops, shape, (k - 1) as nat)
    }
}

/// Whether one of the inputs of an operation has this shape.
pub open spec fn reads_shape(op: FusionOp, shape: Seq<i64>) -> bool {
    exists|i: int| 0 <= i < op.input_shapes@.len() && (#[trigger] op.input_shapes@[i])@ == shape
}

/// Whether one of the first `k` operations is a member of the shape with this element type.
pub open spec fn has_member_of(ops: Seq<FusionOp>, shape: Seq<i64>, d: DType, k: int) -> bool {
    exists|i: int| 0 <= i < k && is_member(ops, shape, i) && (#[trigger] ops[i]).dtype == d
}

/// Whether a member may read what an earlier member writes: it has an input of their shape, and
/// one of them has its element type.
pub open spec fn may_depend(ops: Seq<FusionOp>, shape: Seq<i64>, i: int) -> bool {
    reads_shape(ops[i], shape) && has_member_of(ops, shape, ops[i].dtype, i)
}

/// The members of a shape among the first `k` operations that depend on no earlier member.
pub open spec fn independent(ops: Seq<FusionOp>, shape: Seq<i64>, k: nat) -> Seq<usize>
    decreases k,
{
    if k == 0 {
        Seq::empty()
    } else if is_member(ops, shape, k - 1) && !may_depend(ops, shape, k - 1) {
        independent(ops, shape, (k - 1) as nat).push((k - 1) as usize)
    } else {
        independent(ops, shape, (k - 1) as nat)
    }
}

/// Bits of the confidence in a group of `n` operations: 0.7 and 0.03 more for each operation up
/// to ten, at most 0.95.
#[verifier::allow_in_spec]
pub fn group_confidence_bits(n: usize) -> (r: u64)
    returns
        (if n <= 2 {
            0x3fe851eb851eb852
        } else if n == 3 {
            0x3fe947ae147ae147
        } else if n == 4 {
            0x3fea3d70a3d70a3d
        } else if n == 5 {
            0x3feb333333333333
        } else if n == 6 {
            0x3fec28f5c28f5c28
        } else if n == 7 {
            0x3fed1eb851eb851e
        } else if n == 8 {
            0x3fee147ae147ae14
        } else {
            0x3fee666666666666u64
        }),
{
    if n <= 2 {
        0x3fe851eb851eb852  // 0.76
    } else if n == 3 {
        0x3fe947ae147ae147  // 0.79
    } else if n == 4 {
        0x3fea3d70a3d70a3d  // 0.82
    } else if n == 5 {
        0x3feb333333333333  // 0.85
    } else if n == 6 {
        0x3fec28f5c28f5c28  // 0.88
    } else if n == 7 {
        0x3fed1eb851eb851e  // 0.91
    } else if n == 8 {
        0x3fee147ae147ae14  // 0.94
    } else {
        0x3fee666666666666  // 0.95
    }
}

/// The boundary that fuses the independent members of a shape, where there are two or more.
pub open spec fn group_boundary(ops: Seq<FusionOp>, shape: Seq<i64>) -> Option<BoundaryView> {
    let g = independent(ops, shape, ops.len());
    if g.len() < 2 {
        None
    } else {
        Some(
            BoundaryView {
                indices: g,
                pattern: FusionPattern::HorizontalElementwise,
                savings: super::dtype::saturated(
                    (g.len() - 1) * KERNEL_LAUNCH_OVERHEAD_BYTES,
                ) as i64,
                factor: ONE,
                confidence: group_confidence_bits(g.len() as usize),
            },
        )
    }
}

proof fn lemma_members(ops: Seq<FusionOp>, shape: Seq<i64>, k: nat)
    requires
        k <= ops.len() <= usize::MAX,
    ensures
        forall|i: int|
            0 <= i < members(ops, shape, k).len() ==> (#[trigger] members(ops, shape, k)[i]) < k
                && is_member(ops, shape, members(ops, shape, k)[i] as int),
        forall|i: int, j: int|
            0 <= i < j < members(ops, shape, k).len() ==> members(ops, shape, k)[i] < members(
                ops,
                shape,
                k,
            )[j],
        forall|i: int|
            0 <= i < k && #[trigger] is_member(ops, shape, i) ==> members(ops, shape, k).contains(
                i as usize,
            ),
    decreases k,
{
    if k > 0 {
        lemma_members(ops, shape, (k - 1) as nat);
        let before = members(ops, shape, (k - 1) as nat);
        let after = members(ops, shape, k);
        assert forall|i: int| 0 <= i < k && #[trigger] is_member(ops, shape, i) implies
            after.contains(i as usize) by {
            if i == k - 1 {
                assert(after[before.len() as int] == i as usize);
            } else {
                let j = choose|j: int| 0 <= j < before.len() && before[j] == i as usize;
                assert(after[j] == i as usize);
            }
        }
    }
}

/// Between two members next to each other nothing is added to the independent ones.
proof fn lemma_independent_gap(ops: Seq<FusionOp>, shape: Seq<i64>, a: nat, b: nat)
    requires
        a <= b <= ops.len(),
        forall|i: int| a <= i < b ==> !#[trigger] is_member(ops, shape, i),
    ensures
        independent(ops, shape, b) == independent(ops, shape, a),
    decreases b,
{
    if a < b {
        lemma_independent_gap(ops, shape, a, (b - 1) as nat);
        assert(!is_member(ops, shape, b - 1));
    }
}

fn reads(op: &FusionOp, shape: &TensorShape) -> (r: bool)
    ensures
        r == reads_shape(*op, shape@),
{
    let mut i: usize = 0;
    while i < op.input_shapes.len()
        invariant
            i <= op.input_shapes@.len(),
            forall|j: int| 0 <= j < i ==> (#[trigger] op.input_shapes@[j])@ != shape@,
        decreases op.input_shapes.len() - i,
    {
        if same_shape(&op.input_shapes[i], shape) {
            return true;
        }
        i += 1;
    }
    false
}

/// The members in `group` that depend on no earlier member.
fn pick_independent(ops: &[FusionOp], shape: &TensorShape, group: &Vec<usize>) -> (r: Vec<usize>)
    requires
        ops@.len() <= usize::MAX,
        group@ == members(ops@, shape@, ops@.len()),
    ensures
        r@ == independent(ops@, shape@, ops@.len()),
{
    let ghost n = ops@.len();
    let mut picked: Vec<usize> = Vec::new();
    let mut k: usize = 0;
    let mut done: usize = 0;
    proof {
        lemma_members(ops@, shape@, n);
    }
    while k < group.len()
        invariant
            n == ops@.len() <= usize::MAX,
            k <= group@.len(),
            group@ == members(ops@, shape@, n),
            done <= n,
            k > 0 ==> done == group@[k - 1] + 1,
            k == 0 ==> done == 0,
            forall|i: int|
                0 <= i < group@.len() ==> (#[trigger] group@[i]) < n && is_member(
                    ops@,
                    shape@,
                    group@[i] as int,
                ),
            forall|i: int, j: int| 0 <= i < j < group@.len() ==> group@[i] < group@[j],
            forall|i: int|
                0 <= i < n && #[trigger] is_member(ops@, shape@, i) ==> group@.contains(i as usize),
            picked@ == independent(ops@, shape@, done as nat),
        decreases group.len() - k,
    {
        let place: usize = group[k];
        proof {
            assert(place < n && is_member(ops@, shape@, place as int));
            assert forall|i: int| done <= i < place implies !#[trigger] is_member(
                ops@,
                shape@,
                i,
            ) by {
                if is_member(ops@, shape@, i) {
                    let j = choose|j: int| 0 <= j < group@.len() && group@[j] == i as usize;
                    if j < k {
                        assert(j < k - 1 ==> group@[j] < group@[k - 1]);
                    } else {
                        assert(j > k ==> group@[k as int] < group@[j]);
                    }
                }
            }
            lemma_independent_gap(ops@, shape@, done as nat, place as nat);
        }
        let op: &FusionOp = &ops[place];
        let mut earlier: bool = false;
        let mut j: usize = 0;
        while j < k
            invariant
                n == ops@.len() <= usize::MAX,
                j <= k < group@.len(),
                forall|i: int|
                    0 <= i < group@.len() ==> (#[trigger] group@[i]) < n && is_member(
                        ops@,
                        shape@,
                        group@[i] as int,
                    ),
                earlier == exists|i: int|
                    0 <= i < j && ops@[(#[trigger] group@[i]) as int].dtype == op.dtype,
            decreases k - j,
        {
            assert(group@[j as int] < n);
            if ops[group[j]].dtype == op.dtype {
                earlier = true;
            }
            j += 1;
        }
        proof {
            if earlier {
                let i = choose|i: int|
                    0 <= i < k && ops@[(#[trigger] group@[i]) as int].dtype == op.dtype;
                assert(group@[i] < group@[k as int]);
                assert(is_member(ops@, shape@, group@[i] as int));
                assert(has_member_of(ops@, shape@, op.dtype, place as int)) by {
                    assert(ops@[group@[i] as int].dtype == op.dtype);
                }
            }
            if has_member_of(ops@, shape@, op.dtype, place as int) {
                let m = choose|m: int|
                    0 <= m < place && is_member(ops@, shape@, m) && (#[trigger] ops@[m]).dtype
                        == op.dtype;
                let i = choose|i: int| 0 <= i < group@.len() && group@[i] == m as usize;
                assert(i >= k ==> group@[k as int] <= group@[i]);
                assert(ops@[group@[i] as int].dtype == op.dtype);
            }
            assert(earlier == has_member_of(ops@, shape@, op.dtype, place as int));
        }
        if !(earlier && reads(op, shape)) {
            picked.push(place);
        }
        done = place + 1;
        k += 1;
    }
    proof {
        assert forall|i: int| done <= i < n implies !#[trigger] is_member(ops@, shape@, i) by {
            if is_member(ops@, shape@, i) {
                let j = choose|j: int| 0 <= j < group@.len() && group@[j] == i as usize;
                assert(j < group@.len() - 1 ==> group@[j] < group@[group@.len() - 1]);
            }
        }
        lemma_independent_gap(ops@, shape@, done as nat, n);
    }
    picked
}

proof fn lemma_independent(ops: Seq<FusionOp>, shape: Seq<i64>, k: nat)
    requires
        k <= ops.len() <= usize::MAX,
    ensures
        independent(ops, shape, k).len() <= k,
        forall|i: int|
            0 <= i < independent(ops, shape, k).len() ==> (#[trigger] independent(
                ops,
                shape,
                k,
            )[i]) < k && is_member(ops, shape, independent(ops, shape, k)[i] as int)
                && !may_depend(ops, shape, independent(ops, shape, k)[i] as int),
    decreases k,
{
    if k > 0 {
        lemma_independent(ops, shape, (k - 1) as nat);
    }
}

proof fn lemma_shape_has_members(ops: Seq<FusionOp>, shape: Seq<i64>, k: nat)
    requires
        k <= ops.len() <= usize::MAX,
        independent(ops, shape, k).len() > 0,
    ensures
        members(ops, shape, k).len() > 0,
{
    lemma_independent(ops, shape, k);
    lemma_members(ops, shape, k);
    let m = independent(ops, shape, k)[0];
    assert(is_member(ops, shape, m as int));
}

/// Finds the groups of two or more element-wise operations that have one output shape and do
/// not depend on each other, one boundary for each shape. Their order is left open.
pub fn detect_horizontal_fusion(ops: &[FusionOp]) -> (r: Vec<FusionBoundary>)
    ensures
        forall|i: int|
            0 <= i < r@.len() ==> exists|shape: Seq<i64>| #[trigger]
                group_boundary(ops@, shape) == Some((#[trigger] r@[i])@),
        forall|shape: Seq<i64>|
            (#[trigger] group_boundary(ops@, shape)) matches Some(b) ==> boundary::views(
                r@,
            ).contains(b),
        boundary::disjoint(boundary::views(r@)),
{
    let n: usize = ops.len();
    let mut groups: FxHashMap<Vec<i64>, Vec<usize>> = new_groups();
    let mut i: usize = 0;
    while i < n
        invariant
            n == ops@.len(),
            i <= n,
            forall|shape: Seq<i64>| #[trigger]
                places_of(shape_groups(groups), shape) == members(ops@, shape, i as nat),
            forall|shape: Seq<i64>| #[trigger]
                shape_groups(groups).dom().contains(shape) <==> members(
                    ops@,
                    shape,
                    i as nat,
                ).len() > 0,
        decreases n - i,
    {
        let op: &FusionOp = &ops[i];
        let ghost before = shape_groups(groups);
        if op.op_type.is_elementwise() && op.output_shape.len() > 0 {
            let key: Vec<i64> = super::profile::copy_shape(&op.output_shape);
            push_to_group(&mut groups, key, i);
            assert forall|shape: Seq<i64>| #[trigger]
                places_of(shape_groups(groups), shape) == members(ops@, shape, (i + 1) as nat) by {
                assert(places_of(before, shape) == members(ops@, shape, i as nat));
                if shape == op.output_shape@ {
                    assert(is_member(ops@, shape, i as int));
                }
            }
            assert forall|shape: Seq<i64>| #[trigger]
                shape_groups(groups).dom().contains(shape) <==> members(
                    ops@,
                    shape,
                    (i + 1) as nat,
                ).len() > 0 by {
                assert(before.dom().contains(shape) <==> members(ops@, shape, i as nat).len() > 0);
                if shape == op.output_shape@ {
                    assert(is_member(ops@, shape, i as int));
                }
            }
        } else {
            assert forall|shape: Seq<i64>| #[trigger]
                places_of(shape_groups(groups), shape) == members(ops@, shape, (i + 1) as nat) by {
                assert(!is_member(ops@, shape, i as int));
            }
            assert forall|shape: Seq<i64>| #[trigger]
                shape_groups(groups).dom().contains(shape) <==> members(
                    ops@,
                    shape,
                    (i + 1) as nat,
                ).len() > 0 by {
                assert(!is_member(ops@, shape, i as int));
            }
        }
        i += 1;
    }
    let ghost all = shape_groups(groups);
    let pairs: Vec<(Vec<i64>, Vec<usize>)> = into_groups(groups);
    let mut out: Vec<FusionBoundary> = Vec::new();
    let ghost mut shapes: Seq<Seq<i64>> = Seq::empty();
    let mut k: usize = 0;
    while k < pairs.len()
        invariant
            n == ops@.len(),
            k <= pairs@.len(),
            forall|shape: Seq<i64>| #[trigger]
                places_of(all, shape) == members(ops@, shape, n as nat),
            forall|i: int|
                0 <= i < pairs@.len() ==> all.dom().contains((#[trigger] pairs@[i]).0@)
                    && all[pairs@[i].0@] == pairs@[i].1@,
            forall|i: int, j: int| 0 <= i < j < pairs@.len() ==> pairs@[i].0@ != pairs@[j].0@,
            shapes.len() == out@.len(),
            forall|i: int|
                0 <= i < out@.len() ==> group_boundary(ops@, #[trigger] shapes[i]) == Some(
                    out@[i]@,
                ),
            forall|i: int|
                0 <= i < shapes.len() ==> exists|j: int|
                    0 <= j < k && (#[trigger] pairs@[j]).0@ == (#[trigger] shapes[i]),
            forall|i: int, j: int| 0 <= i < j < shapes.len() ==> shapes[i] != shapes[j],
            forall|j: int|
                0 <= j < k && group_boundary(ops@, (#[trigger] pairs@[j]).0@) is Some
                    ==> shapes.contains(pairs@[j].0@),
        decreases pairs.len() - k,
    {
        let shape: &Vec<i64> = &pairs[k].0;
        let group: &Vec<usize> = &pairs[k].1;
        assert(all.dom().contains(pairs@[k as int].0@));
        assert(places_of(all, shape@) == members(ops@, shape@, n as nat));
        let picked: Vec<usize> = pick_independent(ops, shape, group);
        proof {
            lemma_independent(ops@, shape@, n as nat);
        }
        let count: usize = picked.len();
        if count >= 2 {
            proof {
                lemma_independent_ascends(ops@, shape@, n as nat);
                boundary::ascending_is_sorted(picked@);
            }
            let saved: i64 = launch_savings(count);
            let b = FusionBoundary::new(
                picked,
                FusionPattern::HorizontalElementwise,
                saved,
                ONE,
                group_confidence_bits(count),
            );
            assert(group_boundary(ops@, shape@) == Some(b@));
            let ghost old_shapes = shapes;
            out.push(b);
            proof {
                shapes = shapes.push(shape@);
                assert forall|i: int| 0 <= i < shapes.len() implies exists|j: int|
                    0 <= j < k + 1 && (#[trigger] pairs@[j]).0@ == (#[trigger] shapes[i]) by {
                    if i < old_shapes.len() {
                        assert(shapes[i] == old_shapes[i]);
                        let j = choose|j: int|
                            0 <= j < k && (#[trigger] pairs@[j]).0@ == old_shapes[i];
                        assert(pairs@[j].0@ == shapes[i]);
                    } else {
                        assert(pairs@[k as int].0@ == shapes[i]);
                    }
                }
                assert forall|i: int, j: int| 0 <= i < j < shapes.len() implies shapes[i]
                    != shapes[j] by {
                    if j == old_shapes.len() {
                        assert(shapes[i] == old_shapes[i]);
                        let q = choose|q: int|
                            0 <= q < k && (#[trigger] pairs@[q]).0@ == old_shapes[i];
                        assert(pairs@[q].0@ != pairs@[k as int].0@);
                    }
                }
                assert forall|j: int|
                    0 <= j < k + 1 && group_boundary(ops@, (#[trigger] pairs@[j]).0@) is Some implies
                    shapes.contains(pairs@[j].0@) by {
                    if j < k {
                        assert(old_shapes.contains(pairs@[j].0@));
                        let q = choose|q: int|
                            0 <= q < old_shapes.len() && old_shapes[q] == pairs@[j].0@;
                        assert(shapes[q] == pairs@[j].0@);
                    } else {
                        assert(shapes[old_shapes.len() as int] == pairs@[j].0@);
                    }
                }
            }
        }
        k += 1;
    }
    proof {
        assert forall|i: int| 0 <= i < out@.len() implies exists|shape: Seq<i64>| #[trigger]
            group_boundary(ops@, shape) == Some((#[trigger] out@[i])@) by {
            assert(group_boundary(ops@, shapes[i]) == Some(out@[i]@));
        }
        assert forall|shape: Seq<i64>|
            (#[trigger] group_boundary(ops@, shape)) matches Some(b) implies boundary::views(
            out@,
        ).contains(group_boundary(ops@, shape)->0) by {
            lemma_shape_has_members(ops@, shape, n as nat);
            assert(places_of(all, shape) == members(ops@, shape, n as nat));
            assert(all.dom().contains(shape));
            let j = choose|j: int| 0 <= j < pairs@.len() && (#[trigger] pairs@[j]).0@ == shape;
            assert(shapes.contains(pairs@[j].0@));
            let q = choose|q: int| 0 <= q < shapes.len() && shapes[q] == shape;
            assert(group_boundary(ops@, shapes[q]) == Some(out@[q]@));
            assert(boundary::views(out@)[q] == out@[q]@);
        }
        assert forall|i: int, j: int| 0 <= i < j < out@.len() implies !boundary::overlap(
            boundary::views(out@)[i],
            boundary::views(out@)[j],
        ) by {
            let a = boundary::views(out@)[i];
            let b = boundary::views(out@)[j];
            assert(group_boundary(ops@, shapes[i]) == Some(a));
            assert(group_boundary(ops@, shapes[j]) == Some(b));
            if boundary::overlap(a, b) {
                let x = choose|x: usize| #[trigger]
                    a.indices.contains(x) && b.indices.contains(x);
                lemma_independent(ops@, shapes[i], n as nat);
                lemma_independent(ops@, shapes[j], n as nat);
                let p = choose|p: int| 0 <= p < a.indices.len() && a.indices[p] == x;
                let q = choose|q: int| 0 <= q < b.indices.len() && b.indices[q] == x;
                assert(is_member(ops@, shapes[i], a.indices[p] as int));
                assert(is_member(ops@, shapes[j], b.indices[q] as int));
            }
        }
    }
    out
}

/// The operations of a horizontal group do not depend on each other: none has an input of the
/// shape of the group where an earlier member of the group has its element type.
pub proof fn group_members_are_independent(ops: Seq<FusionOp>, shape: Seq<i64>, a: int, b: int)
    requires
        ops.len() <= usize::MAX,
        group_boundary(ops, shape) is Some,
        0 <= a < b < group_boundary(ops, shape)->0.indices.len(),
    ensures
        ({
            let first = group_boundary(ops, shape)->0.indices[a] as int;
            let second = group_boundary(ops, shape)->0.indices[b] as int;
            &&& first < second < ops.len()
            &&& ops[first].output_shape@ == ops[second].output_shape@
            &&& ops[first].dtype == ops[second].dtype ==> !reads_shape(
                ops[second],
                ops[first].output_shape@,
            )
        }),
{
    let g = independent(ops, shape, ops.len());
    lemma_independent(ops, shape, ops.len());
    lemma_independent_ascends(ops, shape, ops.len());
    assert(is_member(ops, shape, g[a] as int) && is_member(ops, shape, g[b] as int));
    assert(!may_depend(ops, shape, g[b] as int));
    assert(g[a] < g[b]);
    if ops[g[a] as int].dtype == ops[g[b] as int].dtype {
        assert(has_member_of(ops, shape, ops[g[b] as int].dtype, g[b] as int));
    }
}

proof fn lemma_independent_ascends(ops: Seq<FusionOp>, shape: Seq<i64>, k: nat)
    requires
        k <= ops.len() <= usize::MAX,
    ensures
        forall|i: int, j: int|
            0 <= i < j < independent(ops, shape, k).len() ==> independent(ops, shape, k)[i]
                < independent(ops, shape, k)[j],
    decreases k,
{
    if k > 0 {
        lemma_independent_ascends(ops, shape, (k - 1) as nat);
        lemma_independent(ops, shape, (k - 1) as nat);
    }
}

} // verus!
