//! What a check of a fusion reports, said of the operations and the texts alone.

use vstd::prelude::*;
use crate::text;
use super::boundary::BoundaryView;
use super::classify;
use super::classify::OpClass;
use super::dtype::DType;
use super::legality;
use super::op::{FusionOp, OpType};
use super::pattern::FusionPattern;

verus! {

/// Whether `part` stands somewhere in `whole`.
pub open spec fn holds_text(whole: Seq<char>, part: Seq<char>) -> bool {
    exists|before: Seq<char>, after: Seq<char>| whole == #[trigger] (before + part + after)
}

/// Whether `d` is one of the float types.
pub open spec fn floating(d: DType) -> bool {
    d == DType::FP32 || d == DType::FP16 || d == DType::BF16 || d == DType::FP8
}

proof fn lemma_warning_is_listed(b: BoundaryView, g: Seq<FusionOp>, i: int, k: int)
    requires
        0 <= i < k,
        g[i].is_inplace,
    ensures
        legality::inplace_warnings(b, g, k).contains(legality::inplace_text(b, i)),
    decreases k,
{
    let before = legality::inplace_warnings(b, g, k - 1);
    let after = legality::inplace_warnings(b, g, k);
    if i == k - 1 {
        assert(after[before.len() as int] == legality::inplace_text(b, i));
    } else {
        lemma_warning_is_listed(b, g, i, k - 1);
        let j = choose|j: int| 0 <= j < before.len() && before[j] == legality::inplace_text(b, i);
        assert(after[j] == before[j]);
    }
}

proof fn lemma_no_warning(b: BoundaryView, g: Seq<FusionOp>, k: int)
    requires
        forall|i: int| 0 <= i < k ==> !(#[trigger] g[i]).is_inplace,
    ensures
        legality::inplace_warnings(b, g, k).len() == 0,
    decreases k,
{
    if k > 0 {
        lemma_no_warning(b, g, k - 1);
        assert(!g[k - 1].is_inplace);
    }
}

/// An operation that overwrites its input and has a successor in the boundary is warned of by its
/// place.
pub proof fn overwriting_is_warned_of(b: BoundaryView, ops: Seq<FusionOp>, i: int)
    requires
        legality::all_exist(b, ops),
        0 <= i,
        i + 1 < b.indices.len(),
        ops[b.indices[i] as int].is_inplace,
    ensures
        legality::warnings_of(b, ops).contains(
            "Op at index "@ + text::decimal(b.indices[i] as nat)
                + " is in-place; its output may alias the input, which could cause incorrect results if fused with subsequent ops"@,
        ),
{
    let g = legality::group(b, ops);
    assert(g[i] == ops[b.indices[i] as int]);
    lemma_warning_is_listed(b, g, i, g.len() - 1);
    let rest = legality::inplace_warnings(b, g, g.len() - 1);
    let j = choose|j: int| 0 <= j < rest.len() && rest[j] == legality::inplace_text(b, i);
    let all = legality::warnings_of(b, ops);
    assert(all[all.len() - rest.len() + j] == rest[j]);
}

proof fn lemma_float_is_listed(g: Seq<FusionOp>, i: int)
    requires
        0 <= i < g.len(),
        floating(g[i].dtype),
    ensures
        legality::float_dtypes(g).contains(g[i].dtype),
{
    let d = g[i].dtype;
    let all = legality::float_dtypes(g);
    let a = (if legality::has_dtype(g, DType::FP32) {
        seq![DType::FP32]
    } else {
        Seq::empty()
    });
    let c = (if legality::has_dtype(g, DType::FP16) {
        seq![DType::FP16]
    } else {
        Seq::empty()
    });
    let e = (if legality::has_dtype(g, DType::BF16) {
        seq![DType::BF16]
    } else {
        Seq::empty()
    });
    let f = (if legality::has_dtype(g, DType::FP8) {
        seq![DType::FP8]
    } else {
        Seq::empty()
    });
    assert(legality::has_dtype(g, d));
    assert(all =~= a + c + e + f);
    if d == DType::FP32 {
        assert(all[0] == d);
    } else if d == DType::FP16 {
        assert(all[a.len() as int] == d);
    } else if d == DType::BF16 {
        assert(all[(a.len() + c.len()) as int] == d);
    } else {
        assert(all[(a.len() + c.len() + e.len()) as int] == d);
    }
}

proof fn lemma_listed_is_float(g: Seq<FusionOp>, j: int)
    requires
        0 <= j < legality::float_dtypes(g).len(),
    ensures
        floating(legality::float_dtypes(g)[j]),
        legality::has_dtype(g, legality::float_dtypes(g)[j]),
{
}

proof fn lemma_listed_once(g: Seq<FusionOp>)
    ensures
        legality::float_dtypes(g).len() > 1 ==> legality::float_dtypes(g)[0]
            != legality::float_dtypes(g)[1],
{
}

proof fn lemma_name_is_quoted(d: Seq<DType>, k: nat, i: int)
    requires
        0 <= i < k <= d.len(),
    ensures
        holds_text(legality::quoted_names(d, k), "\""@ + d[i].name()@ + "\""@),
    decreases k,
{
    let part = "\""@ + d[i].name()@ + "\""@;
    let whole = legality::quoted_names(d, k);
    reveal_strlit("\"");
    reveal_strlit(", \"");
    reveal_strlit(", ");
    if k == 1 {
        assert(whole =~= Seq::<char>::empty() + part + Seq::<char>::empty());
    } else if i == k - 1 {
        let before = legality::quoted_names(d, (k - 1) as nat) + ", "@;
        assert(", \""@ =~= ", "@ + "\""@);
        assert(whole =~= before + part + Seq::<char>::empty());
    } else {
        lemma_name_is_quoted(d, (k - 1) as nat, i);
        let inner = legality::quoted_names(d, (k - 1) as nat);
        let (before, after) = choose|before: Seq<char>, after: Seq<char>|
            inner == #[trigger] (before + part + after);
        let rest = after + ", \""@ + d[k - 1].name()@ + "\""@;
        assert(whole =~= before + part + rest);
    }
}

/// Where two operations of the boundary are on different float types, the first warning says so
/// and names both types in quotes.
pub proof fn mixed_floats_are_warned_of(b: BoundaryView, ops: Seq<FusionOp>, i: int, j: int)
    requires
        legality::all_exist(b, ops),
        0 <= i < b.indices.len(),
        0 <= j < b.indices.len(),
        floating(ops[b.indices[i] as int].dtype),
        floating(ops[b.indices[j] as int].dtype),
        ops[b.indices[i] as int].dtype != ops[b.indices[j] as int].dtype,
    ensures
        legality::warnings_of(b, ops).len() > 0,
        ({
            let said = legality::warnings_of(b, ops)[0];
            &&& exists|names: Seq<char>|
                said == #[trigger] ("Mixed float dtypes in fusion: ["@ + names
                    + "]. May require implicit conversion."@) && holds_text(
                    names,
                    "\""@ + ops[b.indices[i] as int].dtype.name()@ + "\""@,
                ) && holds_text(names, "\""@ + ops[b.indices[j] as int].dtype.name()@ + "\""@)
        }),
{
    let g = legality::group(b, ops);
    assert(g[i] == ops[b.indices[i] as int] && g[j] == ops[b.indices[j] as int]);
    lemma_float_is_listed(g, i);
    lemma_float_is_listed(g, j);
    let d = legality::float_dtypes(g);
    let p = choose|p: int| 0 <= p < d.len() && d[p] == g[i].dtype;
    let q = choose|q: int| 0 <= q < d.len() && d[q] == g[j].dtype;
    assert(p != q);
    lemma_name_is_quoted(d, d.len(), p);
    lemma_name_is_quoted(d, d.len(), q);
    let names = legality::quoted_names(d, d.len());
    assert(legality::warnings_of(b, ops)[0] == "Mixed float dtypes in fusion: ["@ + names
        + "]. May require implicit conversion."@);
}

/// A fusion of existing operations is without a warning exactly if all of its float operations
/// are on one type and none but the last overwrites its input. There is no warning of operations
/// that do not exist.
pub proof fn warned_of_exactly(b: BoundaryView, ops: Seq<FusionOp>)
    ensures
        !legality::all_exist(b, ops) ==> legality::warnings_of(b, ops).len() == 0,
        legality::all_exist(b, ops) ==> (legality::warnings_of(b, ops).len() == 0 <==> {
            &&& forall|i: int, j: int|
                0 <= i < b.indices.len() && 0 <= j < b.indices.len() && floating(
                    ops[#[trigger] b.indices[i] as int].dtype,
                ) && floating(ops[#[trigger] b.indices[j] as int].dtype)
                    ==> ops[b.indices[i] as int].dtype == ops[b.indices[j] as int].dtype
            &&& forall|i: int|
                0 <= i < b.indices.len() - 1
                    ==> !ops[#[trigger] b.indices[i] as int].is_inplace
        }),
{
    if legality::all_exist(b, ops) {
        let g = legality::group(b, ops);
        let n = b.indices.len() as int;
        let d = legality::float_dtypes(g);
        if legality::warnings_of(b, ops).len() == 0 {
            assert forall|i: int, j: int|
                0 <= i < n && 0 <= j < n && floating(ops[#[trigger] b.indices[i] as int].dtype)
                    && floating(
                    ops[#[trigger] b.indices[j] as int].dtype,
                ) implies ops[b.indices[i] as int].dtype == ops[b.indices[j] as int].dtype by {
                if ops[b.indices[i] as int].dtype != ops[b.indices[j] as int].dtype {
                    mixed_floats_are_warned_of(b, ops, i, j);
                }
            }
            assert forall|i: int| 0 <= i < n - 1 implies !ops[#[trigger] b.indices[i] as int].is_inplace by {
                if ops[b.indices[i] as int].is_inplace {
                    overwriting_is_warned_of(b, ops, i);
                }
            }
        } else if d.len() > 1 {
            lemma_listed_is_float(g, 0);
            lemma_listed_is_float(g, 1);
            lemma_listed_once(g);
            let i = choose|i: int| 0 <= i < g.len() && (#[trigger] g[i]).dtype == d[0];
            let j = choose|j: int| 0 <= j < g.len() && (#[trigger] g[j]).dtype == d[1];
            assert(g[i] == ops[b.indices[i] as int] && g[j] == ops[b.indices[j] as int]);
        } else if forall|i: int| 0 <= i < n - 1 ==> !(#[trigger] g[i]).is_inplace {
            lemma_no_warning(b, g, n - 1);
        } else {
            let i = choose|i: int| 0 <= i < n - 1 && (#[trigger] g[i]).is_inplace;
            assert(g[i] == ops[b.indices[i] as int]);
        }
    }
}

/// A float operation and one on quantized integers in one boundary are the first violation.
pub proof fn floats_and_integers_are_kept_apart(
    b: BoundaryView,
    ops: Seq<FusionOp>,
    i: int,
    j: int,
)
    requires
        legality::all_exist(b, ops),
        0 <= i < b.indices.len(),
        0 <= j < b.indices.len(),
        floating(ops[b.indices[i] as int].dtype),
        !floating(ops[b.indices[j] as int].dtype),
    ensures
        legality::violations_of(b, ops).len() > 0,
        legality::violations_of(b, ops)[0]
            == "Cannot fuse float and integer operations without explicit conversion"@,
{
    let g = legality::group(b, ops);
    assert(g[i] == ops[b.indices[i] as int] && g[j] == ops[b.indices[j] as int]);
    assert(g[i].dtype.is_float() && g[j].dtype.is_quantized());
    assert(legality::has_float(g) && legality::has_quantized(g));
}

/// An operation of unknown meaning is the last violation, and a collective outside of the
/// pattern that overlaps communication with computation is named too.
pub proof fn barriers_are_named(b: BoundaryView, ops: Seq<FusionOp>, i: int)
    requires
        legality::all_exist(b, ops),
        0 <= i < b.indices.len(),
    ensures
        ops[b.indices[i] as int].op_type == OpType::Custom ==> legality::violations_of(
            b,
            ops,
        ).len() > 0 && legality::violations_of(b, ops).last()
            == "Custom/unknown operations cannot be fused (no semantic model)"@,
        (ops[b.indices[i] as int].op_type == OpType::AllReduce || ops[b.indices[i] as int].op_type
            == OpType::AllGather || ops[b.indices[i] as int].op_type == OpType::ReduceScatter)
            && b.pattern != FusionPattern::CommunicationComputeOverlap
            ==> legality::violations_of(b, ops).contains(
            "Communication ops cannot be fused with compute ops (except in CommunicationComputeOverlap pattern)"@,
        ),
{
    let g = legality::group(b, ops);
    let n = g.len() as int;
    let t = ops[b.indices[i] as int].op_type;
    assert(g[i] == ops[b.indices[i] as int]);
    let custom = classify::any_op(g, 0, n, OpClass::Only(OpType::Custom));
    let tail = legality::text_if(
        custom,
        "Custom/unknown operations cannot be fused (no semantic model)"@,
    );
    let all = legality::violations_of(b, ops);
    if t == OpType::Custom {
        assert(classify::op_at(g, i, OpClass::Only(OpType::Custom)));
        assert(custom);
    }
    if t == OpType::AllReduce || t == OpType::AllGather || t == OpType::ReduceScatter {
        assert(classify::op_at(g, i, OpClass::Communication));
        if b.pattern != FusionPattern::CommunicationComputeOverlap {
            assert(all[all.len() - tail.len() - 1]
                == "Communication ops cannot be fused with compute ops (except in CommunicationComputeOverlap pattern)"@);
        }
    }
}

/// A boundary that names an operation that does not exist has this as its only violation.
pub proof fn missing_operations_are_named(b: BoundaryView, ops: Seq<FusionOp>, i: int)
    requires
        0 <= i < b.indices.len(),
        b.indices[i] >= ops.len(),
    ensures
        legality::violations_of(b, ops) == seq!["Some op indices are out of bounds"@],
{
}

} // verus!
