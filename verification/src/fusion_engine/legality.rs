//! Legality of a fusion, checked on the operations themselves.

use vstd::prelude::*;
use crate::text;
use crate::text::{push_decimal, push_list};
use super::boundary::{BoundaryView, FusionBoundary};
use super::classify;
use super::classify::OpClass;
use super::dtype::{DType, TensorShape};
use super::op::{FusionOp, OpType};
use super::pattern::FusionPattern;

verus! {

/// What a check of a fusion found.
#[derive(Debug)]
pub struct FusionLegalityResult {
    /// Whether nothing forbids the fusion.
    pub is_legal: bool,
    /// What forbids the fusion.
    pub violations: Vec<String>,
    /// What makes the fusion risky without forbidding it.
    pub warnings: Vec<String>,
}

/// Whether the shapes can be combined element by element: aligned at their last dimensions,
/// each two sizes are equal or one of them is 1.
pub open spec fn broadcastable(a: Seq<i64>, b: Seq<i64>) -> bool {
    forall|i: int|
        1 <= i <= a.len() && i <= b.len() ==> #[trigger] sizes_combine(
            a[a.len() - i],
            b[b.len() - i],
        )
}

/// Whether two dimensions can be combined.
pub open spec fn sizes_combine(x: i64, y: i64) -> bool {
    x == y || x == 1 || y == 1
}

/// Whether every operation that the boundary names exists.
pub open spec fn all_exist(b: BoundaryView, ops: Seq<FusionOp>) -> bool {
    forall|i: int| 0 <= i < b.indices.len() ==> (#[trigger] b.indices[i]) < ops.len()
}

/// The operations that the boundary names.
pub open spec fn group(b: BoundaryView, ops: Seq<FusionOp>) -> Seq<FusionOp> {
    Seq::new(b.indices.len(), |i: int| ops[b.indices[i] as int])
}

/// Whether one of the operations has this element type.
pub open spec fn has_dtype(g: Seq<FusionOp>, d: DType) -> bool {
    exists|i: int| 0 <= i < g.len() && (#[trigger] g[i]).dtype == d
}

/// Whether one of the operations is on floats.
pub open spec fn has_float(g: Seq<FusionOp>) -> bool {
    exists|i: int| 0 <= i < g.len() && (#[trigger] g[i]).dtype.is_float()
}

/// Whether one of the operations is on quantized integers.
pub open spec fn has_quantized(g: Seq<FusionOp>) -> bool {
    exists|i: int| 0 <= i < g.len() && (#[trigger] g[i]).dtype.is_quantized()
}

/// A list of one text if the condition holds, otherwise an empty list.
pub open spec fn text_if(condition: bool, t: Seq<char>) -> Seq<Seq<char>> {
    if condition {
        seq![t]
    } else {
        Seq::empty()
    }
}

/// The float types among the operations, widest exponent-and-mantissa layout first.
pub open spec fn float_dtypes(g: Seq<FusionOp>) -> Seq<DType> {
    (if has_dtype(g, DType::FP32) { seq![DType::FP32] } else { Seq::empty() })
        + (if has_dtype(g, DType::FP16) { seq![DType::FP16] } else { Seq::empty() })
        + (if has_dtype(g, DType::BF16) { seq![DType::BF16] } else { Seq::empty() })
        + (if has_dtype(g, DType::FP8) { seq![DType::FP8] } else { Seq::empty() })
}

/// The names of the first `k` types in quotes, separated by a comma and a blank.
pub open spec fn quoted_names(d: Seq<DType>, k: nat) -> Seq<char>
    decreases k,
{
    if k == 0 {
        Seq::empty()
    } else if k == 1 {
        "\""@ + d[0].name()@ + "\""@
    } else {
        quoted_names(d, (k - 1) as nat) + ", \""@ + d[k - 1].name()@ + "\""@
    }
}

/// The warning that several float types meet.
pub open spec fn mixed_floats_text(d: Seq<DType>) -> Seq<char> {
    "Mixed float dtypes in fusion: ["@ + quoted_names(d, d.len())
        + "]. May require implicit conversion."@
}

/// Whether the first input of operation `i + 1` cannot take the output of operation `i`.
pub open spec fn shapes_clash(g: Seq<FusionOp>, i: int) -> bool {
    g[i + 1].input_shapes@.len() > 0 && !broadcastable(
        g[i].output_shape@,
        g[i + 1].input_shapes@[0]@,
    )
}

/// The violation that the shapes of two neighbours clash.
pub open spec fn shape_text(b: BoundaryView, g: Seq<FusionOp>, i: int) -> Seq<char> {
    "Shape mismatch between op "@ + text::decimal(b.indices[i] as nat) + " output "@
        + text::list_text(g[i].output_shape@) + " and op "@ + text::decimal(
        b.indices[i + 1] as nat,
    ) + " input "@ + text::list_text(g[i + 1].input_shapes@[0]@)
}

/// The shape violations between the first `k` operations and their successors.
pub open spec fn shape_violations(b: BoundaryView, g: Seq<FusionOp>, k: int) -> Seq<Seq<char>>
    decreases k,
{
    if k <= 0 {
        Seq::empty()
    } else {
        shape_violations(b, g, k - 1) + text_if(shapes_clash(g, k - 1), shape_text(b, g, k - 1))
    }
}

/// Whether operations `i` and `i + 1` both overwrite their input, so that the second writes the
/// tensor that the first hands to it.
pub open spec fn writes_clash(g: Seq<FusionOp>, i: int) -> bool {
    g[i].is_inplace && g[i + 1].is_inplace
}

/// The violation that two neighbours write one tensor.
pub open spec fn conflict_text(b: BoundaryView, i: int) -> Seq<char> {
    "In-place conflict between op "@ + text::decimal(b.indices[i] as nat) + " and op "@
        + text::decimal(b.indices[i + 1] as nat)
}

/// The in-place violations between the first `k` operations and their successors.
pub open spec fn inplace_violations(b: BoundaryView, g: Seq<FusionOp>, k: int) -> Seq<Seq<char>>
    decreases k,
{
    if k <= 0 {
        Seq::empty()
    } else {
        inplace_violations(b, g, k - 1) + text_if(writes_clash(g, k - 1), conflict_text(b, k - 1))
    }
}

/// The warning that an operation inside the group overwrites its input.
pub open spec fn inplace_text(b: BoundaryView, i: int) -> Seq<char> {
    "Op at index "@ + text::decimal(b.indices[i] as nat)
        + " is in-place; its output may alias the input, which could cause incorrect results if fused with subsequent ops"@
}

/// The in-place warnings for the first `k` operations.
pub open spec fn inplace_warnings(b: BoundaryView, g: Seq<FusionOp>, k: int) -> Seq<Seq<char>>
    decreases k,
{
    if k <= 0 {
        Seq::empty()
    } else {
        inplace_warnings(b, g, k - 1) + text_if(g[k - 1].is_inplace, inplace_text(b, k - 1))
    }
}

/// What forbids the fusion.
pub open spec fn violations_of(b: BoundaryView, ops: Seq<FusionOp>) -> Seq<Seq<char>> {
    let g = group(b, ops);
    let n = g.len() as int;
    if !all_exist(b, ops) {
        seq!["Some op indices are out of bounds"@]
    } else {
        text_if(
            has_float(g) && has_quantized(g),
            "Cannot fuse float and integer operations without explicit conversion"@,
        ) + shape_violations(b, g, n - 1) + inplace_violations(b, g, n - 1) + text_if(
            b.pattern != FusionPattern::CommunicationComputeOverlap && classify::any_op(
                g,
                0,
                n,
                OpClass::Communication,
            ),
            "Communication ops cannot be fused with compute ops (except in CommunicationComputeOverlap pattern)"@,
        ) + text_if(
            classify::any_op(g, 0, n, OpClass::Only(OpType::Custom)),
            "Custom/unknown operations cannot be fused (no semantic model)"@,
        )
    }
}

/// What makes the fusion risky.
pub open spec fn warnings_of(b: BoundaryView, ops: Seq<FusionOp>) -> Seq<Seq<char>> {
    let g = group(b, ops);
    if !all_exist(b, ops) {
        Seq::empty()
    } else {
        text_if(float_dtypes(g).len() > 1, mixed_floats_text(float_dtypes(g)))
            + inplace_warnings(b, g, g.len() - 1)
    }
}

/// Whether two shapes can be combined element by element.
pub fn shapes_broadcast_compatible(a: &TensorShape, b: &TensorShape) -> (r: bool)
    ensures
        r == broadcastable(a@, b@),
{
    let mut i: usize = 0;
    while i < a.len() && i < b.len()
        invariant
            i <= a@.len(),
            i <= b@.len(),
            forall|j: int|
                1 <= j <= i ==> #[trigger] sizes_combine(a@[a@.len() - j], b@[b@.len() - j]),
        decreases a.len() - i,
    {
        let x: i64 = a[a.len() - 1 - i];
        let y: i64 = b[b.len() - 1 - i];
        if x != y && x != 1 && y != 1 {
            assert(!sizes_combine(a@[a@.len() - (i + 1)], b@[b@.len() - (i + 1)]));
            return false;
        }
        assert(sizes_combine(a@[a@.len() - (i + 1)], b@[b@.len() - (i + 1)]));
        i += 1;
    }
    true
}

/// Shapes combine exactly if, counted from their last dimensions, the sizes that both have are
/// equal or one of them is 1. This does not depend on the order of the shapes, every shape
/// combines with itself, and a scalar combines with everything.
pub proof fn broadcasting_is_symmetric(a: Seq<i64>, b: Seq<i64>)
    ensures
        broadcastable(a, b) <==> (forall|i: int|
            0 <= i < a.len() && i < b.len() ==> #[trigger] sizes_combine(
                a[a.len() - 1 - i],
                b[b.len() - 1 - i],
            )),
        broadcastable(a, b) <==> broadcastable(b, a),
        broadcastable(a, a),
        broadcastable(Seq::<i64>::empty(), b),
        broadcastable(a, Seq::<i64>::empty()),
{
    assert forall|i: int| 0 <= i < a.len() && i < b.len() && broadcastable(a, b) implies
        #[trigger] sizes_combine(a[a.len() - 1 - i], b[b.len() - 1 - i]) by {
        assert(sizes_combine(a[a.len() - (i + 1)], b[b.len() - (i + 1)]));
    }
    if forall|i: int|
        0 <= i < a.len() && i < b.len() ==> #[trigger] sizes_combine(
            a[a.len() - 1 - i],
            b[b.len() - 1 - i],
        ) {
        assert forall|i: int| 1 <= i <= a.len() && i <= b.len() implies #[trigger] sizes_combine(
            a[a.len() - i],
            b[b.len() - i],
        ) by {
            assert(sizes_combine(a[a.len() - 1 - (i - 1)], b[b.len() - 1 - (i - 1)]));
        }
    }
    assert forall|i: int| 1 <= i <= a.len() && i <= b.len() && broadcastable(a, b) implies
        #[trigger] sizes_combine(b[b.len() - i], a[a.len() - i]) by {
        assert(sizes_combine(a[a.len() - i], b[b.len() - i]));
    }
    assert forall|i: int| 1 <= i <= a.len() && i <= b.len() && broadcastable(b, a) implies
        #[trigger] sizes_combine(a[a.len() - i], b[b.len() - i]) by {
        assert(sizes_combine(b[b.len() - i], a[a.len() - i]));
    }
}

/// Whether one of the operations that the boundary names satisfies a class.
fn group_has(b: &FusionBoundary, ops: &[FusionOp], c: OpClass) -> (r: bool)
    requires
        all_exist(b@, ops@),
    ensures
        r == classify::any_op(group(b@, ops@), 0, group(b@, ops@).len() as int, c),
{
    let ghost g = group(b@, ops@);
    let mut i: usize = 0;
    while i < b.op_indices.len()
        invariant
            i <= b.op_indices@.len(),
            all_exist(b@, ops@),
            g == group(b@, ops@),
            forall|j: int| 0 <= j < i ==> !#[trigger] classify::op_at(g, j, c),
        decreases b.op_indices.len() - i,
    {
        assert(b@.indices[i as int] < ops@.len());
        if c.admits(ops[b.op_indices[i]].op_type) {
            assert(classify::op_at(g, i as int, c));
            return true;
        }
        i += 1;
    }
    false
}

/// Whether one of the operations that the boundary names has this element type.
fn group_has_dtype(b: &FusionBoundary, ops: &[FusionOp], d: DType) -> (r: bool)
    requires
        all_exist(b@, ops@),
    ensures
        r == has_dtype(group(b@, ops@), d),
{
    let ghost g = group(b@, ops@);
    let mut i: usize = 0;
    while i < b.op_indices.len()
        invariant
            i <= b.op_indices@.len(),
            all_exist(b@, ops@),
            g == group(b@, ops@),
            forall|j: int| 0 <= j < i ==> (#[trigger] g[j]).dtype != d,
        decreases b.op_indices.len() - i,
    {
        assert(b@.indices[i as int] < ops@.len());
        if ops[b.op_indices[i]].dtype == d {
            assert(g[i as int].dtype == d);
            return true;
        }
        i += 1;
    }
    false
}

proof fn lemma_dtype_classes(g: Seq<FusionOp>)
    ensures
        has_float(g) == (has_dtype(g, DType::FP32) || has_dtype(g, DType::FP16) || has_dtype(
            g,
            DType::BF16,
        ) || has_dtype(g, DType::FP8)),
        has_quantized(g) == (has_dtype(g, DType::INT8) || has_dtype(g, DType::INT4)),
{
    if has_float(g) {
        let i = choose|i: int| 0 <= i < g.len() && (#[trigger] g[i]).dtype.is_float();
        assert(has_dtype(g, g[i].dtype));
    }
    if has_quantized(g) {
        let i = choose|i: int| 0 <= i < g.len() && (#[trigger] g[i]).dtype.is_quantized();
        assert(has_dtype(g, g[i].dtype));
    }
}

/// The float types among the operations that the boundary names.
fn collect_floats(b: &FusionBoundary, ops: &[FusionOp]) -> (r: Vec<DType>)
    requires
        all_exist(b@, ops@),
    ensures
        r@ == float_dtypes(group(b@, ops@)),
{
    let mut found: Vec<DType> = Vec::new();
    if group_has_dtype(b, ops, DType::FP32) {
        found.push(DType::FP32);
    }
    if group_has_dtype(b, ops, DType::FP16) {
        found.push(DType::FP16);
    }
    if group_has_dtype(b, ops, DType::BF16) {
        found.push(DType::BF16);
    }
    if group_has_dtype(b, ops, DType::FP8) {
        found.push(DType::FP8);
    }
    assert(found@ =~= float_dtypes(group(b@, ops@)));
    found
}

fn mixed_floats_message(d: &Vec<DType>) -> (r: String)
    ensures
        r@ == mixed_floats_text(d@),
{
    let mut s = String::from_str("Mixed float dtypes in fusion: [");
    let ghost head = s@;
    let mut k: usize = 0;
    while k < d.len()
        invariant
            k <= d@.len(),
            s@ == head + quoted_names(d@, k as nat),
        decreases d.len() - k,
    {
        if k == 0 {
            s.append("\"");
        } else {
            s.append(", \"");
        }
        s.append(d[k].name());
        s.append("\"");
        k += 1;
        assert(s@ =~= head + quoted_names(d@, k as nat));
    }
    s.append("]. May require implicit conversion.");
    s
}

/// Adds the shape violations between neighbours.
fn push_shape_violations(b: &FusionBoundary, ops: &[FusionOp], out: &mut Vec<String>)
    requires
        all_exist(b@, ops@),
    ensures
        text::texts(final(out)@) == text::texts(old(out)@) + shape_violations(
            b@,
            group(b@, ops@),
            group(b@, ops@).len() - 1,
        ),
{
    let ghost g = group(b@, ops@);
    let ghost start = text::texts(out@);
    let n: usize = b.op_indices.len();
    if n == 0 {
        assert(text::texts(out@) =~= start + shape_violations(b@, g, g.len() - 1));
        return;
    }
    let mut i: usize = 0;
    assert(text::texts(out@) =~= start + shape_violations(b@, g, 0));
    while i < n - 1
        invariant
            n == b.op_indices@.len(),
            i <= n - 1,
            all_exist(b@, ops@),
            g == group(b@, ops@),
            text::texts(out@) == start + shape_violations(b@, g, i as int),
        decreases n - i,
    {
        assert(b@.indices[i as int] < ops@.len());
        assert(b@.indices[i + 1] < ops@.len());
        let producer: &FusionOp = &ops[b.op_indices[i]];
        let consumer: &FusionOp = &ops[b.op_indices[i + 1]];
        assert(g[i as int] == *producer && g[i + 1] == *consumer);
        if consumer.input_shapes.len() > 0 && !shapes_broadcast_compatible(
            &producer.output_shape,
            &consumer.input_shapes[0],
        ) {
            let mut s = String::from_str("Shape mismatch between op ");
            push_decimal(&mut s, b.op_indices[i] as u64);
            s.append(" output ");
            push_list(&mut s, &producer.output_shape);
            s.append(" and op ");
            push_decimal(&mut s, b.op_indices[i + 1] as u64);
            s.append(" input ");
            push_list(&mut s, &consumer.input_shapes[0]);
            proof {
                text::texts_push(out@, s);
            }
            out.push(s);
        }
        i += 1;
        assert(text::texts(out@) =~= start + shape_violations(b@, g, i as int));
    }
}

/// Adds the violations by neighbours that write one tensor.
fn push_inplace_violations(b: &FusionBoundary, ops: &[FusionOp], out: &mut Vec<String>)
    requires
        all_exist(b@, ops@),
    ensures
        text::texts(final(out)@) == text::texts(old(out)@) + inplace_violations(
            b@,
            group(b@, ops@),
            group(b@, ops@).len() - 1,
        ),
{
    let ghost g = group(b@, ops@);
    let ghost start = text::texts(out@);
    let n: usize = b.op_indices.len();
    if n == 0 {
        assert(text::texts(out@) =~= start + inplace_violations(b@, g, g.len() - 1));
        return;
    }
    let mut i: usize = 0;
    assert(text::texts(out@) =~= start + inplace_violations(b@, g, 0));
    while i < n - 1
        invariant
            n == b.op_indices@.len(),
            i <= n - 1,
            all_exist(b@, ops@),
            g == group(b@, ops@),
            text::texts(out@) == start + inplace_violations(b@, g, i as int),
        decreases n - i,
    {
        assert(b@.indices[i as int] < ops@.len());
        assert(b@.indices[i + 1] < ops@.len());
        if ops[b.op_indices[i]].is_inplace && ops[b.op_indices[i + 1]].is_inplace {
            let mut s = String::from_str("In-place conflict between op ");
            push_decimal(&mut s, b.op_indices[i] as u64);
            s.append(" and op ");
            push_decimal(&mut s, b.op_indices[i + 1] as u64);
            proof {
                text::texts_push(out@, s);
            }
            out.push(s);
        }
        i += 1;
        assert(text::texts(out@) =~= start + inplace_violations(b@, g, i as int));
    }
}

/// Adds the warnings about operations that overwrite their input.
fn push_inplace_warnings(b: &FusionBoundary, ops: &[FusionOp], out: &mut Vec<String>)
    requires
        all_exist(b@, ops@),
    ensures
        text::texts(final(out)@) == text::texts(old(out)@) + inplace_warnings(
            b@,
            group(b@, ops@),
            group(b@, ops@).len() - 1,
        ),
{
    let ghost g = group(b@, ops@);
    let ghost start = text::texts(out@);
    let n: usize = b.op_indices.len();
    if n == 0 {
        assert(text::texts(out@) =~= start + inplace_warnings(b@, g, g.len() - 1));
        return;
    }
    let mut i: usize = 0;
    assert(text::texts(out@) =~= start + inplace_warnings(b@, g, 0));
    while i < n - 1
        invariant
            n == b.op_indices@.len(),
            i <= n - 1,
            all_exist(b@, ops@),
            g == group(b@, ops@),
            text::texts(out@) == start + inplace_warnings(b@, g, i as int),
        decreases n - i,
    {
        assert(b@.indices[i as int] < ops@.len());
        assert(g[i as int] == ops@[b@.indices[i as int] as int]);
        if ops[b.op_indices[i]].is_inplace {
            let mut s = String::from_str("Op at index ");
            push_decimal(&mut s, b.op_indices[i] as u64);
            s.append(
                " is in-place; its output may alias the input, which could cause incorrect results if fused with subsequent ops",
            );
            proof {
                text::texts_push(out@, s);
            }
            out.push(s);
        }
        i += 1;
        assert(text::texts(out@) =~= start + inplace_warnings(b@, g, i as int));
    }
}

/// Checks a boundary against the operations that it names: their element types, the flow of
/// shapes between neighbours, operations in place, collectives and unknown operations.
pub fn validate_fusion_legality_detailed(boundary: &FusionBoundary, ops: &[FusionOp]) -> (r:
    FusionLegalityResult)
    ensures
        text::texts(r.violations@) == violations_of(boundary@, ops@),
        text::texts(r.warnings@) == warnings_of(boundary@, ops@),
        r.is_legal == (violations_of(boundary@, ops@).len() == 0),
{
    broadcast use text::texts_push;

    let mut violations: Vec<String> = Vec::new();
    let mut warnings: Vec<String> = Vec::new();
    let ghost b = boundary@;
    let mut i: usize = 0;
    while i < boundary.op_indices.len()
        invariant
            i <= boundary.op_indices@.len(),
            b == boundary@,
            violations@.len() == 0,
            warnings@.len() == 0,
            forall|j: int| 0 <= j < i ==> (#[trigger] b.indices[j]) < ops@.len(),
        decreases boundary.op_indices.len() - i,
    {
        if boundary.op_indices[i] >= ops.len() {
            assert(b.indices[i as int] >= ops@.len());
            violations.push(String::from_str("Some op indices are out of bounds"));
            assert(text::texts(violations@) =~= violations_of(b, ops@));
            assert(text::texts(warnings@) =~= warnings_of(b, ops@));
            return FusionLegalityResult { is_legal: false, violations, warnings };
        }
        i += 1;
    }
    let ghost g = group(b, ops@);
    proof {
        lemma_dtype_classes(g);
    }
    let floats: Vec<DType> = collect_floats(boundary, ops);
    let quantized: bool = group_has_dtype(boundary, ops, DType::INT8) || group_has_dtype(
        boundary,
        ops,
        DType::INT4,
    );
    assert((floats@.len() > 0) == has_float(g));
    if floats.len() > 0 && quantized {
        violations.push(
            String::from_str(
                "Cannot fuse float and integer operations without explicit conversion",
            ),
        );
    }
    if floats.len() > 1 {
        warnings.push(mixed_floats_message(&floats));
    }
    let ghost dtype_part = text_if(
        has_float(g) && has_quantized(g),
        "Cannot fuse float and integer operations without explicit conversion"@,
    );
    assert(text::texts(violations@) =~= dtype_part);
    assert(text::texts(warnings@) =~= text_if(
        float_dtypes(g).len() > 1,
        mixed_floats_text(float_dtypes(g)),
    ));
    push_shape_violations(boundary, ops, &mut violations);
    push_inplace_violations(boundary, ops, &mut violations);
    push_inplace_warnings(boundary, ops, &mut warnings);
    let ghost shape_part = dtype_part + shape_violations(b, g, g.len() - 1) + inplace_violations(
        b,
        g,
        g.len() - 1,
    );
    let overlap: bool = boundary.pattern == FusionPattern::CommunicationComputeOverlap;
    let communicates: bool = group_has(boundary, ops, OpClass::Communication);
    if !overlap && communicates {
        violations.push(
            String::from_str(
                "Communication ops cannot be fused with compute ops (except in CommunicationComputeOverlap pattern)",
            ),
        );
    }
    let ghost comm_part = shape_part + text_if(
        b.pattern != FusionPattern::CommunicationComputeOverlap && classify::any_op(
            g,
            0,
            g.len() as int,
            OpClass::Communication,
        ),
        "Communication ops cannot be fused with compute ops (except in CommunicationComputeOverlap pattern)"@,
    );
    assert(text::texts(violations@) =~= comm_part);
    if group_has(boundary, ops, OpClass::Only(OpType::Custom)) {
        violations.push(
            String::from_str("Custom/unknown operations cannot be fused (no semantic model)"),
        );
    }
    assert(text::texts(violations@) =~= violations_of(b, ops@));
    FusionLegalityResult { is_legal: violations.len() == 0, violations, warnings }
}

/// A fusion that names an operation that does not exist is illegal, and so is one of two or
/// more element types of which one is a float and one is not, one with an operation of unknown
/// meaning, and one in which two operations in a row overwrite their input.
pub proof fn barriers_are_illegal(b: BoundaryView, ops: Seq<FusionOp>, i: int, j: int)
    requires
        0 <= i < b.indices.len(),
        0 <= j < b.indices.len(),
    ensures
        b.indices[i] >= ops.len() ==> violations_of(b, ops).len() > 0,
        all_exist(b, ops) && group(b, ops)[i].op_type == OpType::Custom ==> violations_of(
            b,
            ops,
        ).len() > 0,
        all_exist(b, ops) && group(b, ops)[i].dtype.is_float() && group(
            b,
            ops,
        )[j].dtype.is_quantized() ==> violations_of(b, ops).len() > 0,
        all_exist(b, ops) && i + 1 < b.indices.len() && writes_clash(group(b, ops), i)
            ==> violations_of(b, ops).len() > 0,
{
    let g = group(b, ops);
    if all_exist(b, ops) && g[i].op_type == OpType::Custom {
        assert(classify::op_at(g, i, OpClass::Only(OpType::Custom)));
    }
    if all_exist(b, ops) && g[i].dtype.is_float() && g[j].dtype.is_quantized() {
        assert(has_float(g) && has_quantized(g));
    }
    if all_exist(b, ops) && i + 1 < b.indices.len() && writes_clash(g, i) {
        lemma_conflict_is_listed(b, g, i, g.len() - 1);
    }
}

proof fn lemma_conflict_is_listed(b: BoundaryView, g: Seq<FusionOp>, i: int, k: int)
    requires
        0 <= i < k,
        writes_clash(g, i),
    ensures
        inplace_violations(b, g, k).len() > 0,
    decreases k,
{
    if i < k - 1 {
        lemma_conflict_is_listed(b, g, i, k - 1);
    }
}

/// Whether the sizes of two shapes, counted from the last dimension, are equal or one of them is
/// 1 wherever both shapes have one.
pub open spec fn sizes_agree(a: Seq<i64>, b: Seq<i64>) -> bool {
    forall|p: int, q: int|
        0 <= p < a.len() && 0 <= q < b.len() && a.len() - p == b.len() - q ==> #[trigger] a[p]
            == #[trigger] b[q] || a[p] == 1 || b[q] == 1
}

proof fn lemma_sizes_agree(a: Seq<i64>, b: Seq<i64>)
    ensures
        broadcastable(a, b) == sizes_agree(a, b),
{
    if broadcastable(a, b) {
        assert forall|p: int, q: int|
            0 <= p < a.len() && 0 <= q < b.len() && a.len() - p == b.len() - q implies #[trigger] a[p]
            == #[trigger] b[q] || a[p] == 1 || b[q] == 1 by {
            assert(sizes_combine(a[a.len() - (a.len() - p)], b[b.len() - (a.len() - p)]));
        }
    }
    if sizes_agree(a, b) {
        assert forall|i: int| 1 <= i <= a.len() && i <= b.len() implies #[trigger] sizes_combine(
            a[a.len() - i],
            b[b.len() - i],
        ) by {
            let x = a[a.len() - i];
            let y = b[b.len() - i];
        }
    }
}

proof fn lemma_clash_is_listed(b: BoundaryView, g: Seq<FusionOp>, i: int, k: int)
    requires
        0 <= i < k,
        shapes_clash(g, i),
    ensures
        shape_violations(b, g, k).contains(shape_text(b, g, i)),
    decreases k,
{
    let before = shape_violations(b, g, k - 1);
    let last = text_if(shapes_clash(g, k - 1), shape_text(b, g, k - 1));
    if i < k - 1 {
        lemma_clash_is_listed(b, g, i, k - 1);
        let j = choose|j: int| 0 <= j < before.len() && before[j] == shape_text(b, g, i);
        assert((before + last)[j] == shape_text(b, g, i));
    } else {
        assert((before + last)[before.len() as int] == shape_text(b, g, i));
    }
}

proof fn lemma_no_clash(b: BoundaryView, g: Seq<FusionOp>, k: int)
    requires
        forall|i: int| 0 <= i < k ==> !#[trigger] shapes_clash(g, i),
    ensures
        shape_violations(b, g, k).len() == 0,
    decreases k,
{
    if k > 0 {
        lemma_no_clash(b, g, k - 1);
        assert(!shapes_clash(g, k - 1));
    }
}

proof fn lemma_conflict_text_is_listed(b: BoundaryView, g: Seq<FusionOp>, i: int, k: int)
    requires
        0 <= i < k,
        writes_clash(g, i),
    ensures
        inplace_violations(b, g, k).contains(conflict_text(b, i)),
    decreases k,
{
    let before = inplace_violations(b, g, k - 1);
    let last = text_if(writes_clash(g, k - 1), conflict_text(b, k - 1));
    if i < k - 1 {
        lemma_conflict_text_is_listed(b, g, i, k - 1);
        let j = choose|j: int| 0 <= j < before.len() && before[j] == conflict_text(b, i);
        assert((before + last)[j] == conflict_text(b, i));
    } else {
        assert((before + last)[before.len() as int] == conflict_text(b, i));
    }
}

proof fn lemma_no_conflict(b: BoundaryView, g: Seq<FusionOp>, k: int)
    requires
        forall|i: int| 0 <= i < k ==> !#[trigger] writes_clash(g, i),
    ensures
        inplace_violations(b, g, k).len() == 0,
    decreases k,
{
    if k > 0 {
        lemma_no_conflict(b, g, k - 1);
        assert(!writes_clash(g, k - 1));
    }
}

/// Where the output of an operation of the boundary does not broadcast with the first input of
/// the next one, the fusion is illegal, however many inputs that operation has, and a violation
/// names the two operations and the two shapes. It is enough that one pair of sizes, counted from
/// the last dimension, differs with neither of them 1.
pub proof fn clashing_shapes_are_illegal(
    b: BoundaryView,
    ops: Seq<FusionOp>,
    i: int,
    p: int,
    q: int,
)
    requires
        all_exist(b, ops),
        0 <= i,
        i + 1 < b.indices.len(),
        ops[b.indices[i + 1] as int].input_shapes@.len() > 0,
        ({
            let out = ops[b.indices[i] as int].output_shape@;
            let first = ops[b.indices[i + 1] as int].input_shapes@[0]@;
            &&& 0 <= p < out.len()
            &&& 0 <= q < first.len()
            &&& out.len() - p == first.len() - q
            &&& out[p] != first[q]
            &&& out[p] != 1
            &&& first[q] != 1
        }),
    ensures
        violations_of(b, ops).len() > 0,
        violations_of(b, ops).contains(
            "Shape mismatch between op "@ + text::decimal(b.indices[i] as nat) + " output "@
                + text::list_text(ops[b.indices[i] as int].output_shape@) + " and op "@
                + text::decimal(b.indices[i + 1] as nat) + " input "@ + text::list_text(
                ops[b.indices[i + 1] as int].input_shapes@[0]@,
            ),
        ),
{
    let g = group(b, ops);
    assert(g[i] == ops[b.indices[i] as int] && g[i + 1] == ops[b.indices[i + 1] as int]);
    lemma_sizes_agree(g[i].output_shape@, g[i + 1].input_shapes@[0]@);
    assert(shapes_clash(g, i));
    lemma_clash_is_listed(b, g, i, g.len() - 1);
    let head = text_if(
        has_float(g) && has_quantized(g),
        "Cannot fuse float and integer operations without explicit conversion"@,
    );
    let mid = shape_violations(b, g, g.len() - 1);
    let j = choose|j: int| 0 <= j < mid.len() && mid[j] == shape_text(b, g, i);
    assert(violations_of(b, ops)[head.len() + j] == shape_text(b, g, i));
}

/// Where two operations of the boundary in a row overwrite their input, the fusion is illegal and
/// a violation names the two.
pub proof fn conflicting_writes_are_named(b: BoundaryView, ops: Seq<FusionOp>, i: int)
    requires
        all_exist(b, ops),
        0 <= i,
        i + 1 < b.indices.len(),
        ops[b.indices[i] as int].is_inplace,
        ops[b.indices[i + 1] as int].is_inplace,
    ensures
        violations_of(b, ops).contains(
            "In-place conflict between op "@ + text::decimal(b.indices[i] as nat) + " and op "@
                + text::decimal(b.indices[i + 1] as nat),
        ),
{
    let g = group(b, ops);
    assert(writes_clash(g, i));
    lemma_conflict_text_is_listed(b, g, i, g.len() - 1);
    let head = text_if(
        has_float(g) && has_quantized(g),
        "Cannot fuse float and integer operations without explicit conversion"@,
    );
    let shapes = shape_violations(b, g, g.len() - 1);
    let mid = inplace_violations(b, g, g.len() - 1);
    let j = choose|j: int| 0 <= j < mid.len() && mid[j] == conflict_text(b, i);
    assert(violations_of(b, ops)[head.len() + shapes.len() + j] == conflict_text(b, i));
}

/// What a legal fusion is, in terms of the operations alone: every one that the boundary names
/// exists, no float operation meets one on integers, every operation that has an input can take
/// the output of the operation before it, no two operations in a row overwrite their input, no
/// collective is among them unless the pattern overlaps communication with computation, and none
/// is of unknown meaning.
pub open spec fn nothing_forbids(b: BoundaryView, ops: Seq<FusionOp>) -> bool {
    let at = |i: int| ops[b.indices[i] as int];
    let n = b.indices.len();
    &&& forall|i: int| 0 <= i < n ==> (#[trigger] b.indices[i]) < ops.len()
    &&& forall|i: int, j: int|
        #![trigger at(i), at(j)]
        0 <= i < n && 0 <= j < n ==> {
            let d = at(i).dtype;
            let e = at(j).dtype;
            !((d == DType::FP32 || d == DType::FP16 || d == DType::BF16 || d == DType::FP8) && (e
                == DType::INT8 || e == DType::INT4))
        }
    &&& forall|i: int, j: int|
        #![trigger at(i), at(j)]
        0 <= i < n && j == i + 1 && j < n && at(j).input_shapes@.len() > 0 ==> sizes_agree(
            at(i).output_shape@,
            at(j).input_shapes@[0]@,
        )
    &&& forall|i: int, j: int|
        #![trigger at(i), at(j)]
        0 <= i < n && j == i + 1 && j < n ==> !(at(i).is_inplace && at(j).is_inplace)
    &&& b.pattern == FusionPattern::CommunicationComputeOverlap || forall|i: int|
        #![trigger at(i)]
        0 <= i < n ==> at(i).op_type != OpType::AllReduce && at(i).op_type != OpType::AllGather
            && at(i).op_type != OpType::ReduceScatter
    &&& forall|i: int| #![trigger at(i)] 0 <= i < n ==> at(i).op_type != OpType::Custom
}

/// A fusion is legal exactly if nothing about its operations forbids it.
pub proof fn legal_exactly_if_nothing_forbids(b: BoundaryView, ops: Seq<FusionOp>)
    ensures
        violations_of(b, ops).len() == 0 <==> nothing_forbids(b, ops),
{
    if all_exist(b, ops) {
        let at = |i: int| ops[b.indices[i] as int];
        let g = group(b, ops);
        let n = b.indices.len() as int;
        assert forall|i: int| 0 <= i < n implies g[i] == #[trigger] at(i) by {}
        if violations_of(b, ops).len() == 0 {
            assert forall|i: int, j: int|
                #![trigger at(i), at(j)]
                0 <= i < n && 0 <= j < n implies {
                let d = at(i).dtype;
                let e = at(j).dtype;
                !((d == DType::FP32 || d == DType::FP16 || d == DType::BF16 || d == DType::FP8) && (
                e == DType::INT8 || e == DType::INT4))
            } by {
                assert(g[i] == at(i) && g[j] == at(j));
                assert(g[i].dtype.is_float() ==> has_float(g));
                assert(g[j].dtype.is_quantized() ==> has_quantized(g));
            }
            assert forall|i: int, j: int|
                #![trigger at(i), at(j)]
                0 <= i < n && j == i + 1 && j < n && at(j).input_shapes@.len()
                    > 0 implies sizes_agree(at(i).output_shape@, at(j).input_shapes@[0]@) by {
                assert(g[i] == at(i) && g[j] == at(j));
                lemma_sizes_agree(g[i].output_shape@, g[j].input_shapes@[0]@);
                if shapes_clash(g, i) {
                    lemma_clash_is_listed(b, g, i, n - 1);
                }
            }
            assert forall|i: int, j: int|
                #![trigger at(i), at(j)]
                0 <= i < n && j == i + 1 && j < n implies !(at(i).is_inplace
                && at(j).is_inplace) by {
                assert(g[i] == at(i) && g[j] == at(j));
                if writes_clash(g, i) {
                    lemma_conflict_is_listed(b, g, i, n - 1);
                }
            }
            assert forall|i: int| #![trigger at(i)] 0 <= i < n implies at(i).op_type
                != OpType::Custom by {
                assert(!classify::op_at(g, i, OpClass::Only(OpType::Custom)));
            }
            if b.pattern != FusionPattern::CommunicationComputeOverlap {
                assert forall|i: int|
                    #![trigger at(i)]
                    0 <= i < n implies at(i).op_type != OpType::AllReduce && at(i).op_type
                    != OpType::AllGather && at(i).op_type != OpType::ReduceScatter by {
                    assert(!classify::op_at(g, i, OpClass::Communication));
                }
            }
        } else {
            lemma_illegal_if(b, ops);
        }
    }
}

proof fn lemma_illegal_if(b: BoundaryView, ops: Seq<FusionOp>)
    requires
        all_exist(b, ops),
        violations_of(b, ops).len() > 0,
    ensures
        !nothing_forbids(b, ops),
{
    let at = |i: int| ops[b.indices[i] as int];
    let g = group(b, ops);
    let n = b.indices.len() as int;
    assert forall|i: int| 0 <= i < n implies g[i] == #[trigger] at(i) by {}
    if has_float(g) && has_quantized(g) {
        let i = choose|i: int| 0 <= i < g.len() && (#[trigger] g[i]).dtype.is_float();
        let j = choose|j: int| 0 <= j < g.len() && (#[trigger] g[j]).dtype.is_quantized();
        assert(g[i] == at(i) && g[j] == at(j));
    } else if exists|i: int| 0 <= i < n - 1 && #[trigger] shapes_clash(g, i) {
        let i = choose|i: int| 0 <= i < n - 1 && #[trigger] shapes_clash(g, i);
        let j = i + 1;
        assert(g[i] == at(i) && g[j] == at(j));
        lemma_sizes_agree(g[i].output_shape@, g[j].input_shapes@[0]@);
    } else if exists|i: int| 0 <= i < n - 1 && #[trigger] writes_clash(g, i) {
        let i = choose|i: int| 0 <= i < n - 1 && #[trigger] writes_clash(g, i);
        let j = i + 1;
        assert(g[i] == at(i) && g[j] == at(j));
    } else {
        lemma_no_clash(b, g, n - 1);
        lemma_no_conflict(b, g, n - 1);
        if classify::any_op(g, 0, n, OpClass::Only(OpType::Custom)) {
            let i = choose|i: int|
                0 <= i < n && #[trigger] classify::op_at(g, i, OpClass::Only(OpType::Custom));
            assert(g[i] == at(i));
        } else {
            let i = choose|i: int|
                0 <= i < n && #[trigger] classify::op_at(g, i, OpClass::Communication);
            assert(g[i] == at(i));
        }
    }
}

} // verus!
