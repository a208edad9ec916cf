//! Chains of elementwise operations, evaluated in one pass over their inputs.
//!
//! The arithmetic on elements is handed in. An element may be a single number or a whole vector
//! of them; the chain is the same.

use crate::x86_emitter::inst::Arith;
use crate::x86_emitter::kernel::arith_of;
use vstd::prelude::*;

verus! {

/// One operation of a chain.
#[derive(Debug, Clone, Copy, PartialEq, Eq, Structural)]
pub struct FusedOpDesc {
    /// Operation number: addition, subtraction, multiplication, division, minimum, maximum.
    pub op: u8,
    /// Source of the left operand: 0 an input, 1 a constant, 2 an earlier result.
    pub lhs_src: u8,
    /// Place in the source.
    pub lhs_idx: u16,
    /// Source of the right operand.
    pub rhs_src: u8,
    /// Place in the source.
    pub rhs_idx: u16,
}

/// Operations of a chain whose intermediate results fit the vector registers.
pub const MAX_FUSED_OPS: usize = 8;

/// How a chain ends.
#[derive(Debug, Clone, Copy, PartialEq, Eq, Structural)]
pub enum Reduce {
    Sum,
    Max,
    Min,
}

/// The number that asks for no reduction.
pub const REDUCE_NONE: u8 = 255;

/// The reduction that a number stands for.
#[verifier::allow_in_spec]
pub fn reduce_of(op: u8) -> Option<Reduce>
    returns
        (match op {
            0 => Some(Reduce::Sum),
            1 => Some(Reduce::Max),
            2 => Some(Reduce::Min),
            _ => None,
        }),
{
    match op {
        0 => Some(Reduce::Sum),
        1 => Some(Reduce::Max),
        2 => Some(Reduce::Min),
        _ => None,
    }
}

/// The operations of a chain from their parts.
pub fn fused_ops(ops: &Vec<(u8, u8, u16, u8, u16)>) -> (r: Vec<FusedOpDesc>)
    ensures
        r@.len() == ops@.len(),
        forall|i: int|
            0 <= i < ops@.len() ==> #[trigger] r@[i] == (FusedOpDesc {
                op: ops@[i].0,
                lhs_src: ops@[i].1,
                lhs_idx: ops@[i].2,
                rhs_src: ops@[i].3,
                rhs_idx: ops@[i].4,
            }),
{
    let mut r: Vec<FusedOpDesc> = Vec::new();
    let mut i: usize = 0;
    while i < ops.len()
        invariant
            i <= ops.len(),
            r@.len() == i,
            forall|j: int|
                0 <= j < i ==> #[trigger] r@[j] == (FusedOpDesc {
                    op: ops@[j].0,
                    lhs_src: ops@[j].1,
                    lhs_idx: ops@[j].2,
                    rhs_src: ops@[j].3,
                    rhs_idx: ops@[j].4,
                }),
        decreases ops.len() - i,
    {
        let (op, lhs_src, lhs_idx, rhs_src, rhs_idx): (u8, u8, u16, u8, u16) = ops[i];
        r.push(FusedOpDesc { op, lhs_src, lhs_idx, rhs_src, rhs_idx });
        i += 1;
    }
    r
}

/// The value of an operand: an input, a constant or an earlier result, and zero where there is
/// none of the given place.
pub open spec fn operand<T>(
    src: u8,
    idx: u16,
    inputs: Seq<T>,
    constants: Seq<T>,
    done: Seq<T>,
    zero: T,
) -> T {
    if src == 0 && idx < inputs.len() {
        inputs[idx as int]
    } else if src == 1 && idx < constants.len() {
        constants[idx as int]
    } else if src == 2 && idx < done.len() {
        done[idx as int]
    } else {
        zero
    }
}

fn resolve<T: Copy>(
    src: u8,
    idx: u16,
    inputs: &Vec<T>,
    constants: &Vec<T>,
    done: &Vec<T>,
    zero: T,
) -> (r: T)
    ensures
        r == operand(src, idx, inputs@, constants@, done@, zero),
{
    let place: usize = idx as usize;
    if src == 0 && place < inputs.len() {
        inputs[place]
    } else if src == 1 && place < constants.len() {
        constants[place]
    } else if src == 2 && place < done.len() {
        done[place]
    } else {
        zero
    }
}

/// `v` is what an operation gives on `l` and `r`. An unknown operation gives its left operand.
pub open spec fn gives<T, F: Fn(Arith, T, T) -> T>(f: F, op: u8, l: T, r: T, v: T) -> bool {
    match arith_of(op) {
        Some(a) => f.ensures((a, l, r), v),
        None => v == l,
    }
}

/// The left operand of the operation at place `k`.
pub open spec fn left<T>(
    ops: Seq<FusedOpDesc>,
    k: int,
    inputs: Seq<T>,
    constants: Seq<T>,
    vals: Seq<T>,
    zero: T,
) -> T {
    operand(ops[k].lhs_src, ops[k].lhs_idx, inputs, constants, vals.take(k), zero)
}

/// The right operand of the operation at place `k`.
pub open spec fn right<T>(
    ops: Seq<FusedOpDesc>,
    k: int,
    inputs: Seq<T>,
    constants: Seq<T>,
    vals: Seq<T>,
    zero: T,
) -> T {
    operand(ops[k].rhs_src, ops[k].rhs_idx, inputs, constants, vals.take(k), zero)
}

/// `vals` are results of the operations of a chain, in order, on one set of inputs.
pub open spec fn is_chain<T, F: Fn(Arith, T, T) -> T>(
    f: F,
    ops: Seq<FusedOpDesc>,
    inputs: Seq<T>,
    constants: Seq<T>,
    zero: T,
    vals: Seq<T>,
) -> bool {
    &&& vals.len() == ops.len()
    &&& forall|k: int|
        0 <= k < ops.len() ==> gives(
            f,
            ops[k].op,
            left(ops, k, inputs, constants, vals, zero),
            right(ops, k, inputs, constants, vals, zero),
            #[trigger] vals[k],
        )
}

/// The results of a chain on one set of inputs.
pub fn eval_chain<T: Copy, F: Fn(Arith, T, T) -> T>(
    ops: &Vec<FusedOpDesc>,
    inputs: &Vec<T>,
    constants: &Vec<T>,
    zero: T,
    f: &F,
) -> (r: Vec<T>)
    requires
        forall|a: Arith, x: T, y: T| #[trigger] f.requires((a, x, y)),
    ensures
        is_chain(*f, ops@, inputs@, constants@, zero, r@),
{
    let mut vals: Vec<T> = Vec::new();
    let mut k: usize = 0;
    while k < ops.len()
        invariant
            k <= ops.len(),
            forall|a: Arith, x: T, y: T| #[trigger] f.requires((a, x, y)),
            is_chain(*f, ops@.take(k as int), inputs@, constants@, zero, vals@),
        decreases ops.len() - k,
    {
        let d: FusedOpDesc = ops[k];
        let l: T = resolve(d.lhs_src, d.lhs_idx, inputs, constants, &vals, zero);
        let r: T = resolve(d.rhs_src, d.rhs_idx, inputs, constants, &vals, zero);
        let v: T = match arith_of(d.op) {
            Some(a) => f(a, l, r),
            None => l,
        };
        let ghost before = vals@;
        vals.push(v);
        proof {
            let ops0 = ops@.take(k as int);
            let ops1 = ops@.take(k + 1);
            assert forall|j: int| 0 <= j < ops1.len() implies gives(
                *f,
                ops1[j].op,
                left(ops1, j, inputs@, constants@, vals@, zero),
                right(ops1, j, inputs@, constants@, vals@, zero),
                #[trigger] vals@[j],
            ) by {
                assert(vals@.take(j) =~= before.take(j));
                if j < k {
                    assert(before[j] == vals@[j]);
                    assert(ops0[j] == ops1[j]);
                } else {
                    assert(before.take(j) =~= before);
                }
            }
        }
        k += 1;
    }
    assert(ops@.take(k as int) =~= ops@);
    vals
}

/// The inputs of one element.
pub open spec fn inputs_at<T>(inputs: Seq<Vec<T>>, i: int) -> Seq<T> {
    inputs.map_values(|v: Vec<T>| v@[i])
}

/// `v` is a result of the whole chain on the inputs of element `i`.
pub open spec fn is_result<T, F: Fn(Arith, T, T) -> T>(
    f: F,
    ops: Seq<FusedOpDesc>,
    inputs: Seq<Vec<T>>,
    constants: Seq<T>,
    zero: T,
    i: int,
    v: T,
) -> bool {
    exists|vals: Seq<T>| #[trigger]
        is_chain(f, ops, inputs_at(inputs, i), constants, zero, vals) && v == vals.last()
}

fn element<T: Copy, F: Fn(Arith, T, T) -> T>(
    ops: &Vec<FusedOpDesc>,
    inputs: &Vec<Vec<T>>,
    constants: &Vec<T>,
    zero: T,
    f: &F,
    i: usize,
) -> (r: T)
    requires
        ops@.len() > 0,
        forall|j: int| 0 <= j < inputs@.len() ==> i < (#[trigger] inputs@[j])@.len(),
        forall|a: Arith, x: T, y: T| #[trigger] f.requires((a, x, y)),
    ensures
        is_result(*f, ops@, inputs@, constants@, zero, i as int, r),
{
    let mut here: Vec<T> = Vec::new();
    let mut j: usize = 0;
    while j < inputs.len()
        invariant
            j <= inputs.len(),
            forall|j: int| 0 <= j < inputs@.len() ==> i < (#[trigger] inputs@[j])@.len(),
            here@ == inputs_at(inputs@, i as int).take(j as int),
        decreases inputs.len() - j,
    {
        here.push(inputs[j][i]);
        j += 1;
        assert(here@ =~= inputs_at(inputs@, i as int).take(j as int));
    }
    assert(here@ =~= inputs_at(inputs@, i as int));
    let vals = eval_chain(ops, &here, constants, zero, f);
    vals[vals.len() - 1]
}

/// The results of a chain on the elements from `from` up to `n`. A chain without operations has
/// none.
pub fn fused_map<T: Copy, F: Fn(Arith, T, T) -> T>(
    ops: &Vec<FusedOpDesc>,
    inputs: &Vec<Vec<T>>,
    constants: &Vec<T>,
    from: usize,
    n: usize,
    zero: T,
    f: &F,
) -> (r: Vec<T>)
    requires
        from <= n,
        forall|j: int| 0 <= j < inputs@.len() ==> n <= (#[trigger] inputs@[j])@.len(),
        forall|a: Arith, x: T, y: T| #[trigger] f.requires((a, x, y)),
    ensures
        r@.len() == if ops@.len() == 0 {
            0
        } else {
            (n - from) as nat
        },
        forall|i: int|
            0 <= i < r@.len() ==> is_result(
                *f,
                ops@,
                inputs@,
                constants@,
                zero,
                from + i,
                #[trigger] r@[i],
            ),
{
    let mut r: Vec<T> = Vec::new();
    if ops.len() == 0 {
        return r;
    }
    let mut i: usize = from;
    while i < n
        invariant
            from <= i <= n,
            r@.len() == i - from,
            ops@.len() > 0,
            forall|j: int| 0 <= j < inputs@.len() ==> n <= (#[trigger] inputs@[j])@.len(),
            forall|a: Arith, x: T, y: T| #[trigger] f.requires((a, x, y)),
            forall|j: int|
                0 <= j < i - from ==> is_result(
                    *f,
                    ops@,
                    inputs@,
                    constants@,
                    zero,
                    from + j,
                    #[trigger] r@[j],
                ),
        decreases n - i,
    {
        let v: T = element(ops, inputs, constants, zero, f, i);
        r.push(v);
        i += 1;
    }
    r
}

/// The results of the chain, the same as accumulated, and the totals before and behind each
/// element.
#[verifier::ext_equal]
pub struct Folding<T, A> {
    pub values: Seq<T>,
    pub wide: Seq<A>,
    pub totals: Seq<A>,
}

/// How a total takes in an element: a sum adds it, and the largest or smallest of the elements
/// starts with the first. Without a reduction the total stays.
pub open spec fn takes_in<A, G: Fn(Reduce, A, A) -> A>(
    g: G,
    reduce: Option<Reduce>,
    at_first: bool,
    total: A,
    x: A,
    next: A,
) -> bool {
    match reduce {
        Some(Reduce::Sum) => g.ensures((Reduce::Sum, total, x), next),
        Some(r) => if at_first {
            next == x
        } else {
            g.ensures((r, total, x), next)
        },
        None => next == total,
    }
}

/// The elements from `from` on, `n` of them, are folded into the totals.
pub open spec fn is_folding<T, A, F: Fn(Arith, T, T) -> T, W: Fn(T) -> A, G: Fn(Reduce, A, A) -> A>(
    f: F,
    w: W,
    g: G,
    ops: Seq<FusedOpDesc>,
    inputs: Seq<Vec<T>>,
    constants: Seq<T>,
    zero: T,
    start: A,
    reduce: Option<Reduce>,
    from: int,
    n: int,
    h: Folding<T, A>,
) -> bool {
    &&& h.values.len() == n
    &&& h.wide.len() == n
    &&& h.totals.len() == n + 1
    &&& h.totals[0] == start
    &&& forall|i: int|
        0 <= i < n ==> is_result(
            f,
            ops,
            inputs,
            constants,
            zero,
            from + i,
            #[trigger] h.values[i],
        )
    &&& forall|i: int| 0 <= i < n ==> w.ensures((h.values[i],), #[trigger] h.wide[i])
    &&& forall|i: int|
        0 <= i < n ==> takes_in(
            g,
            reduce,
            i == 0,
            h.totals[i],
            #[trigger] h.wide[i],
            h.totals[i + 1],
        )
}

/// The reduction of the results of a chain over the elements from `from` up to `n`, from `start`
/// on. A chain without operations reduces nothing.
pub fn fused_fold<
    T: Copy,
    A: Copy,
    F: Fn(Arith, T, T) -> T,
    W: Fn(T) -> A,
    G: Fn(Reduce, A, A) -> A,
>(
    ops: &Vec<FusedOpDesc>,
    inputs: &Vec<Vec<T>>,
    constants: &Vec<T>,
    from: usize,
    n: usize,
    zero: T,
    f: &F,
    w: &W,
    g: &G,
    start: A,
    reduce: Option<Reduce>,
) -> (r: A)
    requires
        from <= n,
        forall|j: int| 0 <= j < inputs@.len() ==> n <= (#[trigger] inputs@[j])@.len(),
        forall|a: Arith, x: T, y: T| #[trigger] f.requires((a, x, y)),
        forall|x: T| #[trigger] w.requires((x,)),
        forall|a: Reduce, x: A, y: A| #[trigger] g.requires((a, x, y)),
    ensures
        ops@.len() == 0 ==> r == start,
        ops@.len() > 0 ==> exists|h: Folding<T, A>| #[trigger]
            is_folding(
                *f,
                *w,
                *g,
                ops@,
                inputs@,
                constants@,
                zero,
                start,
                reduce,
                from as int,
                n - from,
                h,
            ) && r == h.totals.last(),
{
    if ops.len() == 0 {
        return start;
    }
    let mut total: A = start;
    let ghost mut h: Folding<T, A> = Folding {
        values: Seq::empty(),
        wide: Seq::empty(),
        totals: seq![start],
    };
    let mut i: usize = from;
    while i < n
        invariant
            from <= i <= n,
            ops@.len() > 0,
            forall|j: int| 0 <= j < inputs@.len() ==> n <= (#[trigger] inputs@[j])@.len(),
            forall|a: Arith, x: T, y: T| #[trigger] f.requires((a, x, y)),
            forall|x: T| #[trigger] w.requires((x,)),
            forall|a: Reduce, x: A, y: A| #[trigger] g.requires((a, x, y)),
            is_folding(
                *f,
                *w,
                *g,
                ops@,
                inputs@,
                constants@,
                zero,
                start,
                reduce,
                from as int,
                i - from,
                h,
            ),
            total == h.totals.last(),
        decreases n - i,
    {
        let v: T = element(ops, inputs, constants, zero, f, i);
        let x: A = w(v);
        let next: A = match reduce {
            Some(Reduce::Sum) => g(Reduce::Sum, total, x),
            Some(r) => if i == from {
                x
            } else {
                g(r, total, x)
            },
            None => total,
        };
        proof {
            let k = Folding::<T, A> {
                values: h.values.push(v),
                wide: h.wide.push(x),
                totals: h.totals.push(next),
            };
            assert forall|j: int| 0 <= j < i - from + 1 implies is_result(
                *f,
                ops@,
                inputs@,
                constants@,
                zero,
                from + j,
                #[trigger] k.values[j],
            ) by {
                if j < i - from {
                    assert(k.values[j] == h.values[j]);
                }
            }
            assert forall|j: int| 0 <= j < i - from + 1 implies w.ensures(
                (k.values[j],),
                #[trigger] k.wide[j],
            ) by {
                if j < i - from {
                    assert(k.wide[j] == h.wide[j]);
                    assert(k.values[j] == h.values[j]);
                }
            }
            assert forall|j: int| 0 <= j < i - from + 1 implies takes_in(
                *g,
                reduce,
                j == 0,
                k.totals[j],
                #[trigger] k.wide[j],
                k.totals[j + 1],
            ) by {
                if j < i - from {
                    assert(k.wide[j] == h.wide[j]);
                    assert(k.totals[j] == h.totals[j]);
                    assert(k.totals[j + 1] == h.totals[j + 1]);
                } else {
                    assert(k.totals[j] == h.totals.last());
                }
            }
            h = k;
        }
        total = next;
        i += 1;
    }
    total
}

/// The partial result, of four, that a vector goes into: in turn within the groups of four, and
/// the first behind them.
pub open spec fn goes_to(c: int, unrolled: int) -> int {
    if c < unrolled {
        c % 4
    } else {
        0
    }
}

/// The first `count` vectors that go into partial result `q`, in order.
pub open spec fn members(count: int, unrolled: int, q: int) -> Seq<int>
    decreases count,
{
    if count <= 0 {
        Seq::empty()
    } else if goes_to(count - 1, unrolled) == q {
        members(count - 1, unrolled, q).push(count - 1)
    } else {
        members(count - 1, unrolled, q)
    }
}

/// Every vector goes into exactly one partial result.
pub proof fn members_are_a_partition(count: int, unrolled: int, q: int, c: int)
    requires
        0 <= c < count,
        0 <= q < 4,
    ensures
        members(count, unrolled, q).contains(c) <==> q == goes_to(c, unrolled),
    decreases count,
{
    let before = members(count - 1, unrolled, q);
    if goes_to(count - 1, unrolled) == q {
        let s = members(count, unrolled, q);
        if c == count - 1 {
            assert(s[s.len() - 1] == c);
        } else {
            members_are_a_partition(count - 1, unrolled, q, c);
            if before.contains(c) {
                let k = choose|k: int| 0 <= k < before.len() && before[k] == c;
                assert(s[k] == c);
            }
            if s.contains(c) {
                let k = choose|k: int| 0 <= k < s.len() && s[k] == c;
                assert(before[k] == c);
            }
        }
    } else if c < count - 1 {
        members_are_a_partition(count - 1, unrolled, q, c);
    } else {
        members_are_below(count - 1, unrolled, q);
    }
}

proof fn members_are_below(count: int, unrolled: int, q: int)
    ensures
        forall|k: int|
            0 <= k < members(count, unrolled, q).len() ==> 0 <= #[trigger] members(
                count,
                unrolled,
                q,
            )[k] < count,
    decreases count,
{
    if count > 0 {
        members_are_below(count - 1, unrolled, q);
        let before = members(count - 1, unrolled, q);
        let s = members(count, unrolled, q);
        assert forall|k: int| 0 <= k < s.len() implies 0 <= #[trigger] s[k] < count by {
            if k < before.len() {
                assert(s[k] == before[k]);
            }
        }
    }
}

/// The elements in place `l` of the first `count` vectors of `width` that go into partial result
/// `q`.
pub open spec fn places(count: int, unrolled: int, q: int, width: int, l: int) -> Seq<int> {
    members(count, unrolled, q).map_values(|c: int| c * width + l)
}

/// The results on a list of elements and the totals behind each.
#[verifier::ext_equal]
pub struct Run<T> {
    pub values: Seq<T>,
    pub totals: Seq<T>,
}

/// The total behind a first result: of a sum this is the result added to zero, otherwise the
/// result.
pub open spec fn begins<T, G: Fn(Reduce, T, T) -> T>(
    g: G,
    reduce: Reduce,
    zero: T,
    value: T,
    total: T,
) -> bool {
    match reduce {
        Reduce::Sum => g.ensures((reduce, zero, value), total),
        _ => total == value,
    }
}

/// The results on the elements `which` are combined by `g`, from the first on.
pub open spec fn is_run<T, F: Fn(Arith, T, T) -> T, G: Fn(Reduce, T, T) -> T>(
    f: F,
    g: G,
    ops: Seq<FusedOpDesc>,
    inputs: Seq<Vec<T>>,
    constants: Seq<T>,
    zero: T,
    reduce: Reduce,
    which: Seq<int>,
    run: Run<T>,
) -> bool {
    &&& run.values.len() == which.len()
    &&& run.totals.len() == which.len()
    &&& which.len() > 0 ==> begins(g, reduce, zero, run.values[0], run.totals[0])
    &&& forall|i: int|
        0 <= i < which.len() ==> is_result(
            f,
            ops,
            inputs,
            constants,
            zero,
            which[i],
            #[trigger] run.values[i],
        )
    &&& forall|i: int|
        0 < i < which.len() ==> g.ensures(
            (reduce, run.totals[i - 1], #[trigger] run.values[i]),
            run.totals[i],
        )
}

/// `v` is the combination of the results on the elements `which`; there is none without elements.
pub open spec fn is_partial<T, F: Fn(Arith, T, T) -> T, G: Fn(Reduce, T, T) -> T>(
    f: F,
    g: G,
    ops: Seq<FusedOpDesc>,
    inputs: Seq<Vec<T>>,
    constants: Seq<T>,
    zero: T,
    reduce: Reduce,
    which: Seq<int>,
    v: Option<T>,
) -> bool {
    match v {
        Some(x) => which.len() > 0 && exists|run: Run<T>| #[trigger]
            is_run(f, g, ops, inputs, constants, zero, reduce, which, run) && x
                == run.totals.last(),
        None => which.len() == 0,
    }
}

/// A first element begins a total.
proof fn run_starts<T, F: Fn(Arith, T, T) -> T, G: Fn(Reduce, T, T) -> T>(
    f: F,
    g: G,
    ops: Seq<FusedOpDesc>,
    inputs: Seq<Vec<T>>,
    constants: Seq<T>,
    zero: T,
    reduce: Reduce,
    c: int,
    v: T,
    total: T,
)
    requires
        is_result(f, ops, inputs, constants, zero, c, v),
        begins(g, reduce, zero, v, total),
    ensures
        is_partial(f, g, ops, inputs, constants, zero, reduce, seq![c], Some(total)),
{
    let run = Run::<T> { values: seq![v], totals: seq![total] };
    assert(is_run(f, g, ops, inputs, constants, zero, reduce, seq![c], run));
    assert(run.totals.last() == total);
}

/// A further element is combined with the total.
proof fn run_grows<T, F: Fn(Arith, T, T) -> T, G: Fn(Reduce, T, T) -> T>(
    f: F,
    g: G,
    ops: Seq<FusedOpDesc>,
    inputs: Seq<Vec<T>>,
    constants: Seq<T>,
    zero: T,
    reduce: Reduce,
    which: Seq<int>,
    x: T,
    c: int,
    v: T,
    next: T,
)
    requires
        is_partial(f, g, ops, inputs, constants, zero, reduce, which, Some(x)),
        is_result(f, ops, inputs, constants, zero, c, v),
        g.ensures((reduce, x, v), next),
    ensures
        is_partial(f, g, ops, inputs, constants, zero, reduce, which.push(c), Some(next)),
{
    let run = choose|run: Run<T>| #[trigger]
        is_run(f, g, ops, inputs, constants, zero, reduce, which, run) && x == run.totals.last();
    let more = Run::<T> { values: run.values.push(v), totals: run.totals.push(next) };
    let all = which.push(c);
    assert(more.totals[0] == run.totals[0] && more.values[0] == run.values[0]);
    assert forall|i: int| 0 <= i < all.len() implies is_result(
        f,
        ops,
        inputs,
        constants,
        zero,
        all[i],
        #[trigger] more.values[i],
    ) by {
        if i < which.len() {
            assert(more.values[i] == run.values[i]);
            assert(all[i] == which[i]);
        }
    }
    assert forall|i: int| 0 < i < all.len() implies g.ensures(
        (reduce, more.totals[i - 1], #[trigger] more.values[i]),
        more.totals[i],
    ) by {
        assert(more.totals[i - 1] == run.totals[i - 1]);
        if i < which.len() {
            assert(more.values[i] == run.values[i]);
            assert(more.totals[i] == run.totals[i]);
        }
    }
    assert(is_run(f, g, ops, inputs, constants, zero, reduce, all, more));
    assert(more.totals.last() == next);
}

/// Takes one more element into a partial result.
fn take_in<T: Copy, F: Fn(Arith, T, T) -> T, G: Fn(Reduce, T, T) -> T>(
    ops: &Vec<FusedOpDesc>,
    inputs: &Vec<Vec<T>>,
    constants: &Vec<T>,
    zero: T,
    f: &F,
    g: &G,
    reduce: Reduce,
    c: usize,
    partial: Option<T>,
    Ghost(which): Ghost<Seq<int>>,
) -> (r: Option<T>)
    requires
        ops@.len() > 0,
        forall|j: int| 0 <= j < inputs@.len() ==> c < (#[trigger] inputs@[j])@.len(),
        forall|a: Arith, x: T, y: T| #[trigger] f.requires((a, x, y)),
        forall|a: Reduce, x: T, y: T| #[trigger] g.requires((a, x, y)),
        is_partial(*f, *g, ops@, inputs@, constants@, zero, reduce, which, partial),
    ensures
        is_partial(*f, *g, ops@, inputs@, constants@, zero, reduce, which.push(c as int), r),
{
    let v: T = element(ops, inputs, constants, zero, f, c);
    match partial {
        None => {
            let total: T = match reduce {
                Reduce::Sum => g(reduce, zero, v),
                _ => v,
            };
            proof {
                run_starts(*f, *g, ops@, inputs@, constants@, zero, reduce, c as int, v, total);
                assert(which.push(c as int) =~= seq![c as int]);
            }
            Some(total)
        },
        Some(x) => {
            let next: T = g(reduce, x, v);
            proof {
                run_grows(
                    *f,
                    *g,
                    ops@,
                    inputs@,
                    constants@,
                    zero,
                    reduce,
                    which,
                    x,
                    c as int,
                    v,
                    next,
                );
            }
            Some(next)
        },
    }
}

/// A place of a vector lies in front of the end of the vectors.
proof fn place_is_inside(c: int, width: int, l: int, count: int)
    by (nonlinear_arith)
    requires
        0 <= c < count,
        0 <= l < width,
    ensures
        0 <= c * width,
        c * width + l < count * width,
{
}

/// Four partial results in place `l` of the first `count` vectors of `width`, of which the first
/// `unrolled` go into them in turn.
pub fn fused_partials<T: Copy, F: Fn(Arith, T, T) -> T, G: Fn(Reduce, T, T) -> T>(
    ops: &Vec<FusedOpDesc>,
    inputs: &Vec<Vec<T>>,
    constants: &Vec<T>,
    count: usize,
    unrolled: usize,
    width: usize,
    l: usize,
    zero: T,
    f: &F,
    g: &G,
    reduce: Reduce,
) -> (r: [Option<T>; 4])
    requires
        ops@.len() > 0,
        l < width,
        count * width <= usize::MAX,
        forall|j: int| 0 <= j < inputs@.len() ==> count * width <= (#[trigger] inputs@[j])@.len(),
        forall|a: Arith, x: T, y: T| #[trigger] f.requires((a, x, y)),
        forall|a: Reduce, x: T, y: T| #[trigger] g.requires((a, x, y)),
    ensures
        forall|q: int|
            0 <= q < 4 ==> is_partial(
                *f,
                *g,
                ops@,
                inputs@,
                constants@,
                zero,
                reduce,
                places(count as int, unrolled as int, q, width as int, l as int),
                #[trigger] r@[q],
            ),
{
    let mut p0: Option<T> = None;
    let mut p1: Option<T> = None;
    let mut p2: Option<T> = None;
    let mut p3: Option<T> = None;
    let ghost u = unrolled as int;
    let mut c: usize = 0;
    while c < count
        invariant
            c <= count,
            u == unrolled,
            ops@.len() > 0,
            l < width,
            count * width <= usize::MAX,
            forall|j: int|
                0 <= j < inputs@.len() ==> count * width <= (#[trigger] inputs@[j])@.len(),
            forall|a: Arith, x: T, y: T| #[trigger] f.requires((a, x, y)),
            forall|a: Reduce, x: T, y: T| #[trigger] g.requires((a, x, y)),
            is_partial(
                *f,
                *g,
                ops@,
                inputs@,
                constants@,
                zero,
                reduce,
                places(c as int, u, 0, width as int, l as int),
                p0,
            ),
            is_partial(
                *f,
                *g,
                ops@,
                inputs@,
                constants@,
                zero,
                reduce,
                places(c as int, u, 1, width as int, l as int),
                p1,
            ),
            is_partial(
                *f,
                *g,
                ops@,
                inputs@,
                constants@,
                zero,
                reduce,
                places(c as int, u, 2, width as int, l as int),
                p2,
            ),
            is_partial(
                *f,
                *g,
                ops@,
                inputs@,
                constants@,
                zero,
                reduce,
                places(c as int, u, 3, width as int, l as int),
                p3,
            ),
        decreases count - c,
    {
        let turn: usize = if c < unrolled {
            c % 4
        } else {
            0
        };
        assert(turn == goes_to(c as int, u));
        let ghost which = places(c as int, u, turn as int, width as int, l as int);
        proof {
            place_is_inside(c as int, width as int, l as int, count as int);
            assert forall|q: int| 0 <= q < 4 implies #[trigger] places(
                c + 1,
                u,
                q,
                width as int,
                l as int,
            ) =~= if q == turn {
                which.push(c * width + l)
            } else {
                places(c as int, u, q, width as int, l as int)
            } by {}
            let n0 = places(c + 1, u, 0, width as int, l as int);
            let n1 = places(c + 1, u, 1, width as int, l as int);
            let n2 = places(c + 1, u, 2, width as int, l as int);
            let n3 = places(c + 1, u, 3, width as int, l as int);
        }
        let at: usize = c * width + l;
        if turn == 0 {
            p0 = take_in(ops, inputs, constants, zero, f, g, reduce, at, p0, Ghost(which));
        } else if turn == 1 {
            p1 = take_in(ops, inputs, constants, zero, f, g, reduce, at, p1, Ghost(which));
        } else if turn == 2 {
            p2 = take_in(ops, inputs, constants, zero, f, g, reduce, at, p2, Ghost(which));
        } else {
            p3 = take_in(ops, inputs, constants, zero, f, g, reduce, at, p3, Ghost(which));
        }
        c += 1;
    }
    [p0, p1, p2, p3]
}

/// `r` combines two results, either of which may be missing.
pub open spec fn is_joined<T, G: Fn(Reduce, T, T) -> T>(
    g: G,
    reduce: Reduce,
    a: Option<T>,
    b: Option<T>,
    r: Option<T>,
) -> bool {
    match (a, b) {
        (Some(x), Some(y)) => r matches Some(z) && g.ensures((reduce, x, y), z),
        (Some(x), None) => r == a,
        _ => r == b,
    }
}

fn join<T: Copy, G: Fn(Reduce, T, T) -> T>(
    g: &G,
    reduce: Reduce,
    a: Option<T>,
    b: Option<T>,
) -> (r: Option<T>)
    requires
        forall|a: Reduce, x: T, y: T| #[trigger] g.requires((a, x, y)),
    ensures
        is_joined(*g, reduce, a, b, r),
{
    match a {
        Some(x) => match b {
            Some(y) => Some(g(reduce, x, y)),
            None => a,
        },
        None => b,
    }
}

/// `r` combines four partial results, from the first to the last.
pub open spec fn is_combination<T, G: Fn(Reduce, T, T) -> T>(
    g: G,
    reduce: Reduce,
    p: Seq<Option<T>>,
    r: Option<T>,
) -> bool {
    exists|a: Option<T>, b: Option<T>|
        #![trigger is_joined(g, reduce, a, p[2], b)]
        is_joined(g, reduce, p[0], p[1], a) && is_joined(g, reduce, a, p[2], b) && is_joined(
            g,
            reduce,
            b,
            p[3],
            r,
        )
}

/// The partial results combined, from the first to the last.
pub fn join_partials<T: Copy, G: Fn(Reduce, T, T) -> T>(
    g: &G,
    reduce: Reduce,
    partials: [Option<T>; 4],
) -> (r: Option<T>)
    requires
        forall|a: Reduce, x: T, y: T| #[trigger] g.requires((a, x, y)),
    ensures
        is_combination(*g, reduce, partials@, r),
{
    let a: Option<T> = join(g, reduce, partials[0], partials[1]);
    let b: Option<T> = join(g, reduce, a, partials[2]);
    join(g, reduce, b, partials[3])
}

/// A number of places that can be halved down to one.
pub open spec fn halves_to_one(n: int) -> bool
    decreases n,
{
    n == 1 || (n > 1 && n % 2 == 0 && halves_to_one(n / 2))
}

/// One level of combining the places of a vector: every place of the first half with its partner
/// in the second.
pub open spec fn is_level<T, G: Fn(Reduce, T, T) -> T>(
    g: G,
    reduce: Reduce,
    xs: Seq<T>,
    ys: Seq<T>,
) -> bool {
    &&& ys.len() == xs.len() / 2
    &&& forall|i: int|
        0 <= i < ys.len() ==> g.ensures((reduce, xs[i], xs[i + ys.len()]), #[trigger] ys[i])
}

/// `v` combines the places of a vector, the halves first.
pub open spec fn is_across<T, G: Fn(Reduce, T, T) -> T>(
    g: G,
    reduce: Reduce,
    xs: Seq<T>,
    v: T,
) -> bool
    decreases xs.len(),
{
    if xs.len() <= 1 {
        xs.len() == 1 && v == xs[0]
    } else {
        exists|ys: Seq<T>|
            ys.len() == xs.len() / 2 && #[trigger] is_level(g, reduce, xs, ys) && is_across(
                g,
                reduce,
                ys,
                v,
            )
    }
}

/// The places of a vector combined, the halves first.
pub fn across<T: Copy, G: Fn(Reduce, T, T) -> T>(g: &G, reduce: Reduce, xs: &Vec<T>) -> (r: T)
    requires
        halves_to_one(xs@.len() as int),
        forall|a: Reduce, x: T, y: T| #[trigger] g.requires((a, x, y)),
    ensures
        is_across(*g, reduce, xs@, r),
    decreases xs@.len(),
{
    if xs.len() == 1 {
        return xs[0];
    }
    let half: usize = xs.len() / 2;
    let mut ys: Vec<T> = Vec::new();
    let mut i: usize = 0;
    while i < half
        invariant
            i <= half,
            half == xs.len() / 2,
            ys@.len() == i,
            forall|a: Reduce, x: T, y: T| #[trigger] g.requires((a, x, y)),
            forall|j: int|
                0 <= j < i ==> g.ensures((reduce, xs@[j], xs@[j + half]), #[trigger] ys@[j]),
        decreases half - i,
    {
        let y: T = g(reduce, xs[i], xs[i + half]);
        ys.push(y);
        i += 1;
    }
    assert(is_level(*g, reduce, xs@, ys@));
    across(g, reduce, &ys)
}

/// `v` is the combination of the results in place `l` of the first `count` vectors of `width`.
pub open spec fn is_lane<T, F: Fn(Arith, T, T) -> T, G: Fn(Reduce, T, T) -> T>(
    f: F,
    g: G,
    ops: Seq<FusedOpDesc>,
    inputs: Seq<Vec<T>>,
    constants: Seq<T>,
    zero: T,
    reduce: Reduce,
    count: int,
    unrolled: int,
    width: int,
    l: int,
    v: T,
) -> bool {
    exists|p: Seq<Option<T>>|
        (forall|q: int|
            0 <= q < 4 ==> is_partial(
                f,
                g,
                ops,
                inputs,
                constants,
                zero,
                reduce,
                places(count, unrolled, q, width, l),
                #[trigger] p[q],
            )) && #[trigger] is_combination(g, reduce, p, Some(v))
}

/// The combination of the results in one place of the vectors.
fn lane_result<T: Copy, F: Fn(Arith, T, T) -> T, G: Fn(Reduce, T, T) -> T>(
    ops: &Vec<FusedOpDesc>,
    inputs: &Vec<Vec<T>>,
    constants: &Vec<T>,
    count: usize,
    unrolled: usize,
    width: usize,
    l: usize,
    zero: T,
    f: &F,
    g: &G,
    reduce: Reduce,
) -> (r: T)
    requires
        ops@.len() > 0,
        0 < count,
        l < width,
        count * width <= usize::MAX,
        forall|j: int| 0 <= j < inputs@.len() ==> count * width <= (#[trigger] inputs@[j])@.len(),
        forall|a: Arith, x: T, y: T| #[trigger] f.requires((a, x, y)),
        forall|a: Reduce, x: T, y: T| #[trigger] g.requires((a, x, y)),
    ensures
        is_lane(
            *f,
            *g,
            ops@,
            inputs@,
            constants@,
            zero,
            reduce,
            count as int,
            unrolled as int,
            width as int,
            l as int,
            r,
        ),
{
    let p: [Option<T>; 4] = fused_partials(
        ops,
        inputs,
        constants,
        count,
        unrolled,
        width,
        l,
        zero,
        f,
        g,
        reduce,
    );
    let v: Option<T> = join_partials(g, reduce, p);
    proof {
        let c = count as int;
        let u = unrolled as int;
        members_are_a_partition(c, u, 0, 0);
        assert(members(c, u, 0).contains(0));
        assert(places(c, u, 0, width as int, l as int).len() > 0);
        assert(p@[0] is Some);
    }
    match v {
        Some(x) => x,
        None => zero,
    }
}

/// The vectors of a pass reduced: each place on its own, and then across the places.
pub open spec fn is_body<T, F: Fn(Arith, T, T) -> T, G: Fn(Reduce, T, T) -> T>(
    f: F,
    g: G,
    ops: Seq<FusedOpDesc>,
    inputs: Seq<Vec<T>>,
    constants: Seq<T>,
    zero: T,
    reduce: Reduce,
    count: int,
    unrolled: int,
    width: int,
    lanes: Seq<T>,
    v: T,
) -> bool {
    &&& lanes.len() == width
    &&& forall|l: int|
        0 <= l < width ==> is_lane(
            f,
            g,
            ops,
            inputs,
            constants,
            zero,
            reduce,
            count,
            unrolled,
            width,
            l,
            #[trigger] lanes[l],
        )
    &&& is_across(g, reduce, lanes, v)
}

/// The vectors of a pass reduced.
pub fn fused_body<T: Copy, F: Fn(Arith, T, T) -> T, G: Fn(Reduce, T, T) -> T>(
    ops: &Vec<FusedOpDesc>,
    inputs: &Vec<Vec<T>>,
    constants: &Vec<T>,
    count: usize,
    unrolled: usize,
    width: usize,
    zero: T,
    f: &F,
    g: &G,
    reduce: Reduce,
) -> (r: T)
    requires
        ops@.len() > 0,
        0 < count,
        halves_to_one(width as int),
        count * width <= usize::MAX,
        forall|j: int| 0 <= j < inputs@.len() ==> count * width <= (#[trigger] inputs@[j])@.len(),
        forall|a: Arith, x: T, y: T| #[trigger] f.requires((a, x, y)),
        forall|a: Reduce, x: T, y: T| #[trigger] g.requires((a, x, y)),
    ensures
        exists|lanes: Seq<T>| #[trigger]
            is_body(
                *f,
                *g,
                ops@,
                inputs@,
                constants@,
                zero,
                reduce,
                count as int,
                unrolled as int,
                width as int,
                lanes,
                r,
            ),
{
    let mut lanes: Vec<T> = Vec::new();
    let mut l: usize = 0;
    while l < width
        invariant
            l <= width,
            ops@.len() > 0,
            0 < count,
            count * width <= usize::MAX,
            forall|j: int|
                0 <= j < inputs@.len() ==> count * width <= (#[trigger] inputs@[j])@.len(),
            forall|a: Arith, x: T, y: T| #[trigger] f.requires((a, x, y)),
            forall|a: Reduce, x: T, y: T| #[trigger] g.requires((a, x, y)),
            lanes@.len() == l,
            forall|k: int|
                0 <= k < l ==> is_lane(
                    *f,
                    *g,
                    ops@,
                    inputs@,
                    constants@,
                    zero,
                    reduce,
                    count as int,
                    unrolled as int,
                    width as int,
                    k,
                    #[trigger] lanes@[k],
                ),
        decreases width - l,
    {
        let v: T = lane_result(
            ops,
            inputs,
            constants,
            count,
            unrolled,
            width,
            l,
            zero,
            f,
            g,
            reduce,
        );
        lanes.push(v);
        l += 1;
    }
    let r: T = across(g, reduce, &lanes);
    proof {
        assert(is_body(
            *f,
            *g,
            ops@,
            inputs@,
            constants@,
            zero,
            reduce,
            count as int,
            unrolled as int,
            width as int,
            lanes@,
            r,
        ));
    }
    r
}

/// How a pass divides its elements: up to `unrolled` in groups of four vectors, up to `vectors`
/// in single vectors, and the rest one by one.
#[derive(Debug, Clone, Copy, PartialEq, Eq, Structural)]
pub struct ChunkPlan {
    pub unrolled: usize,
    pub vectors: usize,
}

/// The plan of `n` elements in vectors of `width`.
pub fn chunk_plan(n: usize, width: usize) -> (r: ChunkPlan)
    requires
        0 < width,
        4 * width <= usize::MAX,
    ensures
        r.unrolled == n - n % ((4 * width) as usize),
        r.vectors == n - n % width,
        r.unrolled <= r.vectors <= n,
        n - r.vectors < width,
        r.vectors - r.unrolled < 4 * width,
        plan_fits(r, n as int, width as int),
{
    let group: usize = 4 * width;
    proof {
        vstd::arithmetic::div_mod::lemma_fundamental_div_mod(n as int, group as int);
        vstd::arithmetic::div_mod::lemma_fundamental_div_mod(n as int, width as int);
        vstd::arithmetic::div_mod::lemma_mod_bound(n as int, group as int);
        vstd::arithmetic::div_mod::lemma_mod_bound(n as int, width as int);
        let q = n as int / group as int;
        let rest = n as int % group as int;
        assert(group * q == width * (4 * q)) by (nonlinear_arith)
            requires
                group == 4 * width,
        ;
        vstd::arithmetic::div_mod::lemma_mod_multiples_vanish(4 * q, rest, width as int);
        assert(width * (4 * q) + rest == n);
        assert(n as int % width as int == rest % (width as int));
        vstd::arithmetic::div_mod::lemma_mod_decreases(rest as nat, width as nat);
    }
    proof {
        chunks_are_whole(n, width);
    }
    ChunkPlan { unrolled: n - n % group, vectors: n - n % width }
}

/// Groups and vectors are whole: the boundaries of a plan are multiples of their sizes, so every
/// element lies in exactly one group, vector or single place.
pub proof fn chunks_are_whole(n: usize, width: usize)
    requires
        0 < width,
        4 * width <= usize::MAX,
    ensures
        (n - n % ((4 * width) as usize)) % (4 * width) == 0,
        (n - n % width) % (width as int) == 0,
        ((n - n % width) - (n - n % ((4 * width) as usize))) % (width as int) == 0,
{
    let group = 4 * width;
    let a = n as int / group;
    let b = n as int / width as int;
    vstd::arithmetic::div_mod::lemma_fundamental_div_mod(n as int, group);
    vstd::arithmetic::div_mod::lemma_fundamental_div_mod(n as int, width as int);
    vstd::arithmetic::div_mod::lemma_mod_multiples_basic(a, group);
    vstd::arithmetic::div_mod::lemma_mod_multiples_basic(b, width as int);
    assert(a * group == group * a && b * width == width * b) by (nonlinear_arith);
    assert(width * b - group * a == (b - 4 * a) * width) by (nonlinear_arith)
        requires
            group == 4 * width,
    ;
    vstd::arithmetic::div_mod::lemma_mod_multiples_basic(b - 4 * a, width as int);
}

/// The arithmetic of a pass: `lane` within vectors, `join` on the results of vectors, `single` on
/// elements behind them, `widen` to the type of the total, and `fold` on totals.
pub struct Arithmetic<F, J, S, W, G> {
    pub lane: F,
    pub join: J,
    pub single: S,
    pub widen: W,
    pub fold: G,
}

/// What a pass gives: the results, or their reduction.
#[derive(Debug, Clone, PartialEq)]
pub enum FusedOutcome<T, A> {
    Stored(Vec<T>),
    Reduced(A),
}

/// `r` is the reduction of a pass: that of its vectors, that of the elements behind them, or
/// where there are both, the two folded.
pub open spec fn is_reduction<
    T,
    A,
    F: Fn(Arith, T, T) -> T,
    J: Fn(Reduce, T, T) -> T,
    S: Fn(Arith, T, T) -> T,
    W: Fn(T) -> A,
    G: Fn(Reduce, A, A) -> A,
>(
    by: Arithmetic<F, J, S, W, G>,
    ops: Seq<FusedOpDesc>,
    inputs: Seq<Vec<T>>,
    constants: Seq<T>,
    n: int,
    width: int,
    plan: ChunkPlan,
    zero: T,
    start: A,
    reduce: Reduce,
    lanes: Seq<T>,
    body: T,
    wide: A,
    tail: Folding<T, A>,
    r: A,
) -> bool {
    let count = plan.vectors as int / width;
    let rest = n - plan.vectors;
    &&& count > 0 ==> is_body(
        by.lane,
        by.join,
        ops,
        inputs,
        constants,
        zero,
        reduce,
        count,
        plan.unrolled as int / width,
        width,
        lanes,
        body,
    ) && by.widen.ensures((body,), wide)
    &&& is_folding(
        by.single,
        by.widen,
        by.fold,
        ops,
        inputs,
        constants,
        zero,
        start,
        Some(reduce),
        plan.vectors as int,
        rest,
        tail,
    )
    &&& if count > 0 && rest > 0 {
        by.fold.ensures((reduce, wide, tail.totals.last()), r)
    } else if count > 0 {
        r == wide
    } else {
        r == tail.totals.last()
    }
}

/// `r` is a reduction of a pass.
pub open spec fn is_reduced<
    T,
    A,
    F: Fn(Arith, T, T) -> T,
    J: Fn(Reduce, T, T) -> T,
    S: Fn(Arith, T, T) -> T,
    W: Fn(T) -> A,
    G: Fn(Reduce, A, A) -> A,
>(
    by: Arithmetic<F, J, S, W, G>,
    ops: Seq<FusedOpDesc>,
    inputs: Seq<Vec<T>>,
    constants: Seq<T>,
    n: int,
    width: int,
    plan: ChunkPlan,
    zero: T,
    start: A,
    reduce: Reduce,
    r: A,
) -> bool {
    exists|lanes: Seq<T>, body: T, wide: A, tail: Folding<T, A>| #[trigger]
        is_reduction(
            by,
            ops,
            inputs,
            constants,
            n,
            width,
            plan,
            zero,
            start,
            reduce,
            lanes,
            body,
            wide,
            tail,
            r,
        )
}

/// The plan of a pass fits its elements: whole vectors, and no more than there are elements.
pub open spec fn plan_fits(plan: ChunkPlan, n: int, width: int) -> bool {
    plan.vectors <= n && plan.vectors as int % width == 0
}

/// The arithmetic of a pass takes every element.
pub open spec fn is_total<
    T,
    A,
    F: Fn(Arith, T, T) -> T,
    J: Fn(Reduce, T, T) -> T,
    S: Fn(Arith, T, T) -> T,
    W: Fn(T) -> A,
    G: Fn(Reduce, A, A) -> A,
>(by: Arithmetic<F, J, S, W, G>) -> bool {
    &&& forall|a: Arith, x: T, y: T| #[trigger] by.lane.requires((a, x, y))
    &&& forall|a: Reduce, x: T, y: T| #[trigger] by.join.requires((a, x, y))
    &&& forall|a: Arith, x: T, y: T| #[trigger] by.single.requires((a, x, y))
    &&& forall|x: T| #[trigger] by.widen.requires((x,))
    &&& forall|a: Reduce, x: A, y: A| #[trigger] by.fold.requires((a, x, y))
}

/// The reduction of a pass.
pub fn fused_reduce<
    T: Copy,
    A: Copy,
    F: Fn(Arith, T, T) -> T,
    J: Fn(Reduce, T, T) -> T,
    S: Fn(Arith, T, T) -> T,
    W: Fn(T) -> A,
    G: Fn(Reduce, A, A) -> A,
>(
    by: &Arithmetic<F, J, S, W, G>,
    ops: &Vec<FusedOpDesc>,
    inputs: &Vec<Vec<T>>,
    constants: &Vec<T>,
    n: usize,
    width: usize,
    plan: ChunkPlan,
    zero: T,
    start: A,
    reduce: Reduce,
) -> (r: A)
    requires
        ops@.len() > 0,
        halves_to_one(width as int),
        plan_fits(plan, n as int, width as int),
        forall|j: int| 0 <= j < inputs@.len() ==> n <= (#[trigger] inputs@[j])@.len(),
        is_total(*by),
    ensures
        is_reduced(
            *by,
            ops@,
            inputs@,
            constants@,
            n as int,
            width as int,
            plan,
            zero,
            start,
            reduce,
            r,
        ),
{
    let count: usize = plan.vectors / width;
    let unrolled: usize = plan.unrolled / width;
    let rest: usize = n - plan.vectors;
    proof {
        vstd::arithmetic::div_mod::lemma_fundamental_div_mod(plan.vectors as int, width as int);
        assert(count * width == plan.vectors) by (nonlinear_arith)
            requires
                plan.vectors == width * count + 0,
        ;
    }
    let end: A = fused_fold(
        ops,
        inputs,
        constants,
        plan.vectors,
        n,
        zero,
        &by.single,
        &by.widen,
        &by.fold,
        start,
        Some(reduce),
    );
    let ghost tail = choose|h: Folding<T, A>| #[trigger]
        is_folding(
            by.single,
            by.widen,
            by.fold,
            ops@,
            inputs@,
            constants@,
            zero,
            start,
            Some(reduce),
            plan.vectors as int,
            n - plan.vectors,
            h,
        ) && end == h.totals.last();
    if count == 0 {
        proof {
            assert(is_reduction(
                *by,
                ops@,
                inputs@,
                constants@,
                n as int,
                width as int,
                plan,
                zero,
                start,
                reduce,
                Seq::empty(),
                zero,
                start,
                tail,
                end,
            ));
        }
        return end;
    }
    let body: T = fused_body(
        ops,
        inputs,
        constants,
        count,
        unrolled,
        width,
        zero,
        &by.lane,
        &by.join,
        reduce,
    );
    let ghost lanes = choose|lanes: Seq<T>| #[trigger]
        is_body(
            by.lane,
            by.join,
            ops@,
            inputs@,
            constants@,
            zero,
            reduce,
            count as int,
            unrolled as int,
            width as int,
            lanes,
            body,
        );
    let widen = &by.widen;
    let fold = &by.fold;
    let wide: A = widen(body);
    let r: A = if rest > 0 {
        fold(reduce, wide, end)
    } else {
        wide
    };
    proof {
        assert(is_reduction(
            *by,
            ops@,
            inputs@,
            constants@,
            n as int,
            width as int,
            plan,
            zero,
            start,
            reduce,
            lanes,
            body,
            wide,
            tail,
            r,
        ));
    }
    r
}

/// `v` are the results of a pass: those of vectors by the arithmetic of vectors, and those behind
/// them by the other.
pub open spec fn are_results<T, F: Fn(Arith, T, T) -> T, S: Fn(Arith, T, T) -> T>(
    lane: F,
    single: S,
    ops: Seq<FusedOpDesc>,
    inputs: Seq<Vec<T>>,
    constants: Seq<T>,
    n: int,
    vectors: int,
    zero: T,
    v: Seq<T>,
) -> bool {
    &&& v.len() == n
    &&& forall|i: int|
        0 <= i < n ==> if i < vectors {
            is_result(lane, ops, inputs, constants, zero, i, #[trigger] v[i])
        } else {
            is_result(single, ops, inputs, constants, zero, i, v[i])
        }
}

/// The results of a pass.
pub fn fused_store<T: Copy, F: Fn(Arith, T, T) -> T, S: Fn(Arith, T, T) -> T>(
    ops: &Vec<FusedOpDesc>,
    inputs: &Vec<Vec<T>>,
    constants: &Vec<T>,
    n: usize,
    vectors: usize,
    zero: T,
    lane: &F,
    single: &S,
) -> (r: Vec<T>)
    requires
        ops@.len() > 0,
        vectors <= n,
        forall|j: int| 0 <= j < inputs@.len() ==> n <= (#[trigger] inputs@[j])@.len(),
        forall|a: Arith, x: T, y: T| #[trigger] lane.requires((a, x, y)),
        forall|a: Arith, x: T, y: T| #[trigger] single.requires((a, x, y)),
    ensures
        are_results(
            *lane,
            *single,
            ops@,
            inputs@,
            constants@,
            n as int,
            vectors as int,
            zero,
            r@,
        ),
{
    let mut r: Vec<T> = fused_map(ops, inputs, constants, 0, vectors, zero, lane);
    let mut tail: Vec<T> = fused_map(ops, inputs, constants, vectors, n, zero, single);
    let ghost body = r@;
    let ghost end = tail@;
    r.append(&mut tail);
    proof {
        assert forall|i: int| 0 <= i < n implies if i < vectors {
            is_result(*lane, ops@, inputs@, constants@, zero, i, #[trigger] r@[i])
        } else {
            is_result(*single, ops@, inputs@, constants@, zero, i, r@[i])
        } by {
            if i < vectors {
                assert(r@[i] == body[i]);
                assert(0 + i == i);
            } else {
                assert(r@[i] == end[i - vectors]);
                assert(vectors + (i - vectors) == i);
            }
        }
    }
    r
}

/// A chain of elementwise operations in one pass: the results, or the reduction that a number
/// asks for. An unknown number reduces nothing, and so does a pass without operations or
/// elements.
pub fn fused_elementwise<
    T: Copy,
    A: Copy,
    F: Fn(Arith, T, T) -> T,
    J: Fn(Reduce, T, T) -> T,
    S: Fn(Arith, T, T) -> T,
    W: Fn(T) -> A,
    G: Fn(Reduce, A, A) -> A,
>(
    by: &Arithmetic<F, J, S, W, G>,
    ops: &Vec<FusedOpDesc>,
    inputs: &Vec<Vec<T>>,
    constants: &Vec<T>,
    n: usize,
    width: usize,
    plan: ChunkPlan,
    zero: T,
    start: A,
    reduce_op: u8,
) -> (r: FusedOutcome<T, A>)
    requires
        halves_to_one(width as int),
        plan_fits(plan, n as int, width as int),
        forall|j: int| 0 <= j < inputs@.len() ==> n <= (#[trigger] inputs@[j])@.len(),
        is_total(*by),
    ensures
        r is Stored <==> ops@.len() > 0 && n > 0 && reduce_op == REDUCE_NONE,
        match r {
            FusedOutcome::Stored(v) => are_results(
                by.lane,
                by.single,
                ops@,
                inputs@,
                constants@,
                n as int,
                plan.vectors as int,
                zero,
                v@,
            ),
            FusedOutcome::Reduced(a) => if ops@.len() == 0 || n == 0 {
                a == start
            } else {
                match reduce_of(reduce_op) {
                    Some(q) => is_reduced(
                        *by,
                        ops@,
                        inputs@,
                        constants@,
                        n as int,
                        width as int,
                        plan,
                        zero,
                        start,
                        q,
                        a,
                    ),
                    None => a == start,
                }
            },
        },
{
    if ops.len() == 0 || n == 0 {
        return FusedOutcome::Reduced(start);
    }
    if reduce_op == REDUCE_NONE {
        let v: Vec<T> = fused_store(
            ops,
            inputs,
            constants,
            n,
            plan.vectors,
            zero,
            &by.lane,
            &by.single,
        );
        return FusedOutcome::Stored(v);
    }
    match reduce_of(reduce_op) {
        Some(q) => {
            let a: A = fused_reduce(
                by,
                ops,
                inputs,
                constants,
                n,
                width,
                plan,
                zero,
                start,
                q,
            );
            FusedOutcome::Reduced(a)
        },
        None => FusedOutcome::Reduced(start),
    }
}

/// On the operations of a chain, two arithmetics give the same, as `same` takes it, on operands
/// that are the same. `same` may take values that differ in their bits, such as two NaNs, as one.
pub open spec fn operations_agree<T, F: Fn(Arith, T, T) -> T, S: Fn(Arith, T, T) -> T>(
    f: F,
    g: S,
    ops: Seq<FusedOpDesc>,
    same: spec_fn(T, T) -> bool,
) -> bool {
    &&& forall|x: T| #[trigger] same(x, x)
    &&& forall|k: int, l: T, r: T, u: T, l2: T, r2: T, v: T|
        0 <= k < ops.len() && #[trigger] gives(f, ops[k].op, l, r, u) && #[trigger] gives(
            g,
            ops[k].op,
            l2,
            r2,
            v,
        ) && same(l, l2) && same(r, r2) ==> same(u, v)
}

/// Where two arithmetics agree, the first `n` results of a chain are the same by both.
proof fn chains_agree<T, F: Fn(Arith, T, T) -> T, S: Fn(Arith, T, T) -> T>(
    f: F,
    g: S,
    ops: Seq<FusedOpDesc>,
    same: spec_fn(T, T) -> bool,
    inputs: Seq<T>,
    constants: Seq<T>,
    zero: T,
    us: Seq<T>,
    vs: Seq<T>,
    n: int,
)
    requires
        operations_agree(f, g, ops, same),
        is_chain(f, ops, inputs, constants, zero, us),
        is_chain(g, ops, inputs, constants, zero, vs),
        0 <= n <= ops.len(),
    ensures
        forall|k: int| 0 <= k < n ==> same(#[trigger] us[k], vs[k]),
    decreases n,
{
    if n > 0 {
        let k = n - 1;
        chains_agree(f, g, ops, same, inputs, constants, zero, us, vs, k);
        let l = left(ops, k, inputs, constants, us, zero);
        let r = right(ops, k, inputs, constants, us, zero);
        let l2 = left(ops, k, inputs, constants, vs, zero);
        let r2 = right(ops, k, inputs, constants, vs, zero);
        assert(forall|j: int| 0 <= j < k ==> us.take(k)[j] == #[trigger] us[j]);
        assert(same(l, l2)) by {
            let j = ops[k].lhs_idx as int;
            assert(j < k ==> same(us[j], vs[j]));
        }
        assert(same(r, r2)) by {
            let j = ops[k].rhs_idx as int;
            assert(j < k ==> same(us[j], vs[j]));
        }
        let u = us[k];
        let v = vs[k];
        assert(gives(f, ops[k].op, l, r, u));
        assert(gives(g, ops[k].op, l2, r2, v));
    }
}

/// Results of a chain on one element are the same by two arithmetics that agree.
proof fn results_agree<T, F: Fn(Arith, T, T) -> T, S: Fn(Arith, T, T) -> T>(
    f: F,
    g: S,
    ops: Seq<FusedOpDesc>,
    same: spec_fn(T, T) -> bool,
    inputs: Seq<Vec<T>>,
    constants: Seq<T>,
    zero: T,
    i: int,
    u: T,
    v: T,
)
    requires
        ops.len() > 0,
        operations_agree(f, g, ops, same),
        is_result(f, ops, inputs, constants, zero, i, u),
        is_result(g, ops, inputs, constants, zero, i, v),
    ensures
        same(u, v),
{
    let here = inputs_at(inputs, i);
    let us = choose|us: Seq<T>| #[trigger]
        is_chain(f, ops, here, constants, zero, us) && u == us.last();
    let vs = choose|vs: Seq<T>| #[trigger]
        is_chain(g, ops, here, constants, zero, vs) && v == vs.last();
    chains_agree(f, g, ops, same, here, constants, zero, us, vs, ops.len() as int);
    let last = us[ops.len() - 1];
}

/// A pass in vectors and a pass over single elements store the same results, whatever the
/// division into vectors, where the arithmetic of vectors agrees with that of single elements on
/// the operations of the chain.
pub proof fn vector_pass_is_scalar_pass<T, F: Fn(Arith, T, T) -> T, S: Fn(Arith, T, T) -> T>(
    lane: F,
    single: S,
    ops: Seq<FusedOpDesc>,
    same: spec_fn(T, T) -> bool,
    inputs: Seq<Vec<T>>,
    constants: Seq<T>,
    n: int,
    vectors: int,
    zero: T,
    by_vectors: Seq<T>,
    one_by_one: Seq<T>,
)
    requires
        ops.len() > 0,
        operations_agree(lane, single, ops, same),
        operations_agree(single, single, ops, same),
        are_results(lane, single, ops, inputs, constants, n, vectors, zero, by_vectors),
        are_results(lane, single, ops, inputs, constants, n, 0, zero, one_by_one),
    ensures
        by_vectors.len() == n,
        one_by_one.len() == n,
        forall|i: int| 0 <= i < n ==> same(#[trigger] by_vectors[i], one_by_one[i]),
{
    assert forall|i: int| 0 <= i < n implies same(#[trigger] by_vectors[i], one_by_one[i]) by {
        let u = by_vectors[i];
        let v = one_by_one[i];
        if i < vectors {
            results_agree(lane, single, ops, same, inputs, constants, zero, i, u, v);
        } else {
            results_agree(single, single, ops, same, inputs, constants, zero, i, u, v);
        }
    }
}

} // verus!
