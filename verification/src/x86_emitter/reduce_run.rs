//! What the reduction kernels compute.

use crate::x86_emitter::elementwise::elem_bytes;
use crate::x86_emitter::inst::{
    acc_scalar, acc_vector, add_imm, at, at_sum, clear, fill, mov, packed, scale, sub_imm, vclear,
    Arith, Elem, Ins, Op, Reg, Wide,
};
use crate::x86_emitter::machine;
use crate::x86_emitter::machine::{Data, Floats, State};
use crate::x86_emitter::program;
use crate::x86_emitter::program::Asm;
use crate::x86_emitter::reduce;
use crate::x86_emitter::running;
use crate::x86_emitter::steps;
use vstd::prelude::*;

verus! {

/// Elements of a vector, and vectors of a group.
pub open spec fn lanes(e: Elem) -> int {
    match e {
        Elem::F32 => 8,
        Elem::F64 => 4,
    }
}

/// Elements of a group.
pub open spec fn group(e: Elem) -> int {
    match e {
        Elem::F32 => 64,
        Elem::F64 => 16,
    }
}

/// Element `i` of an array.
pub open spec fn element(mem: spec_fn(int) -> u8, at: int, e: Elem, i: int) -> Seq<u8> {
    machine::bytes(mem, at + machine::size(e) * i, machine::size(e))
}

/// Two elements combined. Without an operation the first stays.
pub open spec fn combined(fl: Floats, op: Option<Arith>, e: Elem, x: Seq<u8>, y: Seq<u8>) -> Seq<
    u8,
> {
    match op {
        Some(f) => machine::low((fl.arith)(f, e, x, y), machine::size(e)),
        None => x,
    }
}

/// What the partial results of an array of `n` elements start from: its first element where the
/// operation picks an element and there is one, and zero otherwise.
pub open spec fn start(op: Option<Arith>, e: Elem, mem: spec_fn(int) -> u8, at: int, n: int) -> Seq<
    u8,
> {
    if reduce::is_choice(op) && n > 0 {
        element(mem, at, e, 0)
    } else {
        machine::zeros(machine::size(e))
    }
}

/// The elements in place `l` of vector `j` of the first groups, taken in one by one from what the
/// partial results start from.
pub open spec fn partial(
    fl: Floats,
    op: Option<Arith>,
    e: Elem,
    mem: spec_fn(int) -> u8,
    at: int,
    n: int,
    j: int,
    l: int,
    groups: int,
) -> Seq<u8>
    decreases groups,
{
    if groups <= 0 {
        start(op, e, mem, at, n)
    } else {
        combined(
            fl,
            op,
            e,
            partial(fl, op, e, mem, at, n, j, l, groups - 1),
            element(mem, at, e, group(e) * (groups - 1) + lanes(e) * j + l),
        )
    }
}

/// The groups that are taken: as many as leave an element.
pub open spec fn groups_of(e: Elem, n: int) -> int {
    if n <= 0 {
        0
    } else {
        (n - 1) / group(e)
    }
}

/// The vectors that are taken behind the groups: as many as leave an element.
pub open spec fn vectors_of(e: Elem, n: int) -> int {
    if n <= 0 {
        0
    } else {
        (n - 1) % group(e) / lanes(e)
    }
}

/// The first vector with the vectors behind the groups taken in.
pub open spec fn with_vectors(
    fl: Floats,
    op: Option<Arith>,
    e: Elem,
    mem: spec_fn(int) -> u8,
    at: int,
    n: int,
    groups: int,
    l: int,
    vectors: int,
) -> Seq<u8>
    decreases vectors,
{
    if vectors <= 0 {
        partial(fl, op, e, mem, at, n, 0, l, groups)
    } else {
        combined(
            fl,
            op,
            e,
            with_vectors(fl, op, e, mem, at, n, groups, l, vectors - 1),
            element(mem, at, e, group(e) * groups + lanes(e) * (vectors - 1) + l),
        )
    }
}

/// The first vector with the next `j` vectors of partial results taken in.
pub open spec fn with_partials(
    fl: Floats,
    op: Option<Arith>,
    e: Elem,
    mem: spec_fn(int) -> u8,
    at: int,
    n: int,
    l: int,
    j: int,
) -> Seq<u8>
    decreases j,
{
    if j <= 0 {
        with_vectors(fl, op, e, mem, at, n, groups_of(e, n), l, vectors_of(e, n))
    } else {
        combined(
            fl,
            op,
            e,
            with_partials(fl, op, e, mem, at, n, l, j - 1),
            partial(fl, op, e, mem, at, n, j, l, groups_of(e, n)),
        )
    }
}

/// The elements of one vector combined: those of its halves, then those of the halves of that,
/// and so on.
pub open spec fn folded(fl: Floats, op: Option<Arith>, e: Elem, x: spec_fn(int) -> Seq<u8>) -> Seq<
    u8,
> {
    match e {
        Elem::F32 => combined(
            fl,
            op,
            e,
            combined(
                fl,
                op,
                e,
                combined(fl, op, e, x(0), x(4)),
                combined(fl, op, e, x(2), x(6)),
            ),
            combined(
                fl,
                op,
                e,
                combined(fl, op, e, x(1), x(5)),
                combined(fl, op, e, x(3), x(7)),
            ),
        ),
        Elem::F64 => combined(
            fl,
            op,
            e,
            combined(fl, op, e, x(0), x(2)),
            combined(fl, op, e, x(1), x(3)),
        ),
    }
}

/// The elements that are taken in vectors.
pub open spec fn taken(e: Elem, n: int) -> int {
    group(e) * groups_of(e, n) + lanes(e) * vectors_of(e, n)
}

/// The result of the vectors with the next elements taken in, up to element `i`.
pub open spec fn reduced(
    fl: Floats,
    op: Option<Arith>,
    e: Elem,
    mem: spec_fn(int) -> u8,
    at: int,
    n: int,
    i: int,
) -> Seq<u8>
    decreases i - taken(e, n),
{
    if i <= taken(e, n) {
        folded(
            fl,
            op,
            e,
            |l: int| with_partials(fl, op, e, mem, at, n, l, lanes(e) - 1),
        )
    } else {
        combined(
            fl,
            op,
            e,
            reduced(fl, op, e, mem, at, n, i - 1),
            element(mem, at, e, i - 1),
        )
    }
}

/// The reduction of an array: partial results over vectors, combined, and then the rest of the
/// elements.
pub open spec fn reduction(
    fl: Floats,
    op: Option<Arith>,
    e: Elem,
    mem: spec_fn(int) -> u8,
    at: int,
    n: int,
) -> Seq<u8> {
    reduced(fl, op, e, mem, at, n, n)
}

/// A register holds partial results.
#[verifier::opaque]
pub open spec fn holds(v: Seq<u8>, e: Elem, x: spec_fn(int) -> Seq<u8>) -> bool {
    forall|l: int| 0 <= l < lanes(e) ==> #[trigger] machine::lane(v, e, l) == x(l)
}

/// A place of a vector of results.
proof fn lane_of_results(fl: Floats, f: Arith, e: Elem, x: Seq<u8>, y: Seq<u8>, l: int)
    requires
        0 <= l < lanes(e),
    ensures
        machine::lane(machine::filled(machine::lanewise(fl, f, e, x, y, 32)), e, l) == machine::low(
            (fl.arith)(f, e, machine::lane(x, e, l), machine::lane(y, e, l)),
            machine::size(e),
        ),
{
    let w = machine::lane(machine::filled(machine::lanewise(fl, f, e, x, y, 32)), e, l);
    let one = machine::low(
        (fl.arith)(f, e, machine::lane(x, e, l), machine::lane(y, e, l)),
        machine::size(e),
    );
    match e {
        Elem::F32 => {
            assert forall|i: int| 0 <= i < 4 implies #[trigger] w[i] == one[i] by {
                assert((l * 4 + i) / 4 == l);
                assert((l * 4 + i) % 4 == i);
            }
        },
        Elem::F64 => {
            assert forall|i: int| 0 <= i < 8 implies #[trigger] w[i] == one[i] by {
                assert((l * 8 + i) / 8 == l);
                assert((l * 8 + i) % 8 == i);
            }
        },
    }
    assert(w =~= one);
}

/// A product with a known factor.
proof fn times(x: int, y: int, k: int)
    by (nonlinear_arith)
    requires
        y == k,
    ensures
        x * y == k * x,
        y * x == k * x,
{
}

/// A place of a vector in memory.
proof fn lane_of_memory(mem: spec_fn(int) -> u8, at: int, e: Elem, i: int, l: int)
    requires
        0 <= l < lanes(e),
    ensures
        machine::lane(machine::bytes(mem, at + machine::size(e) * i, 32), e, l) == element(
            mem,
            at,
            e,
            i + l,
        ),
{
    let w = machine::lane(machine::bytes(mem, at + machine::size(e) * i, 32), e, l);
    match e {
        Elem::F32 => {
            assert forall|j: int| 0 <= j < 4 implies #[trigger] w[j] == element(
                mem,
                at,
                e,
                i + l,
            )[j] by {
                times(l, machine::size(e), 4);
                times(i, machine::size(e), 4);
                times(i + l, machine::size(e), 4);
            }
        },
        Elem::F64 => {
            assert forall|j: int| 0 <= j < 8 implies #[trigger] w[j] == element(
                mem,
                at,
                e,
                i + l,
            )[j] by {
                times(l, machine::size(e), 8);
                times(i, machine::size(e), 8);
                times(i + l, machine::size(e), 8);
            }
        },
    }
    assert(w =~= element(mem, at, e, i + l));
}

/// A register with one element in every place, or cleared.
proof fn copies_are_held(e: Elem, b: Seq<u8>, v: Seq<u8>)
    requires
        b.len() == machine::size(e),
        v == machine::filled(steps::copies(e, b)) || (v == machine::filled(machine::zeros(32)) && b
            == machine::zeros(machine::size(e))),
    ensures
        holds(v, e, |l: int| b),
{
    reveal(holds);
    assert forall|l: int| 0 <= l < lanes(e) implies #[trigger] machine::lane(v, e, l) == b by {
        match e {
            Elem::F32 => {
                assert forall|i: int| 0 <= i < 4 implies #[trigger] machine::lane(v, e, l)[i]
                    == b[i] by {
                    times(l, machine::size(e), 4);
                    assert((l * 4 + i) % 4 == i);
                }
            },
            Elem::F64 => {
                assert forall|i: int| 0 <= i < 8 implies #[trigger] machine::lane(v, e, l)[i]
                    == b[i] by {
                    times(l, machine::size(e), 8);
                    assert((l * 8 + i) % 8 == i);
                }
            },
        }
        assert(machine::lane(v, e, l) =~= b);
    }
}

/// A vector of memory is taken into partial results.
proof fn vector_is_held(
    fl: Floats,
    f: Arith,
    e: Elem,
    mem: spec_fn(int) -> u8,
    at: int,
    i: int,
    v: Seq<u8>,
    x: spec_fn(int) -> Seq<u8>,
)
    requires
        holds(v, e, x),
    ensures
        holds(
            machine::filled(
                machine::lanewise(
                    fl,
                    f,
                    e,
                    v,
                    machine::bytes(mem, at + machine::size(e) * i, 32),
                    32,
                ),
            ),
            e,
            |l: int| combined(fl, Some(f), e, x(l), element(mem, at, e, i + l)),
        ),
{
    reveal(holds);
    let y = machine::bytes(mem, at + machine::size(e) * i, 32);
    let new = machine::filled(machine::lanewise(fl, f, e, v, y, 32));
    assert forall|l: int| 0 <= l < lanes(e) implies #[trigger] machine::lane(new, e, l) == combined(
        fl,
        Some(f),
        e,
        x(l),
        element(mem, at, e, i + l),
    ) by {
        let old = machine::lane(v, e, l);
        lane_of_results(fl, f, e, v, y, l);
        lane_of_memory(mem, at, e, i, l);
    }
}

/// Two vectors of partial results are combined.
proof fn vectors_are_held(
    fl: Floats,
    f: Arith,
    e: Elem,
    v: Seq<u8>,
    x: spec_fn(int) -> Seq<u8>,
    w: Seq<u8>,
    y: spec_fn(int) -> Seq<u8>,
)
    requires
        holds(v, e, x),
        holds(w, e, y),
    ensures
        holds(
            machine::filled(machine::lanewise(fl, f, e, v, w, 32)),
            e,
            |l: int| combined(fl, Some(f), e, x(l), y(l)),
        ),
{
    reveal(holds);
    let new = machine::filled(machine::lanewise(fl, f, e, v, w, 32));
    assert forall|l: int| 0 <= l < lanes(e) implies #[trigger] machine::lane(new, e, l) == combined(
        fl,
        Some(f),
        e,
        x(l),
        y(l),
    ) by {
        let a = machine::lane(v, e, l);
        let b = machine::lane(w, e, l);
        lane_of_results(fl, f, e, v, w, l);
    }
}

/// What is held place by place may be written in another way.
proof fn held_otherwise(
    v: Seq<u8>,
    e: Elem,
    x: spec_fn(int) -> Seq<u8>,
    y: spec_fn(int) -> Seq<u8>,
)
    requires
        holds(v, e, x),
        forall|l: int| 0 <= l < lanes(e) ==> #[trigger] x(l) == y(l),
    ensures
        holds(v, e, y),
{
    reveal(holds);
    assert forall|l: int| 0 <= l < lanes(e) implies #[trigger] machine::lane(v, e, l) == y(l) by {
        let a = x(l);
    }
}

/// An array can be addressed.
pub open spec fn is_valid(at: int, n: int) -> bool {
    0 <= at < 0x4000_0000_0000_0000 && 0 <= n < 0x0400_0000_0000_0000
}

/// The registers inside a kernel.
pub open spec fn is_inside(d: Data, caller: Data, at: int, n: int) -> bool {
    &&& d.reg(Reg::Rdi) == at
    &&& d.reg(Reg::Rbx) == n
    &&& d.reg(Reg::R12) == caller.reg(Reg::R12)
    &&& d.reg(Reg::R13) == caller.reg(Reg::R13)
    &&& d.reg(Reg::R14) == caller.reg(Reg::R14)
    &&& d.reg(Reg::R15) == caller.reg(Reg::R15)
    &&& running::in_frame(d, caller, reduce::saved())
    &&& d.mem == caller.mem
}

/// The work is at an element.
pub open spec fn is_at(d: Data, caller: Data, at: int, n: int, e: Elem, i: int) -> bool {
    &&& is_inside(d, caller, at, n)
    &&& d.reg(Reg::Rdx) == machine::size(e) * i
    &&& 0 <= i <= n
}

/// A register behind a vector of memory that is taken in.
pub open spec fn with_vector(
    fl: Floats,
    op: Option<Arith>,
    e: Elem,
    mem: spec_fn(int) -> u8,
    at: int,
    v: Seq<u8>,
) -> Seq<u8> {
    match op {
        Some(f) => machine::filled(
            machine::lanewise(fl, f, e, v, machine::bytes(mem, at, 32), 32),
        ),
        None => v,
    }
}

/// The next group of a vector of partial results.
proof fn next_group_is_held(
    fl: Floats,
    op: Option<Arith>,
    e: Elem,
    mem: spec_fn(int) -> u8,
    at: int,
    n: int,
    j: int,
    g: int,
    v: Seq<u8>,
)
    requires
        0 <= g,
        holds(v, e, |l: int| partial(fl, op, e, mem, at, n, j, l, g)),
    ensures
        holds(
            with_vector(
                fl,
                op,
                e,
                mem,
                at + machine::size(e) * (group(e) * g + lanes(e) * j),
                v,
            ),
            e,
            |l: int| partial(fl, op, e, mem, at, n, j, l, g + 1),
        ),
{
    let x = |l: int| partial(fl, op, e, mem, at, n, j, l, g);
    let y = |l: int| partial(fl, op, e, mem, at, n, j, l, g + 1);
    let i = group(e) * g + lanes(e) * j;
    match op {
        Some(f) => {
            vector_is_held(fl, f, e, mem, at, i, v, x);
            let z = |l: int| combined(fl, Some(f), e, x(l), element(mem, at, e, i + l));
            let w = with_vector(fl, op, e, mem, at + machine::size(e) * i, v);
            assert(holds(w, e, z));
            assert forall|l: int| 0 <= l < lanes(e) implies #[trigger] z(l) == y(l) by {
                assert(i + l == group(e) * (g + 1 - 1) + lanes(e) * j + l);
            }
            held_otherwise(w, e, z, y);
        },
        None => {
            held_otherwise(v, e, x, y);
        },
    }
}

/// The next vector behind the groups.
proof fn next_vector_is_held(
    fl: Floats,
    op: Option<Arith>,
    e: Elem,
    mem: spec_fn(int) -> u8,
    at: int,
    n: int,
    groups: int,
    k: int,
    v: Seq<u8>,
)
    requires
        0 <= k,
        holds(v, e, |l: int| with_vectors(fl, op, e, mem, at, n, groups, l, k)),
    ensures
        holds(
            with_vector(
                fl,
                op,
                e,
                mem,
                at + machine::size(e) * (group(e) * groups + lanes(e) * k),
                v,
            ),
            e,
            |l: int| with_vectors(fl, op, e, mem, at, n, groups, l, k + 1),
        ),
{
    let x = |l: int| with_vectors(fl, op, e, mem, at, n, groups, l, k);
    let y = |l: int| with_vectors(fl, op, e, mem, at, n, groups, l, k + 1);
    let i = group(e) * groups + lanes(e) * k;
    match op {
        Some(f) => {
            vector_is_held(fl, f, e, mem, at, i, v, x);
            let z = |l: int| combined(fl, Some(f), e, x(l), element(mem, at, e, i + l));
            let w = with_vector(fl, op, e, mem, at + machine::size(e) * i, v);
            assert(holds(w, e, z));
            assert forall|l: int| 0 <= l < lanes(e) implies #[trigger] z(l) == y(l) by {
                assert(i + l == group(e) * groups + lanes(e) * (k + 1 - 1) + l);
            }
            held_otherwise(w, e, z, y);
        },
        None => {
            held_otherwise(v, e, x, y);
        },
    }
}

/// The registers of partial results of a group.
pub open spec fn acc(j: int) -> Reg {
    if j == 0 {
        Reg::Ymm0
    } else if j == 1 {
        Reg::Ymm1
    } else if j == 2 {
        Reg::Ymm2
    } else if j == 3 {
        Reg::Ymm3
    } else if j == 4 {
        Reg::Ymm4
    } else if j == 5 {
        Reg::Ymm5
    } else if j == 6 {
        Reg::Ymm6
    } else {
        Reg::Ymm7
    }
}

/// The operations that take a group in.
pub open spec fn take_group(op: Option<Arith>, e: Elem) -> Seq<Op> {
    match e {
        Elem::F32 => reduce::take_eight(op),
        Elem::F64 => reduce::take_four(op),
    }
}

/// The operation that takes vector `j` of a group in.
pub open spec fn take_nth(f: Arith, e: Elem, j: int) -> Op {
    acc_vector(f, e, acc(j), at_sum(Reg::Rdi, Reg::Rdx, (32 * j) as i32))
}

/// The operations of a group.
proof fn group_pieces(f: Arith, e: Elem)
    ensures
        take_group(Some(f), e).len() == lanes(e),
        forall|j: int| 0 <= j < lanes(e) ==> #[trigger] take_group(Some(f), e)[j] == take_nth(f, e, j),
        running::goes_on(take_group(Some(f), e)),
        running::goes_on(take_group(None, e)),
{
    let ops = take_group(Some(f), e);
    match e {
        Elem::F32 => {
            assert(ops[0] == take_nth(f, e, 0));
            assert(ops[1] == take_nth(f, e, 1));
            assert(ops[2] == take_nth(f, e, 2));
            assert(ops[3] == take_nth(f, e, 3));
            assert(ops[4] == take_nth(f, e, 4));
            assert(ops[5] == take_nth(f, e, 5));
            assert(ops[6] == take_nth(f, e, 6));
            assert(ops[7] == take_nth(f, e, 7));
        },
        Elem::F64 => {
            assert(ops[0] == take_nth(f, e, 0));
            assert(ops[1] == take_nth(f, e, 1));
            assert(ops[2] == take_nth(f, e, 2));
            assert(ops[3] == take_nth(f, e, 3));
        },
    }
}

/// The first `k` vectors of a group are taken in.
pub open spec fn is_taken(
    fl: Floats,
    f: Arith,
    e: Elem,
    d: Data,
    t: Data,
    k: int,
) -> bool {
    &&& t.gpr == d.gpr
    &&& t.mem == d.mem
    &&& t.stack == d.stack
    &&& forall|j: int|
        0 <= j < lanes(e) ==> #[trigger] t.vec[j] == if j < k {
            with_vector(
                fl,
                Some(f),
                e,
                d.mem,
                d.reg(Reg::Rdi) + d.reg(Reg::Rdx) + 32 * j,
                d.vec[j],
            )
        } else {
            d.vec[j]
        }
}

/// The vectors of a group are taken in one by one.
proof fn some_are_taken(fl: Floats, f: Arith, e: Elem, d: Data, k: nat)
    requires
        0 <= d.reg(Reg::Rdi) + d.reg(Reg::Rdx) < 0x7000_0000_0000_0000,
        k <= lanes(e),
    ensures
        is_taken(fl, f, e, d, machine::after_ops(fl, d, take_group(Some(f), e), k), k as int),
    decreases k,
{
    if k > 0 {
        let j = (k - 1) as nat;
        some_are_taken(fl, f, e, d, j);
        group_pieces(f, e);
        let t = machine::after_ops(fl, d, take_group(Some(f), e), j);
        assert(take_group(Some(f), e)[j as int] == take_nth(f, e, j as int));
        steps::vector_is_taken(fl, t, f, e, acc(j as int), (32 * j) as i32);
        assert(machine::slot(acc(j as int)) == j);
    }
}

/// Every register holds its partial results.
pub open spec fn all_hold(
    fl: Floats,
    op: Option<Arith>,
    e: Elem,
    d: Data,
    mem: spec_fn(int) -> u8,
    at: int,
    n: int,
    g: int,
) -> bool {
    forall|j: int|
        0 <= j < lanes(e) ==> holds(
            #[trigger] d.vec[j],
            e,
            |l: int| partial(fl, op, e, mem, at, n, j, l, g),
        )
}

/// The bytes of a group.
pub open spec fn group_bytes(e: Elem) -> i32 {
    match e {
        Elem::F32 => 256,
        Elem::F64 => 128,
    }
}

/// A group is taken in, in data.
proof fn group_data(
    fl: Floats,
    op: Option<Arith>,
    e: Elem,
    d: Data,
    caller: Data,
    at: int,
    n: int,
    g: int,
) -> (t: Data)
    requires
        is_valid(at, n),
        is_at(d, caller, at, n, e, group(e) * g),
        0 <= g,
        group(e) * (g + 1) < n,
        all_hold(fl, op, e, d, caller.mem, at, n, g),
    ensures
        running::goes_on(take_group(op, e) + reduce::advance(group_bytes(e))),
        t == machine::after_ops(
            fl,
            d,
            take_group(op, e) + reduce::advance(group_bytes(e)),
            (take_group(op, e) + reduce::advance(group_bytes(e))).len(),
        ),
        is_at(t, caller, at, n, e, group(e) * (g + 1)),
        t.reg(Reg::Rax) == d.reg(Reg::Rax),
        all_hold(fl, op, e, t, caller.mem, at, n, g + 1),
{
    let ops = take_group(op, e);
    let d1 = machine::after_ops(fl, d, ops, ops.len());
    group_is_placed(e, g);
    group_pieces(Arith::Add, e);
    match op {
        Some(f) => {
            group_pieces(f, e);
            some_are_taken(fl, f, e, d, lanes(e) as nat);
        },
        None => {
            assert(ops.len() == 0);
        },
    }
    assert forall|j: int| 0 <= j < lanes(e) implies holds(
        #[trigger] d1.vec[j],
        e,
        |l: int| partial(fl, op, e, caller.mem, at, n, j, l, g + 1),
    ) by {
        let old = d.vec[j];
        next_group_is_held(fl, op, e, caller.mem, at, n, j, g, d.vec[j]);
        vector_is_placed(e, g, j, at);
    }
    reveal_with_fuel(machine::after_ops, 2);
    assert(reduce::advance(group_bytes(e))[0] == add_imm(Reg::Rdx, group_bytes(e)));
    steps::reg_is_advanced(fl, d1, Reg::Rdx, group_bytes(e));
    let t = steps::with_reg(d1, Reg::Rdx, d.reg(Reg::Rdx) + group_bytes(e));
    running::ops_follow(fl, d, ops, reduce::advance(group_bytes(e)), d1, t);
    t
}

/// The place of a group in bytes.
proof fn group_is_placed(e: Elem, g: int)
    ensures
        machine::size(e) * (group(e) * g) == group_bytes(e) * g,
        machine::size(e) * (group(e) * (g + 1)) == group_bytes(e) * g + group_bytes(e),
        group(e) * (g + 1) == group(e) * g + group(e),
{
    match e {
        Elem::F32 => {
            times(g, group(e), 64);
            times(g + 1, group(e), 64);
            times(g, group_bytes(e) as int, 256);
            times(group(e) * g, machine::size(e), 4);
            times(group(e) * (g + 1), machine::size(e), 4);
        },
        Elem::F64 => {
            times(g, group(e), 16);
            times(g + 1, group(e), 16);
            times(g, group_bytes(e) as int, 128);
            times(group(e) * g, machine::size(e), 8);
            times(group(e) * (g + 1), machine::size(e), 8);
        },
    }
}

/// The place of a vector of a group in bytes.
proof fn vector_is_placed(e: Elem, g: int, j: int, at: int)
    ensures
        at + machine::size(e) * (group(e) * g + lanes(e) * j) == at + machine::size(e) * (group(e)
            * g) + 32 * j,
{
    match e {
        Elem::F32 => {
            times(j, lanes(e), 8);
            times(group(e) * g + lanes(e) * j, machine::size(e), 4);
            times(group(e) * g, machine::size(e), 4);
        },
        Elem::F64 => {
            times(j, lanes(e), 4);
            times(group(e) * g + lanes(e) * j, machine::size(e), 8);
            times(group(e) * g, machine::size(e), 8);
        },
    }
}

/// The bytes of an array.
proof fn bytes_are_scaled(e: Elem, n: int)
    ensures
        n * machine::size(e) == machine::size(e) * n,
        machine::size(e) * n == match e {
            Elem::F32 => 4 * n,
            Elem::F64 => 8 * n,
        },
{
    match e {
        Elem::F32 => {
            times(n, machine::size(e), 4);
        },
        Elem::F64 => {
            times(n, machine::size(e), 8);
        },
    }
}

/// The last place where a block of bytes and more is left.
proof fn last_is_limit(
    fl: Floats,
    d: Data,
    caller: Data,
    at: int,
    n: int,
    e: Elem,
    i: int,
    bytes: i32,
) -> (t: Data)
    requires
        is_valid(at, n),
        is_at(d, caller, at, n, e, i),
        0 <= bytes,
    ensures
        running::goes_on(reduce::last_offset(e, bytes)),
        t == machine::after_ops(
            fl,
            d,
            reduce::last_offset(e, bytes),
            reduce::last_offset(e, bytes).len(),
        ),
        is_at(t, caller, at, n, e, i),
        t.reg(Reg::Rax) == machine::size(e) * n - bytes,
        t.vec == d.vec,
{
    reveal_with_fuel(machine::after_ops, 4);
    bytes_are_scaled(e, n);
    let ops = reduce::last_offset(e, bytes);
    assert(ops[0] == mov(Reg::Rax, Reg::Rbx));
    assert(ops[1] == scale(Reg::Rax, e));
    assert(ops[2] == sub_imm(Reg::Rax, bytes));
    steps::reg_is_set(fl, d, Reg::Rax, Reg::Rbx);
    let d0 = d.put(Reg::Rax, n);
    steps::reg_is_scaled_to(fl, d0, Reg::Rax, e);
    let d1 = steps::with_reg(d0, Reg::Rax, n * machine::size(e));
    steps::reg_is_reduced(fl, d1, Reg::Rax, bytes);
    steps::with_reg(d1, Reg::Rax, n * machine::size(e) - bytes)
}

/// The end of the array.
proof fn end_is_limit(fl: Floats, d: Data, caller: Data, at: int, n: int, e: Elem, i: int) -> (t:
    Data)
    requires
        is_valid(at, n),
        is_at(d, caller, at, n, e, i),
    ensures
        running::goes_on(reduce::byte_limit(e)),
        t == machine::after_ops(fl, d, reduce::byte_limit(e), reduce::byte_limit(e).len()),
        is_at(t, caller, at, n, e, i),
        t.reg(Reg::Rax) == machine::size(e) * n,
        t.vec == d.vec,
{
    reveal_with_fuel(machine::after_ops, 3);
    bytes_are_scaled(e, n);
    let ops = reduce::byte_limit(e);
    assert(ops[0] == mov(Reg::Rax, Reg::Rbx));
    assert(ops[1] == scale(Reg::Rax, e));
    steps::reg_is_set(fl, d, Reg::Rax, Reg::Rbx);
    let d0 = d.put(Reg::Rax, n);
    steps::reg_is_scaled_to(fl, d0, Reg::Rax, e);
    steps::with_reg(d0, Reg::Rax, n * machine::size(e))
}

/// The place is compared with the limit.
proof fn place_is_tested(fl: Floats, d: Data) -> (t: Data)
    ensures
        running::goes_on(reduce::test()),
        t == machine::after_ops(fl, d, reduce::test(), reduce::test().len()),
        t == (Data { less: Some(d.reg(Reg::Rdx) < d.reg(Reg::Rax)), ..d }),
{
    reveal_with_fuel(machine::after_ops, 2);
    reveal(machine::after_op);
    machine::after_ops(fl, d, reduce::test(), 1)
}

/// The loop over groups.
pub open spec fn group_loop(p: Asm, op: Option<Arith>, e: Elem) -> Asm {
    running::plain_loop(
        p.emit(reduce::last_offset(e, group_bytes(e))),
        reduce::test(),
        take_group(op, e) + reduce::advance(group_bytes(e)),
    )
}

/// The loops over groups are what they were built from.
proof fn groups_are_loops(p: Asm, op: Option<Arith>)
    ensures
        reduce::groups_of_eight(p, op) == group_loop(p, op, Elem::F32),
        reduce::groups_of_four(p, op) == group_loop(p, op, Elem::F64),
{
    running::emits_join(
        p.emit(reduce::last_offset(Elem::F32, 256)).begin().emit(reduce::test()).exit_if_ge(),
        reduce::take_eight(op),
        reduce::advance(256),
    );
    running::emits_join(
        p.emit(reduce::last_offset(Elem::F64, 128)).begin().emit(reduce::test()).exit_if_ge(),
        reduce::take_four(op),
        reduce::advance(128),
    );
}

/// Groups end where no whole group and more is left.
proof fn groups_end(e: Elem, n: int, g: int)
    requires
        0 <= n,
        0 <= g <= groups_of(e, n),
    ensures
        group(e) * (g + 1) < n ==> g + 1 <= groups_of(e, n),
        group(e) * (g + 1) >= n ==> g == groups_of(e, n),
        machine::size(e) * (group(e) * g) < machine::size(e) * n - group_bytes(e) <==> group(e) * (g
            + 1) < n,
        0 <= group(e) * g <= n,
{
    group_is_placed(e, g);
    bytes_are_scaled(e, n);
    match e {
        Elem::F32 => {
            times(g, group(e), 64);
            times(g, group_bytes(e) as int, 256);
        },
        Elem::F64 => {
            times(g, group(e), 16);
            times(g, group_bytes(e) as int, 128);
        },
    }
}

/// The loop over groups takes in all groups that are left.
proof fn groups_run(
    fl: Floats,
    full: Seq<Ins>,
    p: Asm,
    op: Option<Arith>,
    e: Elem,
    d: Data,
    caller: Data,
    at: int,
    n: int,
    g: int,
) -> (t: Data)
    requires
        program::places_are_single(full),
        running::starts(full, group_loop(p, op, e)),
        is_valid(at, n),
        is_at(d, caller, at, n, e, group(e) * g),
        d.reg(Reg::Rax) == machine::size(e) * n - group_bytes(e),
        0 <= g <= groups_of(e, n),
        all_hold(fl, op, e, d, caller.mem, at, n, g),
    ensures
        machine::reaches(
            fl,
            full,
            running::behind(p.emit(reduce::last_offset(e, group_bytes(e))).begin(), d),
            running::behind(group_loop(p, op, e), t),
        ),
        is_at(t, caller, at, n, e, group(e) * groups_of(e, n)),
        all_hold(fl, op, e, t, caller.mem, at, n, groups_of(e, n)),
    decreases groups_of(e, n) - g,
{
    let q = p.emit(reduce::last_offset(e, group_bytes(e)));
    let body = take_group(op, e) + reduce::advance(group_bytes(e));
    let d1 = place_is_tested(fl, d);
    groups_end(e, n, g);
    if group(e) * (g + 1) < n {
        let d2 = group_data(fl, op, e, d1, caller, at, n, g);
        running::plain_round(fl, full, q, reduce::test(), body, d, d1, d2);
        let t = groups_run(fl, full, p, op, e, d2, caller, at, n, g + 1);
        running::reaches_on(
            fl,
            full,
            running::behind(q.begin(), d),
            running::behind(q.begin(), d2),
            running::behind(group_loop(p, op, e), t),
        );
        t
    } else {
        running::plain_loop_ends(fl, full, q, reduce::test(), body, d, d1);
        d1
    }
}

/// The first register holds the vectors behind the groups, and the others their partial results.
pub open spec fn first_holds(
    fl: Floats,
    op: Option<Arith>,
    e: Elem,
    d: Data,
    mem: spec_fn(int) -> u8,
    at: int,
    n: int,
    groups: int,
    k: int,
) -> bool {
    &&& holds(d.vec[0], e, |l: int| with_vectors(fl, op, e, mem, at, n, groups, l, k))
    &&& forall|j: int|
        0 < j < lanes(e) ==> holds(
            #[trigger] d.vec[j],
            e,
            |l: int| partial(fl, op, e, mem, at, n, j, l, groups),
        )
}

/// A vector is taken in, in data.
proof fn vector_data(
    fl: Floats,
    op: Option<Arith>,
    e: Elem,
    d: Data,
    caller: Data,
    at: int,
    n: int,
    groups: int,
    k: int,
) -> (t: Data)
    requires
        is_valid(at, n),
        is_at(d, caller, at, n, e, group(e) * groups + lanes(e) * k),
        0 <= k,
        group(e) * groups + lanes(e) * (k + 1) < n,
        first_holds(fl, op, e, d, caller.mem, at, n, groups, k),
    ensures
        running::goes_on(reduce::take_vector(op, e) + reduce::advance(32)),
        t == machine::after_ops(
            fl,
            d,
            reduce::take_vector(op, e) + reduce::advance(32),
            (reduce::take_vector(op, e) + reduce::advance(32)).len(),
        ),
        is_at(t, caller, at, n, e, group(e) * groups + lanes(e) * (k + 1)),
        t.reg(Reg::Rax) == d.reg(Reg::Rax),
        first_holds(fl, op, e, t, caller.mem, at, n, groups, k + 1),
{
    reveal_with_fuel(machine::after_ops, 2);
    let ops = reduce::take_vector(op, e);
    let i = group(e) * groups + lanes(e) * k;
    next_vector_is_placed(e, groups, k);
    bytes_are_scaled(e, i);
    bytes_are_scaled(e, n);
    let d1 = machine::after_ops(fl, d, ops, ops.len());
    match op {
        Some(f) => {
            assert(ops[0] == acc_vector(f, e, Reg::Ymm0, at_sum(Reg::Rdi, Reg::Rdx, 0)));
            steps::vector_is_taken(fl, d, f, e, Reg::Ymm0, 0);
        },
        None => {
            assert(ops.len() == 0);
        },
    }
    next_vector_is_held(fl, op, e, caller.mem, at, n, groups, k, d.vec[0]);
    assert(d1.vec[0] == with_vector(
        fl,
        op,
        e,
        caller.mem,
        at + machine::size(e) * i,
        d.vec[0],
    ));
    assert forall|j: int| 0 < j < lanes(e) implies holds(
        #[trigger] d1.vec[j],
        e,
        |l: int| partial(fl, op, e, caller.mem, at, n, j, l, groups),
    ) by {
        let old = d.vec[j];
    }
    assert(reduce::advance(32)[0] == add_imm(Reg::Rdx, 32));
    steps::reg_is_advanced(fl, d1, Reg::Rdx, 32);
    let t = steps::with_reg(d1, Reg::Rdx, d.reg(Reg::Rdx) + 32);
    running::ops_follow(fl, d, ops, reduce::advance(32), d1, t);
    t
}

/// The place of the next vector in bytes.
proof fn next_vector_is_placed(e: Elem, groups: int, k: int)
    ensures
        machine::size(e) * (group(e) * groups + lanes(e) * (k + 1)) == machine::size(e) * (group(e)
            * groups + lanes(e) * k) + 32,
        group(e) * groups + lanes(e) * (k + 1) == group(e) * groups + lanes(e) * k + lanes(e),
{
    bytes_are_scaled(e, group(e) * groups + lanes(e) * k);
    bytes_are_scaled(e, group(e) * groups + lanes(e) * (k + 1));
    match e {
        Elem::F32 => {
            times(k, lanes(e), 8);
            times(k + 1, lanes(e), 8);
        },
        Elem::F64 => {
            times(k, lanes(e), 4);
            times(k + 1, lanes(e), 4);
        },
    }
}

/// Vectors end where no whole vector and more is left.
proof fn vectors_end(e: Elem, n: int, k: int)
    requires
        0 <= n,
        0 <= k <= vectors_of(e, n),
    ensures
        ({
            let i = group(e) * groups_of(e, n) + lanes(e) * k;
            &&& i + lanes(e) < n ==> k + 1 <= vectors_of(e, n)
            &&& i + lanes(e) >= n ==> k == vectors_of(e, n)
            &&& machine::size(e) * i < machine::size(e) * n - 32 <==> i + lanes(e) < n
            &&& 0 <= i <= n
        }),
{
    let g = groups_of(e, n);
    let i = group(e) * g + lanes(e) * k;
    bytes_are_scaled(e, n);
    bytes_are_scaled(e, i);
    match e {
        Elem::F32 => {
            times(g, group(e), 64);
            times(k, lanes(e), 8);
        },
        Elem::F64 => {
            times(g, group(e), 16);
            times(k, lanes(e), 4);
        },
    }
}

/// The loop over vectors.
pub open spec fn vector_loop(p: Asm, op: Option<Arith>, e: Elem) -> Asm {
    running::plain_loop(
        p.emit(reduce::last_offset(e, 32)),
        reduce::test(),
        reduce::take_vector(op, e) + reduce::advance(32),
    )
}

/// The loop over vectors is what it was built from.
proof fn vectors_are_loop(p: Asm, op: Option<Arith>, e: Elem)
    ensures
        reduce::vectors(p, op, e) == vector_loop(p, op, e),
{
    running::emits_join(
        p.emit(reduce::last_offset(e, 32)).begin().emit(reduce::test()).exit_if_ge(),
        reduce::take_vector(op, e),
        reduce::advance(32),
    );
}

/// The loop over vectors takes in all vectors that are left.
proof fn vectors_run(
    fl: Floats,
    full: Seq<Ins>,
    p: Asm,
    op: Option<Arith>,
    e: Elem,
    d: Data,
    caller: Data,
    at: int,
    n: int,
    k: int,
) -> (t: Data)
    requires
        program::places_are_single(full),
        running::starts(full, vector_loop(p, op, e)),
        is_valid(at, n),
        is_at(d, caller, at, n, e, group(e) * groups_of(e, n) + lanes(e) * k),
        d.reg(Reg::Rax) == machine::size(e) * n - 32,
        0 <= k <= vectors_of(e, n),
        first_holds(fl, op, e, d, caller.mem, at, n, groups_of(e, n), k),
    ensures
        machine::reaches(
            fl,
            full,
            running::behind(p.emit(reduce::last_offset(e, 32)).begin(), d),
            running::behind(vector_loop(p, op, e), t),
        ),
        is_at(t, caller, at, n, e, taken(e, n)),
        first_holds(fl, op, e, t, caller.mem, at, n, groups_of(e, n), vectors_of(e, n)),
    decreases vectors_of(e, n) - k,
{
    let q = p.emit(reduce::last_offset(e, 32));
    let body = reduce::take_vector(op, e) + reduce::advance(32);
    let d1 = place_is_tested(fl, d);
    let groups = groups_of(e, n);
    vectors_end(e, n, k);
    next_vector_is_placed(e, groups, k);
    if group(e) * groups + lanes(e) * (k + 1) < n {
        let d2 = vector_data(fl, op, e, d1, caller, at, n, groups, k);
        running::plain_round(fl, full, q, reduce::test(), body, d, d1, d2);
        let t = vectors_run(fl, full, p, op, e, d2, caller, at, n, k + 1);
        running::reaches_on(
            fl,
            full,
            running::behind(q.begin(), d),
            running::behind(q.begin(), d2),
            running::behind(vector_loop(p, op, e), t),
        );
        t
    } else {
        running::plain_loop_ends(fl, full, q, reduce::test(), body, d, d1);
        d1
    }
}

/// The operations that combine the registers of partial results.
pub open spec fn join_group(op: Option<Arith>, e: Elem) -> Seq<Op> {
    match e {
        Elem::F32 => reduce::join_eight(op),
        Elem::F64 => reduce::join_four(op),
    }
}

/// The operation that combines register `j` with the first.
pub open spec fn join_nth(f: Arith, e: Elem, j: int) -> Op {
    packed(f, e, Wide::Y, Reg::Ymm0, Reg::Ymm0, acc(j))
}

/// The operations that combine the registers.
proof fn join_pieces(f: Arith, e: Elem)
    ensures
        join_group(Some(f), e).len() == lanes(e) - 1,
        forall|j: int|
            0 <= j < lanes(e) - 1 ==> #[trigger] join_group(Some(f), e)[j] == join_nth(f, e, j + 1),
        running::goes_on(join_group(Some(f), e)),
        running::goes_on(join_group(None, e)),
        join_group(None, e).len() == 0,
{
    let ops = join_group(Some(f), e);
    match e {
        Elem::F32 => {
            assert(ops[0] == join_nth(f, e, 1));
            assert(ops[1] == join_nth(f, e, 2));
            assert(ops[2] == join_nth(f, e, 3));
            assert(ops[3] == join_nth(f, e, 4));
            assert(ops[4] == join_nth(f, e, 5));
            assert(ops[5] == join_nth(f, e, 6));
            assert(ops[6] == join_nth(f, e, 7));
        },
        Elem::F64 => {
            assert(ops[0] == join_nth(f, e, 1));
            assert(ops[1] == join_nth(f, e, 2));
            assert(ops[2] == join_nth(f, e, 3));
        },
    }
}

/// The first register holds its results with the next `k` registers taken in.
pub open spec fn is_joined(
    fl: Floats,
    op: Option<Arith>,
    e: Elem,
    d: Data,
    t: Data,
    mem: spec_fn(int) -> u8,
    at: int,
    n: int,
    k: int,
) -> bool {
    &&& t.gpr == d.gpr
    &&& t.mem == d.mem
    &&& t.stack == d.stack
    &&& holds(t.vec[0], e, |l: int| with_partials(fl, op, e, mem, at, n, l, k))
    &&& forall|j: int| 0 < j < lanes(e) ==> #[trigger] t.vec[j] == d.vec[j]
}

proof fn some_are_joined(
    fl: Floats,
    f: Arith,
    e: Elem,
    d: Data,
    mem: spec_fn(int) -> u8,
    at: int,
    n: int,
    k: nat,
)
    requires
        first_holds(fl, Some(f), e, d, mem, at, n, groups_of(e, n), vectors_of(e, n)),
        k < lanes(e),
    ensures
        is_joined(
            fl,
            Some(f),
            e,
            d,
            machine::after_ops(fl, d, join_group(Some(f), e), k),
            mem,
            at,
            n,
            k as int,
        ),
    decreases k,
{
    let op = Some(f);
    let y = |l: int| with_partials(fl, op, e, mem, at, n, l, k as int);
    if k == 0 {
        let x = |l: int|
            with_vectors(fl, op, e, mem, at, n, groups_of(e, n), l, vectors_of(e, n));
        held_otherwise(d.vec[0], e, x, y);
    } else {
        let j = (k - 1) as nat;
        some_are_joined(fl, f, e, d, mem, at, n, j);
        join_pieces(f, e);
        let t = machine::after_ops(fl, d, join_group(op, e), j);
        let i = k as int;
        assert(join_group(op, e)[i - 1] == join_nth(f, e, i));
        assert(machine::slot(acc(i)) == i);
        assert(t.vec[i] == d.vec[i]);
        steps::vectors_are_combined(fl, t, f, e, Reg::Ymm0, Reg::Ymm0, acc(i));
        let x = |l: int| with_partials(fl, op, e, mem, at, n, l, i - 1);
        let p = |l: int| partial(fl, op, e, mem, at, n, i, l, groups_of(e, n));
        vectors_are_held(fl, f, e, t.vec[0], x, d.vec[i], p);
        let z = |l: int| combined(fl, Some(f), e, x(l), p(l));
        let w = machine::filled(machine::lanewise(fl, f, e, t.vec[0], d.vec[i], 32));
        assert(holds(w, e, z));
        held_otherwise(w, e, z, y);
    }
}

/// All registers are combined.
proof fn registers_are_joined(
    fl: Floats,
    op: Option<Arith>,
    e: Elem,
    d: Data,
    mem: spec_fn(int) -> u8,
    at: int,
    n: int,
) -> (t: Data)
    requires
        first_holds(fl, op, e, d, mem, at, n, groups_of(e, n), vectors_of(e, n)),
    ensures
        running::goes_on(join_group(op, e)),
        t == machine::after_ops(fl, d, join_group(op, e), join_group(op, e).len()),
        t.gpr == d.gpr,
        t.mem == d.mem,
        t.stack == d.stack,
        holds(t.vec[0], e, |l: int| with_partials(fl, op, e, mem, at, n, l, lanes(e) - 1)),
{
    match op {
        Some(f) => {
            join_pieces(f, e);
            some_are_joined(fl, f, e, d, mem, at, n, (lanes(e) - 1) as nat);
            machine::after_ops(fl, d, join_group(op, e), join_group(op, e).len())
        },
        None => {
            join_pieces(Arith::Add, e);
            let x = |l: int|
                with_vectors(fl, op, e, mem, at, n, groups_of(e, n), l, vectors_of(e, n));
            let y = |l: int| with_partials(fl, op, e, mem, at, n, l, lanes(e) - 1);
            assert forall|l: int| 0 <= l < lanes(e) implies #[trigger] x(l) == y(l) by {
                nothing_is_taken(fl, e, mem, at, n, l, lanes(e) - 1);
            }
            held_otherwise(d.vec[0], e, x, y);
            d
        },
    }
}

/// Without an operation nothing is taken in.
proof fn nothing_is_taken(
    fl: Floats,
    e: Elem,
    mem: spec_fn(int) -> u8,
    at: int,
    n: int,
    l: int,
    j: int,
)
    ensures
        with_partials(fl, None, e, mem, at, n, l, j) == with_vectors(
            fl,
            None,
            e,
            mem,
            at,
            n,
            groups_of(e, n),
            l,
            vectors_of(e, n),
        ),
    decreases j,
{
    if j > 0 {
        nothing_is_taken(fl, e, mem, at, n, l, j - 1);
    }
}

/// A place of a vector with its halves swapped.
proof fn lane_of_swapped(v: Seq<u8>, e: Elem, l: int)
    requires
        0 <= l,
        2 * l < lanes(e),
    ensures
        machine::lane(machine::filled(machine::halves(v, v, 0x01)), e, l) == machine::lane(
            v,
            e,
            l + lanes(e) / 2,
        ),
{
    let x = machine::halves(v, v, 0x01);
    let w = machine::lane(machine::filled(x), e, l);
    assert(machine::bits(0x01, 8, 2) == 0 && machine::bits(0x01, 1, 4) == 1);
    assert forall|i: int| 0 <= i < 16 implies #[trigger] x[i] == v[16 + i] by {}
    match e {
        Elem::F32 => {
            let b = machine::lane(v, e, l + 4);
            assert forall|j: int| 0 <= j < 4 implies #[trigger] w[j] == b[j] by {
                times(l, machine::size(e), 4);
                times(l + 4, machine::size(e), 4);
                assert(x[4 * l + j] == v[16 + (4 * l + j)]);
            }
            assert(w =~= b);
        },
        Elem::F64 => {
            let b = machine::lane(v, e, l + 2);
            assert forall|j: int| 0 <= j < 8 implies #[trigger] w[j] == b[j] by {
                times(l, machine::size(e), 8);
                times(l + 2, machine::size(e), 8);
                assert(x[8 * l + j] == v[16 + (8 * l + j)]);
            }
            assert(w =~= b);
        },
    }
}

/// The first places of a vector with its elements rearranged two apart.
proof fn lane_of_far(v: Seq<u8>, l: int)
    requires
        0 <= l < 2,
    ensures
        machine::lane(
            machine::filled(machine::shuffled_singles(v, v, 0x4E)),
            Elem::F32,
            l,
        ) == machine::lane(v, Elem::F32, l + 2),
{
    let x = machine::shuffled_singles(v, v, 0x4E);
    let w = machine::lane(machine::filled(x), Elem::F32, l);
    let b = machine::lane(v, Elem::F32, l + 2);
    assert(machine::bits(0x4E, 1, 4) == 2 && machine::bits(0x4E, 4, 4) == 3);
    assert forall|j: int| 0 <= j < 4 implies #[trigger] w[j] == b[j] by {
        if l == 0 {
            assert(x[j] == v[8 + j]);
        } else {
            assert(x[4 + j] == v[12 + j]);
        }
    }
    assert(w =~= b);
}

/// The first place of a vector with its elements rearranged one apart.
proof fn lane_of_near(v: Seq<u8>)
    ensures
        machine::lane(
            machine::filled(machine::shuffled_singles(v, v, 0xB1)),
            Elem::F32,
            0,
        ) == machine::lane(v, Elem::F32, 1),
        machine::lane(
            machine::filled(machine::shuffled_doubles(v, v, 0x05)),
            Elem::F64,
            0,
        ) == machine::lane(v, Elem::F64, 1),
{
    let x = machine::shuffled_singles(v, v, 0xB1);
    let w = machine::lane(machine::filled(x), Elem::F32, 0);
    let b = machine::lane(v, Elem::F32, 1);
    assert(machine::bits(0xB1, 1, 4) == 1);
    assert forall|j: int| 0 <= j < 4 implies #[trigger] w[j] == b[j] by {
        assert(x[j] == v[4 + j]);
    }
    assert(w =~= b);
    let y = machine::shuffled_doubles(v, v, 0x05);
    let u = machine::lane(machine::filled(y), Elem::F64, 0);
    let c = machine::lane(v, Elem::F64, 1);
    assert(machine::bits(0x05, 1, 2) == 1);
    assert forall|j: int| 0 <= j < 8 implies #[trigger] u[j] == c[j] by {
        assert(y[j] == v[8 + j]);
    }
    assert(u =~= c);
}

/// The rearranged vector is combined with the first.
proof fn is_combined(fl: Floats, op: Option<Arith>, e: Elem, d: Data) -> (t: Data)
    ensures
        running::goes_on(reduce::join(op, e)),
        t == machine::after_ops(fl, d, reduce::join(op, e), reduce::join(op, e).len()),
        t.gpr == d.gpr,
        t.mem == d.mem,
        t.stack == d.stack,
        forall|l: int|
            0 <= l < lanes(e) ==> #[trigger] machine::lane(t.vec[0], e, l) == combined(
                fl,
                op,
                e,
                machine::lane(d.vec[0], e, l),
                machine::lane(d.vec[1], e, l),
            ),
{
    reveal_with_fuel(machine::after_ops, 2);
    let ops = reduce::join(op, e);
    let t = machine::after_ops(fl, d, ops, ops.len());
    match op {
        Some(f) => {
            assert(ops[0] == packed(f, e, Wide::Y, Reg::Ymm0, Reg::Ymm0, Reg::Ymm1));
            steps::vectors_are_combined(fl, d, f, e, Reg::Ymm0, Reg::Ymm0, Reg::Ymm1);
            assert forall|l: int| 0 <= l < lanes(e) implies #[trigger] machine::lane(t.vec[0], e, l)
                == combined(
                fl,
                op,
                e,
                machine::lane(d.vec[0], e, l),
                machine::lane(d.vec[1], e, l),
            ) by {
                lane_of_results(fl, f, e, d.vec[0], d.vec[1], l);
            }
        },
        None => {
            assert(ops.len() == 0);
        },
    }
    t
}

/// The halves are swapped.
proof fn halves_are_swapped(fl: Floats, d: Data) -> (t: Data)
    ensures
        running::goes_on(reduce::swap_halves()),
        t == machine::after_ops(fl, d, reduce::swap_halves(), reduce::swap_halves().len()),
        t == d.put_wide(Reg::Ymm1, machine::filled(machine::halves(d.vec[0], d.vec[0], 0x01))),
{
    reveal_with_fuel(machine::after_ops, 2);
    reveal(machine::after_op);
    machine::after_ops(fl, d, reduce::swap_halves(), 1)
}

/// The elements of the halves are rearranged.
proof fn elements_are_shuffled(fl: Floats, d: Data, e: Elem, by: u8) -> (t: Data)
    ensures
        running::goes_on(reduce::shuffle(e, by)),
        t == machine::after_ops(fl, d, reduce::shuffle(e, by), reduce::shuffle(e, by).len()),
        t == d.put_wide(
            Reg::Ymm1,
            machine::filled(
                match e {
                    Elem::F32 => machine::shuffled_singles(d.vec[0], d.vec[0], by),
                    Elem::F64 => machine::shuffled_doubles(d.vec[0], d.vec[0], by),
                },
            ),
        ),
{
    reveal_with_fuel(machine::after_ops, 2);
    reveal(machine::after_op);
    machine::after_ops(fl, d, reduce::shuffle(e, by), 1)
}

/// Two vectors, the second with the halves of the first swapped, are combined.
proof fn halves_are_combined(fl: Floats, op: Option<Arith>, e: Elem, d: Data, x: spec_fn(int) -> Seq<u8>) -> (t:
    (Data, Data))
    requires
        holds(d.vec[0], e, x),
    ensures
        running::goes_on(reduce::swap_halves()),
        running::goes_on(reduce::join(op, e)),
        t.0 == machine::after_ops(fl, d, reduce::swap_halves(), reduce::swap_halves().len()),
        t.1 == machine::after_ops(fl, t.0, reduce::join(op, e), reduce::join(op, e).len()),
        t.1.gpr == d.gpr,
        t.1.mem == d.mem,
        t.1.stack == d.stack,
        forall|l: int|
            0 <= l && 2 * l < lanes(e) ==> #[trigger] machine::lane(t.1.vec[0], e, l) == combined(
                fl,
                op,
                e,
                x(l),
                x(l + lanes(e) / 2),
            ),
{
    let d1 = halves_are_swapped(fl, d);
    let d2 = is_combined(fl, op, e, d1);
    assert forall|l: int| 0 <= l && 2 * l < lanes(e) implies #[trigger] machine::lane(
        d2.vec[0],
        e,
        l,
    ) == combined(fl, op, e, x(l), x(l + lanes(e) / 2)) by {
        reveal(holds);
        lane_of_swapped(d.vec[0], e, l);
        let a = machine::lane(d.vec[0], e, l);
        let b = machine::lane(d.vec[0], e, l + lanes(e) / 2);
    }
    (d1, d2)
}

/// Two vectors, the second with the elements of the first rearranged two apart, are combined.
proof fn quarters_are_combined(fl: Floats, op: Option<Arith>, d: Data) -> (t: (Data, Data))
    ensures
        running::goes_on(reduce::shuffle(Elem::F32, 0x4E)),
        running::goes_on(reduce::join(op, Elem::F32)),
        t.0 == machine::after_ops(
            fl,
            d,
            reduce::shuffle(Elem::F32, 0x4E),
            reduce::shuffle(Elem::F32, 0x4E).len(),
        ),
        t.1 == machine::after_ops(
            fl,
            t.0,
            reduce::join(op, Elem::F32),
            reduce::join(op, Elem::F32).len(),
        ),
        t.1.gpr == d.gpr,
        t.1.mem == d.mem,
        t.1.stack == d.stack,
        forall|l: int|
            0 <= l < 2 ==> #[trigger] machine::lane(t.1.vec[0], Elem::F32, l) == combined(
                fl,
                op,
                Elem::F32,
                machine::lane(d.vec[0], Elem::F32, l),
                machine::lane(d.vec[0], Elem::F32, l + 2),
            ),
{
    let d1 = elements_are_shuffled(fl, d, Elem::F32, 0x4E);
    let d2 = is_combined(fl, op, Elem::F32, d1);
    assert forall|l: int| 0 <= l < 2 implies #[trigger] machine::lane(d2.vec[0], Elem::F32, l)
        == combined(
        fl,
        op,
        Elem::F32,
        machine::lane(d.vec[0], Elem::F32, l),
        machine::lane(d.vec[0], Elem::F32, l + 2),
    ) by {
        lane_of_far(d.vec[0], l);
    }
    (d1, d2)
}

/// The selector that brings the second element of a vector to its first place.
pub open spec fn near(e: Elem) -> u8 {
    match e {
        Elem::F32 => 0xB1,
        Elem::F64 => 0x05,
    }
}

/// The first two elements of a vector are combined.
proof fn neighbours_are_combined(fl: Floats, op: Option<Arith>, e: Elem, d: Data) -> (t: (Data, Data))
    ensures
        running::goes_on(reduce::shuffle(e, near(e))),
        running::goes_on(reduce::join(op, e)),
        t.0 == machine::after_ops(
            fl,
            d,
            reduce::shuffle(e, near(e)),
            reduce::shuffle(e, near(e)).len(),
        ),
        t.1 == machine::after_ops(fl, t.0, reduce::join(op, e), reduce::join(op, e).len()),
        t.1.gpr == d.gpr,
        t.1.mem == d.mem,
        t.1.stack == d.stack,
        machine::lane(t.1.vec[0], e, 0) == combined(
            fl,
            op,
            e,
            machine::lane(d.vec[0], e, 0),
            machine::lane(d.vec[0], e, 1),
        ),
{
    let d1 = elements_are_shuffled(fl, d, e, near(e));
    let d2 = is_combined(fl, op, e, d1);
    lane_of_near(d.vec[0]);
    (d1, d2)
}

/// What stands behind the combination of the vectors of a kernel.
pub open spec fn fold(p: Asm, op: Option<Arith>, e: Elem) -> Asm {
    let q = p.emit(join_group(op, e)).emit(reduce::swap_halves()).emit(reduce::join(op, e));
    let r = match e {
        Elem::F32 => q.emit(reduce::shuffle(e, 0x4E)).emit(reduce::join(op, e)),
        Elem::F64 => q,
    };
    r.emit(reduce::shuffle(e, near(e))).emit(reduce::join(op, e))
}

/// What stands in front of the combination was built before it.
proof fn before_fold(full: Seq<Ins>, p: Asm, op: Option<Arith>, e: Elem)
    requires
        running::starts(full, fold(p, op, e)),
    ensures
        ({
            let q0 = p.emit(join_group(op, e));
            let q1 = q0.emit(reduce::swap_halves());
            let q2 = q1.emit(reduce::join(op, e));
            let q3 = q2.emit(reduce::shuffle(e, 0x4E));
            let q4 = q3.emit(reduce::join(op, e));
            let r = match e {
                Elem::F32 => q4,
                Elem::F64 => q2,
            };
            &&& running::starts(full, p)
            &&& running::starts(full, q0)
            &&& running::starts(full, q1)
            &&& running::starts(full, q2)
            &&& e == Elem::F32 ==> running::starts(full, q3) && running::starts(full, q4)
            &&& running::starts(full, r.emit(reduce::shuffle(e, near(e))))
        }),
{
    let q0 = p.emit(join_group(op, e));
    let q1 = q0.emit(reduce::swap_halves());
    let q2 = q1.emit(reduce::join(op, e));
    let q3 = q2.emit(reduce::shuffle(e, 0x4E));
    let q4 = q3.emit(reduce::join(op, e));
    let r = match e {
        Elem::F32 => q4,
        Elem::F64 => q2,
    };
    running::before_ops(full, r.emit(reduce::shuffle(e, near(e))), reduce::join(op, e));
    running::before_ops(full, r, reduce::shuffle(e, near(e)));
    if e == Elem::F32 {
        running::before_ops(full, q3, reduce::join(op, e));
        running::before_ops(full, q2, reduce::shuffle(e, 0x4E));
    }
    running::before_ops(full, q1, reduce::join(op, e));
    running::before_ops(full, q0, reduce::swap_halves());
    running::before_ops(full, p, join_group(op, e));
}

/// The vectors are combined into one element.
proof fn fold_runs(
    fl: Floats,
    full: Seq<Ins>,
    start: State,
    p: Asm,
    op: Option<Arith>,
    e: Elem,
    d: Data,
    caller: Data,
    at: int,
    n: int,
) -> (t: Data)
    requires
        running::starts(full, fold(p, op, e)),
        machine::reaches(fl, full, start, running::behind(p, d)),
        is_at(d, caller, at, n, e, taken(e, n)),
        first_holds(fl, op, e, d, caller.mem, at, n, groups_of(e, n), vectors_of(e, n)),
    ensures
        machine::reaches(fl, full, start, running::behind(fold(p, op, e), t)),
        is_at(t, caller, at, n, e, taken(e, n)),
        machine::lane(t.vec[0], e, 0) == reduced(
            fl,
            op,
            e,
            caller.mem,
            at,
            n,
            taken(e, n),
        ),
{
    let x = |l: int| with_partials(fl, op, e, caller.mem, at, n, l, lanes(e) - 1);
    before_fold(full, p, op, e);
    let q0 = p.emit(join_group(op, e));
    let q1 = q0.emit(reduce::swap_halves());
    let q2 = q1.emit(reduce::join(op, e));
    let d1 = registers_are_joined(fl, op, e, d, caller.mem, at, n);
    running::runs_ops(fl, full, start, p, join_group(op, e), d, d1);
    let (d2, d3) = halves_are_combined(fl, op, e, d1, x);
    running::runs_ops(fl, full, start, q0, reduce::swap_halves(), d1, d2);
    running::runs_ops(fl, full, start, q1, reduce::join(op, e), d2, d3);
    match e {
        Elem::F32 => {
            let q3 = q2.emit(reduce::shuffle(e, 0x4E));
            let q4 = q3.emit(reduce::join(op, e));
            let (d4, d5) = quarters_are_combined(fl, op, d3);
            running::runs_ops(fl, full, start, q2, reduce::shuffle(e, 0x4E), d3, d4);
            running::runs_ops(fl, full, start, q3, reduce::join(op, e), d4, d5);
            let (d6, d7) = neighbours_are_combined(fl, op, e, d5);
            running::runs_ops(fl, full, start, q4, reduce::shuffle(e, near(e)), d5, d6);
            running::runs_ops(
                fl,
                full,
                start,
                q4.emit(reduce::shuffle(e, near(e))),
                reduce::join(op, e),
                d6,
                d7,
            );
            let y0 = machine::lane(d3.vec[0], e, 0);
            let y1 = machine::lane(d3.vec[0], e, 1);
            let y2 = machine::lane(d3.vec[0], e, 2);
            let y3 = machine::lane(d3.vec[0], e, 3);
            let z0 = machine::lane(d5.vec[0], e, 0);
            let z1 = machine::lane(d5.vec[0], e, 1);
            assert(machine::lane(d7.vec[0], e, 0) == folded(fl, op, e, x));
            d7
        },
        Elem::F64 => {
            let (d6, d7) = neighbours_are_combined(fl, op, e, d3);
            running::runs_ops(fl, full, start, q2, reduce::shuffle(e, near(e)), d3, d6);
            running::runs_ops(
                fl,
                full,
                start,
                q2.emit(reduce::shuffle(e, near(e))),
                reduce::join(op, e),
                d6,
                d7,
            );
            let y0 = machine::lane(d3.vec[0], e, 0);
            let y1 = machine::lane(d3.vec[0], e, 1);
            assert(machine::lane(d7.vec[0], e, 0) == folded(fl, op, e, x));
            d7
        },
    }
}

/// An element is taken in, in data.
proof fn element_data(
    fl: Floats,
    op: Option<Arith>,
    e: Elem,
    d: Data,
    caller: Data,
    at: int,
    n: int,
    i: int,
) -> (t: Data)
    requires
        is_valid(at, n),
        is_at(d, caller, at, n, e, i),
        taken(e, n) <= i < n,
        machine::lane(d.vec[0], e, 0) == reduced(fl, op, e, caller.mem, at, n, i),
    ensures
        running::goes_on(reduce::take_element(op, e) + reduce::advance(elem_bytes(e))),
        t == machine::after_ops(
            fl,
            d,
            reduce::take_element(op, e) + reduce::advance(elem_bytes(e)),
            (reduce::take_element(op, e) + reduce::advance(elem_bytes(e))).len(),
        ),
        is_at(t, caller, at, n, e, i + 1),
        t.reg(Reg::Rax) == d.reg(Reg::Rax),
        machine::lane(t.vec[0], e, 0) == reduced(fl, op, e, caller.mem, at, n, i + 1),
{
    reveal_with_fuel(machine::after_ops, 2);
    let ops = reduce::take_element(op, e);
    let by = elem_bytes(e);
    bytes_are_scaled(e, i);
    bytes_are_scaled(e, i + 1);
    bytes_are_scaled(e, n);
    let d1 = machine::after_ops(fl, d, ops, ops.len());
    match op {
        Some(f) => {
            assert(ops[0] == acc_scalar(f, e, Reg::Xmm0, at_sum(Reg::Rdi, Reg::Rdx, 0)));
            let u = steps::element_is_taken(fl, d, f, e, Reg::Xmm0);
            assert(u == d1);
        },
        None => {
            assert(ops.len() == 0);
        },
    }
    assert(machine::lane(d1.vec[0], e, 0) == combined(
        fl,
        op,
        e,
        machine::lane(d.vec[0], e, 0),
        element(caller.mem, at, e, i),
    ));
    assert(reduce::advance(by)[0] == add_imm(Reg::Rdx, by));
    steps::reg_is_advanced(fl, d1, Reg::Rdx, by);
    let t = steps::with_reg(d1, Reg::Rdx, d.reg(Reg::Rdx) + by);
    running::ops_follow(fl, d, ops, reduce::advance(by), d1, t);
    t
}

/// The loop over elements.
pub open spec fn element_loop(p: Asm, op: Option<Arith>, e: Elem) -> Asm {
    running::plain_loop(
        p.emit(reduce::byte_limit(e)),
        reduce::test(),
        reduce::take_element(op, e) + reduce::advance(elem_bytes(e)),
    )
}

/// The loop over elements is what it was built from.
proof fn elements_are_loop(p: Asm, op: Option<Arith>, e: Elem)
    ensures
        reduce::elements(p, op, e) == element_loop(p, op, e),
{
    running::emits_join(
        p.emit(reduce::byte_limit(e)).begin().emit(reduce::test()).exit_if_ge(),
        reduce::take_element(op, e),
        reduce::advance(elem_bytes(e)),
    );
}

/// The loop over elements takes in all elements that are left.
proof fn elements_run(
    fl: Floats,
    full: Seq<Ins>,
    p: Asm,
    op: Option<Arith>,
    e: Elem,
    d: Data,
    caller: Data,
    at: int,
    n: int,
    i: int,
) -> (t: Data)
    requires
        program::places_are_single(full),
        running::starts(full, element_loop(p, op, e)),
        is_valid(at, n),
        is_at(d, caller, at, n, e, i),
        taken(e, n) <= i,
        d.reg(Reg::Rax) == machine::size(e) * n,
        machine::lane(d.vec[0], e, 0) == reduced(fl, op, e, caller.mem, at, n, i),
    ensures
        machine::reaches(
            fl,
            full,
            running::behind(p.emit(reduce::byte_limit(e)).begin(), d),
            running::behind(element_loop(p, op, e), t),
        ),
        is_inside(t, caller, at, n),
        machine::lane(t.vec[0], e, 0) == reduction(fl, op, e, caller.mem, at, n),
    decreases n - i,
{
    let q = p.emit(reduce::byte_limit(e));
    let body = reduce::take_element(op, e) + reduce::advance(elem_bytes(e));
    let d1 = place_is_tested(fl, d);
    bytes_are_scaled(e, i);
    bytes_are_scaled(e, n);
    if i < n {
        let d2 = element_data(fl, op, e, d1, caller, at, n, i);
        running::plain_round(fl, full, q, reduce::test(), body, d, d1, d2);
        let t = elements_run(fl, full, p, op, e, d2, caller, at, n, i + 1);
        running::reaches_on(
            fl,
            full,
            running::behind(q.begin(), d),
            running::behind(q.begin(), d2),
            running::behind(element_loop(p, op, e), t),
        );
        t
    } else {
        running::plain_loop_ends(fl, full, q, reduce::test(), body, d, d1);
        d1
    }
}

/// The operations that clear the registers of partial results.
pub open spec fn zero_group(e: Elem) -> Seq<Op> {
    match e {
        Elem::F32 => reduce::eight_zeros(),
        Elem::F64 => reduce::four_zeros(),
    }
}

/// The operations that clear the registers.
proof fn zero_pieces(e: Elem)
    ensures
        zero_group(e).len() == lanes(e),
        forall|j: int|
            0 <= j < lanes(e) ==> #[trigger] zero_group(e)[j] == vclear(e, Wide::Y, acc(j)),
        running::goes_on(zero_group(e)),
{
    let ops = zero_group(e);
    match e {
        Elem::F32 => {
            assert(ops[0] == vclear(e, Wide::Y, acc(0)));
            assert(ops[1] == vclear(e, Wide::Y, acc(1)));
            assert(ops[2] == vclear(e, Wide::Y, acc(2)));
            assert(ops[3] == vclear(e, Wide::Y, acc(3)));
            assert(ops[4] == vclear(e, Wide::Y, acc(4)));
            assert(ops[5] == vclear(e, Wide::Y, acc(5)));
            assert(ops[6] == vclear(e, Wide::Y, acc(6)));
            assert(ops[7] == vclear(e, Wide::Y, acc(7)));
        },
        Elem::F64 => {
            assert(ops[0] == vclear(e, Wide::Y, acc(0)));
            assert(ops[1] == vclear(e, Wide::Y, acc(1)));
            assert(ops[2] == vclear(e, Wide::Y, acc(2)));
            assert(ops[3] == vclear(e, Wide::Y, acc(3)));
        },
    }
}

/// The first `k` registers are cleared.
proof fn some_are_cleared(fl: Floats, e: Elem, d: Data, k: nat)
    requires
        k <= lanes(e),
    ensures
        ({
            let t = machine::after_ops(fl, d, zero_group(e), k);
            &&& t.gpr == d.gpr
            &&& t.mem == d.mem
            &&& t.stack == d.stack
            &&& forall|j: int|
                0 <= j < k ==> #[trigger] t.vec[j] == machine::filled(machine::zeros(32))
        }),
    decreases k,
{
    if k > 0 {
        let j = (k - 1) as nat;
        some_are_cleared(fl, e, d, j);
        zero_pieces(e);
        let t = machine::after_ops(fl, d, zero_group(e), j);
        assert(zero_group(e)[j as int] == vclear(e, Wide::Y, acc(j as int)));
        steps::register_is_cleared(fl, t, e, Wide::Y, acc(j as int));
        assert(machine::slot(acc(j as int)) == j);
    }
}

/// The operations that put the first element into the registers of partial results.
proof fn seed_pieces(e: Elem)
    ensures
        reduce::seeds(e).len() == lanes(e),
        forall|j: int|
            0 <= j < lanes(e) ==> #[trigger] reduce::seeds(e)[j] == fill(e, acc(j), at(Reg::Rdi)),
        running::goes_on(reduce::seeds(e)),
{
    let ops = reduce::seeds(e);
    match e {
        Elem::F32 => {
            assert(ops[0] == fill(e, acc(0), at(Reg::Rdi)));
            assert(ops[1] == fill(e, acc(1), at(Reg::Rdi)));
            assert(ops[2] == fill(e, acc(2), at(Reg::Rdi)));
            assert(ops[3] == fill(e, acc(3), at(Reg::Rdi)));
            assert(ops[4] == fill(e, acc(4), at(Reg::Rdi)));
            assert(ops[5] == fill(e, acc(5), at(Reg::Rdi)));
            assert(ops[6] == fill(e, acc(6), at(Reg::Rdi)));
            assert(ops[7] == fill(e, acc(7), at(Reg::Rdi)));
        },
        Elem::F64 => {
            assert(ops[0] == fill(e, acc(0), at(Reg::Rdi)));
            assert(ops[1] == fill(e, acc(1), at(Reg::Rdi)));
            assert(ops[2] == fill(e, acc(2), at(Reg::Rdi)));
            assert(ops[3] == fill(e, acc(3), at(Reg::Rdi)));
        },
    }
}

/// The first `k` registers hold the element at `rdi` in every place.
proof fn some_are_seeded(fl: Floats, e: Elem, d: Data, k: nat)
    requires
        0 <= d.reg(Reg::Rdi) < 0x8000_0000_0000_0000,
        k <= lanes(e),
    ensures
        ({
            let t = machine::after_ops(fl, d, reduce::seeds(e), k);
            &&& t.gpr == d.gpr
            &&& t.mem == d.mem
            &&& t.stack == d.stack
            &&& forall|j: int|
                0 <= j < k ==> #[trigger] t.vec[j] == machine::filled(
                    steps::copies(e, machine::bytes(d.mem, d.reg(Reg::Rdi), machine::size(e))),
                )
        }),
    decreases k,
{
    if k > 0 {
        let j = (k - 1) as nat;
        some_are_seeded(fl, e, d, j);
        seed_pieces(e);
        let t = machine::after_ops(fl, d, reduce::seeds(e), j);
        assert(reduce::seeds(e)[j as int] == fill(e, acc(j as int), at(Reg::Rdi)));
        steps::register_is_seeded(fl, t, e, acc(j as int));
        assert(machine::slot(acc(j as int)) == j);
    }
}

/// What clears the registers of partial results and goes to the first element.
pub open spec fn cleared(e: Elem) -> Asm {
    Asm::empty().enter(reduce::saved()).emit(reduce::count()).emit(zero_group(e)).emit(
        reduce::origin(),
    )
}

/// What stands in front of the loops of a kernel.
pub open spec fn opening(op: Option<Arith>, e: Elem) -> Asm {
    reduce::seeded(cleared(e), op, e)
}

/// The registers of partial results hold zeros, and the work is at the first element.
proof fn registers_are_zero(fl: Floats, full: Seq<Ins>, e: Elem, d: Data, at: int, n: int) -> (t:
    Data)
    requires
        running::starts(full, cleared(e)),
        is_valid(at, n),
        d.reg(Reg::Rdi) == at,
        d.reg(Reg::Rsi) == n,
        running::has_room(d, reduce::saved()),
    ensures
        machine::reaches(
            fl,
            full,
            State { pc: 0, data: d },
            running::behind(cleared(e), t),
        ),
        is_at(t, d, at, n, e, 0),
        forall|j: int|
            0 <= j < lanes(e) ==> #[trigger] t.vec[j] == machine::filled(machine::zeros(32)),
{
    let p0 = Asm::empty();
    let p1 = p0.enter(reduce::saved());
    let p2 = p1.emit(reduce::count());
    let p3 = p2.emit(zero_group(e));
    let start = running::behind(p0, d);
    running::before_ops(full, p3, reduce::origin());
    running::before_ops(full, p2, zero_group(e));
    running::before_ops(full, p1, reduce::count());
    assert(running::can_be_saved(reduce::saved()));
    let d1 = running::frame_is_entered(fl, full, p0, reduce::saved(), d);
    assert(d1.reg(Reg::Rdi) == at && d1.reg(Reg::Rsi) == n);
    assert(d1.reg(Reg::R12) == d.reg(Reg::R12) && d1.reg(Reg::R13) == d.reg(Reg::R13));
    assert(d1.reg(Reg::R14) == d.reg(Reg::R14) && d1.reg(Reg::R15) == d.reg(Reg::R15));
    reveal_with_fuel(machine::after_ops, 2);
    assert(reduce::count()[0] == mov(Reg::Rbx, Reg::Rsi));
    steps::reg_is_set(fl, d1, Reg::Rbx, Reg::Rsi);
    let d2 = d1.put(Reg::Rbx, n);
    running::runs_ops(fl, full, start, p1, reduce::count(), d1, d2);
    zero_pieces(e);
    some_are_cleared(fl, e, d2, lanes(e) as nat);
    let d3 = machine::after_ops(fl, d2, zero_group(e), lanes(e) as nat);
    running::runs_ops(fl, full, start, p2, zero_group(e), d2, d3);
    assert(reduce::origin()[0] == clear(Reg::Rdx));
    steps::reg_is_cleared(fl, d3, Reg::Rdx);
    let t = steps::with_reg(d3, Reg::Rdx, 0);
    running::runs_ops(fl, full, start, p3, reduce::origin(), d3, t);
    bytes_are_scaled(e, 0);
    assert(is_inside(t, d, at, n));
    assert forall|j: int| 0 <= j < lanes(e) implies #[trigger] t.vec[j] == machine::filled(
        machine::zeros(32),
    ) by {
        assert(d3.vec[j] == machine::filled(machine::zeros(32)));
    }
    t
}

/// The body of the loop that puts the first element into the registers.
pub open spec fn seed_round(e: Elem) -> Seq<Op> {
    reduce::seeds(e) + reduce::no_more()
}

/// The loop that puts the first element into the registers is what it was built from.
proof fn seeding_is_loop(p: Asm, op: Option<Arith>, e: Elem)
    requires
        reduce::is_choice(op),
    ensures
        reduce::seeded(p, op, e) == running::plain_loop(
            p.emit(reduce::byte_limit(e)),
            reduce::test(),
            seed_round(e),
        ),
{
    running::emits_join(
        p.emit(reduce::byte_limit(e)).begin().emit(reduce::test()).exit_if_ge(),
        reduce::seeds(e),
        reduce::no_more(),
    );
}

/// The first element is put into the registers, in data.
proof fn seed_data(fl: Floats, e: Elem, d: Data, caller: Data, at: int, n: int) -> (t: Data)
    requires
        is_valid(at, n),
        is_at(d, caller, at, n, e, 0),
    ensures
        running::goes_on(seed_round(e)),
        t == machine::after_ops(fl, d, seed_round(e), seed_round(e).len()),
        is_at(t, caller, at, n, e, 0),
        t.reg(Reg::Rax) == 0,
        forall|j: int|
            0 <= j < lanes(e) ==> #[trigger] t.vec[j] == machine::filled(
                steps::copies(e, element(caller.mem, at, e, 0)),
            ),
{
    let ops = reduce::seeds(e);
    seed_pieces(e);
    some_are_seeded(fl, e, d, lanes(e) as nat);
    let d1 = machine::after_ops(fl, d, ops, ops.len());
    bytes_are_scaled(e, 0);
    reveal_with_fuel(machine::after_ops, 2);
    assert(reduce::no_more()[0] == clear(Reg::Rax));
    steps::reg_is_cleared(fl, d1, Reg::Rax);
    let t = steps::with_reg(d1, Reg::Rax, 0);
    running::ops_follow(fl, d, ops, reduce::no_more(), d1, t);
    assert forall|j: int| 0 <= j < lanes(e) implies #[trigger] t.vec[j] == machine::filled(
        steps::copies(e, element(caller.mem, at, e, 0)),
    ) by {
        assert(t.vec[j] == d1.vec[j]);
    }
    t
}

/// The registers of partial results hold what these start from.
proof fn starts_are_held(
    fl: Floats,
    op: Option<Arith>,
    e: Elem,
    d: Data,
    mem: spec_fn(int) -> u8,
    at: int,
    n: int,
)
    requires
        forall|j: int|
            0 <= j < lanes(e) ==> #[trigger] d.vec[j] == (if reduce::is_choice(op) && n > 0 {
                machine::filled(steps::copies(e, element(mem, at, e, 0)))
            } else {
                machine::filled(machine::zeros(32))
            }),
    ensures
        all_hold(fl, op, e, d, mem, at, n, 0),
{
    let b = start(op, e, mem, at, n);
    assert forall|j: int| 0 <= j < lanes(e) implies holds(
        #[trigger] d.vec[j],
        e,
        |l: int| partial(fl, op, e, mem, at, n, j, l, 0),
    ) by {
        copies_are_held(e, b, d.vec[j]);
        held_otherwise(
            d.vec[j],
            e,
            |l: int| b,
            |l: int| partial(fl, op, e, mem, at, n, j, l, 0),
        );
    }
}

/// The registers of partial results hold what these start from, and the work is at the first
/// element.
proof fn kernel_opens(
    fl: Floats,
    full: Seq<Ins>,
    op: Option<Arith>,
    e: Elem,
    d: Data,
    at: int,
    n: int,
) -> (t: Data)
    requires
        program::places_are_single(full),
        running::starts(full, opening(op, e)),
        is_valid(at, n),
        d.reg(Reg::Rdi) == at,
        d.reg(Reg::Rsi) == n,
        running::has_room(d, reduce::saved()),
    ensures
        machine::reaches(
            fl,
            full,
            State { pc: 0, data: d },
            running::behind(opening(op, e), t),
        ),
        is_at(t, d, at, n, e, 0),
        all_hold(fl, op, e, t, d.mem, at, n, 0),
{
    let p = cleared(e);
    let from = State { pc: 0, data: d };
    if reduce::is_choice(op) {
        let limit = reduce::byte_limit(e);
        let q = p.emit(limit);
        let test = reduce::test();
        let body = seed_round(e);
        seeding_is_loop(p, op, e);
        running::before_plain_loop(full, q, test, body);
        running::before_ops(full, p, limit);
        let d1 = registers_are_zero(fl, full, e, d, at, n);
        let d2 = end_is_limit(fl, d1, d, at, n, e, 0);
        running::loop_opens(fl, full, p, limit, d1, d2);
        running::reaches_on(
            fl,
            full,
            from,
            running::behind(p, d1),
            running::behind(q.begin(), d2),
        );
        bytes_are_scaled(e, n);
        bytes_are_scaled(e, 0);
        let d3 = place_is_tested(fl, d2);
        if n > 0 {
            let d4 = seed_data(fl, e, d3, d, at, n);
            running::plain_round(fl, full, q, test, body, d2, d3, d4);
            running::reaches_on(
                fl,
                full,
                from,
                running::behind(q.begin(), d2),
                running::behind(q.begin(), d4),
            );
            let t = place_is_tested(fl, d4);
            running::plain_loop_ends(fl, full, q, test, body, d4, t);
            running::reaches_on(
                fl,
                full,
                from,
                running::behind(q.begin(), d4),
                running::behind(opening(op, e), t),
            );
            starts_are_held(fl, op, e, t, d.mem, at, n);
            t
        } else {
            running::plain_loop_ends(fl, full, q, test, body, d2, d3);
            running::reaches_on(
                fl,
                full,
                from,
                running::behind(q.begin(), d2),
                running::behind(opening(op, e), d3),
            );
            starts_are_held(fl, op, e, d3, d.mem, at, n);
            d3
        }
    } else {
        let t = registers_are_zero(fl, full, e, d, at, n);
        starts_are_held(fl, op, e, t, d.mem, at, n);
        t
    }
}

/// The loops of a kernel, and what is between them.
pub open spec fn loops(op: Option<Arith>, e: Elem) -> Asm {
    element_loop(fold(vector_loop(group_loop(opening(op, e), op, e), op, e), op, e), op, e)
}

/// The pieces of the loops stand where they were built.
proof fn before_loops(full: Seq<Ins>, op: Option<Arith>, e: Elem)
    requires
        running::starts(full, loops(op, e)),
    ensures
        ({
            let p1 = opening(op, e);
            let p2 = group_loop(p1, op, e);
            let p3 = vector_loop(p2, op, e);
            let p4 = fold(p3, op, e);
            &&& running::starts(full, p1)
            &&& running::starts(
                full,
                p1.emit(reduce::last_offset(e, group_bytes(e))).begin(),
            )
            &&& running::starts(full, p2)
            &&& running::starts(full, p2.emit(reduce::last_offset(e, 32)).begin())
            &&& running::starts(full, p3)
            &&& running::starts(full, p4)
            &&& running::starts(full, p4.emit(reduce::byte_limit(e)).begin())
        }),
{
    let p1 = opening(op, e);
    let p2 = group_loop(p1, op, e);
    let p3 = vector_loop(p2, op, e);
    let p4 = fold(p3, op, e);
    running::before_plain_loop(
        full,
        p4.emit(reduce::byte_limit(e)),
        reduce::test(),
        reduce::take_element(op, e) + reduce::advance(elem_bytes(e)),
    );
    running::before_ops(full, p4, reduce::byte_limit(e));
    before_fold(full, p3, op, e);
    running::before_plain_loop(
        full,
        p2.emit(reduce::last_offset(e, 32)),
        reduce::test(),
        reduce::take_vector(op, e) + reduce::advance(32),
    );
    running::before_ops(full, p2, reduce::last_offset(e, 32));
    running::before_plain_loop(
        full,
        p1.emit(reduce::last_offset(e, group_bytes(e))),
        reduce::test(),
        take_group(op, e) + reduce::advance(group_bytes(e)),
    );
    running::before_ops(full, p1, reduce::last_offset(e, group_bytes(e)));
}

/// A kernel comes to its reduction.
proof fn loops_run(
    fl: Floats,
    full: Seq<Ins>,
    op: Option<Arith>,
    e: Elem,
    d: Data,
    at: int,
    n: int,
) -> (t: Data)
    requires
        program::places_are_single(full),
        running::starts(full, loops(op, e)),
        is_valid(at, n),
        d.reg(Reg::Rdi) == at,
        d.reg(Reg::Rsi) == n,
        running::has_room(d, reduce::saved()),
    ensures
        machine::reaches(
            fl,
            full,
            State { pc: 0, data: d },
            running::behind(loops(op, e), t),
        ),
        is_inside(t, d, at, n),
        machine::lane(t.vec[0], e, 0) == reduction(fl, op, e, d.mem, at, n),
{
    let p1 = opening(op, e);
    let p2 = group_loop(p1, op, e);
    let p3 = vector_loop(p2, op, e);
    let p4 = fold(p3, op, e);
    let start = State { pc: 0, data: d };
    let groups = reduce::last_offset(e, group_bytes(e));
    let vectors = reduce::last_offset(e, 32);
    let limit = reduce::byte_limit(e);
    before_loops(full, op, e);
    let d1 = kernel_opens(fl, full, op, e, d, at, n);
    let d2 = last_is_limit(fl, d1, d, at, n, e, 0, group_bytes(e));
    running::loop_opens(fl, full, p1, groups, d1, d2);
    running::reaches_on(
        fl,
        full,
        start,
        running::behind(p1, d1),
        running::behind(p1.emit(groups).begin(), d2),
    );
    assert(group(e) * 0 == 0);
    let d3 = groups_run(fl, full, p1, op, e, d2, d, at, n, 0);
    running::reaches_on(
        fl,
        full,
        start,
        running::behind(p1.emit(groups).begin(), d2),
        running::behind(p2, d3),
    );
    let d4 = last_is_limit(fl, d3, d, at, n, e, group(e) * groups_of(e, n), 32);
    running::loop_opens(fl, full, p2, vectors, d3, d4);
    running::reaches_on(
        fl,
        full,
        start,
        running::behind(p2, d3),
        running::behind(p2.emit(vectors).begin(), d4),
    );
    first_is_held(fl, op, e, d3, d4, d.mem, at, n, groups_of(e, n));
    assert(lanes(e) * 0 == 0);
    let d5 = vectors_run(fl, full, p2, op, e, d4, d, at, n, 0);
    running::reaches_on(
        fl,
        full,
        start,
        running::behind(p2.emit(vectors).begin(), d4),
        running::behind(p3, d5),
    );
    let d6 = fold_runs(fl, full, start, p3, op, e, d5, d, at, n);
    let d7 = end_is_limit(fl, d6, d, at, n, e, taken(e, n));
    running::loop_opens(fl, full, p4, limit, d6, d7);
    running::reaches_on(
        fl,
        full,
        start,
        running::behind(p4, d6),
        running::behind(p4.emit(limit).begin(), d7),
    );
    let t = elements_run(fl, full, p4, op, e, d7, d, at, n, taken(e, n));
    running::reaches_on(
        fl,
        full,
        start,
        running::behind(p4.emit(limit).begin(), d7),
        running::behind(loops(op, e), t),
    );
    t
}

/// Behind the groups the first register holds no vectors yet.
proof fn first_is_held(
    fl: Floats,
    op: Option<Arith>,
    e: Elem,
    d: Data,
    t: Data,
    mem: spec_fn(int) -> u8,
    at: int,
    n: int,
    groups: int,
)
    requires
        all_hold(fl, op, e, d, mem, at, n, groups),
        t.vec == d.vec,
    ensures
        first_holds(fl, op, e, t, mem, at, n, groups, 0),
{
    let x = |l: int| partial(fl, op, e, mem, at, n, 0, l, groups);
    let y = |l: int| with_vectors(fl, op, e, mem, at, n, groups, l, 0);
    assert(holds(d.vec[0], e, x));
    held_otherwise(d.vec[0], e, x, y);
    assert forall|j: int| 0 < j < lanes(e) implies holds(
        #[trigger] t.vec[j],
        e,
        |l: int| partial(fl, op, e, mem, at, n, j, l, groups),
    ) by {
        let old = d.vec[j];
    }
}

/// The upper parts of the vector registers are cleared.
proof fn upper_is_cleared(fl: Floats, d: Data, caller: Data, at: int, n: int) -> (t: Data)
    requires
        is_inside(d, caller, at, n),
    ensures
        running::goes_on(reduce::clear_upper()),
        t == machine::after_ops(fl, d, reduce::clear_upper(), reduce::clear_upper().len()),
        is_inside(t, caller, at, n),
        machine::low(t.vec[0], 8) == machine::low(d.vec[0], 8),
{
    reveal_with_fuel(machine::after_ops, 2);
    reveal(machine::after_op);
    let t = machine::after_ops(fl, d, reduce::clear_upper(), 1);
    assert(machine::low(t.vec[0], 8) =~= machine::low(d.vec[0], 8));
    t
}

/// The result becomes a double.
proof fn result_is_widened(fl: Floats, d: Data, caller: Data, at: int, n: int) -> (t: Data)
    requires
        is_inside(d, caller, at, n),
    ensures
        running::goes_on(reduce::widen()),
        t == machine::after_ops(fl, d, reduce::widen(), reduce::widen().len()),
        is_inside(t, caller, at, n),
        machine::low(t.vec[0], 8) == machine::low(
            (fl.widen)(machine::lane(d.vec[0], Elem::F32, 0)),
            8,
        ),
{
    reveal_with_fuel(machine::after_ops, 2);
    reveal(machine::after_op);
    let t = machine::after_ops(fl, d, reduce::widen(), 1);
    assert(machine::low(d.vec[0], 4) =~= machine::lane(d.vec[0], Elem::F32, 0));
    assert(machine::low(t.vec[0], 8) =~= machine::low(
        (fl.widen)(machine::lane(d.vec[0], Elem::F32, 0)),
        8,
    ));
    t
}

/// A kernel returns.
proof fn kernel_returns(
    fl: Floats,
    full: Seq<Ins>,
    start: State,
    p: Asm,
    d: Data,
    caller: Data,
    at: int,
    n: int,
) -> (t: Data)
    requires
        running::starts(full, p.leave(reduce::saved())),
        machine::reaches(fl, full, start, running::behind(p, d)),
        running::has_room(caller, reduce::saved()),
        is_inside(d, caller, at, n),
    ensures
        machine::reaches(fl, full, start, State { pc: machine::returned(), data: t }),
        t.mem == caller.mem,
        t.vec == d.vec,
        running::keeps_callers(caller, t),
{
    let saved = reduce::saved();
    assert(running::can_be_saved(saved));
    let t = running::frame_is_left(fl, full, p, saved, d, caller);
    running::reaches_on(
        fl,
        full,
        start,
        running::behind(p, d),
        State { pc: machine::returned(), data: t },
    );
    assert(t.reg(saved[0]) == caller.reg(saved[0]));
    assert(!saved.contains(Reg::R12) && !saved.contains(Reg::R13) && !saved.contains(Reg::R14)
        && !saved.contains(Reg::R15));
    t
}

/// The kernel for single precision leaves the reduction of the array as a double in `xmm0`, and
/// changes neither memory nor what belongs to the caller.
pub proof fn single_kernel_computes(fl: Floats, op: Option<Arith>, d: Data, at: int, n: int) -> (t:
    Data)
    requires
        is_valid(at, n),
        d.reg(Reg::Rdi) == at,
        d.reg(Reg::Rsi) == n,
        running::has_room(d, reduce::saved()),
    ensures
        machine::reaches(
            fl,
            reduce::single_kernel(op).lines,
            State { pc: 0, data: d },
            State { pc: machine::returned(), data: t },
        ),
        machine::low(t.wide(Reg::Xmm0), 8) == machine::low(
            (fl.widen)(reduction(fl, op, Elem::F32, d.mem, at, n)),
            8,
        ),
        t.mem == d.mem,
        running::keeps_callers(d, t),
{
    let e = Elem::F32;
    let full = reduce::single_kernel(op).lines;
    let start = State { pc: 0, data: d };
    reduce::single_kernel_is_sound(op);
    groups_are_loops(opening(op, e), op);
    vectors_are_loop(group_loop(opening(op, e), op, e), op, e);
    elements_are_loop(fold(vector_loop(group_loop(opening(op, e), op, e), op, e), op, e), op, e);
    let p1 = loops(op, e);
    let p2 = p1.emit(reduce::widen());
    let p3 = p2.emit(reduce::clear_upper());
    assert(reduce::single_kernel(op) == p3.leave(reduce::saved()));
    running::all_start(p3.leave(reduce::saved()));
    running::before_frame(full, p3, reduce::saved());
    running::before_ops(full, p2, reduce::clear_upper());
    running::before_ops(full, p1, reduce::widen());
    let d1 = loops_run(fl, full, op, e, d, at, n);
    let d2 = result_is_widened(fl, d1, d, at, n);
    running::runs_ops(fl, full, start, p1, reduce::widen(), d1, d2);
    let d3 = upper_is_cleared(fl, d2, d, at, n);
    running::runs_ops(fl, full, start, p2, reduce::clear_upper(), d2, d3);
    kernel_returns(fl, full, start, p3, d3, d, at, n)
}

/// The kernel for double precision leaves the reduction of the array in `xmm0`, and changes
/// neither memory nor what belongs to the caller.
pub proof fn double_kernel_computes(fl: Floats, op: Option<Arith>, d: Data, at: int, n: int) -> (t:
    Data)
    requires
        is_valid(at, n),
        d.reg(Reg::Rdi) == at,
        d.reg(Reg::Rsi) == n,
        running::has_room(d, reduce::saved()),
    ensures
        machine::reaches(
            fl,
            reduce::double_kernel(op).lines,
            State { pc: 0, data: d },
            State { pc: machine::returned(), data: t },
        ),
        machine::low(t.wide(Reg::Xmm0), 8) == reduction(fl, op, Elem::F64, d.mem, at, n),
        t.mem == d.mem,
        running::keeps_callers(d, t),
{
    let e = Elem::F64;
    let full = reduce::double_kernel(op).lines;
    let start = State { pc: 0, data: d };
    reduce::double_kernel_is_sound(op);
    groups_are_loops(opening(op, e), op);
    vectors_are_loop(group_loop(opening(op, e), op, e), op, e);
    elements_are_loop(fold(vector_loop(group_loop(opening(op, e), op, e), op, e), op, e), op, e);
    let p1 = loops(op, e);
    let p2 = p1.emit(reduce::clear_upper());
    assert(reduce::double_kernel(op) == p2.leave(reduce::saved()));
    running::all_start(p2.leave(reduce::saved()));
    running::before_frame(full, p2, reduce::saved());
    running::before_ops(full, p1, reduce::clear_upper());
    let d1 = loops_run(fl, full, op, e, d, at, n);
    let d2 = upper_is_cleared(fl, d1, d, at, n);
    running::runs_ops(fl, full, start, p1, reduce::clear_upper(), d1, d2);
    assert(machine::low(d1.vec[0], 8) =~= machine::lane(d1.vec[0], e, 0));
    kernel_returns(fl, full, start, p2, d2, d, at, n)
}

} // verus!
