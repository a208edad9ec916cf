//! Reductions whose result does not depend on how the elements are grouped.

use crate::x86_emitter::inst::{Arith, Elem};
use crate::x86_emitter::machine::Floats;
use crate::x86_emitter::reduce_run;
use vstd::prelude::*;

verus! {

/// Two elements combined.
pub open spec fn both(fl: Floats, f: Arith, e: Elem, x: Seq<u8>, y: Seq<u8>) -> Seq<u8> {
    reduce_run::combined(fl, Some(f), e, x, y)
}

/// Combining is associative and commutative.
#[verifier::opaque]
pub open spec fn is_regular(fl: Floats, f: Arith, e: Elem) -> bool {
    &&& forall|x: Seq<u8>, y: Seq<u8>| #[trigger] both(fl, f, e, x, y) == both(fl, f, e, y, x)
    &&& forall|x: Seq<u8>, y: Seq<u8>, z: Seq<u8>| #[trigger]
        both(fl, f, e, both(fl, f, e, x, y), z) == both(fl, f, e, x, both(fl, f, e, y, z))
}

/// A number combined with itself stays.
pub open spec fn stays(fl: Floats, f: Arith, e: Elem, b: Seq<u8>) -> bool {
    both(fl, f, e, b, b) == b
}

/// What a reduction of an array of `n` elements starts from.
pub open spec fn start(f: Arith, e: Elem, mem: spec_fn(int) -> u8, at: int, n: int) -> Seq<u8> {
    reduce_run::start(Some(f), e, mem, at, n)
}

/// The first `i` elements of an array of `n` elements, taken in one by one from what its reduction
/// starts from.
pub open spec fn in_order(
    fl: Floats,
    f: Arith,
    e: Elem,
    mem: spec_fn(int) -> u8,
    at: int,
    n: int,
    i: int,
) -> Seq<u8>
    decreases i,
{
    if i <= 0 {
        start(f, e, mem, at, n)
    } else {
        both(
            fl,
            f,
            e,
            in_order(fl, f, e, mem, at, n, i - 1),
            reduce_run::element(mem, at, e, i - 1),
        )
    }
}

proof fn turns(fl: Floats, f: Arith, e: Elem, x: Seq<u8>, y: Seq<u8>)
    requires
        is_regular(fl, f, e),
    ensures
        both(fl, f, e, x, y) == both(fl, f, e, y, x),
{
    reveal(is_regular);
}

proof fn regroups(fl: Floats, f: Arith, e: Elem, x: Seq<u8>, y: Seq<u8>, z: Seq<u8>)
    requires
        is_regular(fl, f, e),
    ensures
        both(fl, f, e, both(fl, f, e, x, y), z) == both(fl, f, e, x, both(fl, f, e, y, z)),
{
    reveal(is_regular);
}

/// The last two of three can be exchanged.
proof fn exchanges(fl: Floats, f: Arith, e: Elem, x: Seq<u8>, y: Seq<u8>, z: Seq<u8>)
    requires
        is_regular(fl, f, e),
    ensures
        both(fl, f, e, both(fl, f, e, x, y), z) == both(fl, f, e, both(fl, f, e, x, z), y),
{
    regroups(fl, f, e, x, y, z);
    turns(fl, f, e, y, z);
    regroups(fl, f, e, x, z, y);
}

/// Two pairs can be combined place by place.
proof fn pairs_up(fl: Floats, f: Arith, e: Elem, x: Seq<u8>, y: Seq<u8>, z: Seq<u8>, w: Seq<u8>)
    requires
        is_regular(fl, f, e),
    ensures
        both(fl, f, e, both(fl, f, e, x, y), both(fl, f, e, z, w)) == both(
            fl,
            f,
            e,
            both(fl, f, e, x, z),
            both(fl, f, e, y, w),
        ),
{
    let xy = both(fl, f, e, x, y);
    let xz = both(fl, f, e, x, z);
    regroups(fl, f, e, xy, z, w);
    exchanges(fl, f, e, x, y, z);
    regroups(fl, f, e, xz, y, w);
}

/// The places of a vector combined.
pub open spec fn folded(fl: Floats, f: Arith, e: Elem, x: spec_fn(int) -> Seq<u8>) -> Seq<u8> {
    reduce_run::folded(fl, Some(f), e, x)
}

/// The places of two vectors can be combined before or after the vectors.
proof fn folds_pair_up(
    fl: Floats,
    f: Arith,
    e: Elem,
    x: spec_fn(int) -> Seq<u8>,
    y: spec_fn(int) -> Seq<u8>,
    z: spec_fn(int) -> Seq<u8>,
)
    requires
        is_regular(fl, f, e),
        forall|l: int|
            0 <= l < reduce_run::lanes(e) ==> #[trigger] z(l) == both(fl, f, e, x(l), y(l)),
    ensures
        folded(fl, f, e, z) == both(fl, f, e, folded(fl, f, e, x), folded(fl, f, e, y)),
{
    let c = |a: Seq<u8>, b: Seq<u8>| both(fl, f, e, a, b);
    match e {
        Elem::F32 => {
            assert(z(0) == c(x(0), y(0)) && z(1) == c(x(1), y(1)) && z(2) == c(x(2), y(2)));
            assert(z(3) == c(x(3), y(3)) && z(4) == c(x(4), y(4)) && z(5) == c(x(5), y(5)));
            assert(z(6) == c(x(6), y(6)) && z(7) == c(x(7), y(7)));
            pairs_up(fl, f, e, x(0), y(0), x(4), y(4));
            pairs_up(fl, f, e, x(2), y(2), x(6), y(6));
            pairs_up(fl, f, e, x(1), y(1), x(5), y(5));
            pairs_up(fl, f, e, x(3), y(3), x(7), y(7));
            let (x04, y04) = (c(x(0), x(4)), c(y(0), y(4)));
            let (x26, y26) = (c(x(2), x(6)), c(y(2), y(6)));
            let (x15, y15) = (c(x(1), x(5)), c(y(1), y(5)));
            let (x37, y37) = (c(x(3), x(7)), c(y(3), y(7)));
            pairs_up(fl, f, e, x04, y04, x26, y26);
            pairs_up(fl, f, e, x15, y15, x37, y37);
            pairs_up(fl, f, e, c(x04, x26), c(y04, y26), c(x15, x37), c(y15, y37));
        },
        Elem::F64 => {
            assert(z(0) == c(x(0), y(0)) && z(1) == c(x(1), y(1)));
            assert(z(2) == c(x(2), y(2)) && z(3) == c(x(3), y(3)));
            pairs_up(fl, f, e, x(0), y(0), x(2), y(2));
            pairs_up(fl, f, e, x(1), y(1), x(3), y(3));
            pairs_up(fl, f, e, c(x(0), x(2)), c(y(0), y(2)), c(x(1), x(3)), c(y(1), y(3)));
        },
    }
}

/// The places of a vector taken in one by one.
pub open spec fn taken_in(
    fl: Floats,
    f: Arith,
    e: Elem,
    a: Seq<u8>,
    x: spec_fn(int) -> Seq<u8>,
    k: int,
) -> Seq<u8>
    decreases k,
{
    if k <= 0 {
        a
    } else {
        both(fl, f, e, taken_in(fl, f, e, a, x, k - 1), x(k - 1))
    }
}

/// A vector that is folded and taken in, and its places taken in one by one, give the same.
proof fn fold_is_in_order(
    fl: Floats,
    f: Arith,
    e: Elem,
    a: Seq<u8>,
    x: spec_fn(int) -> Seq<u8>,
)
    requires
        is_regular(fl, f, e),
    ensures
        both(fl, f, e, a, folded(fl, f, e, x)) == taken_in(
            fl,
            f,
            e,
            a,
            x,
            reduce_run::lanes(e),
        ),
{
    reveal_with_fuel(taken_in, 9);
    let c = |p: Seq<u8>, q: Seq<u8>| both(fl, f, e, p, q);
    match e {
        Elem::F32 => {
            let (x01, x23) = (c(x(0), x(1)), c(x(2), x(3)));
            let (x45, x67) = (c(x(4), x(5)), c(x(6), x(7)));
            // The pairs of places that are four apart become neighbours.
            let (x04, x15) = (c(x(0), x(4)), c(x(1), x(5)));
            let (x26, x37) = (c(x(2), x(6)), c(x(3), x(7)));
            pairs_up(fl, f, e, x04, x26, x15, x37);
            pairs_up(fl, f, e, x(0), x(4), x(1), x(5));
            pairs_up(fl, f, e, x(2), x(6), x(3), x(7));
            pairs_up(fl, f, e, x01, x45, x23, x67);
            let (low, high) = (c(x01, x23), c(x45, x67));
            assert(folded(fl, f, e, x) == c(low, high));
            regroups(fl, f, e, a, low, high);
            four_in_order(fl, f, e, a, x(0), x(1), x(2), x(3));
            four_in_order(fl, f, e, c(a, low), x(4), x(5), x(6), x(7));
        },
        Elem::F64 => {
            pairs_up(fl, f, e, x(0), x(2), x(1), x(3));
            four_in_order(fl, f, e, a, x(0), x(1), x(2), x(3));
        },
    }
}

/// Four elements in pairs, taken in, and one by one.
proof fn four_in_order(
    fl: Floats,
    f: Arith,
    e: Elem,
    a: Seq<u8>,
    x: Seq<u8>,
    y: Seq<u8>,
    z: Seq<u8>,
    w: Seq<u8>,
)
    requires
        is_regular(fl, f, e),
    ensures
        both(fl, f, e, a, both(fl, f, e, both(fl, f, e, x, y), both(fl, f, e, z, w))) == both(
            fl,
            f,
            e,
            both(fl, f, e, both(fl, f, e, both(fl, f, e, a, x), y), z),
            w,
        ),
{
    let xy = both(fl, f, e, x, y);
    let zw = both(fl, f, e, z, w);
    regroups(fl, f, e, a, xy, zw);
    regroups(fl, f, e, a, x, y);
    regroups(fl, f, e, both(fl, f, e, a, xy), z, w);
}

/// The elements of one vector of memory, folded.
pub open spec fn vector(
    fl: Floats,
    f: Arith,
    e: Elem,
    mem: spec_fn(int) -> u8,
    at: int,
    i: int,
) -> Seq<u8> {
    folded(fl, f, e, |l: int| reduce_run::element(mem, at, e, i + l))
}

proof fn elements_are_taken_in(
    fl: Floats,
    f: Arith,
    e: Elem,
    mem: spec_fn(int) -> u8,
    at: int,
    n: int,
    i: int,
    k: int,
)
    requires
        0 <= i,
        0 <= k,
    ensures
        taken_in(
            fl,
            f,
            e,
            in_order(fl, f, e, mem, at, n, i),
            |l: int| reduce_run::element(mem, at, e, i + l),
            k,
        ) == in_order(fl, f, e, mem, at, n, i + k),
    decreases k,
{
    if k > 0 {
        elements_are_taken_in(fl, f, e, mem, at, n, i, k - 1);
    }
}

/// A vector of memory continues the order.
proof fn vector_is_in_order(
    fl: Floats,
    f: Arith,
    e: Elem,
    mem: spec_fn(int) -> u8,
    at: int,
    n: int,
    i: int,
)
    requires
        is_regular(fl, f, e),
        0 <= i,
    ensures
        both(fl, f, e, in_order(fl, f, e, mem, at, n, i), vector(fl, f, e, mem, at, i)) == in_order(
            fl,
            f,
            e,
            mem,
            at,
            n,
            i + reduce_run::lanes(e),
        ),
{
    let x = |l: int| reduce_run::element(mem, at, e, i + l);
    fold_is_in_order(fl, f, e, in_order(fl, f, e, mem, at, n, i), x);
    elements_are_taken_in(fl, f, e, mem, at, n, i, reduce_run::lanes(e));
}

/// The partial results of vector `j`, folded.
pub open spec fn partials(
    fl: Floats,
    f: Arith,
    e: Elem,
    mem: spec_fn(int) -> u8,
    at: int,
    n: int,
    j: int,
    g: int,
) -> Seq<u8> {
    folded(fl, f, e, |l: int| reduce_run::partial(fl, Some(f), e, mem, at, n, j, l, g))
}

/// Partial results of the next group.
proof fn partials_grow(
    fl: Floats,
    f: Arith,
    e: Elem,
    mem: spec_fn(int) -> u8,
    at: int,
    n: int,
    j: int,
    g: int,
)
    requires
        is_regular(fl, f, e),
        0 <= g,
    ensures
        partials(fl, f, e, mem, at, n, j, g + 1) == both(
            fl,
            f,
            e,
            partials(fl, f, e, mem, at, n, j, g),
            vector(
                fl,
                f,
                e,
                mem,
                at,
                reduce_run::group(e) * g + reduce_run::lanes(e) * j,
            ),
        ),
        stays(fl, f, e, start(f, e, mem, at, n)) ==> partials(fl, f, e, mem, at, n, j, 0) == start(
            f,
            e,
            mem,
            at,
            n,
        ),
{
    let i = reduce_run::group(e) * g + reduce_run::lanes(e) * j;
    let x = |l: int| reduce_run::partial(fl, Some(f), e, mem, at, n, j, l, g);
    let y = |l: int| reduce_run::element(mem, at, e, i + l);
    let z = |l: int| reduce_run::partial(fl, Some(f), e, mem, at, n, j, l, g + 1);
    folds_pair_up(fl, f, e, x, y, z);
}

/// Numbers combined from the first on.
pub open spec fn chain(fl: Floats, f: Arith, e: Elem, h: spec_fn(int) -> Seq<u8>, j: int) -> Seq<u8>
    decreases j,
{
    if j <= 0 {
        h(0)
    } else {
        both(fl, f, e, chain(fl, f, e, h, j - 1), h(j))
    }
}

/// Two chains can be combined before or after.
proof fn chains_pair_up(
    fl: Floats,
    f: Arith,
    e: Elem,
    x: spec_fn(int) -> Seq<u8>,
    y: spec_fn(int) -> Seq<u8>,
    z: spec_fn(int) -> Seq<u8>,
    j: int,
)
    requires
        is_regular(fl, f, e),
        0 <= j,
        forall|i: int| 0 <= i <= j ==> #[trigger] z(i) == both(fl, f, e, x(i), y(i)),
    ensures
        chain(fl, f, e, z, j) == both(fl, f, e, chain(fl, f, e, x, j), chain(fl, f, e, y, j)),
    decreases j,
{
    let last = z(j);
    if j > 0 {
        chains_pair_up(fl, f, e, x, y, z, j - 1);
        pairs_up(
            fl,
            f,
            e,
            chain(fl, f, e, x, j - 1),
            chain(fl, f, e, y, j - 1),
            x(j),
            y(j),
        );
    }
}

/// The vectors of one group continue the order.
proof fn group_is_in_order(
    fl: Floats,
    f: Arith,
    e: Elem,
    mem: spec_fn(int) -> u8,
    at: int,
    n: int,
    i: int,
    j: int,
)
    requires
        is_regular(fl, f, e),
        0 <= i,
        0 <= j,
    ensures
        both(
            fl,
            f,
            e,
            in_order(fl, f, e, mem, at, n, i),
            chain(
                fl,
                f,
                e,
                |j: int| vector(fl, f, e, mem, at, i + reduce_run::lanes(e) * j),
                j,
            ),
        ) == in_order(fl, f, e, mem, at, n, i + reduce_run::lanes(e) * (j + 1)),
    decreases j,
{
    let h = |j: int| vector(fl, f, e, mem, at, i + reduce_run::lanes(e) * j);
    let w = reduce_run::lanes(e);
    assert(w * (j + 1) == w * j + w && w * 0 == 0) by (nonlinear_arith);
    assert(0 <= w * j) by (nonlinear_arith)
        requires
            0 <= j,
            0 <= w,
    ;
    if j == 0 {
        vector_is_in_order(fl, f, e, mem, at, n, i);
    } else {
        assert(w * (j - 1 + 1) == w * j);
        group_is_in_order(fl, f, e, mem, at, n, i, j - 1);
        let a = in_order(fl, f, e, mem, at, n, i);
        regroups(fl, f, e, a, chain(fl, f, e, h, j - 1), h(j));
        vector_is_in_order(fl, f, e, mem, at, n, i + w * j);
    }
}

/// All partial results of the first groups, combined.
pub open spec fn all_partials(
    fl: Floats,
    f: Arith,
    e: Elem,
    mem: spec_fn(int) -> u8,
    at: int,
    n: int,
    g: int,
) -> Seq<u8> {
    chain(
        fl,
        f,
        e,
        |j: int| partials(fl, f, e, mem, at, n, j, g),
        reduce_run::lanes(e) - 1,
    )
}

proof fn starts_chain(fl: Floats, f: Arith, e: Elem, b: Seq<u8>, h: spec_fn(int) -> Seq<u8>, j: int)
    requires
        stays(fl, f, e, b),
        0 <= j,
        forall|i: int| 0 <= i <= j ==> #[trigger] h(i) == b,
    ensures
        chain(fl, f, e, h, j) == b,
    decreases j,
{
    let last = h(j);
    if j > 0 {
        starts_chain(fl, f, e, b, h, j - 1);
    }
}

/// The groups are in order.
proof fn groups_are_in_order(
    fl: Floats,
    f: Arith,
    e: Elem,
    mem: spec_fn(int) -> u8,
    at: int,
    n: int,
    g: int,
)
    requires
        is_regular(fl, f, e),
        stays(fl, f, e, start(f, e, mem, at, n)),
        0 <= g,
    ensures
        all_partials(fl, f, e, mem, at, n, g) == in_order(fl, f, e, mem, at, n, reduce_run::group(e) * g),
    decreases g,
{
    let w = reduce_run::lanes(e);
    let m = reduce_run::group(e);
    assert(m == w * (w - 1 + 1));
    if g == 0 {
        assert(m * 0 == 0) by (nonlinear_arith);
        let h = |j: int| partials(fl, f, e, mem, at, n, j, 0);
        assert forall|j: int| 0 <= j <= w - 1 implies #[trigger] h(j) == start(f, e, mem, at, n) by {
            partials_grow(fl, f, e, mem, at, n, j, 0);
        }
        starts_chain(fl, f, e, start(f, e, mem, at, n), h, w - 1);
    } else {
        let k = g - 1;
        groups_are_in_order(fl, f, e, mem, at, n, k);
        let i = m * k;
        assert(m * g == i + m) by (nonlinear_arith)
            requires
                i == m * k,
                g == k + 1,
        ;
        assert(0 <= i) by (nonlinear_arith)
            requires
                i == m * k,
                0 <= m,
                0 <= k,
        ;
        let x = |j: int| partials(fl, f, e, mem, at, n, j, k);
        let y = |j: int| vector(fl, f, e, mem, at, i + reduce_run::lanes(e) * j);
        let z = |j: int| partials(fl, f, e, mem, at, n, j, g);
        assert forall|j: int| 0 <= j <= w - 1 implies #[trigger] z(j) == both(fl, f, e, x(j), y(j))
            by {
            partials_grow(fl, f, e, mem, at, n, j, k);
        }
        chains_pair_up(fl, f, e, x, y, z, w - 1);
        group_is_in_order(fl, f, e, mem, at, n, i, w - 1);
    }
}

/// What is taken into the first of a chain could be taken in last.
proof fn first_comes_last(
    fl: Floats,
    f: Arith,
    e: Elem,
    x: spec_fn(int) -> Seq<u8>,
    y: spec_fn(int) -> Seq<u8>,
    w: Seq<u8>,
    j: int,
)
    requires
        is_regular(fl, f, e),
        0 <= j,
        y(0) == both(fl, f, e, x(0), w),
        forall|i: int| 0 < i <= j ==> #[trigger] y(i) == x(i),
    ensures
        chain(fl, f, e, y, j) == both(fl, f, e, chain(fl, f, e, x, j), w),
    decreases j,
{
    let last = y(j);
    if j > 0 {
        first_comes_last(fl, f, e, x, y, w, j - 1);
        exchanges(fl, f, e, chain(fl, f, e, x, j - 1), w, x(j));
    }
}

/// The first vector of partial results with the vectors behind the groups, folded.
pub open spec fn first_folded(
    fl: Floats,
    f: Arith,
    e: Elem,
    mem: spec_fn(int) -> u8,
    at: int,
    n: int,
    groups: int,
    k: int,
) -> Seq<u8> {
    folded(fl, f, e, |l: int| reduce_run::with_vectors(fl, Some(f), e, mem, at, n, groups, l, k))
}

proof fn first_grows(
    fl: Floats,
    f: Arith,
    e: Elem,
    mem: spec_fn(int) -> u8,
    at: int,
    n: int,
    groups: int,
    k: int,
)
    requires
        is_regular(fl, f, e),
        0 <= k,
    ensures
        first_folded(fl, f, e, mem, at, n, groups, k + 1) == both(
            fl,
            f,
            e,
            first_folded(fl, f, e, mem, at, n, groups, k),
            vector(
                fl,
                f,
                e,
                mem,
                at,
                reduce_run::group(e) * groups + reduce_run::lanes(e) * k,
            ),
        ),
{
    let i = reduce_run::group(e) * groups + reduce_run::lanes(e) * k;
    let x = |l: int| reduce_run::with_vectors(fl, Some(f), e, mem, at, n, groups, l, k);
    let y = |l: int| reduce_run::element(mem, at, e, i + l);
    let z = |l: int| reduce_run::with_vectors(fl, Some(f), e, mem, at, n, groups, l, k + 1);
    folds_pair_up(fl, f, e, x, y, z);
}

/// The registers with the first one folded in, combined.
pub open spec fn registers(
    fl: Floats,
    f: Arith,
    e: Elem,
    mem: spec_fn(int) -> u8,
    at: int,
    n: int,
    groups: int,
    k: int,
) -> Seq<u8> {
    chain(
        fl,
        f,
        e,
        |j: int|
            if j == 0 {
                first_folded(fl, f, e, mem, at, n, groups, k)
            } else {
                partials(fl, f, e, mem, at, n, j, groups)
            },
        reduce_run::lanes(e) - 1,
    )
}

/// The vectors behind the groups are in order.
proof fn vectors_are_in_order(
    fl: Floats,
    f: Arith,
    e: Elem,
    mem: spec_fn(int) -> u8,
    at: int,
    n: int,
    groups: int,
    k: int,
)
    requires
        is_regular(fl, f, e),
        stays(fl, f, e, start(f, e, mem, at, n)),
        0 <= groups,
        0 <= k,
    ensures
        registers(fl, f, e, mem, at, n, groups, k) == in_order(
            fl,
            f,
            e,
            mem,
            at,
            n,
            reduce_run::group(e) * groups + reduce_run::lanes(e) * k,
        ),
    decreases k,
{
    let w = reduce_run::lanes(e);
    let m = reduce_run::group(e);
    let y = |j: int|
        if j == 0 {
            first_folded(fl, f, e, mem, at, n, groups, k)
        } else {
            partials(fl, f, e, mem, at, n, j, groups)
        };
    if k == 0 {
        let x = |j: int| partials(fl, f, e, mem, at, n, j, groups);
        assert(w * 0 == 0) by (nonlinear_arith);
        groups_are_in_order(fl, f, e, mem, at, n, groups);
        let a = |l: int| reduce_run::with_vectors(fl, Some(f), e, mem, at, n, groups, l, 0);
        let b = |l: int| reduce_run::partial(fl, Some(f), e, mem, at, n, 0, l, groups);
        assert(folded(fl, f, e, a) == folded(fl, f, e, b));
        assert forall|j: int| 0 <= j <= w - 1 implies #[trigger] x(j) == y(j) by {}
        same_chain(fl, f, e, x, y, w - 1);
    } else {
        let i = m * groups + w * (k - 1);
        assert(m * groups + w * k == i + w) by (nonlinear_arith)
            requires
                i == m * groups + w * (k - 1),
        ;
        assert(0 <= i) by (nonlinear_arith)
            requires
                i == m * groups + w * (k - 1),
                0 <= m,
                0 <= groups,
                0 <= w,
                1 <= k,
        ;
        vectors_are_in_order(fl, f, e, mem, at, n, groups, k - 1);
        first_grows(fl, f, e, mem, at, n, groups, k - 1);
        let x = |j: int|
            if j == 0 {
                first_folded(fl, f, e, mem, at, n, groups, k - 1)
            } else {
                partials(fl, f, e, mem, at, n, j, groups)
            };
        first_comes_last(fl, f, e, x, y, vector(fl, f, e, mem, at, i), w - 1);
        vector_is_in_order(fl, f, e, mem, at, n, i);
    }
}

proof fn same_chain(
    fl: Floats,
    f: Arith,
    e: Elem,
    x: spec_fn(int) -> Seq<u8>,
    y: spec_fn(int) -> Seq<u8>,
    j: int,
)
    requires
        0 <= j,
        forall|i: int| 0 <= i <= j ==> #[trigger] x(i) == y(i),
    ensures
        chain(fl, f, e, x, j) == chain(fl, f, e, y, j),
    decreases j,
{
    let last = x(j);
    if j > 0 {
        same_chain(fl, f, e, x, y, j - 1);
    }
}

/// The registers folded before or after they are combined.
proof fn registers_are_folded(
    fl: Floats,
    f: Arith,
    e: Elem,
    mem: spec_fn(int) -> u8,
    at: int,
    n: int,
    j: int,
)
    requires
        is_regular(fl, f, e),
        0 <= j,
    ensures
        folded(
            fl,
            f,
            e,
            |l: int| reduce_run::with_partials(fl, Some(f), e, mem, at, n, l, j),
        ) == chain(
            fl,
            f,
            e,
            |i: int|
                if i == 0 {
                    first_folded(
                        fl,
                        f,
                        e,
                        mem,
                        at,
                        n,
                        reduce_run::groups_of(e, n),
                        reduce_run::vectors_of(e, n),
                    )
                } else {
                    partials(fl, f, e, mem, at, n, i, reduce_run::groups_of(e, n))
                },
            j,
        ),
    decreases j,
{
    let z = |l: int| reduce_run::with_partials(fl, Some(f), e, mem, at, n, l, j);
    let groups = reduce_run::groups_of(e, n);
    let vectors = reduce_run::vectors_of(e, n);
    if j == 0 {
        let a = |l: int|
            reduce_run::with_vectors(fl, Some(f), e, mem, at, n, groups, l, vectors);
        assert(folded(fl, f, e, z) == folded(fl, f, e, a));
    } else {
        registers_are_folded(fl, f, e, mem, at, n, j - 1);
        let x = |l: int| reduce_run::with_partials(fl, Some(f), e, mem, at, n, l, j - 1);
        let y = |l: int| reduce_run::partial(fl, Some(f), e, mem, at, n, j, l, groups);
        folds_pair_up(fl, f, e, x, y, z);
    }
}

proof fn rest_is_in_order(
    fl: Floats,
    f: Arith,
    e: Elem,
    mem: spec_fn(int) -> u8,
    at: int,
    n: int,
    i: int,
)
    requires
        is_regular(fl, f, e),
        stays(fl, f, e, start(f, e, mem, at, n)),
        0 <= n,
        reduce_run::taken(e, n) <= i,
    ensures
        reduce_run::reduced(fl, Some(f), e, mem, at, n, i) == in_order(fl, f, e, mem, at, n, i),
    decreases i - reduce_run::taken(e, n),
{
    let groups = reduce_run::groups_of(e, n);
    let vectors = reduce_run::vectors_of(e, n);
    if i == reduce_run::taken(e, n) {
        registers_are_folded(fl, f, e, mem, at, n, reduce_run::lanes(e) - 1);
        vectors_are_in_order(fl, f, e, mem, at, n, groups, vectors);
    } else {
        rest_is_in_order(fl, f, e, mem, at, n, i - 1);
        assert(0 <= reduce_run::taken(e, n)) by (nonlinear_arith)
            requires
                reduce_run::taken(e, n) == reduce_run::group(e) * groups + reduce_run::lanes(e)
                    * vectors,
                0 <= reduce_run::group(e),
                0 <= reduce_run::lanes(e),
                0 <= groups,
                0 <= vectors,
        ;
    }
}

/// Where combining is associative and commutative, and leaves what the reduction starts from when
/// that is combined with itself, a reduction is what the elements give when they are taken in one
/// by one.
pub proof fn reduction_is_in_order(
    fl: Floats,
    f: Arith,
    e: Elem,
    mem: spec_fn(int) -> u8,
    at: int,
    n: int,
)
    requires
        is_regular(fl, f, e),
        stays(fl, f, e, start(f, e, mem, at, n)),
        0 <= n,
    ensures
        reduce_run::reduction(fl, Some(f), e, mem, at, n) == in_order(fl, f, e, mem, at, n, n),
{
    assert(reduce_run::taken(e, n) <= n) by {
        match e {
            Elem::F32 => {
                assert(reduce_run::taken(e, n) == 64 * reduce_run::groups_of(e, n) + 8
                    * reduce_run::vectors_of(e, n));
            },
            Elem::F64 => {
                assert(reduce_run::taken(e, n) == 16 * reduce_run::groups_of(e, n) + 4
                    * reduce_run::vectors_of(e, n));
            },
        }
    }
    rest_is_in_order(fl, f, e, mem, at, n, n);
}

} // verus!
