//! The matrix product row by row.

use crate::x86_emitter::isa::ISALevel;
use vstd::prelude::*;

verus! {

/// `sums` are the running totals of one element of the product: from zero, each product of an
/// element of `a` and one of `b` is added by `f`.
pub open spec fn is_sum<T, F: Fn(T, T, T) -> T>(
    f: F,
    a: Seq<T>,
    b: Seq<T>,
    i: int,
    j: int,
    n: int,
    k: int,
    count: int,
    zero: T,
    sums: Seq<T>,
) -> bool {
    &&& sums.len() == count + 1
    &&& sums[0] == zero
    &&& forall|s: int|
        0 <= s < count ==> #[trigger] f.ensures((sums[s], a[i * k + s], b[s * n + j]), sums[s + 1])
}

/// `v` is the element of the product in row `i` and column `j`, up to inner index `count`.
pub open spec fn is_element<T, F: Fn(T, T, T) -> T>(
    f: F,
    a: Seq<T>,
    b: Seq<T>,
    i: int,
    j: int,
    n: int,
    k: int,
    count: int,
    zero: T,
    v: T,
) -> bool {
    exists|sums: Seq<T>| #[trigger]
        is_sum(f, a, b, i, j, n, k, count, zero, sums) && v == sums.last()
}

/// Row `i` of the product of `a`, with rows of `k`, and `b`, with rows of `n`. `f` adds the
/// product of its last two arguments to its first.
pub fn matmul_row<T: Copy, F: Fn(T, T, T) -> T>(
    a: &[T],
    b: &[T],
    i: usize,
    n: usize,
    k: usize,
    zero: T,
    f: &F,
) -> (r: Vec<T>)
    requires
        (i + 1) * k <= a@.len(),
        k * n <= b@.len(),
        forall|x: T, y: T, z: T| #[trigger] f.requires((x, y, z)),
    ensures
        r@.len() == n,
        forall|j: int|
            0 <= j < n ==> is_element(
                *f,
                a@,
                b@,
                i as int,
                j,
                n as int,
                k as int,
                k as int,
                zero,
                #[trigger] r@[j],
            ),
{
    let mut row: Vec<T> = Vec::new();
    let mut j: usize = 0;
    while j < n
        invariant
            j <= n,
            row@.len() == j,
            forall|c: int| 0 <= c < j ==> #[trigger] row@[c] == zero,
        decreases n - j,
    {
        row.push(zero);
        j += 1;
    }
    proof {
        assert forall|c: int| 0 <= c < n implies is_element(
            *f,
            a@,
            b@,
            i as int,
            c,
            n as int,
            k as int,
            0,
            zero,
            #[trigger] row@[c],
        ) by {
            let sums = seq![zero];
            assert(is_sum(*f, a@, b@, i as int, c, n as int, k as int, 0, zero, sums));
        }
    }
    let a_len: usize = a.len();
    let b_len: usize = b.len();
    let mut kk: usize = 0;
    while kk < k
        invariant
            kk <= k,
            a_len == a@.len(),
            b_len == b@.len(),
            (i + 1) * k <= a@.len(),
            k * n <= b@.len(),
            row@.len() == n,
            forall|x: T, y: T, z: T| #[trigger] f.requires((x, y, z)),
            forall|c: int|
                0 <= c < n ==> is_element(
                    *f,
                    a@,
                    b@,
                    i as int,
                    c,
                    n as int,
                    k as int,
                    kk as int,
                    zero,
                    #[trigger] row@[c],
                ),
        decreases k - kk,
    {
        assert(0 <= i * k && i * k + kk < (i + 1) * k) by (nonlinear_arith)
            requires
                0 <= kk < k,
                0 <= i,
        ;
        let x: T = a[i * k + kk];
        let mut j: usize = 0;
        while j < n
            invariant
                j <= n,
                kk < k,
                a_len == a@.len(),
                b_len == b@.len(),
                i * k + kk < a@.len(),
                x == a@[i * k + kk],
                k * n <= b@.len(),
                row@.len() == n,
                forall|x: T, y: T, z: T| #[trigger] f.requires((x, y, z)),
                forall|c: int|
                    0 <= c < j ==> is_element(
                        *f,
                        a@,
                        b@,
                        i as int,
                        c,
                        n as int,
                        k as int,
                        kk + 1,
                        zero,
                        #[trigger] row@[c],
                    ),
                forall|c: int|
                    j <= c < n ==> is_element(
                        *f,
                        a@,
                        b@,
                        i as int,
                        c,
                        n as int,
                        k as int,
                        kk as int,
                        zero,
                        #[trigger] row@[c],
                    ),
            decreases n - j,
        {
            assert(0 <= kk * n && kk * n + j < k * n) by (nonlinear_arith)
                requires
                    0 <= kk < k,
                    0 <= j < n,
            ;
            let old_value: T = row[j];
            let v: T = f(old_value, x, b[kk * n + j]);
            proof {
                let sums = choose|sums: Seq<T>| #[trigger]
                    is_sum(
                        *f,
                        a@,
                        b@,
                        i as int,
                        j as int,
                        n as int,
                        k as int,
                        kk as int,
                        zero,
                        sums,
                    ) && old_value == sums.last();
                let more = sums.push(v);
                assert forall|s: int| 0 <= s < kk + 1 implies #[trigger] f.ensures(
                    (more[s], a@[i * k + s], b@[s * n + j]),
                    more[s + 1],
                ) by {
                    if s < kk {
                        assert(more[s] == sums[s] && more[s + 1] == sums[s + 1]);
                        assert(f.ensures(
                            (sums[s], a@[i * k + s], b@[s * n + j]),
                            sums[s + 1],
                        ));
                    } else {
                        assert(more[s] == sums.last());
                    }
                }
                assert(is_sum(
                    *f,
                    a@,
                    b@,
                    i as int,
                    j as int,
                    n as int,
                    k as int,
                    kk + 1,
                    zero,
                    more,
                ));
            }
            row.set(j, v);
            j += 1;
        }
        kk += 1;
    }
    row
}

/// How a product is computed.
#[derive(Debug, Clone, Copy, PartialEq, Eq, Structural)]
pub enum MatmulPath {
    /// There is nothing to compute.
    Nothing,
    /// By a kernel for the dimensions; row by row where that cannot be had.
    Kernel,
    /// Row by row.
    Rows,
}

/// The way for the given instruction set and dimensions.
#[verifier::allow_in_spec]
pub fn matmul_path(level: ISALevel, m: usize, n: usize, k: usize) -> MatmulPath
    returns
        (if m == 0 || n == 0 || k == 0 {
            MatmulPath::Nothing
        } else if level == ISALevel::AVX512 && n >= 64 {
            MatmulPath::Kernel
        } else {
            MatmulPath::Rows
        }),
{
    if m == 0 || n == 0 || k == 0 {
        MatmulPath::Nothing
    } else if level == ISALevel::AVX512 && n >= 64 {
        MatmulPath::Kernel
    } else {
        MatmulPath::Rows
    }
}

} // verus!
