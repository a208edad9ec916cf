//! Reductions that pick an element: the result is one of the elements, and none comes behind it.

use crate::x86_emitter::inst::{Arith, Elem};
use crate::x86_emitter::machine::Floats;
use crate::x86_emitter::reduce;
use crate::x86_emitter::reduce_run;
use vstd::prelude::*;

verus! {

/// An order of the elements that are numbers.
pub struct Order {
    /// Whether an element is a number.
    pub is_number: spec_fn(Seq<u8>) -> bool,
    /// Whether the first of two numbers does not come behind the second.
    pub not_behind: spec_fn(Seq<u8>, Seq<u8>) -> bool,
}

/// Combining two numbers picks the one that comes behind the other.
#[verifier::opaque]
pub open spec fn picks(fl: Floats, f: Arith, e: Elem, o: Order) -> bool {
    &&& forall|x: Seq<u8>| #[trigger] (o.is_number)(x) ==> (o.not_behind)(x, x)
    &&& forall|x: Seq<u8>, y: Seq<u8>, z: Seq<u8>|
        #![trigger (o.not_behind)(x, y), (o.not_behind)(y, z)]
        (o.is_number)(x) && (o.is_number)(y) && (o.is_number)(z) && (o.not_behind)(x, y) && (
        o.not_behind)(y, z) ==> (o.not_behind)(x, z)
    &&& forall|x: Seq<u8>, y: Seq<u8>|
        (o.is_number)(x) && (o.is_number)(y) ==> {
            let c = #[trigger] reduce_run::combined(fl, Some(f), e, x, y);
            (c == x || c == y) && (o.not_behind)(x, c) && (o.not_behind)(y, c)
        }
}

/// A reduction of an array.
struct Task {
    fl: Floats,
    f: Arith,
    e: Elem,
    o: Order,
    mem: spec_fn(int) -> u8,
    at: int,
    n: int,
}

impl Task {
    spec fn element(self, i: int) -> Seq<u8> {
        reduce_run::element(self.mem, self.at, self.e, i)
    }

    spec fn both(self, x: Seq<u8>, y: Seq<u8>) -> Seq<u8> {
        reduce_run::combined(self.fl, Some(self.f), self.e, x, y)
    }

    spec fn partial(self, j: int, l: int, g: int) -> Seq<u8> {
        reduce_run::partial(self.fl, Some(self.f), self.e, self.mem, self.at, self.n, j, l, g)
    }

    spec fn with_vectors(self, l: int, k: int) -> Seq<u8> {
        reduce_run::with_vectors(
            self.fl,
            Some(self.f),
            self.e,
            self.mem,
            self.at,
            self.n,
            self.groups(),
            l,
            k,
        )
    }

    spec fn with_partials(self, l: int, j: int) -> Seq<u8> {
        reduce_run::with_partials(
            self.fl,
            Some(self.f),
            self.e,
            self.mem,
            self.at,
            self.n,
            l,
            j,
        )
    }

    spec fn reduced(self, i: int) -> Seq<u8> {
        reduce_run::reduced(self.fl, Some(self.f), self.e, self.mem, self.at, self.n, i)
    }

    spec fn groups(self) -> int {
        reduce_run::groups_of(self.e, self.n)
    }

    spec fn vectors(self) -> int {
        reduce_run::vectors_of(self.e, self.n)
    }

    /// The place of element `l` of vector `j` of group `g`.
    spec fn place(self, g: int, j: int, l: int) -> int {
        reduce_run::group(self.e) * g + reduce_run::lanes(self.e) * j + l
    }

    /// The array has elements, all are numbers, and combining picks one of two.
    spec fn is_ready(self) -> bool {
        &&& reduce::is_choice(Some(self.f))
        &&& 0 < self.n
        &&& picks(self.fl, self.f, self.e, self.o)
        &&& forall|i: int| 0 <= i < self.n ==> (self.o.is_number)(#[trigger] self.element(i))
    }

    /// One of the elements.
    spec fn is_element(self, x: Seq<u8>) -> bool {
        exists|i: int| 0 <= i < self.n && x == #[trigger] self.element(i)
    }

    /// Both are elements, and the first does not come behind the second.
    spec fn is_past(self, x: Seq<u8>, y: Seq<u8>) -> bool {
        self.is_element(x) && self.is_element(y) && (self.o.not_behind)(x, y)
    }

    proof fn stays(self, x: Seq<u8>)
        requires
            self.is_ready(),
            self.is_element(x),
        ensures
            self.is_past(x, x),
    {
        reveal(picks);
        let i = choose|i: int| 0 <= i < self.n && x == #[trigger] self.element(i);
        assert((self.o.is_number)(self.element(i)));
    }

    proof fn goes_past(self, x: Seq<u8>, y: Seq<u8>, z: Seq<u8>)
        requires
            self.is_ready(),
            self.is_past(x, y),
            self.is_past(y, z),
        ensures
            self.is_past(x, z),
    {
        reveal(picks);
        let i = choose|i: int| 0 <= i < self.n && x == #[trigger] self.element(i);
        let j = choose|i: int| 0 <= i < self.n && y == #[trigger] self.element(i);
        let k = choose|i: int| 0 <= i < self.n && z == #[trigger] self.element(i);
        assert((self.o.is_number)(self.element(i)));
        assert((self.o.is_number)(self.element(j)));
        assert((self.o.is_number)(self.element(k)));
    }

    proof fn is_picked(self, x: Seq<u8>, y: Seq<u8>)
        requires
            self.is_ready(),
            self.is_element(x),
            self.is_element(y),
        ensures
            self.is_past(x, self.both(x, y)),
            self.is_past(y, self.both(x, y)),
    {
        reveal(picks);
        let i = choose|i: int| 0 <= i < self.n && x == #[trigger] self.element(i);
        let j = choose|i: int| 0 <= i < self.n && y == #[trigger] self.element(i);
        assert((self.o.is_number)(self.element(i)));
        assert((self.o.is_number)(self.element(j)));
    }

    proof fn is_there(self, i: int)
        requires
            0 <= i < self.n,
        ensures
            self.is_element(self.element(i)),
    {
    }

    /// The places of the groups and of the vectors behind them.
    proof fn is_placed(self, g: int, j: int, l: int)
        requires
            self.is_ready(),
            0 <= l < reduce_run::lanes(self.e),
            0 <= j < reduce_run::lanes(self.e),
            0 <= g < self.groups() || (g == self.groups() && j < self.vectors()),
        ensures
            0 <= self.place(g, j, l) < self.n,
            self.is_element(self.element(self.place(g, j, l))),
    {
        let i = self.place(g, j, l);
        match self.e {
            Elem::F32 => {
                assert(i == 64 * g + 8 * j + l);
            },
            Elem::F64 => {
                assert(i == 16 * g + 4 * j + l);
            },
        }
        self.is_there(i);
    }

    proof fn partial_is_past(self, j: int, l: int, g: int)
        requires
            self.is_ready(),
            0 <= l < reduce_run::lanes(self.e),
            0 <= j < reduce_run::lanes(self.e),
            0 <= g <= self.groups(),
        ensures
            self.is_element(self.partial(j, l, g)),
            forall|h: int|
                0 <= h < g ==> self.is_past(
                    self.element(#[trigger] self.place(h, j, l)),
                    self.partial(j, l, g),
                ),
        decreases g,
    {
        if g == 0 {
            self.is_there(0);
        } else {
            let old = self.partial(j, l, g - 1);
            let new = self.partial(j, l, g);
            let last = self.element(self.place(g - 1, j, l));
            self.partial_is_past(j, l, g - 1);
            self.is_placed(g - 1, j, l);
            self.is_picked(old, last);
            assert(new == self.both(old, last));
            assert forall|h: int| 0 <= h < g implies self.is_past(
                self.element(#[trigger] self.place(h, j, l)),
                new,
            ) by {
                if h < g - 1 {
                    self.goes_past(self.element(self.place(h, j, l)), old, new);
                }
            }
        }
    }

    proof fn vectors_are_past(self, l: int, k: int)
        requires
            self.is_ready(),
            0 <= l < reduce_run::lanes(self.e),
            0 <= k <= self.vectors(),
        ensures
            self.is_past(self.partial(0, l, self.groups()), self.with_vectors(l, k)),
            forall|h: int|
                0 <= h < k ==> self.is_past(
                    self.element(#[trigger] self.place(self.groups(), h, l)),
                    self.with_vectors(l, k),
                ),
        decreases k,
    {
        let first = self.partial(0, l, self.groups());
        self.partial_is_past(0, l, self.groups());
        if k == 0 {
            self.stays(first);
        } else {
            let old = self.with_vectors(l, k - 1);
            let new = self.with_vectors(l, k);
            let last = self.element(self.place(self.groups(), k - 1, l));
            self.vectors_are_past(l, k - 1);
            self.vectors_are_few();
            self.is_placed(self.groups(), k - 1, l);
            self.is_picked(old, last);
            assert(new == self.both(old, last));
            self.goes_past(first, old, new);
            assert forall|h: int| 0 <= h < k implies self.is_past(
                self.element(#[trigger] self.place(self.groups(), h, l)),
                new,
            ) by {
                if h < k - 1 {
                    self.goes_past(self.element(self.place(self.groups(), h, l)), old, new);
                }
            }
        }
    }

    proof fn vectors_are_few(self)
        requires
            0 < self.n,
        ensures
            0 <= self.vectors() < reduce_run::lanes(self.e),
            0 <= self.groups(),
    {
        match self.e {
            Elem::F32 => {},
            Elem::F64 => {},
        }
    }

    proof fn partials_are_past(self, l: int, j: int)
        requires
            self.is_ready(),
            0 <= l < reduce_run::lanes(self.e),
            0 <= j < reduce_run::lanes(self.e),
        ensures
            self.is_past(self.with_vectors(l, self.vectors()), self.with_partials(l, j)),
            forall|h: int|
                0 < h <= j ==> self.is_past(
                    #[trigger] self.partial(h, l, self.groups()),
                    self.with_partials(l, j),
                ),
        decreases j,
    {
        let first = self.with_vectors(l, self.vectors());
        self.vectors_are_few();
        self.vectors_are_past(l, self.vectors());
        if j == 0 {
            self.stays(first);
        } else {
            let old = self.with_partials(l, j - 1);
            let new = self.with_partials(l, j);
            let last = self.partial(j, l, self.groups());
            self.partials_are_past(l, j - 1);
            self.partial_is_past(j, l, self.groups());
            self.is_picked(old, last);
            assert(new == self.both(old, last));
            self.goes_past(first, old, new);
            assert forall|h: int| 0 < h <= j implies self.is_past(
                #[trigger] self.partial(h, l, self.groups()),
                new,
            ) by {
                if h < j {
                    self.goes_past(self.partial(h, l, self.groups()), old, new);
                }
            }
        }
    }

    proof fn fold_is_past(self, x: spec_fn(int) -> Seq<u8>)
        requires
            self.is_ready(),
            forall|l: int|
                0 <= l < reduce_run::lanes(self.e) ==> self.is_element(#[trigger] x(l)),
        ensures
            forall|l: int|
                0 <= l < reduce_run::lanes(self.e) ==> self.is_past(
                    #[trigger] x(l),
                    reduce_run::folded(self.fl, Some(self.f), self.e, x),
                ),
    {
        match self.e {
            Elem::F32 => {
                let (x04, x26) = (self.both(x(0), x(4)), self.both(x(2), x(6)));
                let (x15, x37) = (self.both(x(1), x(5)), self.both(x(3), x(7)));
                let (even, odd) = (self.both(x04, x26), self.both(x15, x37));
                let all = self.both(even, odd);
                assert(all == reduce_run::folded(self.fl, Some(self.f), self.e, x));
                assert(self.is_element(x(0)) && self.is_element(x(1)) && self.is_element(x(2)));
                assert(self.is_element(x(3)) && self.is_element(x(4)) && self.is_element(x(5)));
                assert(self.is_element(x(6)) && self.is_element(x(7)));
                self.is_picked(x(0), x(4));
                self.is_picked(x(2), x(6));
                self.is_picked(x(1), x(5));
                self.is_picked(x(3), x(7));
                self.is_picked(x04, x26);
                self.is_picked(x15, x37);
                self.is_picked(even, odd);
                assert forall|l: int| 0 <= l < 8 implies self.is_past(#[trigger] x(l), all) by {
                    let pair = if l % 4 == 0 {
                        x04
                    } else if l % 4 == 2 {
                        x26
                    } else if l % 4 == 1 {
                        x15
                    } else {
                        x37
                    };
                    let half = if l % 2 == 0 {
                        even
                    } else {
                        odd
                    };
                    self.goes_past(x(l), pair, half);
                    self.goes_past(x(l), half, all);
                }
            },
            Elem::F64 => {
                let (x02, x13) = (self.both(x(0), x(2)), self.both(x(1), x(3)));
                let all = self.both(x02, x13);
                assert(all == reduce_run::folded(self.fl, Some(self.f), self.e, x));
                assert(self.is_element(x(0)) && self.is_element(x(1)));
                assert(self.is_element(x(2)) && self.is_element(x(3)));
                self.is_picked(x(0), x(2));
                self.is_picked(x(1), x(3));
                self.is_picked(x02, x13);
                assert forall|l: int| 0 <= l < 4 implies self.is_past(#[trigger] x(l), all) by {
                    let pair = if l % 2 == 0 {
                        x02
                    } else {
                        x13
                    };
                    self.goes_past(x(l), pair, all);
                }
            },
        }
    }

    /// The elements that are taken in vectors do not come behind the result of the vectors.
    proof fn taken_are_past(self, i: int)
        requires
            self.is_ready(),
            0 <= i < reduce_run::taken(self.e, self.n),
        ensures
            self.is_past(
                self.element(i),
                self.reduced(reduce_run::taken(self.e, self.n)),
            ),
    {
        let w = reduce_run::lanes(self.e);
        let m = reduce_run::group(self.e);
        let all = self.reduced(reduce_run::taken(self.e, self.n));
        self.fold_of_all_is_past();
        self.vectors_are_few();
        let g = i / m;
        let j = i % m / w;
        let l = i % w;
        self.place_is_found(i);
        let lane = self.with_partials(l, w - 1);
        self.partials_are_past(l, w - 1);
        self.vectors_are_past(l, self.vectors());
        assert(self.is_past(lane, all));
        let first = self.with_vectors(l, self.vectors());
        if g < self.groups() {
            let part = self.partial(j, l, self.groups());
            self.partial_is_past(j, l, self.groups());
            assert(self.is_past(self.element(self.place(g, j, l)), part));
            if j == 0 {
                self.goes_past(self.element(i), part, first);
                self.goes_past(self.element(i), first, lane);
            } else {
                self.goes_past(self.element(i), part, lane);
            }
        } else {
            assert(self.is_past(self.element(self.place(self.groups(), j, l)), first));
            self.goes_past(self.element(i), first, lane);
        }
        self.goes_past(self.element(i), lane, all);
    }

    /// Every element that is taken in vectors has its place in one.
    proof fn place_is_found(self, i: int)
        requires
            0 < self.n,
            0 <= i < reduce_run::taken(self.e, self.n),
        ensures
            ({
                let w = reduce_run::lanes(self.e);
                let g = i / reduce_run::group(self.e);
                let j = i % reduce_run::group(self.e) / w;
                let l = i % w;
                &&& i == self.place(g, j, l)
                &&& 0 <= g
                &&& 0 <= j < w
                &&& 0 <= l < w
                &&& g < self.groups() || (g == self.groups() && j < self.vectors())
            }),
    {
        match self.e {
            Elem::F32 => {
                assert(reduce_run::taken(self.e, self.n) == 64 * self.groups() + 8
                    * self.vectors());
                assert(self.place(i / 64, i % 64 / 8, i % 8) == 64 * (i / 64) + 8 * (i % 64 / 8) + i
                    % 8);
            },
            Elem::F64 => {
                assert(reduce_run::taken(self.e, self.n) == 16 * self.groups() + 4
                    * self.vectors());
                assert(self.place(i / 16, i % 16 / 4, i % 4) == 16 * (i / 16) + 4 * (i % 16 / 4) + i
                    % 4);
            },
        }
    }

    /// The places of the first register do not come behind the result of the vectors.
    proof fn fold_of_all_is_past(self)
        requires
            self.is_ready(),
        ensures
            forall|l: int|
                0 <= l < reduce_run::lanes(self.e) ==> self.is_past(
                    #[trigger] self.with_partials(l, reduce_run::lanes(self.e) - 1),
                    self.reduced(reduce_run::taken(self.e, self.n)),
                ),
    {
        let w = reduce_run::lanes(self.e);
        let x = |l: int|
            reduce_run::with_partials(
                self.fl,
                Some(self.f),
                self.e,
                self.mem,
                self.at,
                self.n,
                l,
                reduce_run::lanes(self.e) - 1,
            );
        assert forall|l: int| 0 <= l < w implies self.is_element(#[trigger] x(l)) by {
            self.partials_are_past(l, w - 1);
            assert(x(l) == self.with_partials(l, w - 1));
        }
        self.fold_is_past(x);
        assert forall|l: int| 0 <= l < w implies self.is_past(
            #[trigger] self.with_partials(l, w - 1),
            self.reduced(reduce_run::taken(self.e, self.n)),
        ) by {
            assert(x(l) == self.with_partials(l, w - 1));
        }
    }

    proof fn rest_is_past(self, i: int)
        requires
            self.is_ready(),
            reduce_run::taken(self.e, self.n) <= i <= self.n,
        ensures
            self.is_element(self.reduced(i)),
            forall|h: int|
                0 <= h < i ==> self.is_past(#[trigger] self.element(h), self.reduced(i)),
        decreases i,
    {
        let taken = reduce_run::taken(self.e, self.n);
        if i == taken {
            self.fold_of_all_is_past();
            assert(self.is_past(
                self.with_partials(0, reduce_run::lanes(self.e) - 1),
                self.reduced(taken),
            ));
            assert forall|h: int| 0 <= h < i implies self.is_past(
                #[trigger] self.element(h),
                self.reduced(i),
            ) by {
                self.taken_are_past(h);
            }
        } else {
            let old = self.reduced(i - 1);
            let new = self.reduced(i);
            self.some_are_taken();
            self.rest_is_past(i - 1);
            self.is_there(i - 1);
            self.is_picked(old, self.element(i - 1));
            assert(new == self.both(old, self.element(i - 1)));
            assert forall|h: int| 0 <= h < i implies self.is_past(
                #[trigger] self.element(h),
                new,
            ) by {
                if h < i - 1 {
                    self.goes_past(self.element(h), old, new);
                }
            }
        }
    }

    proof fn some_are_taken(self)
        requires
            0 < self.n,
        ensures
            0 <= reduce_run::taken(self.e, self.n) <= self.n,
    {
        match self.e {
            Elem::F32 => {
                assert(reduce_run::taken(self.e, self.n) == 64 * self.groups() + 8
                    * self.vectors());
            },
            Elem::F64 => {
                assert(reduce_run::taken(self.e, self.n) == 16 * self.groups() + 4
                    * self.vectors());
            },
        }
    }
}

/// Where the operation picks the number that comes behind the other, the reduction of an array of
/// numbers is one of its elements, and no element comes behind it. With numbers in ascending order
/// this is the largest element, and in descending order the smallest.
pub proof fn last_element_is_found(
    fl: Floats,
    f: Arith,
    e: Elem,
    o: Order,
    mem: spec_fn(int) -> u8,
    at: int,
    n: int,
)
    requires
        f == Arith::Max || f == Arith::Min,
        picks(fl, f, e, o),
        0 < n,
        forall|i: int|
            0 <= i < n ==> (o.is_number)(#[trigger] reduce_run::element(mem, at, e, i)),
    ensures
        exists|i: int|
            0 <= i < n && reduce_run::reduction(fl, Some(f), e, mem, at, n)
                == #[trigger] reduce_run::element(mem, at, e, i),
        forall|i: int|
            0 <= i < n ==> (o.not_behind)(
                #[trigger] reduce_run::element(mem, at, e, i),
                reduce_run::reduction(fl, Some(f), e, mem, at, n),
            ),
{
    let t = Task { fl, f, e, o, mem, at, n };
    assert(t.is_ready());
    t.some_are_taken();
    t.rest_is_past(n);
    let r = reduce_run::reduction(fl, Some(f), e, mem, at, n);
    let i = choose|i: int| 0 <= i < t.n && r == #[trigger] t.element(i);
    assert(r == reduce_run::element(mem, at, e, i));
    assert forall|h: int| 0 <= h < n implies (o.not_behind)(
        #[trigger] reduce_run::element(mem, at, e, h),
        r,
    ) by {
        assert(t.is_past(t.element(h), t.reduced(n)));
    }
}

} // verus!
