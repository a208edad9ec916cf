//! Type guards, and the mask that collects them.

use vstd::prelude::*;
use super::values::ValueType;

verus! {

/// The claim that a slot holds a value of a type. Where it fails, execution leaves the trace.
#[derive(Debug, Clone, Copy, PartialEq, Eq, Structural)]
pub struct Guard {
    /// The slot.
    pub slot: u16,
    /// The type that the slot is to hold.
    pub expected_type: ValueType,
}

/// A way out of a compiled trace.
#[derive(Debug, Clone, Copy, PartialEq, Eq)]
pub struct SideExit {
    /// Where the interpreter goes on.
    pub fallback_pc: usize,
    /// Whether this is the way out of a loop.
    pub is_loop_exit: bool,
    /// The trace that goes on instead of the interpreter, if there is one.
    pub target_trace_id: Option<u32>,
}

/// Where the value of a slot is when a guard fails.
#[derive(Debug, Clone, Copy, PartialEq, Eq)]
pub enum SlotLocation {
    /// In a register; it must be written back.
    RegisterU8(u8),
    /// At an offset in the unboxed buffer.
    Memory(u32),
    /// In the slot array already.
    SlotArray(u16),
}

/// What is needed to go on in the interpreter when a guard fails.
#[derive(Debug, Clone)]
pub struct DeoptMapEntry {
    /// Place of the guard in the guard list of the trace.
    pub guard_index: usize,
    /// Where the interpreter goes on.
    pub fallback_pc: usize,
    /// The slots that are live, and where their values are.
    pub live_slots: Vec<(u16, SlotLocation)>,
}

/// One entry for each guard of a trace.
pub type DeoptMap = Vec<DeoptMapEntry>;

/// Guards as bits of one word: bit `i` stands for the `i`-th distinct guard.
#[derive(Clone, Debug)]
pub struct GuardMask {
    bits: u64,
    invariants: Vec<(u16, ValueType)>,
}

/// The word whose lowest `n` bits are set.
pub open spec fn low_bits(n: nat) -> u64 {
    if n == 0 {
        0
    } else {
        0xffff_ffff_ffff_ffffu64 >> ((64 - n) as u64)
    }
}

/// First place of a guard in a list of guards, or the length if it is not there.
pub open spec fn place_of(v: Seq<(u16, ValueType)>, g: (u16, ValueType), from: int) -> int
    decreases v.len() - from,
{
    if from >= v.len() {
        v.len() as int
    } else if v[from] == g {
        from
    } else {
        place_of(v, g, from + 1)
    }
}

/// `v` with a guard at its end, if it is new.
pub open spec fn with_guard(v: Seq<(u16, ValueType)>, g: (u16, ValueType)) -> Seq<
    (u16, ValueType),
> {
    if v.contains(g) {
        v
    } else {
        v.push(g)
    }
}

proof fn lemma_place_of(v: Seq<(u16, ValueType)>, g: (u16, ValueType), from: int)
    requires
        0 <= from <= v.len(),
        forall|i: int| 0 <= i < from ==> v[i] != g,
    ensures
        from <= place_of(v, g, from) <= v.len(),
        place_of(v, g, from) < v.len() <==> v.contains(g),
        place_of(v, g, from) < v.len() ==> v[place_of(v, g, from)] == g,
    decreases v.len() - from,
{
    if from < v.len() && v[from] != g {
        lemma_place_of(v, g, from + 1);
    }
}

impl GuardMask {
    /// The distinct guards, in the order in which they came.
    pub closed spec fn guards(&self) -> Seq<(u16, ValueType)> {
        self.invariants@
    }

    /// The word of the mask.
    pub closed spec fn word(&self) -> u64 {
        self.bits
    }

    /// No guard occurs twice, each has its bit, and no other bit is set.
    pub open spec fn wf(&self) -> bool {
        &&& self.guards().len() <= 64
        &&& self.guards().no_duplicates()
        &&& self.word() == low_bits(self.guards().len())
    }

    /// A mask without guards.
    pub fn new() -> (r: Self)
        ensures
            r.wf(),
            r.guards() == Seq::<(u16, ValueType)>::empty(),
    {
        GuardMask { bits: 0, invariants: Vec::new() }
    }

    /// Adds a guard and returns its bit. A guard that the mask holds already keeps its bit.
    pub fn add_type_guard(&mut self, slot: u16, expected_type: ValueType) -> (r: u32)
        requires
            old(self).wf(),
            old(self).guards().len() < 64 || old(self).guards().contains((slot, expected_type)),
        ensures
            final(self).wf(),
            final(self).guards() == with_guard(old(self).guards(), (slot, expected_type)),
            r == place_of(old(self).guards(), (slot, expected_type), 0),
            final(self).guards()[r as int] == (slot, expected_type),
            old(self).guards().contains((slot, expected_type)) ==> *final(self) == *old(self),
            !old(self).guards().contains((slot, expected_type)) ==> {
                &&& r == old(self).guards().len()
                &&& final(self).guards() == old(self).guards().push((slot, expected_type))
                &&& final(self).word() == old(self).word() | (1u64 << r)
                &&& (old(self).word() >> r) & 1 == 0
            },
    {
        let ghost g = (slot, expected_type);
        let ghost v = self.invariants@;
        proof {
            lemma_place_of(v, g, 0);
        }
        let mut i: usize = 0;
        while i < self.invariants.len()
            invariant
                v == self.invariants@,
                *self == *old(self),
                old(self).wf(),
                v.len() <= 64,
                g == (slot, expected_type),
                i <= v.len(),
                forall|j: int| 0 <= j < i ==> v[j] != g,
                place_of(v, g, 0) == place_of(v, g, i as int),
            decreases self.invariants.len() - i,
        {
            let (s, t) = self.invariants[i];
            if s == slot && t == expected_type {
                assert(v[i as int] == g);
                assert(v.contains(g));
                return i as u32;
            }
            i += 1;
        }
        let n: u32 = self.invariants.len() as u32;
        assert(!v.contains(g));
        let b: u64 = self.bits;
        proof {
            lemma_next_bit(n);
        }
        self.bits = b | (1u64 << n);
        proof {
            mask_bits_are_guards(*old(self), n as u64);
            assert((b >> n) & 1 == 0 || (b >> n) & 1 == 1) by (bit_vector);
        }
        self.invariants.push((slot, expected_type));
        assert(self.invariants@.no_duplicates()) by {
            assert forall|i: int, j: int| 0 <= i < j < v.push(g).len() implies v.push(g)[i]
                != v.push(g)[j] by {
                if j == v.len() {
                    assert(v[i] != g);
                }
            }
        }
        n
    }

    /// The word of the mask.
    pub fn mask(&self) -> (r: u64)
        ensures
            r == self.word(),
    {
        self.bits
    }

    /// The distinct guards, in the order of their bits.
    pub fn invariants(&self) -> (r: &[(u16, ValueType)])
        ensures
            r@ == self.guards(),
    {
        self.invariants.as_slice()
    }

    /// Number of guards.
    pub fn len(&self) -> (r: usize)
        ensures
            r == self.guards().len(),
    {
        self.invariants.len()
    }

    /// Whether there is no guard.
    pub fn is_empty(&self) -> (r: bool)
        ensures
            r == (self.guards().len() == 0),
    {
        self.invariants.len() == 0
    }
}

impl Default for GuardMask {
    fn default() -> (r: Self)
        ensures
            r.wf(),
            r.guards() == Seq::<(u16, ValueType)>::empty(),
    {
        GuardMask::new()
    }
}

proof fn lemma_next_bit(n: u32)
    requires
        n < 64,
    ensures
        low_bits(n as nat) | (1u64 << n) == low_bits((n + 1) as nat),
{
    if n == 0 {
        assert(0u64 | (1u64 << 0u32) == 0xffff_ffff_ffff_ffffu64 >> 63u64) by (bit_vector);
    } else {
        let m = (64 - n) as u64;
        let k = (64 - (n + 1)) as u64;
        assert((0xffff_ffff_ffff_ffffu64 >> m) | (1u64 << n) == 0xffff_ffff_ffff_ffffu64 >> k)
            by (bit_vector)
            requires
                0 < n < 64,
                m == 64 - n,
                k == 63 - n,
        ;
    }
}

/// Bit `i` of a mask is set exactly if the mask holds an `i`-th guard.
pub proof fn mask_bits_are_guards(m: GuardMask, i: u64)
    requires
        m.wf(),
        i < 64,
    ensures
        (m.word() >> i) & 1 == 1 <==> i < m.guards().len(),
{
    let n = m.guards().len();
    if n == 0 {
        assert((0u64 >> i) & 1 == 0) by (bit_vector);
    } else {
        let k = (64 - n) as u64;
        assert(((0xffff_ffff_ffff_ffffu64 >> k) >> i) & 1 == 1 <==> i < 64 - k) by (bit_vector)
            requires
                k < 64,
                i < 64,
        ;
    }
}

/// Adding a guard again changes nothing and gives the bit that it has.
pub proof fn guard_is_added_once(v: Seq<(u16, ValueType)>, g: (u16, ValueType))
    ensures
        with_guard(with_guard(v, g), g) == with_guard(v, g),
        place_of(with_guard(v, g), g, 0) == place_of(v, g, 0),
        v.no_duplicates() ==> with_guard(v, g).no_duplicates(),
{
    lemma_place_of(v, g, 0);
    if !v.contains(g) {
        let w = v.push(g);
        assert(w[v.len() as int] == g);
        lemma_place_of(w, g, 0);
        let at = place_of(w, g, 0);
        if at < v.len() {
            assert(v[at] == g);
        }
        assert forall|i: int, j: int| 0 <= i < w.len() && 0 <= j < w.len() && i != j
            && v.no_duplicates() implies w[i] != w[j] by {
            if i == v.len() {
                assert(v.contains(v[j]));
            }
            if j == v.len() {
                assert(v.contains(v[i]));
            }
        }
    }
}

/// The word of a mask of `n` guards is `2^n - 1`, and it is 0 exactly if there is no guard.
pub proof fn mask_is_all_ones(m: GuardMask)
    requires
        m.wf(),
    ensures
        m.word() == vstd::arithmetic::power2::pow2(m.guards().len()) - 1,
        m.word() == 0 <==> m.guards().len() == 0,
{
    let n = m.guards().len();
    vstd::arithmetic::power2::lemma2_to64();
    if n > 0 {
        let k = (64 - n) as nat;
        let low = vstd::arithmetic::power2::pow2(k) as int;
        let high = vstd::arithmetic::power2::pow2(n) as int;
        let word = 0xffff_ffff_ffff_ffffu64;
        vstd::arithmetic::power2::lemma_pow2_adds(k, n);
        vstd::arithmetic::power2::lemma_pow2_pos(k);
        vstd::bits::lemma_u64_shr_is_div(word, k as u64);
        assert(low * high == word + 1);
        assert(word == (high - 1) * low + (low - 1)) by (nonlinear_arith)
            requires
                low * high == word + 1,
        ;
        vstd::arithmetic::div_mod::lemma_fundamental_div_mod_converse(
            word as int,
            low,
            high - 1,
            low - 1,
        );
        vstd::arithmetic::power2::lemma_pow2_strictly_increases(0, n);
    }
}

} // verus!
