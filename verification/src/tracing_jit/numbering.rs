//! Value numbering: computations that a trace repeats, and operands that are known constants.

use vstd::prelude::*;
use rustc_hash::FxHashMap;
use crate::fx::{fx_clear, fx_get, fx_insert, fx_keys, fx_new, fx_remove};
use crate::types::{BinOpKind, Instr, UnOpKind};

verus! {

/// What is known while a trace is recorded.
#[verifier::ext_equal]
pub struct Known {
    /// For the number of a computation, the slot that received its value.
    pub computed: Map<u64, u16>,
    /// For a slot, the constant that was loaded into it.
    pub constant: Map<u64, i64>,
}

/// Nothing is known.
pub open spec fn nothing_known() -> Known {
    Known { computed: Map::empty(), constant: Map::empty() }
}

/// The constant in a slot, if one is known.
pub open spec fn constant_in(k: Known, slot: u16) -> Option<i64> {
    if k.constant.dom().contains(slot as u64) {
        Some(k.constant[slot as u64])
    } else {
        None
    }
}

/// The number of an operator applied to two slots.
pub open spec fn binary_number(op: BinOpKind, l: u16, r: u16) -> u64 {
    (op.code() * 0x1_0000_0000 + l * 0x1_0000 + r) as u64
}

/// The number of an operator applied to one slot.
pub open spec fn unary_number(op: UnOpKind, s: u16) -> u64 {
    (0x100_0000_0000 + op.code() * 0x1_0000 + s) as u64
}

/// The number of the computation of an instruction. Only operators have one.
pub open spec fn value_number(i: Instr) -> Option<u64> {
    match i {
        Instr::BinOp(_, op, l, r) => Some(binary_number(op, l, r)),
        Instr::UnOp(_, op, s) => Some(unary_number(op, s)),
        _ => None,
    }
}

/// The computation of an instruction, apart from where its value goes.
pub open spec fn same_computation(a: Instr, b: Instr) -> bool {
    match (a, b) {
        (Instr::BinOp(_, op, l, r), Instr::BinOp(_, op2, l2, r2)) => op == op2 && l == l2 && r
            == r2,
        (Instr::UnOp(_, op, s), Instr::UnOp(_, op2, s2)) => op == op2 && s == s2,
        _ => false,
    }
}

/// Two instructions have one number exactly if they compute the same.
pub proof fn value_numbers_identify(a: Instr, b: Instr)
    requires
        value_number(a) is Some,
        value_number(b) is Some,
    ensures
        value_number(a) == value_number(b) <==> same_computation(a, b),
{
    match (a, b) {
        (Instr::BinOp(_, op, l, r), Instr::BinOp(_, op2, l2, r2)) => {
            lemma_binary_number(op, l, r, op2, l2, r2);
        },
        (Instr::UnOp(_, op, s), Instr::UnOp(_, op2, s2)) => {
            lemma_unary_number(op, s, op2, s2);
        },
        _ => {},
    }
}

proof fn lemma_binary_number(
    op: BinOpKind,
    l: u16,
    r: u16,
    op2: BinOpKind,
    l2: u16,
    r2: u16,
)
    ensures
        binary_number(op, l, r) == binary_number(op2, l2, r2) <==> (op == op2 && l == l2 && r
            == r2),
        binary_number(op, l, r) < 0x100_0000_0000,
{
}

proof fn lemma_unary_number(op: UnOpKind, s: u16, op2: UnOpKind, s2: u16)
    ensures
        unary_number(op, s) == unary_number(op2, s2) <==> (op == op2 && s == s2),
        unary_number(op, s) >= 0x100_0000_0000,
{
}

/// The number of the computation of an instruction, if it is an operator.
pub fn vn_hash(instr: &Instr) -> (r: Option<u64>)
    ensures
        r == value_number(*instr),
{
    match *instr {
        Instr::BinOp(_, op, l, r) => Some(
            op.code() as u64 * 0x1_0000_0000 + l as u64 * 0x1_0000 + r as u64,
        ),
        Instr::UnOp(_, op, s) => Some(
            0x100_0000_0000 + op.code() as u64 * 0x1_0000 + s as u64,
        ),
        _ => None,
    }
}

/// The instruction with the operands of an operator that allows it in ascending order.
#[verifier::allow_in_spec]
pub fn canonical(i: Instr) -> (r: Instr)
    returns
        (match i {
            Instr::BinOp(d, op, l, r) => if op.is_associative_commutative() && l > r {
                Instr::BinOp(d, op, r, l)
            } else {
                i
            },
            _ => i,
        }),
{
    match i {
        Instr::BinOp(d, op, l, r) => {
            if op.is_associative_commutative() && l > r {
                Instr::BinOp(d, op, r, l)
            } else {
                i
            }
        },
        _ => i,
    }
}

/// The slot that an instruction writes, if it writes one.
#[verifier::allow_in_spec]
pub fn written(i: Instr) -> (r: Option<u16>)
    returns
        (match i {
            Instr::LoadI32(d, _) | Instr::LoadI64(d, _) | Instr::LoadF32(d, _) | Instr::LoadF64(
                d,
                _,
            ) | Instr::LoadBool(d, _) | Instr::LoadUnit(d) | Instr::BinOp(d, _, _, _)
            | Instr::UnOp(d, _, _) | Instr::Move(d, _) | Instr::Load(d, _) => Some(d),
            _ => None::<u16>,
        }),
{
    match i {
        Instr::LoadI32(d, _) => Some(d),
        Instr::LoadI64(d, _) => Some(d),
        Instr::LoadF32(d, _) => Some(d),
        Instr::LoadF64(d, _) => Some(d),
        Instr::LoadBool(d, _) => Some(d),
        Instr::LoadUnit(d) => Some(d),
        Instr::BinOp(d, _, _, _) => Some(d),
        Instr::UnOp(d, _, _) => Some(d),
        Instr::Move(d, _) => Some(d),
        Instr::Load(d, _) => Some(d),
        _ => None,
    }
}

/// Whether the computation of a number reads a slot.
#[verifier::allow_in_spec]
pub fn number_reads(n: u64, d: u16) -> (r: bool)
    returns
        n % 0x1_0000 == d || (n < 0x100_0000_0000 && n / 0x1_0000 % 0x1_0000 == d),
{
    n % 0x1_0000 == d as u64 || (n < 0x100_0000_0000 && n / 0x1_0000 % 0x1_0000 == d as u64)
}

/// What stays known when a slot is written: neither its constant, nor a computation that reads it
/// or left its value in it.
pub open spec fn without(k: Known, d: u16) -> Known {
    Known {
        computed: Map::new(
            |n: u64| k.computed.dom().contains(n) && !number_reads(n, d) && k.computed[n] != d,
            |n: u64| k.computed[n],
        ),
        constant: k.constant.remove(d as u64),
    }
}

/// What is known after an instruction that is no operator: a constant that it loads is noted, and
/// what it overwrites is forgotten.
pub open spec fn with_loaded(k: Known, i: Instr) -> Known {
    match written(i) {
        Some(d) => {
            let k1 = without(k, d);
            match i {
                Instr::LoadI32(_, v) => Known {
                    constant: k1.constant.insert(d as u64, v as i64),
                    ..k1
                },
                Instr::LoadI64(_, v) => Known { constant: k1.constant.insert(d as u64, v), ..k1 },
                Instr::LoadBool(_, v) => Known {
                    constant: k1.constant.insert(
                        d as u64,
                        if v {
                            1i64
                        } else {
                            0i64
                        },
                    ),
                    ..k1
                },
                _ => k1,
            }
        },
        None => k,
    }
}

/// The simpler instruction that an operator on known operands comes down to: `x + 0`, `x - 0`,
/// `x * 1`, `x | x` and `x & x` are `x`; `x * 0` and `x ^ x` are 0.
pub open spec fn identity(k: Known, dst: u16, op: BinOpKind, l: u16, r: u16) -> Option<Instr> {
    let lc = constant_in(k, l);
    let rc = constant_in(k, r);
    match op {
        BinOpKind::Add => if rc == Some(0i64) {
            Some(Instr::Move(dst, l))
        } else if lc == Some(0i64) {
            Some(Instr::Move(dst, r))
        } else {
            None
        },
        BinOpKind::Sub => if rc == Some(0i64) {
            Some(Instr::Move(dst, l))
        } else {
            None
        },
        BinOpKind::Mul => if rc == Some(1i64) {
            Some(Instr::Move(dst, l))
        } else if lc == Some(1i64) {
            Some(Instr::Move(dst, r))
        } else if rc == Some(0i64) || lc == Some(0i64) {
            Some(Instr::LoadI64(dst, 0))
        } else {
            None
        },
        BinOpKind::BitXor => if l == r {
            Some(Instr::LoadI64(dst, 0))
        } else {
            None
        },
        BinOpKind::BitOr | BinOpKind::BitAnd => if l == r {
            Some(Instr::Move(dst, l))
        } else {
            None
        },
        _ => None,
    }
}

/// What is known after an operator was computed: its computation, unless it overwrote an operand
/// of its own.
pub open spec fn with_computed(k: Known, n: u64, d: u16) -> Known {
    let k1 = without(k, d);
    if number_reads(n, d) {
        k1
    } else {
        Known { computed: k1.computed.insert(n, d), ..k1 }
    }
}

/// The instruction to record for an operator that no identity simplifies: a copy where its
/// computation is known and its value is in another slot, otherwise the instruction itself.
pub open spec fn deduplicated(k: Known, i: Instr, n: u64, d: u16) -> (Instr, Known) {
    if k.computed.dom().contains(n) && k.computed[n] != d {
        (Instr::Move(d, k.computed[n]), without(k, d))
    } else {
        (i, with_computed(k, n, d))
    }
}

/// The instruction to record for `i`, and what is known afterwards.
pub open spec fn numbered(k: Known, i: Instr) -> (Instr, Known) {
    match i {
        Instr::BinOp(d, op, l, r) => match identity(k, d, op, l, r) {
            Some(s) => (s, with_loaded(k, s)),
            None => deduplicated(k, i, value_number(canonical(i))->0, d),
        },
        Instr::UnOp(d, _, _) => deduplicated(k, i, value_number(i)->0, d),
        _ => (i, with_loaded(k, i)),
    }
}

/// Whether an instruction may transfer control. Computations do not stay known past it.
#[verifier::allow_in_spec]
pub fn is_barrier(i: Instr) -> (r: bool)
    returns
        matches!(i, Instr::Jump(_)
            | Instr::JumpFalse(_, _)
            | Instr::JumpTrue(_, _)
            | Instr::Return(_)),
{
    matches!(i, Instr::Jump(_)
        | Instr::JumpFalse(_, _)
        | Instr::JumpTrue(_, _)
        | Instr::Return(_))
}

/// What is known after `i` was recorded: past a barrier only constants are.
pub open spec fn known_after(k: Known, i: Instr) -> Known {
    let k1 = numbered(k, i).1;
    if is_barrier(i) {
        Known { computed: Map::empty(), ..k1 }
    } else {
        k1
    }
}

/// Computations and constants that are known while a trace is recorded.
#[derive(Debug)]
pub struct ValueNumbering {
    value_cache: FxHashMap<u64, u16>,
    const_at: FxHashMap<u64, i64>,
}

impl View for ValueNumbering {
    type V = Known;

    closed spec fn view(&self) -> Known {
        Known { computed: self.value_cache@, constant: self.const_at@ }
    }
}

impl ValueNumbering {
    /// Nothing is known.
    pub fn new() -> (r: Self)
        ensures
            r@ == nothing_known(),
    {
        let r = ValueNumbering { value_cache: fx_new(), const_at: fx_new() };
        assert(r@.computed =~= Map::<u64, u16>::empty());
        assert(r@.constant =~= Map::<u64, i64>::empty());
        r
    }

    /// Forgets everything.
    pub fn clear(&mut self)
        ensures
            final(self)@ == nothing_known(),
    {
        fx_clear(&mut self.value_cache);
        fx_clear(&mut self.const_at);
        assert(self@.computed =~= Map::<u64, u16>::empty());
        assert(self@.constant =~= Map::<u64, i64>::empty());
    }

    /// Forgets the computations.
    pub fn clear_computed(&mut self)
        ensures
            final(self)@ == (Known { computed: Map::empty(), ..old(self)@ }),
    {
        fx_clear(&mut self.value_cache);
        assert(self@.computed =~= Map::<u64, u16>::empty());
    }

    fn constant_at(&self, slot: u16) -> (r: Option<i64>)
        ensures
            r == constant_in(self@, slot),
    {
        match fx_get(&self.const_at, slot as u64) {
            Some(v) => Some(*v),
            None => None,
        }
    }

    /// Forgets what a write to a slot ends.
    fn forget(&mut self, d: u16)
        ensures
            final(self)@ == without(old(self)@, d),
    {
        let ghost before = self.value_cache@;
        let keys: Vec<u64> = fx_keys(&self.value_cache);
        let mut k: usize = 0;
        while k < keys.len()
            invariant
                k <= keys@.len(),
                keys@.to_set() == before.dom(),
                self.const_at@ == old(self).const_at@,
                forall|n: u64| #[trigger]
                    self.value_cache@.dom().contains(n) ==> before.dom().contains(n)
                        && self.value_cache@[n] == before[n],
                forall|n: u64|
                    before.dom().contains(n) && !number_reads(n, d) && before[n] != d
                        ==> #[trigger] self.value_cache@.dom().contains(n),
                forall|j: int|
                    0 <= j < k && (number_reads(keys@[j], d) || before[#[trigger] keys@[j]] == d)
                        ==> !self.value_cache@.dom().contains(keys@[j]),
            decreases keys.len() - k,
        {
            let n: u64 = keys[k];
            let ends: bool = number_reads(n, d) || match fx_get(&self.value_cache, n) {
                Some(e) => *e == d,
                None => false,
            };
            if ends {
                fx_remove(&mut self.value_cache, n);
            }
            k += 1;
        }
        fx_remove(&mut self.const_at, d as u64);
        proof {
            let goal = without(old(self)@, d);
            assert forall|n: u64| self.value_cache@.dom().contains(n) implies #[trigger]
                goal.computed.dom().contains(n) by {
                assert(before.dom().contains(n));
                assert(keys@.to_set().contains(n));
                let j = choose|j: int| 0 <= j < keys@.len() && keys@[j] == n;
                assert(keys@[j] == n);
            }
            assert(self@.computed =~= goal.computed);
            assert(self@.constant =~= goal.constant);
        }
    }

    /// Notes what an instruction that is no operator leaves.
    fn note(&mut self, instr: Instr)
        ensures
            final(self)@ == with_loaded(old(self)@, instr),
    {
        if let Some(d) = written(instr) {
            self.forget(d);
            match instr {
                Instr::LoadI32(dst, v) => {
                    fx_insert(&mut self.const_at, dst as u64, v as i64);
                },
                Instr::LoadI64(dst, v) => {
                    fx_insert(&mut self.const_at, dst as u64, v);
                },
                Instr::LoadBool(dst, v) => {
                    let c: i64 = if v {
                        1
                    } else {
                        0
                    };
                    fx_insert(&mut self.const_at, dst as u64, c);
                },
                _ => {},
            }
        }
    }

    /// The simpler instruction that an operator on known operands comes down to, if there is
    /// one.
    fn try_algebraic_identity(&mut self, dst: u16, op: BinOpKind, l: u16, r: u16) -> (s: Option<
        Instr,
    >)
        ensures
            s == identity(old(self)@, dst, op, l, r),
            final(self)@ == (match s {
                Some(i) => with_loaded(old(self)@, i),
                None => old(self)@,
            }),
    {
        let l_const: Option<i64> = self.constant_at(l);
        let r_const: Option<i64> = self.constant_at(r);
        let simplified: Option<Instr> = match op {
            BinOpKind::Add => if r_const == Some(0i64) {
                Some(Instr::Move(dst, l))
            } else if l_const == Some(0i64) {
                Some(Instr::Move(dst, r))
            } else {
                None
            },
            BinOpKind::Sub => if r_const == Some(0i64) {
                Some(Instr::Move(dst, l))
            } else {
                None
            },
            BinOpKind::Mul => if r_const == Some(1i64) {
                Some(Instr::Move(dst, l))
            } else if l_const == Some(1i64) {
                Some(Instr::Move(dst, r))
            } else if r_const == Some(0i64) || l_const == Some(0i64) {
                Some(Instr::LoadI64(dst, 0))
            } else {
                None
            },
            BinOpKind::BitXor => if l == r {
                Some(Instr::LoadI64(dst, 0))
            } else {
                None
            },
            BinOpKind::BitOr | BinOpKind::BitAnd => if l == r {
                Some(Instr::Move(dst, l))
            } else {
                None
            },
            _ => None,
        };
        if let Some(i) = simplified {
            self.note(i);
        }
        simplified
    }

    fn deduplicate(&mut self, instr: &Instr, n: u64, d: u16) -> (r: Instr)
        ensures
            (r, final(self)@) == deduplicated(old(self)@, *instr, n, d),
    {
        let existing: Option<u16> = match fx_get(&self.value_cache, n) {
            Some(e) => Some(*e),
            None => None,
        };
        self.forget(d);
        if let Some(e) = existing {
            if e != d {
                return Instr::Move(d, e);
            }
        }
        if !number_reads(n, d) {
            fx_insert(&mut self.value_cache, n, d);
        }
        *instr
    }

    /// The instruction to record for `instr`: simplified by an identity, a copy of the value of
    /// an equal computation, or itself.
    pub fn apply_value_numbering(&mut self, instr: &Instr) -> (r: Instr)
        ensures
            (r, final(self)@) == numbered(old(self)@, *instr),
    {
        match *instr {
            Instr::BinOp(d, op, l, r) => {
                if let Some(simplified) = self.try_algebraic_identity(d, op, l, r) {
                    return simplified;
                }
                if let Some(n) = vn_hash(&canonical(*instr)) {
                    return self.deduplicate(instr, n, d);
                }
            },
            Instr::UnOp(d, _, _) => {
                if let Some(n) = vn_hash(instr) {
                    return self.deduplicate(instr, n, d);
                }
            },
            _ => {
                self.note(*instr);
            },
        }
        *instr
    }
}

/// What instructions compute on 64-bit integers.
pub struct Arithmetic {
    /// Operators on two values.
    pub binary: spec_fn(BinOpKind, i64, i64) -> i64,
    /// Operators on one value.
    pub unary: spec_fn(UnOpKind, i64) -> i64,
}

/// The identities that hold of the operators: 0 is neutral for sums and differences, 1 for
/// products, a product with 0 is 0, an exclusive disjunction of a value with itself is 0, the
/// other bitwise operators keep such a value, and the operators that allow it commute.
pub open spec fn obeys_identities(m: Arithmetic) -> bool {
    &&& forall|a: i64| #[trigger] (m.binary)(BinOpKind::Add, a, 0) == a
    &&& forall|a: i64| #[trigger] (m.binary)(BinOpKind::Add, 0, a) == a
    &&& forall|a: i64| #[trigger] (m.binary)(BinOpKind::Sub, a, 0) == a
    &&& forall|a: i64| #[trigger] (m.binary)(BinOpKind::Mul, a, 1) == a
    &&& forall|a: i64| #[trigger] (m.binary)(BinOpKind::Mul, 1, a) == a
    &&& forall|a: i64| #[trigger] (m.binary)(BinOpKind::Mul, a, 0) == 0
    &&& forall|a: i64| #[trigger] (m.binary)(BinOpKind::Mul, 0, a) == 0
    &&& forall|a: i64| #[trigger] (m.binary)(BinOpKind::BitXor, a, a) == 0
    &&& forall|a: i64| #[trigger] (m.binary)(BinOpKind::BitOr, a, a) == a
    &&& forall|a: i64| #[trigger] (m.binary)(BinOpKind::BitAnd, a, a) == a
    &&& forall|op: BinOpKind, a: i64, b: i64|
        op.is_associative_commutative() ==> #[trigger] (m.binary)(op, a, b) == (m.binary)(op, b, a)
}

/// The slots after an instruction. `outside` is the value that comes from elsewhere where the
/// instruction loads a float, the unit value or from memory.
pub open spec fn stepped(m: Arithmetic, s: Map<u16, i64>, i: Instr, outside: i64) -> Map<u16, i64> {
    match i {
        Instr::LoadI32(d, v) => s.insert(d, v as i64),
        Instr::LoadI64(d, v) => s.insert(d, v),
        Instr::LoadBool(d, v) => s.insert(
            d,
            if v {
                1i64
            } else {
                0i64
            },
        ),
        Instr::BinOp(d, op, l, r) => s.insert(d, (m.binary)(op, s[l], s[r])),
        Instr::UnOp(d, op, a) => s.insert(d, (m.unary)(op, s[a])),
        Instr::Move(d, a) => s.insert(d, s[a]),
        Instr::LoadF32(d, _) | Instr::LoadF64(d, _) | Instr::LoadUnit(d) | Instr::Load(d, _) =>
            s.insert(d, outside),
        _ => s,
    }
}

/// What is known agrees with the slots.
pub open spec fn agrees(m: Arithmetic, k: Known, s: Map<u16, i64>) -> bool {
    &&& forall|d: u16|
        k.constant.dom().contains(d as u64) ==> #[trigger] s[d] == k.constant[d as u64]
    &&& forall|op: BinOpKind, l: u16, r: u16| #[trigger]
        k.computed.dom().contains(binary_number(op, l, r)) ==> s[k.computed[binary_number(
            op,
            l,
            r,
        )]] == (m.binary)(op, s[l], s[r])
    &&& forall|op: UnOpKind, a: u16| #[trigger]
        k.computed.dom().contains(unary_number(op, a)) ==> s[k.computed[unary_number(op, a)]]
            == (m.unary)(op, s[a])
}

/// The slots that a number reads are those of its computation.
proof fn lemma_number_reads(op: BinOpKind, l: u16, r: u16, un: UnOpKind, a: u16, d: u16)
    ensures
        number_reads(binary_number(op, l, r), d) == (d == l || d == r),
        number_reads(unary_number(un, a), d) == (d == a),
{
    lemma_binary_number(op, l, r, op, l, r);
    lemma_unary_number(un, a, un, a);
}

/// Recording an instruction in its simplified form changes nothing: where what is known agrees
/// with the slots, the recorded instruction leaves them as the original one does.
pub proof fn recorded_instruction_is_equivalent(
    m: Arithmetic,
    k: Known,
    s: Map<u16, i64>,
    i: Instr,
    outside: i64,
)
    requires
        obeys_identities(m),
        agrees(m, k, s),
    ensures
        stepped(m, s, numbered(k, i).0, outside) == stepped(m, s, i, outside),
{
    match i {
        Instr::BinOp(d, op, l, r) => {
            if identity(k, d, op, l, r) is None {
                match canonical(i) {
                    Instr::BinOp(_, _, l2, r2) => {
                        let n = binary_number(op, l2, r2);
                        assert(k.computed.dom().contains(n) ==> s[k.computed[n]] == (m.binary)(
                            op,
                            s[l2],
                            s[r2],
                        ));
                        assert((m.binary)(op, s[l2], s[r2]) == (m.binary)(op, s[l], s[r]));
                    },
                    _ => {},
                }
            }
        },
        Instr::UnOp(d, op, a) => {
            let n = unary_number(op, a);
            assert(k.computed.dom().contains(n) ==> s[k.computed[n]] == (m.unary)(op, s[a]));
        },
        _ => {},
    }
}

/// What stays known when a slot is written is true whatever the slot then holds.
proof fn lemma_rest_stays_true(m: Arithmetic, k: Known, s: Map<u16, i64>, d: u16, v: i64)
    requires
        agrees(m, k, s),
    ensures
        agrees(m, without(k, d), s.insert(d, v)),
{
    let t = s.insert(d, v);
    let after = without(k, d);
    assert forall|x: u16| after.constant.dom().contains(x as u64) implies #[trigger] t[x]
        == after.constant[x as u64] by {
        assert(s[x] == k.constant[x as u64]);
    }
    assert forall|op: BinOpKind, l: u16, r: u16| #[trigger]
        after.computed.dom().contains(binary_number(op, l, r)) implies t[after.computed[binary_number(
        op, l, r)]] == (m.binary)(op, t[l], t[r]) by {
        lemma_number_reads(op, l, r, UnOpKind::Neg, l, d);
        assert(k.computed.dom().contains(binary_number(op, l, r)));
    }
    assert forall|op: UnOpKind, a: u16| #[trigger]
        after.computed.dom().contains(unary_number(op, a)) implies t[after.computed[unary_number(
        op,
        a,
    )]] == (m.unary)(op, t[a]) by {
        lemma_number_reads(BinOpKind::Add, a, a, op, a, d);
        assert(k.computed.dom().contains(unary_number(op, a)));
    }
}

/// A computation that is noted is true: its slot holds its value.
proof fn lemma_noted_is_true(m: Arithmetic, k: Known, s: Map<u16, i64>, i: Instr, n: u64, d: u16)
    requires
        obeys_identities(m),
        agrees(m, k, s),
        value_number(canonical(i)) == Some(n),
        written(i) == Some(d),
    ensures
        agrees(m, with_computed(k, n, d), stepped(m, s, i, 0)),
{
    let t = stepped(m, s, i, 0);
    lemma_rest_stays_true(m, k, s, d, t[d]);
    let k1 = without(k, d);
    let after = with_computed(k, n, d);
    assert(t =~= s.insert(d, t[d]));
    assert(agrees(m, k1, t));
    assert forall|op: BinOpKind, l: u16, r: u16| #[trigger]
        after.computed.dom().contains(binary_number(op, l, r)) implies t[after.computed[binary_number(
        op, l, r)]] == (m.binary)(op, t[l], t[r]) by {
        let h = binary_number(op, l, r);
        lemma_number_reads(op, l, r, UnOpKind::Neg, l, d);
        if h == n && !number_reads(n, d) {
            match canonical(i) {
                Instr::BinOp(_, op2, l3, r3) => {
                    lemma_binary_number(op, l, r, op2, l3, r3);
                    match i {
                        Instr::BinOp(_, _, l2, r2) => {
                            assert((m.binary)(op2, s[l2], s[r2]) == (m.binary)(op2, s[l3], s[r3]));
                        },
                        _ => {},
                    }
                },
                Instr::UnOp(_, op2, a) => {
                    lemma_unary_number(op2, a, op2, a);
                    lemma_binary_number(op, l, r, op, l, r);
                },
                _ => {},
            }
        } else {
            assert(k1.computed.dom().contains(h));
        }
    }
    assert forall|op: UnOpKind, a: u16| #[trigger]
        after.computed.dom().contains(unary_number(op, a)) implies t[after.computed[unary_number(
        op,
        a,
    )]] == (m.unary)(op, t[a]) by {
        let h = unary_number(op, a);
        lemma_number_reads(BinOpKind::Add, a, a, op, a, d);
        if h == n && !number_reads(n, d) {
            match canonical(i) {
                Instr::BinOp(_, op2, l3, r3) => {
                    lemma_binary_number(op2, l3, r3, op2, l3, r3);
                    lemma_unary_number(op, a, op, a);
                },
                Instr::UnOp(_, op2, a2) => {
                    lemma_unary_number(op, a, op2, a2);
                },
                _ => {},
            }
        } else {
            assert(k1.computed.dom().contains(h));
        }
    }
}

/// What is known stays in agreement with the slots past every instruction.
pub proof fn knowledge_stays_true(
    m: Arithmetic,
    k: Known,
    s: Map<u16, i64>,
    i: Instr,
    outside: i64,
)
    requires
        obeys_identities(m),
        agrees(m, k, s),
    ensures
        agrees(m, known_after(k, i), stepped(m, s, i, outside)),
{
    recorded_instruction_is_equivalent(m, k, s, i, outside);
    let t = stepped(m, s, i, outside);
    if let Some(d) = written(i) {
        lemma_rest_stays_true(m, k, s, d, t[d]);
        assert(t =~= s.insert(d, t[d]));
        assert(agrees(m, without(k, d), t));
        match i {
            Instr::BinOp(_, op, l, r) => {
                lemma_noted_is_true(m, k, s, i, value_number(canonical(i))->0, d);
                match identity(k, d, op, l, r) {
                    Some(simplified) => {
                        assert(written(simplified) == Some(d));
                        lemma_constant_is_true(m, k, s, simplified, outside, d);
                    },
                    None => {},
                }
            },
            Instr::UnOp(_, op, a) => {
                lemma_noted_is_true(m, k, s, i, value_number(i)->0, d);
            },
            _ => {
                lemma_constant_is_true(m, k, s, i, outside, d);
            },
        }
    }
    let noted = numbered(k, i).1;
    assert(agrees(m, noted, t));
}

/// What an instruction that is no operator leaves known is true.
proof fn lemma_constant_is_true(
    m: Arithmetic,
    k: Known,
    s: Map<u16, i64>,
    i: Instr,
    outside: i64,
    d: u16,
)
    requires
        agrees(m, k, s),
        written(i) == Some(d),
    ensures
        agrees(m, with_loaded(k, i), stepped(m, s, i, outside)),
{
    let t = stepped(m, s, i, outside);
    lemma_rest_stays_true(m, k, s, d, t[d]);
    assert(t =~= s.insert(d, t[d]));
    let k1 = without(k, d);
    let after = with_loaded(k, i);
    assert(agrees(m, k1, t));
    assert(after.computed == k1.computed);
    assert forall|x: u16| after.constant.dom().contains(x as u64) implies #[trigger] t[x]
        == after.constant[x as u64] by {
        if x != d {
            assert(k1.constant.dom().contains(x as u64));
        }
    }
}

/// What is known after the first `n` instructions of a recording.
pub open spec fn known_at(instrs: Seq<Instr>, n: nat) -> Known
    decreases n,
{
    if n == 0 {
        nothing_known()
    } else {
        known_after(known_at(instrs, (n - 1) as nat), instrs[n - 1])
    }
}

/// The instructions that are recorded.
pub open spec fn recorded(instrs: Seq<Instr>) -> Seq<Instr> {
    Seq::new(instrs.len(), |j: int| numbered(known_at(instrs, j as nat), instrs[j]).0)
}

/// The slots after the first `n` instructions. `outside` gives the values that come from
/// elsewhere.
pub open spec fn slots_after(
    m: Arithmetic,
    s: Map<u16, i64>,
    instrs: Seq<Instr>,
    outside: Seq<i64>,
    n: nat,
) -> Map<u16, i64>
    decreases n,
{
    if n == 0 {
        s
    } else {
        stepped(
            m,
            slots_after(m, s, instrs, outside, (n - 1) as nat),
            instrs[n - 1],
            outside[n - 1],
        )
    }
}

/// A recording computes what the instructions compute that were observed: after each of them
/// the slots are the same.
pub proof fn recording_is_equivalent(
    m: Arithmetic,
    s: Map<u16, i64>,
    instrs: Seq<Instr>,
    outside: Seq<i64>,
    n: nat,
)
    requires
        obeys_identities(m),
        n <= instrs.len(),
    ensures
        slots_after(m, s, recorded(instrs), outside, n) == slots_after(m, s, instrs, outside, n),
        agrees(m, known_at(instrs, n), slots_after(m, s, instrs, outside, n)),
    decreases n,
{
    if n > 0 {
        recording_is_equivalent(m, s, instrs, outside, (n - 1) as nat);
        let before = slots_after(m, s, instrs, outside, (n - 1) as nat);
        let k = known_at(instrs, (n - 1) as nat);
        recorded_instruction_is_equivalent(m, k, before, instrs[n - 1], outside[n - 1]);
        knowledge_stays_true(m, k, before, instrs[n - 1], outside[n - 1]);
    }
}

} // verus!
