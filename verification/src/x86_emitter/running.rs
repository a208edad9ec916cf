//! How programs run, piece by piece, along the way they were built.

use crate::x86_emitter::inst::{mov, BareOp, Ins, JumpKind, Op, Reg};
use crate::x86_emitter::machine;
use crate::x86_emitter::machine::{Data, Floats, State};
use crate::x86_emitter::program;
use crate::x86_emitter::program::Asm;
use vstd::prelude::*;

verus! {

/// The lines of `p` are the first lines of `full`.
#[verifier::opaque]
pub open spec fn starts(full: Seq<Ins>, p: Asm) -> bool {
    &&& p.lines.len() <= full.len()
    &&& forall|i: int| 0 <= i < p.lines.len() ==> #[trigger] full[i] == p.lines[i]
}

/// A processor in front of the line that comes behind `p`.
pub open spec fn behind(p: Asm, d: Data) -> State {
    State { pc: p.lines.len() as int, data: d }
}

/// A program starts with all of its lines.
pub proof fn all_start(p: Asm)
    ensures
        starts(p.lines, p),
{
    reveal(starts);
}

/// What stands in front of operations was built before them.
pub proof fn before_ops(full: Seq<Ins>, p: Asm, ops: Seq<Op>)
    requires
        starts(full, p.emit(ops)),
    ensures
        starts(full, p),
{
    reveal(starts);
    assert forall|i: int| 0 <= i < p.lines.len() implies #[trigger] full[i] == p.lines[i] by {
        assert(p.emit(ops).lines[i] == p.lines[i]);
    }
}

/// What stands in front of a frame was built before it.
pub proof fn before_frame(full: Seq<Ins>, p: Asm, saved: Seq<Reg>)
    requires
        starts(full, p.enter(saved)) || starts(full, p.leave(saved)),
    ensures
        starts(full, p),
{
    reveal(starts);
    assert forall|i: int| 0 <= i < p.lines.len() implies #[trigger] full[i] == p.lines[i] by {
        assert(p.enter(saved).lines[i] == p.lines[i]);
        assert(p.leave(saved).lines[i] == p.lines[i]);
    }
}

/// What stands in front of a piece of a loop was built before it.
pub proof fn before_loop(full: Seq<Ins>, p: Asm)
    requires
        starts(full, p.begin()) || starts(full, p.exit_if_ge()) || starts(full, p.end()) || starts(
            full,
            p.begin_tail_tested(),
        ) || starts(full, p.end_tail_tested()),
    ensures
        starts(full, p),
{
    reveal(starts);
    assert forall|i: int| 0 <= i < p.lines.len() implies #[trigger] full[i] == p.lines[i] by {
        assert(p.begin().lines[i] == p.lines[i]);
        assert(p.exit_if_ge().lines[i] == p.lines[i]);
        assert(p.end().lines[i] == p.lines[i]);
        assert(p.begin_tail_tested().lines[i] == p.lines[i]);
        assert(p.end_tail_tested().lines[i] == p.lines[i]);
    }
}

/// Steps add up.
pub proof fn steps_add_up(m: Floats, lines: Seq<Ins>, s: State, j: nat, k: nat)
    ensures
        machine::run(m, lines, machine::run(m, lines, s, j), k) == machine::run(
            m,
            lines,
            s,
            j + k,
        ),
    decreases j,
{
    if j > 0 {
        steps_add_up(m, lines, machine::step(m, lines, s), (j - 1) as nat, k);
    }
}

/// A processor reaches what is reached on its way.
pub proof fn reaches_on(m: Floats, lines: Seq<Ins>, s: State, t: State, u: State)
    requires
        machine::reaches(m, lines, s, t),
        machine::reaches(m, lines, t, u),
    ensures
        machine::reaches(m, lines, s, u),
{
    let j = choose|j: nat| #[trigger] machine::run(m, lines, s, j) == t;
    let k = choose|k: nat| #[trigger] machine::run(m, lines, t, k) == u;
    steps_add_up(m, lines, s, j, k);
    assert(machine::run(m, lines, s, j + k) == u);
}

/// A processor reaches where it is.
pub proof fn reaches_itself(m: Floats, lines: Seq<Ins>, s: State)
    ensures
        machine::reaches(m, lines, s, s),
{
    assert(machine::run(m, lines, s, 0) == s);
}

/// A processor reaches what one step leads to.
pub proof fn reaches_next(m: Floats, lines: Seq<Ins>, s: State)
    ensures
        machine::reaches(m, lines, s, machine::step(m, lines, s)),
{
    reveal_with_fuel(machine::run, 2);
    assert(machine::run(m, lines, s, 1) == machine::step(m, lines, s));
}

/// No operation returns.
pub open spec fn goes_on(ops: Seq<Op>) -> bool {
    forall|i: int| 0 <= i < ops.len() ==> #[trigger] ops[i] != Op::Bare(BareOp::Ret)
}

proof fn some_ops_run(m: Floats, full: Seq<Ins>, p: Asm, ops: Seq<Op>, d: Data, k: nat)
    requires
        starts(full, p.emit(ops)),
        goes_on(ops),
        k <= ops.len(),
    ensures
        machine::reaches(
            m,
            full,
            behind(p, d),
            State { pc: p.lines.len() as int + k, data: machine::after_ops(m, d, ops, k) },
        ),
    decreases k,
{
    reveal(starts);
    if k == 0 {
        reaches_itself(m, full, behind(p, d));
    } else {
        let j = (k - 1) as nat;
        some_ops_run(m, full, p, ops, d, j);
        let t = State { pc: p.lines.len() as int + j, data: machine::after_ops(m, d, ops, j) };
        assert(p.emit(ops).lines[t.pc] == Ins::Op(ops[j as int]));
        assert(full[t.pc] == Ins::Op(ops[j as int]));
        assert(ops[j as int] != Op::Bare(BareOp::Ret));
        reaches_next(m, full, t);
        reaches_on(m, full, behind(p, d), t, machine::step(m, full, t));
    }
}

/// Operations run one after the other.
pub proof fn ops_run(m: Floats, full: Seq<Ins>, p: Asm, ops: Seq<Op>, d: Data)
    requires
        starts(full, p.emit(ops)),
        goes_on(ops),
    ensures
        machine::reaches(
            m,
            full,
            behind(p, d),
            behind(p.emit(ops), machine::after_ops(m, d, ops, ops.len())),
        ),
{
    some_ops_run(m, full, p, ops, d, ops.len());
}

/// Five operations, given the data behind each.
pub proof fn five_ops(m: Floats, d: Data, ops: Seq<Op>, after: Seq<Data>)
    requires
        ops.len() == 5,
        after.len() == 5,
        after[0] == machine::after_op(m, d, ops[0]),
        after[1] == machine::after_op(m, after[0], ops[1]),
        after[2] == machine::after_op(m, after[1], ops[2]),
        after[3] == machine::after_op(m, after[2], ops[3]),
        after[4] == machine::after_op(m, after[3], ops[4]),
    ensures
        machine::after_ops(m, d, ops, 5) == after[4],
{
    reveal_with_fuel(machine::after_ops, 6);
}

/// On its way, a processor runs operations one after the other.
pub proof fn runs_ops(
    m: Floats,
    full: Seq<Ins>,
    s: State,
    p: Asm,
    ops: Seq<Op>,
    d: Data,
    t: Data,
)
    requires
        machine::reaches(m, full, s, behind(p, d)),
        starts(full, p.emit(ops)),
        goes_on(ops),
        t == machine::after_ops(m, d, ops, ops.len()),
    ensures
        machine::reaches(m, full, s, behind(p.emit(ops), t)),
{
    ops_run(m, full, p, ops, d);
    reaches_on(m, full, s, behind(p, d), behind(p.emit(ops), t));
}

/// The line of a label that is placed once.
pub proof fn label_is_found(full: Seq<Ins>, l: u64, i: int)
    requires
        program::places_are_single(full),
        0 <= i < full.len(),
        full[i] == Ins::Place(l),
    ensures
        machine::line_of_label(full, l) == i,
{
    let j = machine::line_of_label(full, l);
    assert(0 <= j < full.len() && full[j] == Ins::Place(l));
    if j < i {
        assert(full[j] != full[i]);
    } else if i < j {
        assert(full[i] != full[j]);
    }
}

/// The head of a loop: the line of its label, which does nothing.
pub open spec fn at_head(p: Asm, d: Data) -> State {
    State { pc: p.begin().lines.len() - 1, data: d }
}

/// What is in front of a loop leads to its head, or already stands there.
pub proof fn loop_is_entered(m: Floats, full: Seq<Ins>, p: Asm, d: Data)
    requires
        starts(full, p.begin()),
    ensures
        machine::reaches(m, full, behind(p, d), behind(p.begin(), d)),
        machine::reaches(m, full, at_head(p, d), behind(p.begin(), d)),
{
    reveal(starts);
    let h = at_head(p, d);
    let q = p.begin();
    assert(q.lines[h.pc] is Place);
    assert(full[h.pc] is Place);
    assert(machine::step(m, full, h) == behind(q, d));
    reaches_next(m, full, h);
    if p.at_label() {
        reaches_itself(m, full, behind(p, d));
    }
}

/// Where the test finds `>=`, a loop is left behind its end.
///
/// `t` is what stands in front of the jump, and `q` what stands in front of the end.
pub proof fn loop_is_left(m: Floats, full: Seq<Ins>, t: Asm, q: Asm, d: Data)
    requires
        program::places_are_single(full),
        starts(full, t.exit_if_ge()),
        starts(full, q.end()),
        t.open.len() > 0,
        q.open == t.open,
        d.less == Some(false),
    ensures
        machine::reaches(m, full, behind(t, d), behind(q.end(), d)),
{
    reveal(starts);
    let x = t.open.last().1;
    let s = behind(t, d);
    let i = q.end().lines.len() - 1;
    assert(t.exit_if_ge().lines[s.pc] == Ins::Jump(JumpKind::GreaterOrEqual, x));
    assert(full[s.pc] == Ins::Jump(JumpKind::GreaterOrEqual, x));
    assert(q.end().lines[i] == Ins::Place(x));
    assert(full[i] == Ins::Place(x));
    label_is_found(full, x, i);
    let u = State { pc: i, data: d };
    assert(machine::step(m, full, s) == u);
    reaches_next(m, full, s);
    assert(machine::step(m, full, u) == behind(q.end(), d));
    reaches_next(m, full, u);
    reaches_on(m, full, s, u, behind(q.end(), d));
}

/// Where the test finds `<`, a loop goes on.
pub proof fn loop_goes_on(m: Floats, full: Seq<Ins>, t: Asm, d: Data)
    requires
        starts(full, t.exit_if_ge()),
        d.less == Some(true),
    ensures
        machine::reaches(m, full, behind(t, d), behind(t.exit_if_ge(), d)),
{
    reveal(starts);
    let s = behind(t, d);
    assert(t.exit_if_ge().lines[s.pc] is Jump);
    assert(full[s.pc] == t.exit_if_ge().lines[s.pc]);
    assert(machine::step(m, full, s) == behind(t.exit_if_ge(), d));
    reaches_next(m, full, s);
}

/// The end of a loop leads back to its head.
///
/// `p` is what stands in front of the loop, and `q` what stands in front of its end.
pub proof fn loop_goes_back(m: Floats, full: Seq<Ins>, p: Asm, q: Asm, d: Data)
    requires
        program::places_are_single(full),
        starts(full, p.begin()),
        starts(full, q.end()),
        q.open == p.begin().open,
    ensures
        machine::reaches(m, full, behind(q, d), behind(p.begin(), d)),
{
    reveal(starts);
    let h = q.open.last().0;
    let s = behind(q, d);
    let i = p.begin().lines.len() - 1;
    assert(q.end().lines[s.pc] == Ins::Jump(JumpKind::Always, h));
    assert(full[s.pc] == Ins::Jump(JumpKind::Always, h));
    assert(p.begin().lines[i] == Ins::Place(h));
    assert(full[i] == Ins::Place(h));
    label_is_found(full, h, i);
    let u = at_head(p, d);
    assert(machine::step(m, full, s) == u);
    reaches_next(m, full, s);
    loop_is_entered(m, full, p, d);
    reaches_on(m, full, s, u, behind(p.begin(), d));
}

/// Operations lead into a loop.
pub proof fn loop_opens(m: Floats, full: Seq<Ins>, p: Asm, ops: Seq<Op>, d: Data, t: Data)
    requires
        starts(full, p.emit(ops).begin()),
        goes_on(ops),
        t == machine::after_ops(m, d, ops, ops.len()),
    ensures
        machine::reaches(m, full, behind(p, d), behind(p.emit(ops).begin(), t)),
{
    let q = p.emit(ops);
    before_loop(full, q);
    ops_run(m, full, p, ops, d);
    loop_is_entered(m, full, q, t);
    reaches_on(m, full, behind(p, d), behind(q, t), behind(q.begin(), t));
}

/// A test that finds `<` leads into another round.
pub proof fn round_begins(m: Floats, full: Seq<Ins>, p: Asm, test: Seq<Op>, d: Data, t: Data)
    requires
        starts(full, p.begin().emit(test).exit_if_ge()),
        goes_on(test),
        t == machine::after_ops(m, d, test, test.len()),
        t.less == Some(true),
    ensures
        machine::reaches(
            m,
            full,
            behind(p.begin(), d),
            behind(p.begin().emit(test).exit_if_ge(), t),
        ),
{
    let q = p.begin().emit(test);
    before_loop(full, q);
    ops_run(m, full, p.begin(), test, d);
    loop_goes_on(m, full, q, t);
    reaches_on(m, full, behind(p.begin(), d), behind(q, t), behind(q.exit_if_ge(), t));
}

/// The last operations of a round lead back to the head of the loop.
pub proof fn round_ends(m: Floats, full: Seq<Ins>, p: Asm, q: Asm, ops: Seq<Op>, d: Data, t: Data)
    requires
        program::places_are_single(full),
        starts(full, p.begin()),
        starts(full, q.emit(ops).end()),
        q.open == p.begin().open,
        goes_on(ops),
        t == machine::after_ops(m, d, ops, ops.len()),
    ensures
        machine::reaches(m, full, behind(q, d), behind(p.begin(), t)),
{
    let r = q.emit(ops);
    before_loop(full, r);
    ops_run(m, full, q, ops, d);
    loop_goes_back(m, full, p, r, t);
    reaches_on(m, full, behind(q, d), behind(r, t), behind(p.begin(), t));
}

/// A test that finds `>=` leads out of a loop that ends behind `q`.
pub proof fn loop_ends(m: Floats, full: Seq<Ins>, p: Asm, test: Seq<Op>, q: Asm, d: Data, t: Data)
    requires
        program::places_are_single(full),
        starts(full, p.begin().emit(test).exit_if_ge()),
        starts(full, q.end()),
        q.open == p.begin().open,
        goes_on(test),
        t == machine::after_ops(m, d, test, test.len()),
        t.less == Some(false),
    ensures
        machine::reaches(m, full, behind(p.begin(), d), behind(q.end(), t)),
{
    let r = p.begin().emit(test);
    before_loop(full, r);
    ops_run(m, full, p.begin(), test, d);
    loop_is_left(m, full, r, q, t);
    reaches_on(m, full, behind(p.begin(), d), behind(r, t), behind(q.end(), t));
}

/// What is in front of a loop that is tested at its end leads into it.
pub proof fn tail_tested_loop_is_entered(m: Floats, full: Seq<Ins>, p: Asm, d: Data)
    requires
        starts(full, p.begin_tail_tested()),
    ensures
        machine::reaches(m, full, behind(p, d), behind(p.begin_tail_tested(), d)),
{
    reveal(starts);
    let s = behind(p, d);
    assert(p.begin_tail_tested().lines[s.pc] is Place);
    assert(full[s.pc] is Place);
    assert(machine::step(m, full, s) == behind(p.begin_tail_tested(), d));
    reaches_next(m, full, s);
}

/// Where the test finds `<`, the end of such a loop leads back into it, and else behind it.
///
/// `p` is what stands in front of the loop, and `q` what stands in front of the jump.
pub proof fn tail_tested_loop_is_decided(m: Floats, full: Seq<Ins>, p: Asm, q: Asm, d: Data)
    requires
        program::places_are_single(full),
        starts(full, p.begin_tail_tested()),
        starts(full, q.end_tail_tested()),
        q.open == p.begin_tail_tested().open,
        d.less is Some,
    ensures
        d.less == Some(true) ==> machine::reaches(
            m,
            full,
            behind(q, d),
            behind(p.begin_tail_tested(), d),
        ),
        d.less == Some(false) ==> machine::reaches(
            m,
            full,
            behind(q, d),
            behind(q.end_tail_tested(), d),
        ),
{
    reveal(starts);
    let h = q.open.last().0;
    let s = behind(q, d);
    let i = p.lines.len() as int;
    assert(q.end_tail_tested().lines[s.pc] == Ins::Jump(JumpKind::Less, h));
    assert(full[s.pc] == Ins::Jump(JumpKind::Less, h));
    reaches_next(m, full, s);
    if d.less == Some(true) {
        assert(p.begin_tail_tested().lines[i] == Ins::Place(h));
        assert(full[i] == Ins::Place(h));
        label_is_found(full, h, i);
        let u = behind(p, d);
        assert(machine::step(m, full, s) == u);
        tail_tested_loop_is_entered(m, full, p, d);
        reaches_on(m, full, s, u, behind(p.begin_tail_tested(), d));
    } else {
        assert(machine::step(m, full, s) == behind(q.end_tail_tested(), d));
    }
}

/// Operations that follow each other are one run of operations.
pub proof fn emits_join(p: Asm, a: Seq<Op>, b: Seq<Op>)
    ensures
        p.emit(a).emit(b) == p.emit(a + b),
{
    assert(p.emit(a).emit(b).lines =~= p.emit(a + b).lines);
}

proof fn first_ops_agree(m: Floats, d: Data, a: Seq<Op>, b: Seq<Op>, k: nat)
    requires
        k <= a.len(),
    ensures
        machine::after_ops(m, d, a + b, k) == machine::after_ops(m, d, a, k),
    decreases k,
{
    if k > 0 {
        first_ops_agree(m, d, a, b, (k - 1) as nat);
    }
}

proof fn last_ops_agree(m: Floats, d: Data, a: Seq<Op>, b: Seq<Op>, k: nat)
    requires
        k <= b.len(),
    ensures
        machine::after_ops(m, d, a + b, a.len() + k) == machine::after_ops(
            m,
            machine::after_ops(m, d, a, a.len()),
            b,
            k,
        ),
    decreases k,
{
    if k == 0 {
        first_ops_agree(m, d, a, b, a.len());
    } else {
        last_ops_agree(m, d, a, b, (k - 1) as nat);
    }
}

/// The data behind operations that follow each other.
pub proof fn ops_follow(m: Floats, d: Data, a: Seq<Op>, b: Seq<Op>, da: Data, t: Data)
    requires
        goes_on(a),
        goes_on(b),
        da == machine::after_ops(m, d, a, a.len()),
        t == machine::after_ops(m, da, b, b.len()),
    ensures
        goes_on(a + b),
        t == machine::after_ops(m, d, a + b, (a + b).len()),
{
    last_ops_agree(m, d, a, b, b.len());
    assert forall|i: int| 0 <= i < (a + b).len() implies #[trigger] (a + b)[i] != Op::Bare(
        BareOp::Ret,
    ) by {
        if i < a.len() {
            assert((a + b)[i] == a[i]);
        } else {
            assert((a + b)[i] == b[i - a.len()]);
        }
    }
}

/// Runs of operations, one behind the other.
pub open spec fn joined(runs: Seq<Seq<Op>>) -> Seq<Op>
    decreases runs.len(),
{
    if runs.len() == 0 {
        Seq::empty()
    } else {
        joined(runs.drop_last()) + runs.last()
    }
}

/// Operations added run by run.
pub open spec fn emit_all(p: Asm, runs: Seq<Seq<Op>>) -> Asm
    decreases runs.len(),
{
    if runs.len() == 0 {
        p
    } else {
        emit_all(p, runs.drop_last()).emit(runs.last())
    }
}

/// Operations added run by run are operations added at once.
pub proof fn all_emits_join(p: Asm, runs: Seq<Seq<Op>>)
    ensures
        emit_all(p, runs) == p.emit(joined(runs)),
    decreases runs.len(),
{
    if runs.len() == 0 {
        assert(p.emit(joined(runs)).lines =~= p.lines);
    } else {
        all_emits_join(p, runs.drop_last());
        emits_join(p, joined(runs.drop_last()), runs.last());
    }
}

/// Every run leads from the data behind the one in front of it to its own.
pub open spec fn all_follow(m: Floats, d: Data, runs: Seq<Seq<Op>>, after: Seq<Data>) -> bool {
    &&& after.len() == runs.len()
    &&& forall|i: int|
        0 <= i < runs.len() ==> {
            &&& goes_on(#[trigger] runs[i])
            &&& after[i] == machine::after_ops(
                m,
                if i == 0 {
                    d
                } else {
                    after[i - 1]
                },
                runs[i],
                runs[i].len(),
            )
        }
}

/// The data behind runs of operations.
pub proof fn all_ops_follow(m: Floats, d: Data, runs: Seq<Seq<Op>>, after: Seq<Data>)
    requires
        all_follow(m, d, runs, after),
        runs.len() > 0,
    ensures
        goes_on(joined(runs)),
        after.last() == machine::after_ops(m, d, joined(runs), joined(runs).len()),
    decreases runs.len(),
{
    let n = runs.len() as int;
    let less = runs.drop_last();
    let last = runs[n - 1];
    assert(goes_on(last));
    if n == 1 {
        assert(joined(less) =~= Seq::<Op>::empty());
        assert(joined(runs) =~= last);
    } else {
        assert forall|i: int| 0 <= i < less.len() implies goes_on(#[trigger] less[i])
            && after.drop_last()[i] == machine::after_ops(
            m,
            if i == 0 {
                d
            } else {
                after.drop_last()[i - 1]
            },
            less[i],
            less[i].len(),
        ) by {
            assert(runs[i] == less[i]);
        }
        all_ops_follow(m, d, less, after.drop_last());
        ops_follow(m, d, joined(less), last, after[n - 2], after[n - 1]);
    }
}

/// A loop whose test and body are operations.
pub open spec fn plain_loop(p: Asm, test: Seq<Op>, body: Seq<Op>) -> Asm {
    p.begin().emit(test).exit_if_ge().emit(body).end()
}

/// What stands in front of a loop, and inside of it, was built before it, and it leaves no loop
/// open.
pub proof fn before_plain_loop(full: Seq<Ins>, p: Asm, test: Seq<Op>, body: Seq<Op>)
    requires
        starts(full, plain_loop(p, test, body)),
    ensures
        starts(full, p),
        starts(full, p.begin()),
        starts(full, p.begin().emit(test).exit_if_ge()),
        starts(full, p.begin().emit(test).exit_if_ge().emit(body)),
        plain_loop(p, test, body).open == p.open,
{
    let q = p.begin().emit(test);
    before_loop(full, q.exit_if_ge().emit(body));
    before_ops(full, q.exit_if_ge(), body);
    before_loop(full, q);
    before_ops(full, p.begin(), test);
    before_loop(full, p);
    assert(plain_loop(p, test, body).open =~= p.open);
}

/// A round of a loop: the test finds `<`, and the body leads back to the head.
pub proof fn plain_round(
    m: Floats,
    full: Seq<Ins>,
    p: Asm,
    test: Seq<Op>,
    body: Seq<Op>,
    d: Data,
    d1: Data,
    t: Data,
)
    requires
        program::places_are_single(full),
        starts(full, plain_loop(p, test, body)),
        goes_on(test),
        goes_on(body),
        d1 == machine::after_ops(m, d, test, test.len()),
        d1.less == Some(true),
        t == machine::after_ops(m, d1, body, body.len()),
    ensures
        machine::reaches(m, full, behind(p.begin(), d), behind(p.begin(), t)),
{
    let q = p.begin().emit(test).exit_if_ge();
    before_plain_loop(full, p, test, body);
    round_begins(m, full, p, test, d, d1);
    round_ends(m, full, p, q, body, d1, t);
    reaches_on(m, full, behind(p.begin(), d), behind(q, d1), behind(p.begin(), t));
}

/// The end of a loop: the test finds `>=`.
pub proof fn plain_loop_ends(
    m: Floats,
    full: Seq<Ins>,
    p: Asm,
    test: Seq<Op>,
    body: Seq<Op>,
    d: Data,
    t: Data,
)
    requires
        program::places_are_single(full),
        starts(full, plain_loop(p, test, body)),
        goes_on(test),
        t == machine::after_ops(m, d, test, test.len()),
        t.less == Some(false),
    ensures
        machine::reaches(m, full, behind(p.begin(), d), behind(plain_loop(p, test, body), t)),
{
    before_plain_loop(full, p, test, body);
    loop_ends(m, full, p, test, p.begin().emit(test).exit_if_ge().emit(body), d, t);
}

/// The data behind saving the first `k` registers.
pub open spec fn after_pushes(d: Data, saved: Seq<Reg>, k: nat) -> Data
    decreases k,
{
    if k == 0 {
        d
    } else {
        machine::after_push(after_pushes(d, saved, (k - 1) as nat), saved[k - 1])
    }
}

/// The numbers in some registers.
pub open spec fn numbers(d: Data, regs: Seq<Reg>) -> Seq<int> {
    regs.map_values(|r: Reg| d.reg(r))
}

/// Registers that a frame can save: 64-bit registers, each once, and neither the frame pointer
/// nor the stack pointer.
pub open spec fn can_be_saved(saved: Seq<Reg>) -> bool {
    &&& saved.no_duplicates()
    &&& forall|i: int|
        0 <= i < saved.len() ==> {
            &&& machine::whole(#[trigger] saved[i]) == saved[i]
            &&& saved[i] != Reg::Rbp
            &&& saved[i] != Reg::Rsp
        }
}

/// The frame of a kernel: the frame pointer and the saved registers of the caller are on the
/// stack, above what the caller had there.
pub open spec fn in_frame(d: Data, caller: Data, saved: Seq<Reg>) -> bool {
    &&& d.stack == caller.stack.push(caller.reg(Reg::Rbp)) + numbers(caller, saved)
    &&& d.reg(Reg::Rsp) == caller.reg(Reg::Rsp) - 8 - 8 * saved.len()
}

/// The registers that belong to the caller are as before.
pub open spec fn keeps_callers(before: Data, after: Data) -> bool {
    &&& after.stack == before.stack
    &&& after.reg(Reg::Rsp) == before.reg(Reg::Rsp)
    &&& after.reg(Reg::Rbp) == before.reg(Reg::Rbp)
    &&& after.reg(Reg::Rbx) == before.reg(Reg::Rbx)
    &&& after.reg(Reg::R12) == before.reg(Reg::R12)
    &&& after.reg(Reg::R13) == before.reg(Reg::R13)
    &&& after.reg(Reg::R14) == before.reg(Reg::R14)
    &&& after.reg(Reg::R15) == before.reg(Reg::R15)
}

/// The stack pointer has room for a frame.
pub open spec fn has_room(d: Data, saved: Seq<Reg>) -> bool {
    -0x7000_0000_0000_0000 <= d.reg(Reg::Rsp) < 0x7000_0000_0000_0000 && saved.len() <= 16
}

proof fn pushes_run(
    m: Floats,
    full: Seq<Ins>,
    p: Asm,
    saved: Seq<Reg>,
    d: Data,
    caller: Data,
    k: nat,
)
    requires
        starts(full, p.enter(saved)),
        can_be_saved(saved),
        has_room(caller, saved),
        k <= saved.len(),
        d.stack == caller.stack.push(caller.reg(Reg::Rbp)),
        d.reg(Reg::Rsp) == caller.reg(Reg::Rsp) - 8,
        forall|r: Reg|
            machine::whole(r) != Reg::Rbp && machine::whole(r) != Reg::Rsp ==> #[trigger] d.reg(r)
                == caller.reg(r),
    ensures
        ({
            let t = after_pushes(d, saved, k);
            &&& machine::reaches(
                m,
                full,
                State { pc: p.lines.len() as int + 2, data: d },
                State { pc: p.lines.len() as int + 2 + k, data: t },
            )
            &&& t.stack == caller.stack.push(caller.reg(Reg::Rbp)) + numbers(
                caller,
                saved.take(k as int),
            )
            &&& t.reg(Reg::Rsp) == caller.reg(Reg::Rsp) - 8 - 8 * k
            &&& t.reg(Reg::Rbp) == d.reg(Reg::Rbp)
            &&& t.mem == d.mem
            &&& t.vec == d.vec
            &&& forall|r: Reg|
                machine::whole(r) != Reg::Rbp && machine::whole(r) != Reg::Rsp
                    ==> #[trigger] t.reg(r) == caller.reg(r)
        }),
    decreases k,
{
    reveal(starts);
    let s = State { pc: p.lines.len() as int + 2, data: d };
    if k == 0 {
        reaches_itself(m, full, s);
        assert(d.stack + numbers(caller, saved.take(0)) =~= d.stack);
    } else {
        let j = (k - 1) as nat;
        pushes_run(m, full, p, saved, d, caller, j);
        let t = after_pushes(d, saved, j);
        let u = State { pc: p.lines.len() as int + 2 + j, data: t };
        let r = saved[j as int];
        assert(p.enter(saved).lines[u.pc] == Ins::Push(r));
        assert(full[u.pc] == Ins::Push(r));
        reaches_next(m, full, u);
        reaches_on(m, full, s, u, machine::step(m, full, u));
        assert(machine::whole(r) == r);
        assert(t.reg(r) == caller.reg(r));
        assert(numbers(caller, saved.take(k as int)) =~= numbers(
            caller,
            saved.take(j as int),
        ).push(caller.reg(r)));
        let x = after_pushes(d, saved, k);
        assert(x.stack =~= caller.stack.push(caller.reg(Reg::Rbp)) + numbers(
            caller,
            saved.take(k as int),
        ));
        assert forall|q: Reg|
            machine::whole(q) != Reg::Rbp && machine::whole(q) != Reg::Rsp implies #[trigger] x.reg(
            q,
        ) == caller.reg(q) by {
            assert(t.reg(q) == caller.reg(q));
        }
    }
}

/// Entering a frame saves the registers, points to the saved frame pointer, and keeps all but the
/// frame pointer and the stack pointer, the memory and the vectors.
pub proof fn frame_is_entered(m: Floats, full: Seq<Ins>, p: Asm, saved: Seq<Reg>, d: Data) -> (t:
    Data)
    requires
        starts(full, p.enter(saved)),
        can_be_saved(saved),
        has_room(d, saved),
    ensures
        machine::reaches(m, full, behind(p, d), behind(p.enter(saved), t)),
        in_frame(t, d, saved),
        t.reg(Reg::Rbp) == d.reg(Reg::Rsp) - 8,
        t.mem == d.mem,
        t.vec == d.vec,
        forall|r: Reg|
            machine::whole(r) != Reg::Rbp && machine::whole(r) != Reg::Rsp ==> #[trigger] t.reg(r)
                == d.reg(r),
{
    reveal(machine::after_op);
    reveal(starts);
    let lines = p.enter(saved).lines;
    let n = p.lines.len() as int;
    let s0 = behind(p, d);
    let d1 = machine::after_push(d, Reg::Rbp);
    let s1 = State { pc: n + 1, data: d1 };
    assert(lines[n] == Ins::Push(Reg::Rbp));
    assert(full[n] == Ins::Push(Reg::Rbp));
    assert(machine::step(m, full, s0) == s1);
    reaches_next(m, full, s0);
    let d2 = machine::after_op(m, d1, mov(Reg::Rbp, Reg::Rsp));
    let s2 = State { pc: n + 2, data: d2 };
    assert(lines[n + 1] == Ins::Op(mov(Reg::Rbp, Reg::Rsp)));
    assert(full[n + 1] == Ins::Op(mov(Reg::Rbp, Reg::Rsp)));
    assert(machine::step(m, full, s1) == s2);
    reaches_next(m, full, s1);
    reaches_on(m, full, s0, s1, s2);
    assert forall|r: Reg|
        machine::whole(r) != Reg::Rbp && machine::whole(r) != Reg::Rsp implies #[trigger] d2.reg(r)
        == d.reg(r) by {}
    pushes_run(m, full, p, saved, d2, d, saved.len());
    let t = after_pushes(d2, saved, saved.len());
    assert(saved.take(saved.len() as int) =~= saved);
    assert(lines.len() == n + 2 + saved.len());
    reaches_on(m, full, s0, s2, behind(p.enter(saved), t));
    t
}

/// The data behind restoring the last `k` saved registers.
pub open spec fn after_pops(d: Data, saved: Seq<Reg>, k: nat) -> Data
    decreases k,
{
    if k == 0 {
        d
    } else {
        machine::after_pop(after_pops(d, saved, (k - 1) as nat), saved[saved.len() - k])
    }
}

proof fn pops_run(
    m: Floats,
    full: Seq<Ins>,
    p: Asm,
    saved: Seq<Reg>,
    d: Data,
    caller: Data,
    k: nat,
)
    requires
        starts(full, p.leave(saved)),
        can_be_saved(saved),
        has_room(caller, saved),
        k <= saved.len(),
        in_frame(d, caller, saved),
    ensures
        ({
            let t = after_pops(d, saved, k);
            &&& machine::reaches(
                m,
                full,
                behind(p, d),
                State { pc: p.lines.len() as int + k, data: t },
            )
            &&& t.stack == caller.stack.push(caller.reg(Reg::Rbp)) + numbers(
                caller,
                saved.take(saved.len() - k),
            )
            &&& t.reg(Reg::Rsp) == caller.reg(Reg::Rsp) - 8 - 8 * (saved.len() - k)
            &&& t.mem == d.mem
            &&& t.vec == d.vec
            &&& forall|i: int|
                saved.len() - k <= i < saved.len() ==> t.reg(#[trigger] saved[i]) == caller.reg(
                    saved[i],
                )
            &&& forall|r: Reg|
                !saved.contains(machine::whole(r)) && machine::whole(r) != Reg::Rsp
                    ==> #[trigger] t.reg(r) == d.reg(r)
        }),
    decreases k,
{
    reveal(starts);
    let s = behind(p, d);
    let n = saved.len() as int;
    if k == 0 {
        reaches_itself(m, full, s);
        assert(saved.take(n) =~= saved);
    } else {
        let j = (k - 1) as nat;
        pops_run(m, full, p, saved, d, caller, j);
        let t = after_pops(d, saved, j);
        let u = State { pc: p.lines.len() as int + j, data: t };
        let r = saved[n - k];
        let pops = saved.reverse().map_values(|r: Reg| Ins::Pop(r));
        assert(pops[j as int] == Ins::Pop(r));
        assert(p.leave(saved).lines[u.pc] == pops[j as int]);
        assert(full[u.pc] == Ins::Pop(r));
        let before = saved.take(n - j);
        let after = saved.take(n - k);
        assert(numbers(caller, before) =~= numbers(caller, after).push(caller.reg(r)));
        let base = caller.stack.push(caller.reg(Reg::Rbp));
        assert(t.stack =~= (base + numbers(caller, after)).push(caller.reg(r)));
        assert(t.stack.last() == caller.reg(r));
        assert(t.stack.drop_last() =~= base + numbers(caller, after));
        reaches_next(m, full, u);
        reaches_on(m, full, s, u, machine::step(m, full, u));
        let x = after_pops(d, saved, k);
        assert(x == machine::after_pop(t, r));
        assert(machine::whole(r) == r);
        assert forall|i: int| n - k <= i < n implies x.reg(#[trigger] saved[i]) == caller.reg(
            saved[i],
        ) by {
            assert(machine::whole(saved[i]) == saved[i]);
            if i != n - k {
                assert(t.reg(saved[i]) == caller.reg(saved[i]));
                assert(saved[i] != r);
            }
        }
        assert forall|q: Reg|
            !saved.contains(machine::whole(q)) && machine::whole(q)
                != Reg::Rsp implies #[trigger] x.reg(q) == d.reg(q) by {
            assert(t.reg(q) == d.reg(q));
            assert(saved.contains(r));
        }
    }
}

/// Leaving a frame restores the frame pointer, the stack pointer, the stack and the saved
/// registers, keeps all other registers, the memory and the vectors, and returns.
pub proof fn frame_is_left(
    m: Floats,
    full: Seq<Ins>,
    p: Asm,
    saved: Seq<Reg>,
    d: Data,
    caller: Data,
) -> (t: Data)
    requires
        starts(full, p.leave(saved)),
        can_be_saved(saved),
        has_room(caller, saved),
        in_frame(d, caller, saved),
    ensures
        machine::reaches(m, full, behind(p, d), State { pc: machine::returned(), data: t }),
        t.stack == caller.stack,
        t.reg(Reg::Rsp) == caller.reg(Reg::Rsp),
        t.reg(Reg::Rbp) == caller.reg(Reg::Rbp),
        t.mem == d.mem,
        t.vec == d.vec,
        forall|i: int|
            0 <= i < saved.len() ==> t.reg(#[trigger] saved[i]) == caller.reg(saved[i]),
        forall|r: Reg|
            !saved.contains(machine::whole(r)) && machine::whole(r) != Reg::Rsp && machine::whole(r)
                != Reg::Rbp ==> #[trigger] t.reg(r) == d.reg(r),
{
    reveal(starts);
    let n = saved.len();
    let at = p.lines.len() as int + n;
    pops_run(m, full, p, saved, d, caller, n);
    let d1 = after_pops(d, saved, n);
    let s1 = State { pc: at, data: d1 };
    assert(d1.stack =~= caller.stack.push(caller.reg(Reg::Rbp)));
    let t = machine::after_pop(d1, Reg::Rbp);
    let s2 = State { pc: at + 1, data: t };
    let lines = p.leave(saved).lines;
    assert(lines[at] == Ins::Pop(Reg::Rbp));
    assert(full[at] == Ins::Pop(Reg::Rbp));
    assert(machine::step(m, full, s1) == s2);
    reaches_next(m, full, s1);
    reaches_on(m, full, behind(p, d), s1, s2);
    assert(lines[at + 1] == Ins::Op(Op::Bare(BareOp::Ret)));
    assert(full[at + 1] == Ins::Op(Op::Bare(BareOp::Ret)));
    let s3 = State { pc: machine::returned(), data: t };
    assert(machine::step(m, full, s2) == s3);
    reaches_next(m, full, s2);
    reaches_on(m, full, behind(p, d), s2, s3);
    assert(t.stack =~= caller.stack);
    assert forall|i: int| 0 <= i < saved.len() implies t.reg(#[trigger] saved[i]) == caller.reg(
        saved[i],
    ) by {
        assert(machine::whole(saved[i]) == saved[i]);
        assert(d1.reg(saved[i]) == caller.reg(saved[i]));
    }
    assert forall|r: Reg|
        !saved.contains(machine::whole(r)) && machine::whole(r) != Reg::Rsp && machine::whole(r)
            != Reg::Rbp implies #[trigger] t.reg(r) == d.reg(r) by {
        assert(d1.reg(r) == d.reg(r));
    }
    t
}

} // verus!
