//! Programs with structured loops: their construction and what it keeps.

use crate::x86_emitter::inst::{mov, BareOp, Ins, JumpKind, Op, Reg};
use vstd::prelude::*;

verus! {

/// A program under construction, as a value: its lines, the next unused label, and the loops
/// that are still open, each with the label of its head and the label behind it. A loop that is
/// tested at its end has no label behind it and repeats the one of its head.
#[verifier::ext_equal]
pub struct Asm {
    pub lines: Seq<Ins>,
    pub next: int,
    pub open: Seq<(u64, u64)>,
}

impl Asm {
    /// The program without lines.
    pub open spec fn empty() -> Asm {
        Asm { lines: Seq::empty(), next: 0, open: Seq::empty() }
    }

    /// The last line places a label.
    pub open spec fn at_label(self) -> bool {
        self.lines.len() > 0 && self.lines.last() is Place
    }

    /// Adds operations.
    pub open spec fn emit(self, ops: Seq<Op>) -> Asm {
        Asm { lines: self.lines + ops.map_values(|op: Op| Ins::Op(op)), ..self }
    }

    /// Saves the frame pointer and then `saved`.
    pub open spec fn enter(self, saved: Seq<Reg>) -> Asm {
        Asm {
            lines: self.lines + seq![Ins::Push(Reg::Rbp), Ins::Op(mov(Reg::Rbp, Reg::Rsp))]
                + saved.map_values(|r: Reg| Ins::Push(r)),
            ..self
        }
    }

    /// Restores `saved`, the last one first, and then the frame pointer, and returns.
    pub open spec fn leave(self, saved: Seq<Reg>) -> Asm {
        Asm {
            lines: self.lines + saved.reverse().map_values(|r: Reg| Ins::Pop(r)) + seq![
                Ins::Pop(Reg::Rbp),
                Ins::Op(Op::Bare(BareOp::Ret)),
            ],
            ..self
        }
    }

    /// Opens a loop here. The label of a loop that ended here is used again.
    pub open spec fn begin(self) -> Asm {
        if self.at_label() {
            Asm {
                next: self.next + 1,
                open: self.open.push((self.lines.last()->Place_0, self.next as u64)),
                ..self
            }
        } else {
            Asm {
                lines: self.lines.push(Ins::Place(self.next as u64)),
                next: self.next + 2,
                open: self.open.push((self.next as u64, (self.next + 1) as u64)),
            }
        }
    }

    /// Leaves the innermost loop where the last comparison found `>=`.
    pub open spec fn exit_if_ge(self) -> Asm {
        Asm {
            lines: self.lines.push(Ins::Jump(JumpKind::GreaterOrEqual, self.open.last().1)),
            ..self
        }
    }

    /// Closes the innermost loop: back to its head, and on behind it.
    pub open spec fn end(self) -> Asm {
        Asm {
            lines: self.lines.push(Ins::Jump(JumpKind::Always, self.open.last().0)).push(
                Ins::Place(self.open.last().1),
            ),
            open: self.open.drop_last(),
            ..self
        }
    }

    /// Opens a loop that is tested at its end.
    pub open spec fn begin_tail_tested(self) -> Asm {
        Asm {
            lines: self.lines.push(Ins::Place(self.next as u64)),
            next: self.next + 1,
            open: self.open.push((self.next as u64, self.next as u64)),
        }
    }

    /// Closes a loop that is tested at its end: back to its head where the last comparison found
    /// `<`.
    pub open spec fn end_tail_tested(self) -> Asm {
        Asm {
            lines: self.lines.push(Ins::Jump(JumpKind::Less, self.open.last().0)),
            open: self.open.drop_last(),
            ..self
        }
    }
}

/// The label is placed in the program.
pub open spec fn is_placed(s: Seq<Ins>, label: u64) -> bool {
    s.contains(Ins::Place(label))
}

/// No label is placed twice, and every placed label is followed by a line that is no label.
pub open spec fn places_are_single(s: Seq<Ins>) -> bool {
    &&& forall|i: int, j: int|
        0 <= i < j < s.len() && (#[trigger] s[i]) is Place ==> s[i] != #[trigger] s[j]
    &&& forall|i: int| 0 < i < s.len() && (#[trigger] s[i]) is Place ==> !(s[i - 1] is Place)
}

/// Labels are sound: every one is placed at most once, in front of an instruction, and every
/// jump leads to a label that is placed.
pub open spec fn well_labelled(s: Seq<Ins>) -> bool {
    &&& places_are_single(s)
    &&& s.len() > 0 ==> !(s.last() is Place)
    &&& forall|i: int|
        0 <= i < s.len() ==> ((#[trigger] s[i]) matches Ins::Jump(_, l) ==> is_placed(s, l))
}

/// The label lies behind an open loop and is still to be placed.
pub open spec fn is_awaited(open: Seq<(u64, u64)>, label: u64) -> bool {
    exists|k: int| 0 <= k < open.len() && (#[trigger] open[k]).1 == label && open[k].0 != label
}

/// What construction keeps: labels are single, every jump leads to a label that is placed or
/// awaited, the head of every open loop is placed, the label behind it is not, and no two open
/// loops share one.
pub open spec fn sound(p: Asm) -> bool {
    &&& 0 <= p.next
    &&& places_are_single(p.lines)
    &&& forall|i: int|
        0 <= i < p.lines.len() ==> ((#[trigger] p.lines[i]) matches Ins::Place(l) ==> l < p.next)
    &&& forall|i: int|
        0 <= i < p.lines.len() ==> ((#[trigger] p.lines[i]) matches Ins::Jump(_, l) ==> is_placed(
            p.lines,
            l,
        ) || is_awaited(p.open, l))
    &&& forall|k: int|
        0 <= k < p.open.len() ==> is_placed(p.lines, (#[trigger] p.open[k]).0) && p.open[k].1
            < p.next
    &&& forall|k: int|
        0 <= k < p.open.len() && (#[trigger] p.open[k]).0 != p.open[k].1 ==> !is_placed(
            p.lines,
            p.open[k].1,
        )
    &&& forall|j: int, k: int|
        0 <= j < k < p.open.len() ==> (#[trigger] p.open[j]).1 != (#[trigger] p.open[k]).1
}

/// What is on the stack behind a line, given what was on it before; nothing is known once a
/// register was restored that was not saved last.
pub open spec fn stack_step(stack: Option<Seq<Reg>>, line: Ins) -> Option<Seq<Reg>> {
    match (stack, line) {
        (Some(s), Ins::Push(r)) => Some(s.push(r)),
        (Some(s), Ins::Pop(r)) => if s.len() > 0 && s.last() == r {
            Some(s.drop_last())
        } else {
            None
        },
        _ => stack,
    }
}

/// What is on the stack behind lines that start with an empty one. Loops are gone through once:
/// no line inside one touches the stack.
pub open spec fn stack_after(lines: Seq<Ins>) -> Option<Seq<Reg>>
    decreases lines.len(),
{
    if lines.len() == 0 {
        Some(Seq::empty())
    } else {
        stack_step(stack_after(lines.drop_last()), lines.last())
    }
}

proof fn stack_push(lines: Seq<Ins>, line: Ins)
    ensures
        stack_after(lines.push(line)) == stack_step(stack_after(lines), line),
{
    assert(lines.push(line).drop_last() =~= lines);
}

/// Operations leave the stack alone.
proof fn emit_keeps_stack(p: Asm, ops: Seq<Op>)
    ensures
        stack_after(p.emit(ops).lines) == stack_after(p.lines),
    decreases ops.len(),
{
    if ops.len() == 0 {
        assert(p.emit(ops).lines =~= p.lines);
    } else {
        emit_keeps_stack(p, ops.drop_last());
        stack_push(p.emit(ops.drop_last()).lines, Ins::Op(ops.last()));
        assert(p.emit(ops).lines =~= p.emit(ops.drop_last()).lines.push(Ins::Op(ops.last())));
    }
}

/// Loops leave the stack alone.
proof fn begin_keeps_stack(p: Asm)
    ensures
        stack_after(p.begin().lines) == stack_after(p.lines),
{
    stack_push(p.lines, Ins::Place(p.next as u64));
}

/// Loops leave the stack alone.
proof fn exit_keeps_stack(p: Asm)
    ensures
        stack_after(p.exit_if_ge().lines) == stack_after(p.lines),
{
    stack_push(p.lines, Ins::Jump(JumpKind::GreaterOrEqual, p.open.last().1));
}

/// Loops leave the stack alone.
proof fn end_keeps_stack(p: Asm)
    ensures
        stack_after(p.end().lines) == stack_after(p.lines),
{
    let jump = Ins::Jump(JumpKind::Always, p.open.last().0);
    stack_push(p.lines, jump);
    stack_push(p.lines.push(jump), Ins::Place(p.open.last().1));
}

/// Loops leave the stack alone.
proof fn begin_tail_tested_keeps_stack(p: Asm)
    ensures
        stack_after(p.begin_tail_tested().lines) == stack_after(p.lines),
{
    stack_push(p.lines, Ins::Place(p.next as u64));
}

/// Loops leave the stack alone.
proof fn end_tail_tested_keeps_stack(p: Asm)
    ensures
        stack_after(p.end_tail_tested().lines) == stack_after(p.lines),
{
    stack_push(p.lines, Ins::Jump(JumpKind::Less, p.open.last().0));
}

proof fn pushes_fill(lines: Seq<Ins>, s: Seq<Reg>, saved: Seq<Reg>)
    requires
        stack_after(lines) == Some(s),
    ensures
        stack_after(lines + saved.map_values(|r: Reg| Ins::Push(r))) == Some(s + saved),
    decreases saved.len(),
{
    let f = |r: Reg| Ins::Push(r);
    if saved.len() == 0 {
        assert(lines + saved.map_values(f) =~= lines);
        assert(s + saved =~= s);
    } else {
        let rest = saved.drop_last();
        pushes_fill(lines, s, rest);
        stack_push(lines + rest.map_values(f), Ins::Push(saved.last()));
        assert(lines + saved.map_values(f) =~= (lines + rest.map_values(f)).push(
            Ins::Push(saved.last()),
        ));
        assert((s + rest).push(saved.last()) =~= s + saved);
    }
}

proof fn pops_drain(lines: Seq<Ins>, s: Seq<Reg>, saved: Seq<Reg>)
    requires
        stack_after(lines) == Some(s + saved),
    ensures
        stack_after(lines + saved.reverse().map_values(|r: Reg| Ins::Pop(r))) == Some(s),
    decreases saved.len(),
{
    let f = |r: Reg| Ins::Pop(r);
    if saved.len() == 0 {
        assert(lines + saved.reverse().map_values(f) =~= lines);
        assert(s + saved =~= s);
    } else {
        let rest = saved.drop_last();
        stack_push(lines, Ins::Pop(saved.last()));
        assert((s + saved).last() == saved.last());
        assert((s + saved).drop_last() =~= s + rest);
        pops_drain(lines.push(Ins::Pop(saved.last())), s, rest);
        assert(lines + saved.reverse().map_values(f) =~= lines.push(Ins::Pop(saved.last()))
            + rest.reverse().map_values(f));
    }
}

/// Entering a frame on an empty stack leaves the frame pointer and the saved registers on it.
proof fn enter_fills_stack(p: Asm, saved: Seq<Reg>)
    requires
        stack_after(p.lines) == Some(Seq::<Reg>::empty()),
    ensures
        stack_after(p.enter(saved).lines) == Some(seq![Reg::Rbp] + saved),
{
    let a = Ins::Push(Reg::Rbp);
    let b = Ins::Op(mov(Reg::Rbp, Reg::Rsp));
    stack_push(p.lines, a);
    stack_push(p.lines.push(a), b);
    assert(Seq::<Reg>::empty().push(Reg::Rbp) =~= seq![Reg::Rbp]);
    pushes_fill(p.lines.push(a).push(b), seq![Reg::Rbp], saved);
    assert(p.enter(saved).lines =~= p.lines.push(a).push(b) + saved.map_values(
        |r: Reg| Ins::Push(r),
    ));
}

/// Leaving a frame empties the stack, every register being restored from its own place.
proof fn leave_empties_stack(p: Asm, saved: Seq<Reg>)
    requires
        stack_after(p.lines) == Some(seq![Reg::Rbp] + saved),
    ensures
        stack_after(p.leave(saved).lines) == Some(Seq::<Reg>::empty()),
{
    let pops = saved.reverse().map_values(|r: Reg| Ins::Pop(r));
    let a = Ins::Pop(Reg::Rbp);
    let b = Ins::Op(Op::Bare(BareOp::Ret));
    pops_drain(p.lines, seq![Reg::Rbp], saved);
    stack_push(p.lines + pops, a);
    stack_push((p.lines + pops).push(a), b);
    assert(seq![Reg::Rbp].drop_last() =~= Seq::<Reg>::empty());
    assert(p.leave(saved).lines =~= (p.lines + pops).push(a).push(b));
}

/// A sound program without open loops that does not end in a label has sound labels.
pub proof fn finished_is_well_labelled(p: Asm)
    requires
        sound(p),
        p.open.len() == 0,
        !p.at_label(),
    ensures
        well_labelled(p.lines),
{
}

/// The empty program is sound.
pub proof fn empty_is_sound()
    ensures
        sound(Asm::empty()),
{
}

/// Lines that neither jump nor place a label keep a program sound.
proof fn plain_lines_keep(p: Asm, more: Seq<Ins>)
    requires
        sound(p),
        forall|i: int|
            0 <= i < more.len() ==> !((#[trigger] more[i]) is Place) && !(more[i] is Jump),
    ensures
        sound(Asm { lines: p.lines + more, ..p }),
{
    let q = Asm { lines: p.lines + more, ..p };
    assert forall|l: u64| is_placed(q.lines, l) == is_placed(p.lines, l) by {
        if is_placed(p.lines, l) {
            let i = choose|i: int| 0 <= i < p.lines.len() && p.lines[i] == Ins::Place(l);
            assert(q.lines[i] == Ins::Place(l));
        }
        if is_placed(q.lines, l) {
            let i = choose|i: int| 0 <= i < q.lines.len() && q.lines[i] == Ins::Place(l);
            if i >= p.lines.len() {
                assert(q.lines[i] == more[i - p.lines.len()]);
            }
            assert(p.lines[i] == Ins::Place(l));
        }
    }
    assert forall|i: int| p.lines.len() <= i < q.lines.len() implies !((#[trigger] q.lines[i]) is Place)
        && !(q.lines[i] is Jump) by {
        assert(q.lines[i] == more[i - p.lines.len()]);
    }
    assert forall|i: int| 0 <= i < p.lines.len() implies #[trigger] q.lines[i] == p.lines[i] by {}
}

/// Adding operations keeps a program sound and its stack.
pub proof fn emit_keeps(p: Asm, ops: Seq<Op>)
    requires
        sound(p),
    ensures
        stack_after(p.emit(ops).lines) == stack_after(p.lines),
        sound(p.emit(ops)),
        p.emit(ops).open == p.open,
        ops.len() > 0 ==> !p.emit(ops).at_label(),
{
    emit_keeps_stack(p, ops);
    let more = ops.map_values(|op: Op| Ins::Op(op));
    plain_lines_keep(p, more);
    if ops.len() > 0 {
        assert(p.emit(ops).lines.last() == more.last());
    }
}

/// Entering a frame keeps a program sound and its stack.
pub proof fn enter_keeps(p: Asm, saved: Seq<Reg>)
    requires
        sound(p),
    ensures
        stack_after(p.lines) == Some(Seq::<Reg>::empty()) ==> stack_after(p.enter(saved).lines)
            == Some(seq![Reg::Rbp] + saved),
        sound(p.enter(saved)),
        p.enter(saved).open == p.open,
        !p.enter(saved).at_label(),
{
    if stack_after(p.lines) == Some(Seq::<Reg>::empty()) {
        enter_fills_stack(p, saved);
    }
    let more = seq![Ins::Push(Reg::Rbp), Ins::Op(mov(Reg::Rbp, Reg::Rsp))] + saved.map_values(
        |r: Reg| Ins::Push(r),
    );
    plain_lines_keep(p, more);
    assert(p.lines + more =~= p.enter(saved).lines);
}

/// Leaving a frame keeps a program sound and its stack.
pub proof fn leave_keeps(p: Asm, saved: Seq<Reg>)
    requires
        sound(p),
    ensures
        stack_after(p.lines) == Some(seq![Reg::Rbp] + saved) ==> stack_after(p.leave(saved).lines)
            == Some(Seq::<Reg>::empty()),
        sound(p.leave(saved)),
        p.leave(saved).open == p.open,
        !p.leave(saved).at_label(),
{
    if stack_after(p.lines) == Some(seq![Reg::Rbp] + saved) {
        leave_empties_stack(p, saved);
    }
    let more = saved.reverse().map_values(|r: Reg| Ins::Pop(r)) + seq![
        Ins::Pop(Reg::Rbp),
        Ins::Op(Op::Bare(BareOp::Ret)),
    ];
    plain_lines_keep(p, more);
    assert(p.lines + more =~= p.leave(saved).lines);
}

/// A further line leaves the labels that were placed in place.
proof fn placed_grows(s: Seq<Ins>, line: Ins, l: u64)
    ensures
        is_placed(s.push(line), l) == (is_placed(s, l) || line == Ins::Place(l)),
{
    let t = s.push(line);
    if is_placed(s, l) {
        let i = choose|i: int| 0 <= i < s.len() && s[i] == Ins::Place(l);
        assert(t[i] == Ins::Place(l));
    }
    if line == Ins::Place(l) {
        assert(t[s.len() as int] == Ins::Place(l));
    }
    if is_placed(t, l) {
        let i = choose|i: int| 0 <= i < t.len() && t[i] == Ins::Place(l);
        if i < s.len() {
            assert(s[i] == Ins::Place(l));
        }
    }
}

/// Adding an open loop keeps what is awaited.
proof fn awaited_grows(open: Seq<(u64, u64)>, more: (u64, u64), l: u64)
    requires
        is_awaited(open, l),
    ensures
        is_awaited(open.push(more), l),
{
    let k = choose|k: int|
        0 <= k < open.len() && (#[trigger] open[k]).1 == l && open[k].0 != l;
    assert(open.push(more)[k] == open[k]);
}

/// Opening a loop keeps a program sound, as long as labels fit their numbers.
pub proof fn begin_keeps(p: Asm)
    requires
        sound(p),
        p.next + 2 <= u64::MAX,
    ensures
        stack_after(p.begin().lines) == stack_after(p.lines),
        sound(p.begin()),
        p.begin().open.len() == p.open.len() + 1,
        p.begin().open.drop_last() == p.open,
        p.begin().open.last().0 != p.begin().open.last().1,
        p.begin().next <= p.next + 2,
{
    begin_keeps_stack(p);
    let q = p.begin();
    assert(q.open.drop_last() =~= p.open);
    if p.at_label() {
        let last = p.lines.len() - 1;
        let head = p.lines.last()->Place_0;
        assert(p.lines[last] == Ins::Place(head));
        assert(is_placed(q.lines, head));
        assert(!is_placed(p.lines, p.next as u64)) by {
            if is_placed(p.lines, p.next as u64) {
                let i = choose|i: int|
                    0 <= i < p.lines.len() && p.lines[i] == Ins::Place(p.next as u64);
                assert(p.lines[i] == Ins::Place(p.next as u64));
            }
        }
        assert forall|i: int| 0 <= i < q.lines.len() implies ((#[trigger] q.lines[i]) matches Ins::Jump(
            _,
            l,
        ) ==> is_placed(q.lines, l) || is_awaited(q.open, l)) by {
            if let Ins::Jump(_, l) = p.lines[i] {
                if is_awaited(p.open, l) {
                    awaited_grows(p.open, q.open.last(), l);
                }
            }
        }
    } else {
        let label = p.next as u64;
        assert forall|l: u64| is_placed(q.lines, l) == (is_placed(p.lines, l) || l == label) by {
            placed_grows(p.lines, Ins::Place(label), l);
        }
        assert forall|l: u64| l >= p.next implies !is_placed(p.lines, l) by {
            if is_placed(p.lines, l) {
                let i = choose|i: int| 0 <= i < p.lines.len() && p.lines[i] == Ins::Place(l);
                assert(p.lines[i] == Ins::Place(l));
            }
        }
        assert forall|i: int, j: int|
            0 <= i < j < q.lines.len() && (#[trigger] q.lines[i]) is Place implies q.lines[i]
            != #[trigger] q.lines[j] by {
            if j == p.lines.len() {
                assert(p.lines[i] == q.lines[i]);
            } else {
                assert(p.lines[i] == q.lines[i] && p.lines[j] == q.lines[j]);
            }
        }
        assert forall|i: int| 0 <= i < q.lines.len() implies ((#[trigger] q.lines[i]) matches Ins::Jump(
            _,
            l,
        ) ==> is_placed(q.lines, l) || is_awaited(q.open, l)) by {
            if i < p.lines.len() {
                assert(p.lines[i] == q.lines[i]);
                if let Ins::Jump(_, l) = p.lines[i] {
                    if is_awaited(p.open, l) {
                        awaited_grows(p.open, q.open.last(), l);
                    }
                }
            }
        }
    }
}

/// A jump out of the innermost loop keeps a program sound and its stack.
pub proof fn exit_keeps(p: Asm)
    requires
        sound(p),
        p.open.len() > 0,
        p.open.last().0 != p.open.last().1,
    ensures
        stack_after(p.exit_if_ge().lines) == stack_after(p.lines),
        sound(p.exit_if_ge()),
        p.exit_if_ge().open == p.open,
{
    exit_keeps_stack(p);
    let target = p.open.last().1;
    assert(is_awaited(p.open, target)) by {
        assert(p.open[p.open.len() - 1].1 == target);
    }
    jump_keeps(p, JumpKind::GreaterOrEqual, target);
}

/// A jump to a label that is placed or awaited keeps a program sound and its stack.
proof fn jump_keeps(p: Asm, kind: JumpKind, target: u64)
    requires
        sound(p),
        is_placed(p.lines, target) || is_awaited(p.open, target),
    ensures
        sound(Asm { lines: p.lines.push(Ins::Jump(kind, target)), ..p }),
{
    let q = Asm { lines: p.lines.push(Ins::Jump(kind, target)), ..p };
    assert forall|l: u64| is_placed(q.lines, l) == is_placed(p.lines, l) by {
        placed_grows(p.lines, Ins::Jump(kind, target), l);
    }
    assert forall|i: int| 0 <= i < p.lines.len() implies #[trigger] q.lines[i] == p.lines[i] by {}
}

/// Placing the label behind the innermost loop closes it and keeps a program sound and its stack.
proof fn place_keeps(p: Asm)
    requires
        sound(p),
        p.open.len() > 0,
        p.open.last().0 != p.open.last().1,
        !p.at_label(),
    ensures
        sound(
            Asm {
                lines: p.lines.push(Ins::Place(p.open.last().1)),
                open: p.open.drop_last(),
                ..p
            },
        ),
{
    let exit = p.open.last().1;
    let top = p.open.len() - 1;
    let n = p.lines.len();
    let q = Asm { lines: p.lines.push(Ins::Place(exit)), open: p.open.drop_last(), ..p };
    assert(p.open[top].1 == exit);
    assert(!is_placed(p.lines, exit));
    assert forall|l: u64| is_placed(q.lines, l) == (is_placed(p.lines, l) || l == exit) by {
        placed_grows(p.lines, Ins::Place(exit), l);
    }
    assert forall|i: int| 0 <= i < n implies #[trigger] q.lines[i] == p.lines[i] by {}
    assert forall|k: int| 0 <= k < q.open.len() implies #[trigger] q.open[k] == p.open[k] by {}
    assert(places_are_single(q.lines)) by {
        assert forall|i: int, j: int|
            0 <= i < j < q.lines.len() && (#[trigger] q.lines[i]) is Place implies q.lines[i]
            != #[trigger] q.lines[j] by {
            assert(q.lines[i] == p.lines[i]);
            if j == n {
                if q.lines[i] == q.lines[j] {
                    assert(p.lines[i] == Ins::Place(exit));
                    assert(is_placed(p.lines, exit));
                }
            } else {
                assert(q.lines[j] == p.lines[j]);
            }
        }
    }
    assert forall|i: int| 0 <= i < q.lines.len() implies ((#[trigger] q.lines[i]) matches Ins::Jump(
        _,
        l,
    ) ==> is_placed(q.lines, l) || is_awaited(q.open, l)) by {
        if i < n {
            if let Ins::Jump(_, l) = p.lines[i] {
                if is_awaited(p.open, l) && l != exit {
                    let k = choose|k: int|
                        0 <= k < p.open.len() && (#[trigger] p.open[k]).1 == l && p.open[k].0 != l;
                    assert(k < top);
                    assert(q.open[k] == p.open[k]);
                }
            }
        }
    }
    assert forall|k: int|
        0 <= k < q.open.len() && (#[trigger] q.open[k]).0 != q.open[k].1 implies !is_placed(
        q.lines,
        q.open[k].1,
    ) by {
        assert(p.open[k].1 != p.open[top].1);
    }
}

/// Closing the innermost loop keeps a program sound and its stack.
pub proof fn end_keeps(p: Asm)
    requires
        sound(p),
        p.open.len() > 0,
        p.open.last().0 != p.open.last().1,
    ensures
        stack_after(p.end().lines) == stack_after(p.lines),
        sound(p.end()),
        p.end().open == p.open.drop_last(),
{
    end_keeps_stack(p);
    let head = p.open.last().0;
    assert(p.open[p.open.len() - 1].0 == head);
    jump_keeps(p, JumpKind::Always, head);
    place_keeps(Asm { lines: p.lines.push(Ins::Jump(JumpKind::Always, head)), ..p });
}

/// Opening a loop that is tested at its end keeps a program sound and its stack.
pub proof fn begin_tail_tested_keeps(p: Asm)
    requires
        sound(p),
        !p.at_label(),
        p.next + 1 <= u64::MAX,
    ensures
        stack_after(p.begin_tail_tested().lines) == stack_after(p.lines),
        sound(p.begin_tail_tested()),
        p.begin_tail_tested().open.drop_last() == p.open,
        p.begin_tail_tested().open.len() == p.open.len() + 1,
        p.begin_tail_tested().open.last().0 == p.begin_tail_tested().open.last().1,
{
    begin_tail_tested_keeps_stack(p);
    let q = p.begin_tail_tested();
    assert(q.open.drop_last() =~= p.open);
    let label = p.next as u64;
    assert forall|l: u64| is_placed(q.lines, l) == (is_placed(p.lines, l) || l == label) by {
        placed_grows(p.lines, Ins::Place(label), l);
    }
    assert forall|l: u64| l >= p.next implies !is_placed(p.lines, l) by {
        if is_placed(p.lines, l) {
            let i = choose|i: int| 0 <= i < p.lines.len() && p.lines[i] == Ins::Place(l);
            assert(p.lines[i] == Ins::Place(l));
        }
    }
    assert forall|i: int, j: int|
        0 <= i < j < q.lines.len() && (#[trigger] q.lines[i]) is Place implies q.lines[i]
        != #[trigger] q.lines[j] by {
        if j == p.lines.len() {
            assert(p.lines[i] == q.lines[i]);
        } else {
            assert(p.lines[i] == q.lines[i] && p.lines[j] == q.lines[j]);
        }
    }
    assert forall|i: int| 0 <= i < q.lines.len() implies ((#[trigger] q.lines[i]) matches Ins::Jump(
        _,
        l,
    ) ==> is_placed(q.lines, l) || is_awaited(q.open, l)) by {
        if i < p.lines.len() {
            assert(p.lines[i] == q.lines[i]);
            if let Ins::Jump(_, l) = p.lines[i] {
                if is_awaited(p.open, l) {
                    awaited_grows(p.open, q.open.last(), l);
                }
            }
        }
    }
}

/// Closing a loop that is tested at its end keeps a program sound and its stack.
pub proof fn end_tail_tested_keeps(p: Asm)
    requires
        sound(p),
        p.open.len() > 0,
        p.open.last().0 == p.open.last().1,
    ensures
        stack_after(p.end_tail_tested().lines) == stack_after(p.lines),
        sound(p.end_tail_tested()),
        p.end_tail_tested().open == p.open.drop_last(),
{
    end_tail_tested_keeps_stack(p);
    let q = p.end_tail_tested();
    let top = p.open.len() - 1;
    let head = p.open.last().0;
    assert(p.open[top] == (head, head));
    jump_keeps(p, JumpKind::Less, head);
    assert forall|l: u64| is_placed(q.lines, l) == is_placed(p.lines, l) by {
        placed_grows(p.lines, Ins::Jump(JumpKind::Less, head), l);
    }
    assert forall|i: int| 0 <= i < q.lines.len() implies ((#[trigger] q.lines[i]) matches Ins::Jump(
        _,
        l,
    ) ==> is_placed(q.lines, l) || is_awaited(q.open, l)) by {
        if i < p.lines.len() {
            assert(q.lines[i] == p.lines[i]);
            if let Ins::Jump(_, l) = p.lines[i] {
                if is_awaited(p.open, l) {
                    let k = choose|k: int|
                        0 <= k < p.open.len() && (#[trigger] p.open[k]).1 == l && p.open[k].0 != l;
                    assert(k < top);
                    assert(q.open[k] == p.open[k]);
                }
            }
        }
    }
    assert forall|k: int| 0 <= k < q.open.len() implies #[trigger] q.open[k] == p.open[k] by {}
}

/// A program under construction.
#[derive(Debug)]
pub struct Program {
    /// The lines so far.
    pub lines: Vec<Ins>,
    /// The next unused label.
    pub next: u64,
    /// The labels of the loops that are still open.
    pub open: Vec<(u64, u64)>,
}

impl View for Program {
    type V = Asm;

    open spec fn view(&self) -> Asm {
        Asm { lines: self.lines@, next: self.next as int, open: self.open@ }
    }
}

impl Program {
    /// The program without lines.
    pub fn new() -> (r: Program)
        ensures
            r@ == Asm::empty(),
    {
        Program { lines: Vec::new(), next: 0, open: Vec::new() }
    }

    /// Adds operations.
    pub fn emit(&mut self, ops: &Vec<Op>)
        ensures
            final(self)@ == old(self)@.emit(ops@),
    {
        let mut i: usize = 0;
        while i < ops.len()
            invariant
                i <= ops.len(),
                self@ == old(self)@.emit(ops@.take(i as int)),
            decreases ops.len() - i,
        {
            self.lines.push(Ins::Op(ops[i]));
            i += 1;
            proof {
                assert(self@.lines =~= old(self)@.emit(ops@.take(i as int)).lines);
            }
        }
        assert(ops@.take(i as int) =~= ops@);
    }

    /// Saves the frame pointer and then `saved`.
    pub fn enter(&mut self, saved: &Vec<Reg>)
        ensures
            final(self)@ == old(self)@.enter(saved@),
    {
        self.lines.push(Ins::Push(Reg::Rbp));
        self.lines.push(Ins::Op(mov(Reg::Rbp, Reg::Rsp)));
        let mut i: usize = 0;
        while i < saved.len()
            invariant
                i <= saved.len(),
                self@ =~= old(self)@.enter(saved@.take(i as int)),
            decreases saved.len() - i,
        {
            self.lines.push(Ins::Push(saved[i]));
            i += 1;
            assert(self@.lines =~= old(self)@.enter(saved@.take(i as int)).lines);
        }
        assert(saved@.take(i as int) =~= saved@);
    }

    /// Restores `saved`, the last one first, and then the frame pointer, and returns.
    pub fn leave(&mut self, saved: &Vec<Reg>)
        ensures
            final(self)@ == old(self)@.leave(saved@),
    {
        let ghost pops = saved@.reverse().map_values(|r: Reg| Ins::Pop(r));
        let mut i: usize = saved.len();
        while i > 0
            invariant
                i <= saved.len(),
                pops == saved@.reverse().map_values(|r: Reg| Ins::Pop(r)),
                self.next == old(self).next,
                self.open@ == old(self).open@,
                self.lines@ == old(self).lines@ + pops.take(saved.len() - i),
            decreases i,
        {
            i -= 1;
            self.lines.push(Ins::Pop(saved[i]));
            assert(self.lines@ =~= old(self).lines@ + pops.take(saved.len() - i));
        }
        assert(pops.take(saved.len() as int) =~= pops);
        self.lines.push(Ins::Pop(Reg::Rbp));
        self.lines.push(Ins::Op(Op::Bare(BareOp::Ret)));
        assert(self@.lines =~= old(self)@.leave(saved@).lines);
    }

    /// Opens a loop here. The label of a loop that ended here is used again.
    pub fn begin(&mut self)
        requires
            old(self).next <= u64::MAX - 2,
        ensures
            final(self)@ == old(self)@.begin(),
    {
        let count: usize = self.lines.len();
        if count > 0 {
            if let Ins::Place(head) = self.lines[count - 1] {
                self.open.push((head, self.next));
                self.next += 1;
                return;
            }
        }
        self.lines.push(Ins::Place(self.next));
        self.open.push((self.next, self.next + 1));
        self.next += 2;
    }

    /// Leaves the innermost loop where the last comparison found `>=`.
    pub fn exit_if_ge(&mut self)
        requires
            old(self).open@.len() > 0,
        ensures
            final(self)@ == old(self)@.exit_if_ge(),
    {
        let top: (u64, u64) = self.open[self.open.len() - 1];
        self.lines.push(Ins::Jump(JumpKind::GreaterOrEqual, top.1));
    }

    /// Closes the innermost loop: back to its head, and on behind it.
    pub fn end(&mut self)
        requires
            old(self).open@.len() > 0,
        ensures
            final(self)@ == old(self)@.end(),
    {
        let top: (u64, u64) = self.open[self.open.len() - 1];
        self.lines.push(Ins::Jump(JumpKind::Always, top.0));
        self.lines.push(Ins::Place(top.1));
        self.open.pop();
    }

    /// Opens a loop that is tested at its end.
    pub fn begin_tail_tested(&mut self)
        requires
            old(self).next <= u64::MAX - 1,
        ensures
            final(self)@ == old(self)@.begin_tail_tested(),
    {
        self.lines.push(Ins::Place(self.next));
        self.open.push((self.next, self.next));
        self.next += 1;
    }

    /// Closes a loop that is tested at its end.
    pub fn end_tail_tested(&mut self)
        requires
            old(self).open@.len() > 0,
        ensures
            final(self)@ == old(self)@.end_tail_tested(),
    {
        let top: (u64, u64) = self.open[self.open.len() - 1];
        self.lines.push(Ins::Jump(JumpKind::Less, top.0));
        self.open.pop();
    }
}

} // verus!
