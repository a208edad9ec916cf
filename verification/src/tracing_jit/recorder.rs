//! Recording of execution traces.

use vstd::prelude::*;
use rustc_hash::FxHashMap;
use crate::fx::{fx_get, fx_insert, fx_new};
use crate::types::Instr;
use super::guard;
use super::guard::{Guard, GuardMask, SideExit};
use super::layout;
use super::layout::{collect_slot_types, lay_out};
use super::numbering;
use super::numbering::{is_barrier, ValueNumbering};
use super::values::ValueType;

verus! {

/// An instruction of a trace.
#[derive(Debug, Clone, Copy, PartialEq, Eq)]
pub struct TraceInstruction {
    /// Where the instruction stands in the bytecode.
    pub original_pc: usize,
    /// The instruction.
    pub instruction: Instr,
    /// The guard that was observed at this point, if there was one.
    pub guard: Option<Guard>,
}

/// A recorded trace.
#[derive(Debug, Clone)]
pub struct Trace {
    /// Number of this trace.
    pub id: u32,
    /// Where the trace begins in the bytecode.
    pub entry_pc: usize,
    /// The instructions in the order of execution.
    pub instructions: Vec<TraceInstruction>,
    /// The guards that hold at the entry.
    pub guards: Vec<Guard>,
    /// The ways out of the trace.
    pub side_exits: Vec<SideExit>,
    /// How often the trace was executed.
    pub execution_count: u64,
    /// Next number for a label.
    pub next_label_id: usize,
    /// The type that all slots have, if they have one.
    pub specialized_type: Option<ValueType>,
    /// For each slot its place in the unboxed buffer, if it has one.
    pub unboxed_slots: Vec<Option<u32>>,
    /// For each slot its type, if it is known.
    pub slot_types: Vec<Option<ValueType>>,
    /// The guards as bits of one word.
    pub guard_mask: GuardMask,
}

/// A trace to which nothing was recorded yet.
pub open spec fn is_fresh(t: Trace, id: u32, entry_pc: usize) -> bool {
    &&& t.id == id
    &&& t.entry_pc == entry_pc
    &&& t.instructions@.len() == 0
    &&& t.guards@.len() == 0
    &&& t.side_exits@.len() == 0
    &&& t.execution_count == 0
    &&& t.next_label_id == 1
    &&& not_finished(t)
}

/// Whether the fields that finishing a trace fills are still empty.
pub open spec fn not_finished(t: Trace) -> bool {
    &&& t.specialized_type is None
    &&& t.unboxed_slots@.len() == 0
    &&& t.slot_types@.len() == 0
    &&& t.guard_mask.wf()
    &&& t.guard_mask.guards().len() == 0
}

/// The types of the slots after the first `k` instructions.
pub open spec fn slot_types_of(instrs: Seq<TraceInstruction>, k: nat) -> Map<u64, ValueType>
    decreases k,
{
    if k == 0 {
        Map::empty()
    } else {
        layout::typed(slot_types_of(instrs, (k - 1) as nat), instrs[k - 1].instruction)
    }
}

/// The distinct ones among the first `k` guards.
pub open spec fn distinct_guards(guards: Seq<Guard>, k: nat) -> Seq<(u16, ValueType)>
    decreases k,
{
    if k == 0 {
        Seq::empty()
    } else {
        guard::with_guard(
            distinct_guards(guards, (k - 1) as nat),
            (guards[k - 1].slot, guards[k - 1].expected_type),
        )
    }
}

/// The trace `t` after it was finished: its slots have their types and places, and its guards
/// are collected in the mask.
pub open spec fn finished_from(t: Trace, f: Trace) -> bool {
    let types = slot_types_of(t.instructions@, t.instructions@.len());
    &&& f.id == t.id
    &&& f.entry_pc == t.entry_pc
    &&& f.instructions == t.instructions
    &&& f.guards == t.guards
    &&& f.side_exits == t.side_exits
    &&& f.execution_count == t.execution_count
    &&& f.next_label_id == t.next_label_id
    &&& layout::slot_count(types, f.slot_types@.len())
    &&& f.slot_types@ == layout::type_list(types, f.slot_types@.len())
    &&& f.unboxed_slots@ == layout::place_list(types, f.slot_types@.len())
    &&& f.specialized_type == layout::common_type(types)
    &&& f.guard_mask.wf()
    &&& f.guard_mask.guards() == distinct_guards(t.guards@, t.guards@.len())
}

/// Assembles traces from the instructions, guards and exits that the interpreter meets.
#[derive(Debug)]
pub struct TraceRecorder {
    current_trace: Option<Trace>,
    next_trace_id: u32,
    traces: Vec<Trace>,
    trace_selection: FxHashMap<u64, u32>,
    max_trace_length: usize,
    numbering: ValueNumbering,
}

proof fn lemma_distinct_grows(guards: Seq<Guard>, a: nat, b: nat)
    requires
        a <= b <= guards.len(),
    ensures
        distinct_guards(guards, a).len() <= distinct_guards(guards, b).len(),
        a < b && distinct_guards(guards, b).len() <= 64 ==> distinct_guards(guards, a).len() < 64
            || distinct_guards(guards, a).contains((guards[a as int].slot, guards[a as int].expected_type)),
    decreases b - a,
{
    if a < b {
        lemma_distinct_grows(guards, a + 1, b);
        let g = (guards[a as int].slot, guards[a as int].expected_type);
        assert(distinct_guards(guards, a + 1) == guard::with_guard(distinct_guards(guards, a), g));
    }
}

proof fn lemma_types_are_slots(instrs: Seq<TraceInstruction>, k: nat)
    requires
        k <= instrs.len(),
    ensures
        layout::keys_are_slots(slot_types_of(instrs, k)),
    decreases k,
{
    if k > 0 {
        lemma_types_are_slots(instrs, (k - 1) as nat);
    }
}

impl TraceRecorder {
    /// The trace that is being recorded, if there is one.
    pub closed spec fn current(&self) -> Option<Trace> {
        self.current_trace
    }

    /// The number of the next trace.
    pub closed spec fn next_id(&self) -> u32 {
        self.next_trace_id
    }

    /// The traces that were finished.
    pub closed spec fn finished(&self) -> Seq<Trace> {
        self.traces@
    }

    /// For an entry, the number of the trace that was finished last for it.
    pub closed spec fn selection(&self) -> Map<u64, u32> {
        self.trace_selection@
    }

    /// The length that a trace is not to exceed.
    pub closed spec fn length_limit(&self) -> usize {
        self.max_trace_length
    }

    /// What is known about the computations of the current trace.
    pub closed spec fn known(&self) -> numbering::Known {
        self.numbering@
    }

    /// The finished trace with the given number, if there is one.
    pub open spec fn lookup(&self, id: u32) -> Option<Trace> {
        match place_of(self.finished(), id) {
            Some(i) => Some(self.finished()[i]),
            None => None,
        }
    }

    /// The current trace is not finished.
    pub open spec fn wf(&self) -> bool {
        self.current() matches Some(t) ==> not_finished(t)
    }

    /// Everything but the current trace and what is known of it is as in `other`.
    pub open spec fn same_archive(&self, other: TraceRecorder) -> bool {
        &&& self.next_id() == other.next_id()
        &&& self.finished() == other.finished()
        &&& self.selection() == other.selection()
        &&& self.length_limit() == other.length_limit()
    }

    /// A recorder with nothing recorded and a limit of 512 instructions.
    pub fn new() -> (r: Self)
        ensures
            r.wf(),
            r.current() is None,
            r.next_id() == 0,
            r.finished().len() == 0,
            r.selection().dom() == Set::<u64>::empty(),
            r.length_limit() == 512,
            r.known() == numbering::nothing_known(),
    {
        TraceRecorder::with_max_trace_length(512)
    }

    /// A recorder with nothing recorded and the given limit.
    pub fn with_max_trace_length(max_trace_length: usize) -> (r: Self)
        ensures
            r.wf(),
            r.current() is None,
            r.next_id() == 0,
            r.finished().len() == 0,
            r.selection().dom() == Set::<u64>::empty(),
            r.length_limit() == max_trace_length,
            r.known() == numbering::nothing_known(),
    {
        TraceRecorder {
            current_trace: None,
            next_trace_id: 0,
            traces: Vec::new(),
            trace_selection: fx_new(),
            max_trace_length,
            numbering: ValueNumbering::new(),
        }
    }

    /// Starts a new trace at the given entry. A trace that was being recorded is dropped.
    pub fn start_recording(&mut self, entry_pc: usize)
        requires
            old(self).next_id() < u32::MAX,
        ensures
            final(self).wf(),
            final(self).current() matches Some(t) && is_fresh(t, old(self).next_id(), entry_pc),
            final(self).next_id() == old(self).next_id() + 1,
            final(self).finished() == old(self).finished(),
            final(self).selection() == old(self).selection(),
            final(self).length_limit() == old(self).length_limit(),
            final(self).known() == numbering::nothing_known(),
    {
        self.numbering.clear();
        self.current_trace = Some(
            Trace {
                id: self.next_trace_id,
                entry_pc,
                instructions: Vec::with_capacity(256),
                guards: Vec::with_capacity(64),
                side_exits: Vec::with_capacity(16),
                execution_count: 0,
                next_label_id: 1,
                specialized_type: None,
                unboxed_slots: Vec::new(),
                slot_types: Vec::new(),
                guard_mask: GuardMask::new(),
            },
        );
        self.next_trace_id = self.next_trace_id + 1;
    }

    /// Records an instruction, simplified by what is known: a computation that the trace holds
    /// already becomes a copy, and identities such as `x + 0` are resolved. Past a transfer of
    /// control no computation is known.
    pub fn record_instruction(&mut self, instr: &Instr, pc: usize)
        requires
            old(self).wf(),
        ensures
            final(self).wf(),
            final(self).same_archive(*old(self)),
            final(self).known() == numbering::known_after(old(self).known(), *instr),
            match old(self).current() {
                None => final(self).current() is None,
                Some(t) => final(self).current() matches Some(u) && u == (Trace {
                    instructions: u.instructions,
                    ..t
                }) && u.instructions@ == t.instructions@.push(
                    TraceInstruction {
                        original_pc: pc,
                        instruction: numbering::numbered(old(self).known(), *instr).0,
                        guard: None,
                    },
                ),
            },
    {
        let effective: Instr = self.numbering.apply_value_numbering(instr);
        if let Some(mut trace) = self.current_trace.take() {
            trace.instructions.push(
                TraceInstruction { original_pc: pc, instruction: effective, guard: None },
            );
            self.current_trace = Some(trace);
        }
        if is_barrier(*instr) {
            self.numbering.clear_computed();
        }
    }

    /// Whether the current trace is longer than the limit.
    #[verifier::allow_in_spec]
    pub fn should_abort_trace(&self) -> (r: bool)
        ensures
            r == (self.current() matches Some(t) && t.instructions@.len() > self.length_limit()),
        returns
            (self.current() matches Some(t) && t.instructions@.len() > self.length_limit()),
    {
        match &self.current_trace {
            Some(trace) => trace.instructions.len() > self.max_trace_length,
            None => false,
        }
    }

    /// Drops the current trace.
    pub fn abort_recording(&mut self)
        ensures
            final(self).wf(),
            final(self).same_archive(*old(self)),
            final(self).current() is None,
            final(self).known() == numbering::nothing_known(),
    {
        self.current_trace = None;
        self.numbering.clear();
    }

    /// Records a guard, and attaches it to the last instruction.
    pub fn record_guard(&mut self, slot: u16, expected_type: ValueType)
        requires
            old(self).wf(),
        ensures
            final(self).wf(),
            final(self).same_archive(*old(self)),
            final(self).known() == old(self).known(),
            match old(self).current() {
                None => final(self).current() is None,
                Some(t) => final(self).current() matches Some(u) && u == (Trace {
                    instructions: u.instructions,
                    guards: u.guards,
                    ..t
                }) && u.guards@ == t.guards@.push(Guard { slot, expected_type })
                    && u.instructions@ == with_last_guard(
                    t.instructions@,
                    Guard { slot, expected_type },
                ),
            },
    {
        if let Some(mut trace) = self.current_trace.take() {
            let guard = Guard { slot, expected_type };
            trace.guards.push(guard);
            let n: usize = trace.instructions.len();
            if n > 0 {
                let mut last: TraceInstruction = trace.instructions[n - 1];
                last.guard = Some(guard);
                trace.instructions.set(n - 1, last);
            }
            self.current_trace = Some(trace);
        }
    }

    /// Records a way out of the trace.
    pub fn record_side_exit(
        &mut self,
        fallback_pc: usize,
        is_loop: bool,
        target_trace_id: Option<u32>,
    )
        requires
            old(self).wf(),
        ensures
            final(self).wf(),
            final(self).same_archive(*old(self)),
            final(self).known() == old(self).known(),
            match old(self).current() {
                None => final(self).current() is None,
                Some(t) => final(self).current() matches Some(u) && u == (Trace {
                    side_exits: u.side_exits,
                    ..t
                }) && u.side_exits@ == t.side_exits@.push(
                    SideExit { fallback_pc, is_loop_exit: is_loop, target_trace_id },
                ),
            },
    {
        if let Some(mut trace) = self.current_trace.take() {
            trace.side_exits.push(SideExit { fallback_pc, is_loop_exit: is_loop, target_trace_id });
            self.current_trace = Some(trace);
        }
    }

    /// Records a way out of the trace into the interpreter.
    pub fn record_side_exit_simple(&mut self, fallback_pc: usize, is_loop: bool)
        requires
            old(self).wf(),
        ensures
            final(self).wf(),
            final(self).same_archive(*old(self)),
            final(self).known() == old(self).known(),
            match old(self).current() {
                None => final(self).current() is None,
                Some(t) => final(self).current() matches Some(u) && u == (Trace {
                    side_exits: u.side_exits,
                    ..t
                }) && u.side_exits@ == t.side_exits@.push(
                    SideExit { fallback_pc, is_loop_exit: is_loop, target_trace_id: None },
                ),
            },
    {
        self.record_side_exit(fallback_pc, is_loop, None);
    }

    /// Finishes the current trace: gives its slots their types and places, collects its guards,
    /// keeps it and selects it for its entry. Returns its number, or `None` where no trace was
    /// being recorded.
    pub fn finish_recording(&mut self) -> (r: Option<u32>)
        requires
            old(self).wf(),
            old(self).current() matches Some(t) ==> distinct_guards(
                t.guards@,
                t.guards@.len(),
            ).len() <= 64,
        ensures
            final(self).wf(),
            final(self).current() is None,
            final(self).next_id() == old(self).next_id(),
            final(self).length_limit() == old(self).length_limit(),
            match old(self).current() {
                None => r is None && final(self).finished() == old(self).finished() && final(self).selection() == old(self).selection() && final(self).known() == old(self).known(),
                Some(t) => r == Some(t.id) && final(self).finished().len() == old(self).finished().len() + 1 && final(self).finished().drop_last() == old(self).finished()
                    && finished_from(t, final(self).finished().last()) && final(self).selection()
                    == old(self).selection().insert(t.entry_pc as u64, t.id) && final(self).known()
                    == numbering::nothing_known(),
            },
    {
        match self.current_trace.take() {
            None => None,
            Some(mut trace) => {
                let ghost t = trace;
                let ghost n = trace.instructions@.len();
                let mut types: FxHashMap<u64, ValueType> = fx_new();
                assert(types@ =~= slot_types_of(trace.instructions@, 0));
                let mut i: usize = 0;
                while i < trace.instructions.len()
                    invariant
                        i <= trace.instructions@.len(),
                        types@ == slot_types_of(trace.instructions@, i as nat),
                    decreases trace.instructions.len() - i,
                {
                    collect_slot_types(&trace.instructions[i].instruction, &mut types);
                    i += 1;
                }
                proof {
                    lemma_types_are_slots(trace.instructions@, n);
                }
                let (slot_types, unboxed_slots, specialized_type) = lay_out(&types);
                trace.slot_types = slot_types;
                trace.unboxed_slots = unboxed_slots;
                trace.specialized_type = specialized_type;
                let mut g: usize = 0;
                assert(trace.guard_mask.guards() =~= distinct_guards(t.guards@, 0));
                while g < trace.guards.len()
                    invariant
                        g <= trace.guards@.len(),
                        trace.guards == t.guards,
                        trace.id == t.id,
                        trace.entry_pc == t.entry_pc,
                        trace.instructions == t.instructions,
                        trace.side_exits == t.side_exits,
                        trace.execution_count == t.execution_count,
                        trace.next_label_id == t.next_label_id,
                        trace.slot_types == slot_types,
                        trace.unboxed_slots == unboxed_slots,
                        trace.specialized_type == specialized_type,
                        trace.guard_mask.wf(),
                        trace.guard_mask.guards() == distinct_guards(t.guards@, g as nat),
                        distinct_guards(t.guards@, t.guards@.len()).len() <= 64,
                    decreases trace.guards.len() - g,
                {
                    proof {
                        lemma_distinct_grows(t.guards@, g as nat, t.guards@.len());
                    }
                    let guard: Guard = trace.guards[g];
                    trace.guard_mask.add_type_guard(guard.slot, guard.expected_type);
                    g += 1;
                }
                self.numbering.clear();
                let id: u32 = trace.id;
                let pc: usize = trace.entry_pc;
                assert(finished_from(t, trace));
                self.traces.push(trace);
                fx_insert(&mut self.trace_selection, pc as u64, id);
                assert(self.traces@.drop_last() =~= old(self).traces@);
                Some(id)
            },
        }
    }

    /// Whether values of this type can stand in the unboxed buffer.
    pub fn is_unboxable(vtype: ValueType) -> (r: bool)
        ensures
            r == layout::is_unboxable(vtype),
    {
        layout::is_unboxable(vtype)
    }

    /// Bytes that a value of this type takes in the unboxed buffer.
    pub fn unboxed_size(vtype: ValueType) -> (r: u32)
        ensures
            r == layout::unboxed_size(vtype),
    {
        layout::unboxed_size(vtype)
    }

    /// Number of bytes of which the place of a value of this type is a multiple.
    pub fn unboxed_align(vtype: ValueType) -> (r: u32)
        ensures
            r == layout::unboxed_align(vtype),
    {
        layout::unboxed_align(vtype)
    }

    /// Number of the trace that was finished last for an entry.
    pub fn find_trace(&self, entry_pc: usize) -> (r: Option<u32>)
        ensures
            r == (if self.selection().dom().contains(entry_pc as u64) {
                Some(self.selection()[entry_pc as u64])
            } else {
                None
            }),
    {
        match fx_get(&self.trace_selection, entry_pc as u64) {
            Some(id) => Some(*id),
            None => None,
        }
    }

    /// The finished trace with the given number.
    pub fn get_trace(&self, id: u32) -> (r: Option<&Trace>)
        ensures
            match r {
                Some(t) => t.id == id && self.lookup(id) == Some(*t),
                None => self.lookup(id) is None && forall|i: int|
                    0 <= i < self.finished().len() ==> (#[trigger] self.finished()[i]).id != id,
            },
    {
        match self.place(id) {
            Some(k) => Some(&self.traces[k]),
            None => None,
        }
    }

    /// The finished trace with the given number, to be changed.
    pub fn get_trace_mut(&mut self, id: u32) -> (r: Option<&mut Trace>)
        ensures
            match r {
                Some(t) => place_of(old(self).finished(), id) matches Some(i) && t.id == id && *t
                    == old(self).finished()[i] && final(self).finished() == old(
                    self,
                ).finished().update(i, *final(t)),
                None => *final(self) == *old(self) && forall|i: int|
                    0 <= i < old(self).finished().len() ==> (#[trigger] old(
                        self,
                    ).finished()[i]).id != id,
            },
            final(self).current() == old(self).current(),
            final(self).next_id() == old(self).next_id(),
            final(self).selection() == old(self).selection(),
            final(self).length_limit() == old(self).length_limit(),
            final(self).known() == old(self).known(),
    {
        match self.place(id) {
            Some(k) => Some(&mut self.traces[k]),
            None => None,
        }
    }

    /// The place of the finished trace with the given number.
    fn place(&self, id: u32) -> (r: Option<usize>)
        ensures
            match r {
                Some(k) => k < self.finished().len() && self.finished()[k as int].id == id
                    && place_of(self.finished(), id) == Some(k as int),
                None => place_of(self.finished(), id) is None && forall|i: int|
                    0 <= i < self.finished().len() ==> (#[trigger] self.finished()[i]).id != id,
            },
    {
        let ghost v = self.traces@;
        let mut k: usize = self.traces.len();
        assert(v.take(k as int) =~= v);
        while k > 0
            invariant
                v == self.traces@,
                v == self.finished(),
                k <= v.len(),
                forall|i: int| k <= i < v.len() ==> (#[trigger] v[i]).id != id,
                place_of(v, id) == place_of(v.take(k as int), id),
            decreases k,
        {
            proof {
                assert(v.take(k as int).drop_last() =~= v.take(k - 1));
            }
            k -= 1;
            if self.traces[k].id == id {
                return Some(k);
            }
        }
        None
    }

    /// Takes the next trace number for a trace that is recorded elsewhere.
    pub fn reserve_trace_id(&mut self) -> (r: u32)
        requires
            old(self).next_id() < u32::MAX,
        ensures
            r == old(self).next_id(),
            final(self).next_id() == old(self).next_id() + 1,
            final(self).current() == old(self).current(),
            final(self).finished() == old(self).finished(),
            final(self).selection() == old(self).selection(),
            final(self).length_limit() == old(self).length_limit(),
            final(self).known() == old(self).known(),
    {
        let id: u32 = self.next_trace_id;
        self.next_trace_id = id + 1;
        id
    }
}

/// The instructions with a guard attached to the last.
pub open spec fn with_last_guard(v: Seq<TraceInstruction>, g: Guard) -> Seq<TraceInstruction> {
    if v.len() == 0 {
        v
    } else {
        v.update(v.len() - 1, TraceInstruction { guard: Some(g), ..v.last() })
    }
}

/// The place of the trace with number `id` that was finished last.
pub open spec fn place_of(traces: Seq<Trace>, id: u32) -> Option<int>
    decreases traces.len(),
{
    if traces.len() == 0 {
        None
    } else if traces.last().id == id {
        Some(traces.len() - 1)
    } else {
        place_of(traces.drop_last(), id)
    }
}

/// A trace that was finished is then found by its entry and fetched by its number, and what was
/// fetched by other numbers still is.
pub proof fn finished_trace_is_found(before: TraceRecorder, after: TraceRecorder, t: Trace)
    requires
        before.current() == Some(t),
        after.finished().len() == before.finished().len() + 1,
        after.finished().drop_last() == before.finished(),
        finished_from(t, after.finished().last()),
        after.selection() == before.selection().insert(t.entry_pc as u64, t.id),
    ensures
        after.selection().dom().contains(t.entry_pc as u64),
        after.selection()[t.entry_pc as u64] == t.id,
        after.lookup(t.id) == Some(after.finished().last()),
        forall|id: u32| id != t.id ==> #[trigger] after.lookup(id) == before.lookup(id),
{
    assert forall|id: u32| id != t.id implies #[trigger] after.lookup(id) == before.lookup(id) by {
        assert(place_of(after.finished(), id) == place_of(before.finished(), id));
        lemma_place_in_range(before.finished(), id);
        if let Some(i) = place_of(before.finished(), id) {
            assert(after.finished().drop_last()[i] == before.finished()[i]);
        }
    }
}

proof fn lemma_place_in_range(traces: Seq<Trace>, id: u32)
    ensures
        place_of(traces, id) matches Some(i) ==> 0 <= i < traces.len(),
    decreases traces.len(),
{
    if traces.len() > 0 {
        lemma_place_in_range(traces.drop_last(), id);
    }
}

} // verus!
