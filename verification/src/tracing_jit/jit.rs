//! The compiler for traces as a whole: counters, caches and tiers.

use vstd::prelude::*;
use rustc_hash::FxHashMap;
use crate::fx::{fx_get, fx_insert, fx_keys, fx_len, fx_new};
use crate::types::{Instr, Value};
use super::compiler;
use super::compiler::{CompileRequest, CompiledTrace, NameSuffix, NativeCode, TraceCompiler};
use super::guard::Guard;
use super::pic;
use super::pic::PolymorphicInlineCache;
use super::recorder::{Trace, TraceRecorder};
use super::tier;
use super::tier::{CompilationTier, TierManager, TierState};
use super::values;
use super::values::ValueType;

verus! {

/// Hot counts at this multiple of the compile trigger earn the optimized tier.
pub const TIER2_TRIGGER_MULTIPLIER: u64 = 100;

/// Length that a trace of ordinary code is not to exceed.
pub const DEFAULT_TRACE_LENGTH: usize = 256;

/// What is to be done after a trace was executed.
#[derive(Debug)]
pub enum TierUpgrade {
    /// Nothing.
    Nothing,
    /// Compile these folded instructions for the optimized tier.
    Optimize(Vec<Instr>),
    /// Compile these folded instructions for the global tier.
    Globalize(Vec<Instr>),
}

/// Number of executions of an entry.
pub open spec fn count_at(counters: Map<u64, u64>, pc: u64) -> u64 {
    if counters.dom().contains(pc) {
        counters[pc]
    } else {
        0
    }
}

/// Records traces, compiles those that are hot and keeps their code.
#[derive(Debug)]
pub struct TracingJIT {
    /// Records the traces.
    pub recorder: TraceRecorder,
    /// Prepares the traces for the code generator.
    pub compiler: TraceCompiler,
    /// Hot count from which an entry is recorded.
    pub trace_trigger: u64,
    /// Execution count from which a trace is compiled.
    pub compile_trigger: u64,
    /// Number of traces recorded.
    pub traces_recorded: u64,
    /// Number of traces compiled.
    pub traces_compiled: u64,
    /// Number of guard failures.
    pub deoptimizations: u64,
    /// Number of visits by entry.
    pub hot_counters: FxHashMap<u64, u64>,
    /// Compiled traces by number.
    pub compiled_cache: FxHashMap<u64, CompiledTrace>,
    /// Traces for types that made a guard fail.
    pub pic: PolymorphicInlineCache,
    /// Length that a trace is not to exceed.
    pub max_trace_length: usize,
    /// Tier in which new traces are compiled.
    pub tier: CompilationTier,
    /// Counts the executions of the traces.
    pub tier_manager: TierManager,
}

/// Bytes of code that the traces take together.
pub open spec fn total_size(m: Map<u64, CompiledTrace>) -> int
    decreases m.dom().len(),
    when m.dom().finite()
{
    if m.dom().len() == 0 {
        0
    } else {
        let k = m.dom().choose();
        m[k].native_code.code@.len() + total_size(m.remove(k))
    }
}

proof fn lemma_total_size_remove(m: Map<u64, CompiledTrace>, k: u64)
    requires
        m.dom().finite(),
        m.dom().contains(k),
    ensures
        total_size(m) == m[k].native_code.code@.len() + total_size(m.remove(k)),
    decreases m.dom().len(),
{
    let c = m.dom().choose();
    if c != k {
        assert(m.remove(c).dom().contains(k));
        lemma_total_size_remove(m.remove(c), k);
        assert(m.remove(k).dom().contains(c));
        lemma_total_size_remove(m.remove(k), c);
        assert(m.remove(c).remove(k) =~= m.remove(k).remove(c));
    }
}

/// The code sizes of the traces of the first `k` keys, added up.
spec fn listed_size(m: Map<u64, CompiledTrace>, keys: Seq<u64>, k: nat) -> int
    decreases k,
{
    if k == 0 {
        0
    } else {
        listed_size(m, keys, (k - 1) as nat) + m[keys[k - 1]].native_code.code@.len()
    }
}

proof fn lemma_listed_size(m: Map<u64, CompiledTrace>, keys: Seq<u64>)
    requires
        m.dom().finite(),
        keys.no_duplicates(),
        keys.to_set() == m.dom(),
    ensures
        listed_size(m, keys, keys.len()) == total_size(m),
    decreases keys.len(),
{
    if keys.len() == 0 {
        assert(m.dom() =~= Set::<u64>::empty());
    } else {
        let last = keys.last();
        let rest = keys.drop_last();
        assert(keys.to_set().contains(last)) by {
            assert(keys[keys.len() - 1] == last);
        }
        let smaller = m.remove(last);
        assert(rest.no_duplicates());
        assert(rest.to_set() =~= smaller.dom()) by {
            assert forall|x: u64| rest.to_set().contains(x) <==> smaller.dom().contains(x) by {
                if rest.to_set().contains(x) {
                    let i = choose|i: int| 0 <= i < rest.len() && rest[i] == x;
                    assert(keys[i] == x);
                    assert(keys.to_set().contains(x));
                    assert(keys[i] != keys[keys.len() - 1]);
                }
                if smaller.dom().contains(x) {
                    assert(keys.to_set().contains(x));
                    let i = choose|i: int| 0 <= i < keys.len() && keys[i] == x;
                    assert(rest[i] == x);
                }
            }
        }
        lemma_listed_size(smaller, rest);
        lemma_total_size_remove(m, last);
        lemma_listed_same(m, smaller, keys, rest, rest.len());
    }
}

proof fn lemma_listed_same(
    m: Map<u64, CompiledTrace>,
    smaller: Map<u64, CompiledTrace>,
    keys: Seq<u64>,
    rest: Seq<u64>,
    k: nat,
)
    requires
        keys.len() > 0,
        keys.no_duplicates(),
        rest == keys.drop_last(),
        smaller == m.remove(keys.last()),
        k <= rest.len(),
        keys.to_set() == m.dom(),
    ensures
        listed_size(m, keys, k) == listed_size(smaller, rest, k),
    decreases k,
{
    if k > 0 {
        lemma_listed_same(m, smaller, keys, rest, (k - 1) as nat);
        assert(keys[k - 1] == rest[k - 1]);
        assert(keys[k - 1] != keys[keys.len() - 1]);
        assert(keys.to_set().contains(keys[k - 1]));
    }
}

proof fn lemma_listed_grows(m: Map<u64, CompiledTrace>, keys: Seq<u64>, a: nat, b: nat)
    requires
        a <= b,
    ensures
        listed_size(m, keys, a) <= listed_size(m, keys, b),
    decreases b - a,
{
    if a < b {
        lemma_listed_grows(m, keys, a, (b - 1) as nat);
    }
}

/// First guard from place `k` on that the arguments do not satisfy, with the type that was
/// seen. A guard on a slot without an argument is not looked at.
pub open spec fn first_failure(guards: Seq<Guard>, args: Seq<Value>, k: int) -> Option<
    (u16, ValueType),
>
    decreases guards.len() - k,
{
    if k >= guards.len() {
        None
    } else {
        let g = guards[k];
        if g.slot < args.len() && values::type_of_value(args[g.slot as int]) != g.expected_type {
            Some((g.slot, values::type_of_value(args[g.slot as int])))
        } else {
            first_failure(guards, args, k + 1)
        }
    }
}

impl TracingJIT {
    /// The hot counts by entry.
    pub open spec fn counters(&self) -> Map<u64, u64> {
        self.hot_counters@
    }

    /// The compiled traces by number.
    pub open spec fn cache(&self) -> Map<u64, CompiledTrace> {
        self.compiled_cache@
    }

    /// The secondary traces.
    pub open spec fn secondary(&self) -> PolymorphicInlineCache {
        self.pic
    }

    /// The length that a trace is not to exceed.
    pub open spec fn length_limit(&self) -> usize {
        self.max_trace_length
    }

    /// The tier in which new traces are compiled.
    pub open spec fn current_tier(&self) -> CompilationTier {
        self.tier
    }

    /// The triggers and the length limit are as in `other`.
    pub open spec fn same_settings(&self, other: TracingJIT) -> bool {
        &&& self.compiler == other.compiler
        &&& self.trace_trigger == other.trace_trigger
        &&& self.compile_trigger == other.compile_trigger
        &&& self.length_limit() == other.length_limit()
    }

    /// As many traces were recorded, compiled and left early as in `other`.
    pub open spec fn same_statistics(&self, other: TracingJIT) -> bool {
        &&& self.traces_recorded == other.traces_recorded
        &&& self.traces_compiled == other.traces_compiled
        &&& self.deoptimizations == other.deoptimizations
    }

    /// The parts are well formed.
    pub open spec fn wf(&self) -> bool {
        &&& self.recorder.wf()
        &&& self.tier_manager.wf()
        &&& self.secondary().wf()
        &&& self.cache().dom().finite()
    }

    /// Whether nothing was counted, recorded or compiled yet.
    pub open spec fn is_new(&self, trace_trigger: u64, compile_trigger: u64) -> bool {
        &&& self.wf()
        &&& self.trace_trigger == trace_trigger
        &&& self.compile_trigger == compile_trigger
        &&& self.traces_recorded == 0
        &&& self.traces_compiled == 0
        &&& self.deoptimizations == 0
        &&& self.counters().dom() == Set::<u64>::empty()
        &&& self.cache().dom() == Set::<u64>::empty()
        &&& self.secondary().table().dom() == Set::<u64>::empty()
        &&& self.secondary().limit() == 16
        &&& self.length_limit() == DEFAULT_TRACE_LENGTH
        &&& self.current_tier() == CompilationTier::LinearScan
        &&& self.recorder.current() is None
        &&& self.recorder.next_id() == 0
        &&& self.recorder.finished().len() == 0
        &&& self.recorder.selection().dom() == Set::<u64>::empty()
        &&& self.recorder.length_limit() == DEFAULT_TRACE_LENGTH
        &&& forall|id: u32| #[trigger] self.tier_manager.count(id) == 0
        &&& self.tier_manager.compiling() == Set::<u64>::empty()
    }

    /// A compiler that records from 16 visits on and compiles from 4 executions on.
    pub fn new() -> (r: Self)
        ensures
            r.is_new(16, 4),
    {
        TracingJIT::with_triggers(16, 4)
    }

    /// A compiler with the given triggers.
    pub fn with_triggers(trace_trigger: u64, compile_trigger: u64) -> (r: Self)
        ensures
            r.is_new(trace_trigger, compile_trigger),
    {
        TracingJIT {
            recorder: TraceRecorder::with_max_trace_length(DEFAULT_TRACE_LENGTH),
            compiler: TraceCompiler::new(),
            trace_trigger,
            compile_trigger,
            traces_recorded: 0,
            traces_compiled: 0,
            deoptimizations: 0,
            hot_counters: fx_new(),
            compiled_cache: fx_new(),
            pic: PolymorphicInlineCache::new(16),
            max_trace_length: DEFAULT_TRACE_LENGTH,
            tier: CompilationTier::LinearScan,
            tier_manager: TierManager::new(),
        }
    }

    /// Whether a hot count has reached the recording trigger.
    #[verifier::allow_in_spec]
    pub fn should_start_tracing(&self, c: u64) -> (r: bool)
        ensures
            r == (c >= self.trace_trigger),
        returns
            c >= self.trace_trigger,
    {
        c >= self.trace_trigger
    }

    /// Whether a trace was executed often enough to be compiled.
    #[verifier::allow_in_spec]
    pub fn should_compile(&self, t: &Trace) -> (r: bool)
        ensures
            r == (t.execution_count >= self.compile_trigger),
        returns
            t.execution_count >= self.compile_trigger,
    {
        t.execution_count >= self.compile_trigger
    }

    /// Counts a visit of an entry and returns the new count.
    pub fn increment_hot_counter(&mut self, pc: u64) -> (r: u64)
        requires
            count_at(old(self).counters(), pc) < u64::MAX,
        ensures
            r == count_at(old(self).counters(), pc) + 1,
            final(self).counters() == old(self).counters().insert(pc, r),
            final(self).cache() == old(self).cache(),
            final(self).secondary() == old(self).secondary(),
            final(self).current_tier() == old(self).current_tier(),
            final(self).recorder == old(self).recorder,
            final(self).tier_manager == old(self).tier_manager,
            final(self).same_settings(*old(self)),
            final(self).same_statistics(*old(self)),
            old(self).wf() ==> final(self).wf(),
    {
        let count: u64 = self.hot_count(pc) + 1;
        fx_insert(&mut self.hot_counters, pc, count);
        count
    }

    /// Number of visits of an entry.
    pub fn hot_count(&self, pc: u64) -> (r: u64)
        ensures
            r == count_at(self.counters(), pc),
    {
        match fx_get(&self.hot_counters, pc) {
            Some(c) => *c,
            None => 0,
        }
    }

    /// What to compile for a trace: nothing where it is too long or empty, its folded
    /// instructions otherwise, or what the loop optimizer made of them in the optimized tier.
    pub fn compile_request(&self, trace: &Trace, loops: Vec<Instr>) -> (r: Option<CompileRequest>)
        requires
            compiler::param_count_fits(trace.instructions@),
        ensures
            match r {
                Some(q) => trace.instructions@.len() <= self.length_limit() && self.chosen(
                    *trace,
                    loops@,
                ).len() > 0 && compiler::is_request(
                    q,
                    *trace,
                    self.chosen(*trace, loops@),
                    if self.current_tier() == CompilationTier::Optimized {
                        NameSuffix::Tier2
                    } else {
                        NameSuffix::Plain
                    },
                ),
                None => trace.instructions@.len() > self.length_limit() || self.chosen(
                    *trace,
                    loops@,
                ).len() == 0,
            },
    {
        if trace.instructions.len() > self.max_trace_length {
            return None;
        }
        match self.tier {
            CompilationTier::Optimized => self.compiler.compile_trace_tier2(trace, loops),
            _ => self.compiler.compile_trace(trace),
        }
    }

    /// The instructions that are compiled for a trace in the current tier.
    pub open spec fn chosen(&self, trace: Trace, loops: Seq<Instr>) -> Seq<Instr> {
        let plain = compiler::bare(compiler::optimized(trace.instructions@));
        if self.current_tier() == CompilationTier::Optimized {
            compiler::preferred(loops, plain)
        } else {
            plain
        }
    }

    /// Keeps the code that was generated for `compile_request`. Returns the number of the trace,
    /// or `None` where nothing was to be compiled or no code was generated.
    pub fn compile_and_cache(
        &mut self,
        trace: &Trace,
        loops: Vec<Instr>,
        native: Option<NativeCode>,
    ) -> (r: Option<u32>)
        requires
            old(self).wf(),
            compiler::param_count_fits(trace.instructions@),
            old(self).traces_compiled < u64::MAX,
        ensures
            final(self).wf(),
            r == (if trace.instructions@.len() <= old(self).length_limit() && old(self).chosen(
                *trace,
                loops@,
            ).len() > 0 && native is Some {
                Some(trace.id)
            } else {
                None
            }),
            match r {
                Some(id) => final(self).traces_compiled == old(self).traces_compiled + 1 && final(
                    self).cache() == old(self).cache().insert(
                    id as u64,
                    final(self).cache()[id as u64],
                ) && is_compiled(
                    final(self).cache()[id as u64],
                    *trace,
                    old(self).chosen(*trace, loops@),
                    native->0,
                ),
                None => final(self).traces_compiled == old(self).traces_compiled && final(
                    self).cache() == old(self).cache(),
            },
            final(self).counters() == old(self).counters(),
            final(self).secondary() == old(self).secondary(),
            final(self).current_tier() == old(self).current_tier(),
            final(self).recorder == old(self).recorder,
            final(self).tier_manager == old(self).tier_manager,
            final(self).same_settings(*old(self)),
            final(self).traces_recorded == old(self).traces_recorded,
            final(self).deoptimizations == old(self).deoptimizations,
    {
        match (self.compile_request(trace, loops), native) {
            (Some(request), Some(code)) => {
                let compiled: CompiledTrace = CompiledTrace::from_request(&request, code);
                let id: u32 = compiled.trace_id;
                fx_insert(&mut self.compiled_cache, id as u64, compiled);
                self.traces_compiled = self.traces_compiled + 1;
                Some(id)
            },
            _ => None,
        }
    }

    /// The code of a trace, if it was compiled.
    pub fn compiled(&self, trace_id: u32) -> (r: Option<&CompiledTrace>)
        ensures
            r == (if self.cache().dom().contains(trace_id as u64) {
                Some(&self.cache()[trace_id as u64])
            } else {
                None::<&CompiledTrace>
            }),
    {
        fx_get(&self.compiled_cache, trace_id as u64)
    }

    /// Counts an execution of a trace and says whether it is to be compiled for a higher tier.
    /// For the global tier the compilation is noted as under way until `finish_upgrade`.
    pub fn execute_trace(&mut self, trace_id: u32) -> (r: TierUpgrade)
        requires
            old(self).wf(),
            old(self).tier_manager.count(trace_id) < u64::MAX,
        ensures
            final(self).wf(),
            final(self).tier_manager.count(trace_id) == old(self).tier_manager.count(trace_id) + 1,
            forall|id: u32|
                id != trace_id ==> #[trigger] final(self).tier_manager.count(id) == old(
                    self).tier_manager.count(id),
            final(self).recorder == old(self).recorder,
            final(self).cache() == old(self).cache(),
            final(self).counters() == old(self).counters(),
            final(self).secondary() == old(self).secondary(),
            final(self).current_tier() == old(self).current_tier(),
            final(self).same_settings(*old(self)),
            final(self).same_statistics(*old(self)),
            ({
                let earned = tier::tier_for(final(self).tier_manager.count(trace_id));
                let recorded = old(self).recorder.lookup(trace_id) is Some;
                let instrs = compiler::bare(
                    compiler::optimized(
                        old(self).recorder.lookup(trace_id)->0.instructions@,
                    ),
                );
                let busy = old(self).tier_manager.compiling().contains(trace_id as u64);
                match r {
                    TierUpgrade::Nothing => earned == TierState::Tier1Baseline || !recorded || (
                    earned == TierState::Tier4Global && busy),
                    TierUpgrade::Optimize(v) => earned == TierState::Tier2Optimized && recorded
                        && v@ == instrs,
                    TierUpgrade::Globalize(v) => earned == TierState::Tier4Global && recorded
                        && !busy && v@ == instrs,
                }
            }),
            final(self).tier_manager.compiling() == (if r is Globalize {
                old(self).tier_manager.compiling().insert(trace_id as u64)
            } else {
                old(self).tier_manager.compiling()
            }),
    {
        let recommended: TierState = self.tier_manager.record_execution(trace_id);
        match recommended {
            TierState::Tier1Baseline => TierUpgrade::Nothing,
            TierState::Tier2Optimized => match self.recorder.get_trace(trace_id) {
                Some(trace) => TierUpgrade::Optimize(self.compiler.folded_instructions(trace)),
                None => TierUpgrade::Nothing,
            },
            TierState::Tier4Global => {
                if self.tier_manager.is_compiling_tier4(trace_id) {
                    return TierUpgrade::Nothing;
                }
                match self.recorder.get_trace(trace_id) {
                    Some(trace) => {
                        let instrs: Vec<Instr> = self.compiler.folded_instructions(trace);
                        self.tier_manager.start_tier4_compilation(trace_id);
                        TierUpgrade::Globalize(instrs)
                    },
                    None => TierUpgrade::Nothing,
                }
            },
        }
    }

    /// Replaces the code of a trace after `execute_trace` asked for it, and notes that a
    /// compilation for the global tier is over. `loops` is what the loop optimizer made of the
    /// instructions, `native` the code that was generated, if it was. Nothing is replaced where no
    /// finished trace has the number.
    pub fn finish_upgrade(
        &mut self,
        trace_id: u32,
        global: bool,
        loops: Vec<Instr>,
        native: Option<NativeCode>,
    )
        requires
            old(self).wf(),
            old(self).recorder.lookup(trace_id) matches Some(trace)
                ==> compiler::param_count_fits(trace.instructions@),
        ensures
            final(self).wf(),
            final(self).recorder == old(self).recorder,
            final(self).counters() == old(self).counters(),
            final(self).secondary() == old(self).secondary(),
            final(self).current_tier() == old(self).current_tier(),
            forall|id: u32|
                #[trigger] final(self).tier_manager.count(id) == old(self).tier_manager.count(id),
            final(self).tier_manager.compiling() == (if global {
                old(self).tier_manager.compiling().remove(trace_id as u64)
            } else {
                old(self).tier_manager.compiling()
            }),
            final(self).same_settings(*old(self)),
            final(self).same_statistics(*old(self)),
            ({
                let trace = old(self).recorder.lookup(trace_id)->0;
                let chosen = compiler::preferred(
                    loops@,
                    compiler::bare(compiler::optimized(trace.instructions@)),
                );
                if old(self).recorder.lookup(trace_id) is Some && chosen.len() > 0 && native is Some {
                    final(self).cache() == old(self).cache().insert(
                        trace_id as u64,
                        final(self).cache()[trace_id as u64],
                    ) && is_compiled(
                        final(self).cache()[trace_id as u64],
                        trace,
                        chosen,
                        native->0,
                    )
                } else {
                    final(self).cache() == old(self).cache()
                }
            }),
    {
        let request: Option<CompileRequest> = match self.recorder.get_trace(trace_id) {
            Some(trace) => {
                if global {
                    self.compiler.compile_trace_tier4(trace, loops)
                } else {
                    self.compiler.compile_trace_tier2(trace, loops)
                }
            },
            None => None,
        };
        match (request, native) {
            (Some(q), Some(code)) => {
                let compiled: CompiledTrace = CompiledTrace::from_request(&q, code);
                fx_insert(&mut self.compiled_cache, trace_id as u64, compiled);
            },
            _ => {},
        }
        if global {
            self.tier_manager.finish_tier4_compilation(trace_id);
        }
    }

    /// The first guard of a trace that the arguments do not satisfy, with the type that was
    /// seen.
    pub fn detect_guard_failure(trace: &Trace, args: &[Value]) -> (r: Option<(u16, ValueType)>)
        ensures
            r == first_failure(trace.guards@, args@, 0),
    {
        let mut k: usize = 0;
        while k < trace.guards.len()
            invariant
                k <= trace.guards@.len(),
                first_failure(trace.guards@, args@, 0) == first_failure(
                    trace.guards@,
                    args@,
                    k as int,
                ),
            decreases trace.guards.len() - k,
        {
            let guard: Guard = trace.guards[k];
            let slot: usize = guard.slot as usize;
            if slot < args.len() {
                let actual: ValueType = args[slot].value_type();
                if actual != guard.expected_type {
                    return Some((guard.slot, actual));
                }
            }
            k += 1;
        }
        None
    }

    /// Counts a guard failure, reserves a trace for the type that made the guard fail, and enters
    /// it as the target of that failure, unless the cache of targets is full.
    pub fn record_guard_failure(&mut self, slot: u16, failed_type: ValueType)
        requires
            old(self).wf(),
            old(self).recorder.next_id() < u32::MAX,
            old(self).traces_recorded < u64::MAX,
            old(self).deoptimizations < u64::MAX,
        ensures
            final(self).wf(),
            final(self).recorder.next_id() == old(self).recorder.next_id() + 1,
            final(self).recorder.finished() == old(self).recorder.finished(),
            final(self).recorder.selection() == old(self).recorder.selection(),
            final(self).recorder.current() == old(self).recorder.current(),
            final(self).recorder.length_limit() == old(self).recorder.length_limit(),
            final(self).recorder.known() == old(self).recorder.known(),
            final(self).traces_recorded == old(self).traces_recorded + 1,
            final(self).traces_compiled == old(self).traces_compiled,
            final(self).deoptimizations == old(self).deoptimizations + 1,
            final(self).same_settings(*old(self)),
            final(self).secondary().limit() == old(self).secondary().limit(),
            final(self).secondary().table() == pic::entered(
                old(self).secondary().table(),
                old(self).secondary().limit(),
                slot,
                failed_type,
                old(self).recorder.next_id(),
            ),
            final(self).cache() == old(self).cache(),
            final(self).counters() == old(self).counters(),
            final(self).tier_manager == old(self).tier_manager,
            final(self).current_tier() == old(self).current_tier(),
    {
        let new_trace_id: u32 = self.recorder.reserve_trace_id();
        self.pic.add_side_exit(slot, failed_type, new_trace_id);
        self.traces_recorded = self.traces_recorded + 1;
        self.deoptimizations = self.deoptimizations + 1;
    }

    /// The trace for a type that made a guard fail, if there is one.
    pub fn lookup_pic(&self, slot: u16, failed_type: ValueType) -> (r: Option<u32>)
        ensures
            r == self.secondary().target(slot, failed_type),
    {
        self.pic.lookup(slot, failed_type)
    }

    /// Whether a hot count has reached the trigger of the optimized tier.
    #[verifier::allow_in_spec]
    pub fn should_compile_tier2(&self, hot_count: u64) -> (r: bool)
        requires
            self.compile_trigger * TIER2_TRIGGER_MULTIPLIER <= u64::MAX,
        ensures
            r == (hot_count >= self.compile_trigger * TIER2_TRIGGER_MULTIPLIER),
        returns
            hot_count >= self.compile_trigger * TIER2_TRIGGER_MULTIPLIER,
    {
        hot_count >= self.compile_trigger * TIER2_TRIGGER_MULTIPLIER
    }

    /// Sets the tier in which new traces are compiled.
    pub fn set_tier(&mut self, tier: CompilationTier)
        ensures
            final(self).current_tier() == tier,
            final(self).counters() == old(self).counters(),
            final(self).cache() == old(self).cache(),
            final(self).secondary() == old(self).secondary(),
            final(self).recorder == old(self).recorder,
            final(self).tier_manager == old(self).tier_manager,
            final(self).same_settings(*old(self)),
            final(self).same_statistics(*old(self)),
            old(self).wf() ==> final(self).wf(),
    {
        self.tier = tier;
    }

    /// The tier in which new traces are compiled.
    pub fn tier(&self) -> (r: CompilationTier)
        ensures
            r == self.current_tier(),
    {
        self.tier
    }

    /// Bytes of code that all compiled traces take together.
    pub fn total_code_size(&self) -> (r: usize)
        requires
            total_size(self.cache()) <= usize::MAX,
        ensures
            r == total_size(self.cache()),
    {
        let keys: Vec<u64> = fx_keys(&self.compiled_cache);
        let ghost m = self.cache();
        proof {
            vstd::seq_lib::seq_to_set_is_finite(keys@);
            lemma_listed_size(m, keys@);
        }
        let mut total: usize = 0;
        let mut k: usize = 0;
        while k < keys.len()
            invariant
                m == self.cache(),
                k <= keys@.len(),
                keys@.to_set() == m.dom(),
                listed_size(m, keys@, keys@.len()) <= usize::MAX,
                total == listed_size(m, keys@, k as nat),
            decreases keys.len() - k,
        {
            proof {
                assert(keys@.to_set().contains(keys@[k as int]));
                lemma_listed_grows(m, keys@, (k + 1) as nat, keys@.len());
            }
            if let Some(ct) = fx_get(&self.compiled_cache, keys[k]) {
                total = total + ct.code_size();
            }
            k += 1;
        }
        total
    }

    /// Number of compiled traces.
    pub fn cached_trace_count(&self) -> (r: usize)
        ensures
            r == self.cache().dom().len(),
    {
        fx_len(&self.compiled_cache)
    }
}

/// Whether `c` is a trace compiled from `instrs` into `code`.
pub open spec fn is_compiled(c: CompiledTrace, t: Trace, instrs: Seq<Instr>, code: NativeCode) -> bool {
    &&& c.trace_id == t.id
    &&& c.native_code == code
    &&& c.guard_count == t.guards@.len()
    &&& c.instruction_count == instrs.len()
    &&& c.param_count == compiler::param_count(t.instructions@)
}

/// A guard failure is detected exactly if some guard on a slot with an argument expects another
/// type than the argument has.
pub proof fn failure_is_detected(guards: Seq<Guard>, args: Seq<Value>, k: int)
    requires
        0 <= k <= guards.len(),
    ensures
        first_failure(guards, args, k) is Some <==> exists|i: int|
            k <= i < guards.len() && (#[trigger] guards[i]).slot < args.len()
                && values::type_of_value(args[guards[i].slot as int]) != guards[i].expected_type,
    decreases guards.len() - k,
{
    if k < guards.len() {
        failure_is_detected(guards, args, k + 1);
        if first_failure(guards, args, k + 1) is Some {
            let i = choose|i: int|
                k + 1 <= i < guards.len() && (#[trigger] guards[i]).slot < args.len()
                    && values::type_of_value(args[guards[i].slot as int])
                    != guards[i].expected_type;
            assert(guards[i].slot < args.len());
        }
    }
}

/// One more trace adds the size of its code to the total, and replacing a trace exchanges its size
/// for the new one.
pub proof fn code_sizes_add_up(m: Map<u64, CompiledTrace>, k: u64, c: CompiledTrace)
    requires
        m.dom().finite(),
    ensures
        !m.dom().contains(k) ==> total_size(m.insert(k, c)) == total_size(m)
            + c.native_code.code@.len(),
        m.dom().contains(k) ==> total_size(m.insert(k, c)) == total_size(m)
            - m[k].native_code.code@.len() + c.native_code.code@.len(),
        m.dom() == Set::<u64>::empty() ==> total_size(m) == 0,
{
    let all = m.insert(k, c);
    assert(all.dom() =~= m.dom().insert(k));
    lemma_total_size_remove(all, k);
    if m.dom().contains(k) {
        lemma_total_size_remove(m, k);
        assert(all.remove(k) =~= m.remove(k));
    } else {
        assert(all.remove(k) =~= m);
    }
}

} // verus!
