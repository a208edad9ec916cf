//! Preparation of traces for the code generator.

use vstd::prelude::*;
use rustc_hash::FxHashMap;
use crate::fx::{fx_get, fx_insert, fx_new, fx_remove};
use crate::text;
use crate::text::push_decimal;
use crate::types::{BinOpKind, Instr};
use super::numbering;
use super::numbering::written;
use super::recorder::{Trace, TraceInstruction};
use super::values::ValueType;

verus! {

/// The value of an operator on two constants, for the operators that are folded.
#[verifier::allow_in_spec]
pub fn fold_constants(op: BinOpKind, a: i64, b: i64) -> (r: Option<i64>)
    returns
        (match op {
            BinOpKind::Add => Some(a.wrapping_add(b)),
            BinOpKind::Sub => Some(a.wrapping_sub(b)),
            BinOpKind::Mul => Some(a.wrapping_mul(b)),
            BinOpKind::BitAnd => Some(a & b),
            BinOpKind::BitOr => Some(a | b),
            BinOpKind::BitXor => Some(a ^ b),
            _ => None,
        }),
{
    match op {
        BinOpKind::Add => Some(a.wrapping_add(b)),
        BinOpKind::Sub => Some(a.wrapping_sub(b)),
        BinOpKind::Mul => Some(a.wrapping_mul(b)),
        BinOpKind::BitAnd => Some(a & b),
        BinOpKind::BitOr => Some(a | b),
        BinOpKind::BitXor => Some(a ^ b),
        _ => None,
    }
}

/// The value of an operator on two slots whose constants are known.
pub open spec fn folded_value(loads: Map<u64, i64>, op: BinOpKind, l: u16, r: u16) -> Option<i64> {
    if loads.dom().contains(l as u64) && loads.dom().contains(r as u64) {
        fold_constants(op, loads[l as u64], loads[r as u64])
    } else {
        None
    }
}

/// An instruction after folding: an operator on two known constants becomes the load of its
/// value.
pub open spec fn folded(loads: Map<u64, i64>, ti: TraceInstruction) -> TraceInstruction {
    match ti.instruction {
        Instr::BinOp(d, op, l, r) => match folded_value(loads, op, l, r) {
            Some(v) => TraceInstruction {
                original_pc: ti.original_pc,
                instruction: Instr::LoadI64(d, v),
                guard: None,
            },
            None => ti,
        },
        _ => ti,
    }
}

/// The constants that are known after an instruction: integer loads and folded operators add
/// theirs, and every other write ends what was known of its slot.
pub open spec fn loads_after(loads: Map<u64, i64>, i: Instr) -> Map<u64, i64> {
    match i {
        Instr::LoadI32(d, v) => loads.insert(d as u64, v as i64),
        Instr::LoadI64(d, v) => loads.insert(d as u64, v),
        Instr::BinOp(d, op, l, r) => match folded_value(loads, op, l, r) {
            Some(v) => loads.insert(d as u64, v),
            None => loads.remove(d as u64),
        },
        _ => match numbering::written(i) {
            Some(d) => loads.remove(d as u64),
            None => loads,
        },
    }
}

/// The constants that are known after the first `k` instructions.
pub open spec fn loads_at(instrs: Seq<TraceInstruction>, k: nat) -> Map<u64, i64>
    decreases k,
{
    if k == 0 {
        Map::empty()
    } else {
        loads_after(loads_at(instrs, (k - 1) as nat), instrs[k - 1].instruction)
    }
}

/// The instructions after folding.
pub open spec fn optimized(instrs: Seq<TraceInstruction>) -> Seq<TraceInstruction> {
    Seq::new(instrs.len(), |j: int| folded(loads_at(instrs, j as nat), instrs[j]))
}

/// The bare instructions of a list.
pub open spec fn bare(instrs: Seq<TraceInstruction>) -> Seq<Instr> {
    Seq::new(instrs.len(), |j: int| instrs[j].instruction)
}

/// Whether an instruction reads a slot, as far as parameters are concerned.
pub open spec fn reads_slot(i: Instr, slot: u16) -> bool {
    match i {
        Instr::BinOp(_, _, l, r) => slot == l || slot == r,
        Instr::UnOp(_, _, s) => slot == s,
        Instr::Move(_, s) => slot == s,
        Instr::Return(s) => slot == s,
        _ => false,
    }
}

/// Whether an instruction defines a slot, as far as parameters are concerned.
pub open spec fn defines_slot(i: Instr, slot: u16) -> bool {
    match i {
        Instr::LoadI64(d, _) | Instr::LoadI32(d, _) | Instr::LoadF64(d, _) | Instr::LoadF32(d, _)
        | Instr::LoadBool(d, _) | Instr::LoadUnit(d) | Instr::BinOp(d, _, _, _) | Instr::UnOp(
            d,
            _,
            _,
        ) | Instr::Move(d, _) => slot == d,
        _ => false,
    }
}

/// Whether a slot is a parameter: some instruction reads it and none defines it.
pub open spec fn is_parameter(instrs: Seq<TraceInstruction>, slot: u16) -> bool {
    &&& exists|i: int|
        0 <= i < instrs.len() && reads_slot((#[trigger] instrs[i]).instruction, slot)
    &&& forall|i: int|
        0 <= i < instrs.len() ==> !defines_slot((#[trigger] instrs[i]).instruction, slot)
}

/// The parameters of a list of instructions.
pub open spec fn parameters(instrs: Seq<TraceInstruction>) -> Set<u16> {
    Set::new(|s: u16| is_parameter(instrs, s))
}

/// Number of parameter slots.
pub open spec fn param_count(instrs: Seq<TraceInstruction>) -> nat {
    parameters(instrs).len()
}

/// What the code generator is asked to compile.
#[derive(Debug)]
pub struct CompileRequest {
    /// Number of the trace.
    pub trace_id: u32,
    /// Name of the function to generate.
    pub name: String,
    /// Instructions of the function.
    pub instrs: Vec<Instr>,
    /// Number of parameter slots.
    pub param_count: u16,
    /// Number of guards of the trace.
    pub guard_count: usize,
}

/// Machine code with the checksum that was taken when it was generated.
#[derive(Debug)]
pub struct NativeCode {
    /// The machine code.
    pub code: Vec<u8>,
    /// FNV-1a checksum of the code.
    pub checksum: u64,
}

/// 64-bit FNV-1a checksum of the first `k` bytes.
pub open spec fn fnv1a(bytes: Seq<u8>, k: nat) -> u64
    decreases k,
{
    if k == 0 {
        0xcbf29ce484222325
    } else {
        (fnv1a(bytes, (k - 1) as nat) ^ bytes[k - 1] as u64).wrapping_mul(0x100000001b3)
    }
}

/// 64-bit FNV-1a checksum.
pub fn checksum_of(bytes: &Vec<u8>) -> (r: u64)
    ensures
        r == fnv1a(bytes@, bytes@.len()),
{
    let mut h: u64 = 0xcbf29ce484222325;
    let mut i: usize = 0;
    while i < bytes.len()
        invariant
            i <= bytes@.len(),
            h == fnv1a(bytes@, i as nat),
        decreases bytes.len() - i,
    {
        h = (h ^ bytes[i] as u64).wrapping_mul(0x100000001b3);
        i += 1;
    }
    h
}

impl NativeCode {
    /// Machine code with its checksum.
    pub fn new(code: Vec<u8>) -> (r: Self)
        ensures
            r.code == code,
            r.checksum == fnv1a(code@, code@.len()),
    {
        let checksum: u64 = checksum_of(&code);
        NativeCode { code, checksum }
    }

    /// Size of the code in bytes.
    pub fn code_size(&self) -> (r: usize)
        ensures
            r == self.code@.len(),
    {
        self.code.len()
    }

    /// Whether the code still has its checksum.
    pub fn verify_integrity(&self) -> (r: bool)
        ensures
            r == (self.checksum == fnv1a(self.code@, self.code@.len())),
    {
        self.checksum == checksum_of(&self.code)
    }
}

/// A trace with its machine code.
#[derive(Debug)]
pub struct CompiledTrace {
    /// Number of the trace.
    pub trace_id: u32,
    /// The machine code.
    pub native_code: NativeCode,
    /// Number of guards of the trace.
    pub guard_count: usize,
    /// Number of instructions that were compiled.
    pub instruction_count: usize,
    /// Number of parameter slots.
    pub param_count: u16,
}

impl CompiledTrace {
    /// The trace of a request with the code that was generated for it.
    pub fn from_request(request: &CompileRequest, native_code: NativeCode) -> (r: Self)
        ensures
            r.trace_id == request.trace_id,
            r.native_code == native_code,
            r.guard_count == request.guard_count,
            r.instruction_count == request.instrs@.len(),
            r.param_count == request.param_count,
    {
        CompiledTrace {
            trace_id: request.trace_id,
            native_code,
            guard_count: request.guard_count,
            instruction_count: request.instrs.len(),
            param_count: request.param_count,
        }
    }

    /// Size of the machine code in bytes.
    pub fn code_size(&self) -> (r: usize)
        ensures
            r == self.native_code.code@.len(),
    {
        self.native_code.code_size()
    }

    /// Whether the machine code still has its checksum.
    pub fn verify_integrity(&self) -> (r: bool)
        ensures
            r == (self.native_code.checksum == fnv1a(
                self.native_code.code@,
                self.native_code.code@.len(),
            )),
    {
        self.native_code.verify_integrity()
    }
}

/// What a compiled trace checks at its entry.
#[derive(Debug)]
pub struct GuardMaskSummary {
    /// The word with the bits of all guards set.
    pub mask: u64,
    /// Number of guards.
    pub invariant_count: usize,
    /// The slots that are guarded, in the order of the bits.
    pub invariant_slots: Vec<u16>,
}

/// Prepares traces for the code generator.
#[derive(Debug, Clone, Copy)]
pub struct TraceCompiler;

/// Which name a compiled function gets.
#[derive(Debug, Clone, Copy, PartialEq, Eq, Structural)]
pub enum NameSuffix {
    /// The number of the trace alone.
    Plain,
    /// The number and the optimized tier.
    Tier2,
    /// The number and the global tier.
    Tier4,
}

impl NameSuffix {
    /// What stands behind the number of the trace.
    #[verifier::allow_in_spec]
    pub fn as_text(self) -> (r: &'static str)
        returns
            (match self {
                NameSuffix::Plain => "",
                NameSuffix::Tier2 => "_tier2",
                NameSuffix::Tier4 => "_tier4",
            }),
    {
        match self {
            NameSuffix::Plain => "",
            NameSuffix::Tier2 => "_tier2",
            NameSuffix::Tier4 => "_tier4",
        }
    }
}

/// Name of the function for a trace.
pub open spec fn function_name(id: u32, suffix: NameSuffix) -> Seq<char> {
    "trace_"@ + text::decimal(id as nat) + suffix.as_text()@
}

/// Whether `r` is the request to compile `instrs` for a trace.
pub open spec fn is_request(
    r: CompileRequest,
    trace: Trace,
    instrs: Seq<Instr>,
    suffix: NameSuffix,
) -> bool {
    &&& r.trace_id == trace.id
    &&& r.name@ == function_name(trace.id, suffix)
    &&& r.instrs@ == instrs
    &&& r.param_count == param_count(trace.instructions@)
    &&& r.guard_count == trace.guards@.len()
}

/// The instructions to compile where a loop optimizer had its turn: its result, unless that is
/// empty.
pub open spec fn preferred(loops: Seq<Instr>, plain: Seq<Instr>) -> Seq<Instr> {
    if loops.len() > 0 {
        loops
    } else {
        plain
    }
}

/// Whether the number of parameter slots is in range.
pub open spec fn param_count_fits(instrs: Seq<TraceInstruction>) -> bool {
    param_count(instrs) <= u16::MAX
}

fn is_defined(instrs: &Vec<TraceInstruction>, slot: u16) -> (r: bool)
    ensures
        r == exists|i: int|
            0 <= i < instrs@.len() && defines_slot((#[trigger] instrs@[i]).instruction, slot),
{
    let mut i: usize = 0;
    while i < instrs.len()
        invariant
            i <= instrs@.len(),
            forall|j: int|
                0 <= j < i ==> !defines_slot((#[trigger] instrs@[j]).instruction, slot),
        decreases instrs.len() - i,
    {
        let hit: bool = match instrs[i].instruction {
            Instr::LoadI64(d, _) => d == slot,
            Instr::LoadI32(d, _) => d == slot,
            Instr::LoadF64(d, _) => d == slot,
            Instr::LoadF32(d, _) => d == slot,
            Instr::LoadBool(d, _) => d == slot,
            Instr::LoadUnit(d) => d == slot,
            Instr::BinOp(d, _, _, _) => d == slot,
            Instr::UnOp(d, _, _) => d == slot,
            Instr::Move(d, _) => d == slot,
            _ => false,
        };
        if hit {
            assert(defines_slot(instrs@[i as int].instruction, slot));
            return true;
        }
        i += 1;
    }
    false
}

impl TraceCompiler {
    /// A compiler.
    pub fn new() -> (r: Self)
        ensures
            r == TraceCompiler,
    {
        TraceCompiler
    }

    /// Adds a slot that is read to a list of parameters, if it is one and not yet there.
    fn cover(trace: &Trace, found: &mut Vec<u16>, slot: u16)
        requires
            old(found)@.no_duplicates(),
            forall|k: int|
                0 <= k < old(found)@.len() ==> is_parameter(
                    trace.instructions@,
                    #[trigger] old(found)@[k],
                ),
            exists|i: int|
                0 <= i < trace.instructions@.len() && reads_slot(
                    (#[trigger] trace.instructions@[i]).instruction,
                    slot,
                ),
        ensures
            final(found)@.no_duplicates(),
            forall|k: int|
                0 <= k < final(found)@.len() ==> is_parameter(
                    trace.instructions@,
                    #[trigger] final(found)@[k],
                ),
            forall|s: u16| #[trigger] old(found)@.contains(s) ==> final(found)@.contains(s),
            is_parameter(trace.instructions@, slot) ==> final(found)@.contains(slot),
    {
        if is_defined(&trace.instructions, slot) {
            return;
        }
        let mut k: usize = 0;
        while k < found.len()
            invariant
                found@ == old(found)@,
                found@.no_duplicates(),
                forall|j: int|
                    0 <= j < found@.len() ==> is_parameter(
                        trace.instructions@,
                        #[trigger] found@[j],
                    ),
                k <= found@.len(),
                forall|j: int| 0 <= j < k ==> found@[j] != slot,
            decreases found.len() - k,
        {
            if found[k] == slot {
                assert(found@[k as int] == slot);
                return;
            }
            k += 1;
        }
        found.push(slot);
        proof {
            assert(is_parameter(trace.instructions@, slot));
            assert(found@ == old(found)@.push(slot));
            assert forall|s: u16| #[trigger] old(found)@.contains(s) implies found@.contains(s) by {
                let j = choose|j: int| 0 <= j < old(found)@.len() && old(found)@[j] == s;
                assert(found@[j] == s);
            }
            assert(found@[found@.len() - 1] == slot);
        }
    }

    /// The parameters of a trace, each once.
    fn collect_parameters(trace: &Trace) -> (r: Vec<u16>)
        ensures
            r@.no_duplicates(),
            r@.to_set() == parameters(trace.instructions@),
            r@.len() == param_count(trace.instructions@),
    {
        let ghost v = trace.instructions@;
        let mut found: Vec<u16> = Vec::new();
        let mut i: usize = 0;
        while i < trace.instructions.len()
            invariant
                v == trace.instructions@,
                i <= v.len(),
                found@.no_duplicates(),
                forall|k: int| 0 <= k < found@.len() ==> is_parameter(v, #[trigger] found@[k]),
                forall|j: int, s: u16|
                    0 <= j < i && #[trigger] reads_slot(v[j].instruction, s) && is_parameter(v, s)
                        ==> found@.contains(s),
            decreases trace.instructions.len() - i,
        {
            match trace.instructions[i].instruction {
                Instr::BinOp(_, _, l, r) => {
                    assert(reads_slot(v[i as int].instruction, l));
                    assert(reads_slot(v[i as int].instruction, r));
                    Self::cover(trace, &mut found, l);
                    Self::cover(trace, &mut found, r);
                },
                Instr::UnOp(_, _, s) => {
                    assert(reads_slot(v[i as int].instruction, s));
                    Self::cover(trace, &mut found, s);
                },
                Instr::Move(_, s) => {
                    assert(reads_slot(v[i as int].instruction, s));
                    Self::cover(trace, &mut found, s);
                },
                Instr::Return(s) => {
                    assert(reads_slot(v[i as int].instruction, s));
                    Self::cover(trace, &mut found, s);
                },
                _ => {},
            }
            i += 1;
        }
        proof {
            assert forall|s: u16| parameters(v).contains(s) implies found@.to_set().contains(s) by {
                let j = choose|j: int|
                    0 <= j < v.len() && reads_slot((#[trigger] v[j]).instruction, s);
                assert(reads_slot(v[j].instruction, s));
            }
            assert forall|s: u16| found@.to_set().contains(s) implies parameters(v).contains(s) by {
                let k = choose|k: int| 0 <= k < found@.len() && found@[k] == s;
                assert(is_parameter(v, found@[k]));
            }
            assert(found@.to_set() =~= parameters(v));
            found@.unique_seq_to_set();
        }
        found
    }

    /// Whether the number of parameter slots of a trace is in range.
    pub fn params_in_range(&self, trace: &Trace) -> (r: bool)
        ensures
            r == param_count_fits(trace.instructions@),
    {
        Self::collect_parameters(trace).len() <= 0xffff
    }

    /// Number of parameter slots of a trace. Parameters are the slots that are read and never
    /// defined.
    pub fn compute_param_count(&self, trace: &Trace) -> (r: u16)
        requires
            param_count_fits(trace.instructions@),
        ensures
            r == param_count(trace.instructions@),
    {
        Self::collect_parameters(trace).len() as u16
    }

    /// Folds operators on known constants into loads of their values.
    pub fn optimize_trace(&self, instrs: &[TraceInstruction]) -> (r: Vec<TraceInstruction>)
        ensures
            r@ == optimized(instrs@),
    {
        let mut out: Vec<TraceInstruction> = Vec::with_capacity(instrs.len());
        let mut loads: FxHashMap<u64, i64> = fx_new();
        assert(loads@ =~= loads_at(instrs@, 0));
        let mut k: usize = 0;
        while k < instrs.len()
            invariant
                k <= instrs@.len(),
                loads@ == loads_at(instrs@, k as nat),
                out@ == optimized(instrs@).take(k as int),
            decreases instrs.len() - k,
        {
            let ti: TraceInstruction = instrs[k];
            match ti.instruction {
                Instr::LoadI32(dst, v) => {
                    fx_insert(&mut loads, dst as u64, v as i64);
                    out.push(ti);
                },
                Instr::LoadI64(dst, v) => {
                    fx_insert(&mut loads, dst as u64, v);
                    out.push(ti);
                },
                Instr::BinOp(dst, op, lhs, rhs) => {
                    let value: Option<i64> = match (
                        fx_get(&loads, lhs as u64),
                        fx_get(&loads, rhs as u64),
                    ) {
                        (Some(a), Some(b)) => fold_constants(op, *a, *b),
                        _ => None,
                    };
                    assert(value == folded_value(loads@, op, lhs, rhs));
                    match value {
                        Some(v) => {
                            fx_insert(&mut loads, dst as u64, v);
                            out.push(
                                TraceInstruction {
                                    original_pc: ti.original_pc,
                                    instruction: Instr::LoadI64(dst, v),
                                    guard: None,
                                },
                            );
                        },
                        None => {
                            fx_remove(&mut loads, dst as u64);
                            out.push(ti);
                        },
                    }
                },
                _ => {
                    if let Some(dst) = written(ti.instruction) {
                        fx_remove(&mut loads, dst as u64);
                    }
                    out.push(ti);
                },
            }
            k += 1;
            assert(out@ =~= optimized(instrs@).take(k as int));
        }
        assert(out@ =~= optimized(instrs@));
        out
    }

    /// The instructions of a trace after folding.
    pub fn folded_instructions(&self, trace: &Trace) -> (r: Vec<Instr>)
        ensures
            r@ == bare(optimized(trace.instructions@)),
    {
        let opt: Vec<TraceInstruction> = self.optimize_trace(trace.instructions.as_slice());
        let mut out: Vec<Instr> = Vec::new();
        let mut k: usize = 0;
        while k < opt.len()
            invariant
                k <= opt@.len(),
                out@ == bare(opt@).take(k as int),
            decreases opt.len() - k,
        {
            out.push(opt[k].instruction);
            k += 1;
            assert(out@ =~= bare(opt@).take(k as int));
        }
        assert(out@ =~= bare(opt@));
        out
    }

    fn request(&self, trace: &Trace, instrs: Vec<Instr>, suffix: NameSuffix) -> (r: CompileRequest)
        requires
            param_count_fits(trace.instructions@),
        ensures
            is_request(r, *trace, instrs@, suffix),
    {
        let mut name = String::from_str("trace_");
        push_decimal(&mut name, trace.id as u64);
        name.append(suffix.as_text());
        CompileRequest {
            trace_id: trace.id,
            name,
            instrs,
            param_count: self.compute_param_count(trace),
            guard_count: trace.guards.len(),
        }
    }

    /// What to compile for a trace: its folded instructions. Nothing is compiled for a trace
    /// without instructions.
    pub fn compile_trace(&self, trace: &Trace) -> (r: Option<CompileRequest>)
        requires
            param_count_fits(trace.instructions@),
        ensures
            match r {
                Some(q) => trace.instructions@.len() > 0 && is_request(
                    q,
                    *trace,
                    bare(optimized(trace.instructions@)),
                    NameSuffix::Plain,
                ),
                None => trace.instructions@.len() == 0,
            },
    {
        let instrs: Vec<Instr> = self.folded_instructions(trace);
        if instrs.len() == 0 {
            return None;
        }
        Some(self.request(trace, instrs, NameSuffix::Plain))
    }

    /// The compiled trace where `native` is the code that was generated for `compile_trace`.
    /// There is none for a trace without instructions, and none where no code was generated.
    pub fn compiled_trace(&self, trace: &Trace, native: Option<NativeCode>) -> (r: Option<
        CompiledTrace,
    >)
        requires
            param_count_fits(trace.instructions@),
        ensures
            r is Some <==> trace.instructions@.len() > 0 && native is Some,
            r matches Some(c) ==> {
                &&& c.trace_id == trace.id
                &&& Some(c.native_code) == native
                &&& c.guard_count == trace.guards@.len()
                &&& c.instruction_count == optimized(trace.instructions@).len()
                &&& c.param_count == param_count(trace.instructions@)
            },
    {
        match (self.compile_trace(trace), native) {
            (Some(request), Some(code)) => Some(CompiledTrace::from_request(&request, code)),
            _ => None,
        }
    }

    fn compile_with_loops(&self, trace: &Trace, loops: Vec<Instr>, suffix: NameSuffix) -> (r: Option<
        CompileRequest,
    >)
        requires
            param_count_fits(trace.instructions@),
        ensures
            ({
                let chosen = preferred(loops@, bare(optimized(trace.instructions@)));
                match r {
                    Some(q) => chosen.len() > 0 && is_request(q, *trace, chosen, suffix),
                    None => chosen.len() == 0,
                }
            }),
    {
        let instrs: Vec<Instr> = if loops.len() > 0 {
            loops
        } else {
            self.folded_instructions(trace)
        };
        if instrs.len() == 0 {
            return None;
        }
        Some(self.request(trace, instrs, suffix))
    }

    /// What to compile for a trace in the optimized tier. `loops` is what the loop optimizer
    /// made of the folded instructions; where that is empty they stand as they are.
    pub fn compile_trace_tier2(&self, trace: &Trace, loops: Vec<Instr>) -> (r: Option<
        CompileRequest,
    >)
        requires
            param_count_fits(trace.instructions@),
        ensures
            ({
                let chosen = preferred(loops@, bare(optimized(trace.instructions@)));
                match r {
                    Some(q) => chosen.len() > 0 && is_request(
                        q,
                        *trace,
                        chosen,
                        NameSuffix::Tier2,
                    ),
                    None => chosen.len() == 0,
                }
            }),
    {
        self.compile_with_loops(trace, loops, NameSuffix::Tier2)
    }

    /// What to compile for a trace in the global tier; see `compile_trace_tier2`.
    pub fn compile_trace_tier4(&self, trace: &Trace, loops: Vec<Instr>) -> (r: Option<
        CompileRequest,
    >)
        requires
            param_count_fits(trace.instructions@),
        ensures
            ({
                let chosen = preferred(loops@, bare(optimized(trace.instructions@)));
                match r {
                    Some(q) => chosen.len() > 0 && is_request(
                        q,
                        *trace,
                        chosen,
                        NameSuffix::Tier4,
                    ),
                    None => chosen.len() == 0,
                }
            }),
    {
        self.compile_with_loops(trace, loops, NameSuffix::Tier4)
    }

    /// What a compiled trace checks at its entry, or `None` where it has no guards.
    pub fn emit_guard_mask_check(&self, trace: &Trace) -> (r: Option<GuardMaskSummary>)
        ensures
            match r {
                Some(s) => trace.guard_mask.guards().len() > 0 && s.mask == trace.guard_mask.word()
                    && s.invariant_count == trace.guard_mask.guards().len() && s.invariant_slots@
                    == guarded_slots(trace.guard_mask.guards()),
                None => trace.guard_mask.guards().len() == 0,
            },
    {
        if trace.guard_mask.is_empty() {
            return None;
        }
        let guards: &[(u16, ValueType)] = trace.guard_mask.invariants();
        let mut slots: Vec<u16> = Vec::new();
        let mut i: usize = 0;
        while i < guards.len()
            invariant
                i <= guards@.len(),
                slots@ == guarded_slots(guards@).take(i as int),
            decreases guards.len() - i,
        {
            slots.push(guards[i].0);
            i += 1;
            assert(slots@ =~= guarded_slots(guards@).take(i as int));
        }
        assert(slots@ =~= guarded_slots(guards@));
        Some(
            GuardMaskSummary {
                mask: trace.guard_mask.mask(),
                invariant_count: trace.guard_mask.len(),
                invariant_slots: slots,
            },
        )
    }
}

/// The slots of a list of guards.
pub open spec fn guarded_slots(v: Seq<(u16, ValueType)>) -> Seq<u16> {
    Seq::new(v.len(), |i: int| v[i].0)
}

/// Whether the operators that are folded compute what folding assumes.
pub open spec fn obeys_folding(m: numbering::Arithmetic) -> bool {
    forall|op: BinOpKind, a: i64, b: i64|
        fold_constants(op, a, b) is Some ==> #[trigger] (m.binary)(op, a, b) == fold_constants(
            op,
            a,
            b,
        )->0
}

/// Whether the known constants are what the slots hold.
pub open spec fn loads_agree(loads: Map<u64, i64>, s: Map<u16, i64>) -> bool {
    forall|d: u16| loads.dom().contains(d as u64) ==> #[trigger] s[d] == loads[d as u64]
}

/// Folding changes nothing: after each instruction the slots are what they are without it.
pub proof fn folding_is_equivalent(
    m: numbering::Arithmetic,
    s: Map<u16, i64>,
    instrs: Seq<TraceInstruction>,
    outside: Seq<i64>,
    n: nat,
)
    requires
        obeys_folding(m),
        n <= instrs.len(),
    ensures
        numbering::slots_after(m, s, bare(optimized(instrs)), outside, n)
            == numbering::slots_after(m, s, bare(instrs), outside, n),
        loads_agree(
            loads_at(instrs, n),
            numbering::slots_after(m, s, bare(instrs), outside, n),
        ),
    decreases n,
{
    if n > 0 {
        folding_is_equivalent(m, s, instrs, outside, (n - 1) as nat);
        let k = (n - 1) as nat;
        let before = numbering::slots_after(m, s, bare(instrs), outside, k);
        let after = numbering::slots_after(m, s, bare(instrs), outside, n);
        let loads = loads_at(instrs, k);
        let i = instrs[n - 1].instruction;
        assert(bare(instrs)[n - 1] == i);
        assert(bare(optimized(instrs))[n - 1] == folded(loads, instrs[n - 1]).instruction);
        assert(loads_agree(loads, before));
        match i {
            Instr::BinOp(d, op, l, r) => {
                assert(loads.dom().contains(l as u64) ==> before[l] == loads[l as u64]);
                assert(loads.dom().contains(r as u64) ==> before[r] == loads[r as u64]);
            },
            _ => {},
        }
        assert forall|d: u16| loads_at(instrs, n).dom().contains(d as u64) implies #[trigger] after[d]
            == loads_at(instrs, n)[d as u64] by {
            assert(loads.dom().contains(d as u64) ==> before[d] == loads[d as u64]);
        }
    }
}

} // verus!
