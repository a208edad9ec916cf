//! Recording of execution traces and preparation of their compilation.

pub mod compiler;
pub mod guard;
pub mod jit;
pub mod layout;
pub mod numbering;
pub mod pic;
pub mod recorder;
pub mod tier;
pub mod tracing;
pub mod typing;
pub mod values;

pub use compiler::{
    CompileRequest, CompiledTrace, GuardMaskSummary, NativeCode, TraceCompiler,
};
pub use guard::{DeoptMap, DeoptMapEntry, Guard, GuardMask, SideExit, SlotLocation};
pub use jit::{TierUpgrade, TracingJIT};
pub use pic::PolymorphicInlineCache;
pub use recorder::{Trace, TraceInstruction, TraceRecorder};
pub use tier::{CompilationTier, TierManager, TierState};
pub use values::ValueType;
