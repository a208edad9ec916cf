//! Verified core of a tensor-fusion and tracing-compilation engine.

pub mod cuda_backend;
pub mod disasm;
pub mod ffi;
pub mod fusion_engine;
pub mod fx;
pub mod ieee;
pub mod simd_loops;
pub mod simd_math;
pub mod text;
pub mod tracing_jit;
pub mod types;
pub mod x86_emitter;
