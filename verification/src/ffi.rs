//! The part of the bridge to a host program that decides and computes.

pub mod config;
pub mod hints;
pub mod pipeline;
pub mod stages;
pub mod stream;

pub use config::{
    build_profile_for_target, detect_simd_level_internal, parse_domain, parse_element_type,
    parse_target, CpuFeatures, FfiElementType, FfiHardwareTarget, FfiMathDomain, FfiPolyConfig,
    FfiSimdLevel, HardwareProfile,
};
pub use hints::{hint_to_slot_bytes, serialize_hints, sort_and_dedup, PlacedHint, SimdHintKind};
pub use pipeline::{
    poly_construct_adjoint, poly_optimize_specialized, poly_optimize_trace, poly_result, Adjoint,
    FfiPolyResult, FlashAttention, MicroKernelConfig, MixedPrecision, PolyBlock, StageResults,
    Transcendental, TranscendentalFusion,
};
pub use stream::StreamDecoder;
