//! Configuration that the host passes as bytes and flags.

use vstd::prelude::*;

verus! {

/// The numbers that a computation is on.
#[derive(Debug, Clone, Copy, PartialEq, Eq, Structural)]
pub enum FfiMathDomain {
    /// Floating-point numbers.
    RealFloat,
    /// Exact fractions.
    ExactFraction,
    /// Symbols.
    SymbolicVariable,
}

/// The kind of machine that is compiled for.
#[derive(Debug, Clone, Copy, PartialEq, Eq, Structural)]
pub enum FfiHardwareTarget {
    /// A server processor.
    ServerX86,
    /// A small device.
    EdgeDevice,
    /// A matrix accelerator.
    TensorAccelerator,
}

/// Type of the elements that are computed with.
#[derive(Debug, Clone, Copy, PartialEq, Eq, Structural)]
pub enum FfiElementType {
    /// 64-bit float.
    FP64,
    /// 32-bit float.
    FP32,
    /// 16-bit float.
    FP16,
    /// 16-bit brain float.
    BF16,
    /// 8-bit integer.
    INT8,
    /// 4-bit integer.
    INT4,
}

/// The widest vector instructions that the processor has.
#[derive(Debug, Clone, Copy, PartialEq, Eq, Structural)]
pub enum FfiSimdLevel {
    /// No vector instructions.
    NoSimd,
    /// SSE2.
    SSE2,
    /// AVX.
    AVX,
    /// AVX2 with fused multiply-add.
    AVX2FMA,
    /// AVX-512.
    AVX512,
}

impl FfiSimdLevel {
    /// The byte that stands for this level.
    #[verifier::allow_in_spec]
    pub fn code(self) -> (r: u8)
        returns
            (match self {
                FfiSimdLevel::NoSimd => 0u8,
                FfiSimdLevel::SSE2 => 1,
                FfiSimdLevel::AVX => 2,
                FfiSimdLevel::AVX2FMA => 3,
                FfiSimdLevel::AVX512 => 4,
            }),
    {
        match self {
            FfiSimdLevel::NoSimd => 0,
            FfiSimdLevel::SSE2 => 1,
            FfiSimdLevel::AVX => 2,
            FfiSimdLevel::AVX2FMA => 3,
            FfiSimdLevel::AVX512 => 4,
        }
    }
}

/// What the host asks of an optimization.
#[derive(Debug, Clone, Copy, PartialEq, Eq, Structural)]
pub struct FfiPolyConfig {
    /// Byte of the math domain.
    pub domain: u8,
    /// Byte of the hardware target.
    pub target: u8,
    /// Byte of the element type.
    pub compute_type: u8,
    /// Size of an element in bytes.
    pub element_bytes: usize,
    /// Whether attention is looked for.
    pub enable_flash_attention: bool,
    /// Whether transcendental functions are fused.
    pub enable_transcendental_fusion: bool,
    /// Whether buffers are doubled.
    pub enable_double_buffering: bool,
    /// Whether precision is mixed.
    pub enable_mixed_precision: bool,
    /// Whether gradients are computed.
    pub enable_ad: bool,
}

/// What is known of the speed of a target, in whole units.
#[derive(Debug, Clone, Copy, PartialEq, Eq, Structural)]
pub struct HardwareProfile {
    /// Billions of floating-point operations per second.
    pub peak_gflops: u32,
    /// Billions of bytes per second to and from memory.
    pub mem_bandwidth_gb_per_sec: u32,
    /// Bytes of the first cache.
    pub l1_cache_bytes: usize,
    /// Bytes of the second cache.
    pub l2_cache_bytes: usize,
}

/// The math domain of a byte; bytes without a domain of their own are floating point.
#[verifier::allow_in_spec]
pub fn parse_domain(raw: u8) -> (r: FfiMathDomain)
    returns
        (match raw {
            1 => FfiMathDomain::ExactFraction,
            2 => FfiMathDomain::SymbolicVariable,
            _ => FfiMathDomain::RealFloat,
        }),
{
    match raw {
        1 => FfiMathDomain::ExactFraction,
        2 => FfiMathDomain::SymbolicVariable,
        _ => FfiMathDomain::RealFloat,
    }
}

/// The target of a byte; bytes without a target of their own are servers.
#[verifier::allow_in_spec]
pub fn parse_target(raw: u8) -> (r: FfiHardwareTarget)
    returns
        (match raw {
            1 => FfiHardwareTarget::EdgeDevice,
            2 => FfiHardwareTarget::TensorAccelerator,
            _ => FfiHardwareTarget::ServerX86,
        }),
{
    match raw {
        1 => FfiHardwareTarget::EdgeDevice,
        2 => FfiHardwareTarget::TensorAccelerator,
        _ => FfiHardwareTarget::ServerX86,
    }
}

/// The element type of a byte; bytes without a type of their own are 32-bit floats.
#[verifier::allow_in_spec]
pub fn parse_element_type(raw: u8) -> (r: FfiElementType)
    returns
        (match raw {
            0 => FfiElementType::FP64,
            1 => FfiElementType::FP32,
            2 => FfiElementType::FP16,
            3 => FfiElementType::BF16,
            4 => FfiElementType::INT8,
            5 => FfiElementType::INT4,
            _ => FfiElementType::FP32,
        }),
{
    match raw {
        0 => FfiElementType::FP64,
        1 => FfiElementType::FP32,
        2 => FfiElementType::FP16,
        3 => FfiElementType::BF16,
        4 => FfiElementType::INT8,
        5 => FfiElementType::INT4,
        _ => FfiElementType::FP32,
    }
}

/// The profile of a target.
#[verifier::allow_in_spec]
pub fn build_profile_for_target(target: &FfiHardwareTarget) -> (r: HardwareProfile)
    returns
        (match target {
            FfiHardwareTarget::ServerX86 => HardwareProfile {
                peak_gflops: 3072,
                mem_bandwidth_gb_per_sec: 200,
                l1_cache_bytes: 32768,
                l2_cache_bytes: 524288,
            },
            FfiHardwareTarget::EdgeDevice => HardwareProfile {
                peak_gflops: 256,
                mem_bandwidth_gb_per_sec: 34,
                l1_cache_bytes: 16384,
                l2_cache_bytes: 131072,
            },
            FfiHardwareTarget::TensorAccelerator => HardwareProfile {
                peak_gflops: 6144,
                mem_bandwidth_gb_per_sec: 800,
                l1_cache_bytes: 65536,
                l2_cache_bytes: 1048576,
            },
        }),
{
    match target {
        FfiHardwareTarget::ServerX86 => HardwareProfile {
            peak_gflops: 3072,
            mem_bandwidth_gb_per_sec: 200,
            l1_cache_bytes: 32768,
            l2_cache_bytes: 524288,
        },
        FfiHardwareTarget::EdgeDevice => HardwareProfile {
            peak_gflops: 256,
            mem_bandwidth_gb_per_sec: 34,
            l1_cache_bytes: 16384,
            l2_cache_bytes: 131072,
        },
        FfiHardwareTarget::TensorAccelerator => HardwareProfile {
            peak_gflops: 6144,
            mem_bandwidth_gb_per_sec: 800,
            l1_cache_bytes: 65536,
            l2_cache_bytes: 1048576,
        },
    }
}

impl FfiPolyConfig {
    /// What is asked of an optimization where the host passes nothing: 32-bit floats on a
    /// server, with everything but mixed precision and gradients.
    #[verifier::allow_in_spec]
    pub fn for_optimization() -> (r: Self)
        returns
            (FfiPolyConfig {
                domain: 0,
                target: 0,
                compute_type: 1,
                element_bytes: 4,
                enable_flash_attention: true,
                enable_transcendental_fusion: true,
                enable_double_buffering: true,
                enable_mixed_precision: false,
                enable_ad: false,
            }),
    {
        FfiPolyConfig {
            domain: 0,
            target: 0,
            compute_type: 1,
            element_bytes: 4,
            enable_flash_attention: true,
            enable_transcendental_fusion: true,
            enable_double_buffering: true,
            enable_mixed_precision: false,
            enable_ad: false,
        }
    }

    /// What is asked of a gradient where the host passes nothing: 32-bit floats on a server,
    /// with gradients alone.
    #[verifier::allow_in_spec]
    pub fn for_adjoint() -> (r: Self)
        returns
            (FfiPolyConfig {
                domain: 0,
                target: 0,
                compute_type: 1,
                element_bytes: 4,
                enable_flash_attention: false,
                enable_transcendental_fusion: false,
                enable_double_buffering: false,
                enable_mixed_precision: false,
                enable_ad: true,
            }),
    {
        FfiPolyConfig {
            domain: 0,
            target: 0,
            compute_type: 1,
            element_bytes: 4,
            enable_flash_attention: false,
            enable_transcendental_fusion: false,
            enable_double_buffering: false,
            enable_mixed_precision: false,
            enable_ad: true,
        }
    }

    /// Size of an element in bytes, at least one.
    #[verifier::allow_in_spec]
    pub fn element_size(&self) -> (r: usize)
        returns
            (if self.element_bytes < 1 {
                1usize
            } else {
                self.element_bytes
            }),
    {
        if self.element_bytes < 1 {
            1
        } else {
            self.element_bytes
        }
    }
}

/// Instruction sets that a processor was found to have.
#[derive(Debug, Clone, Copy, PartialEq, Eq, Structural)]
pub struct CpuFeatures {
    /// AVX-512 foundation.
    pub avx512f: bool,
    /// AVX2.
    pub avx2: bool,
    /// Fused multiply-add.
    pub fma: bool,
    /// AVX.
    pub avx: bool,
    /// SSE2.
    pub sse2: bool,
}

/// The widest vector instructions of a processor.
#[verifier::allow_in_spec]
pub fn detect_simd_level_internal(cpu: CpuFeatures) -> (r: FfiSimdLevel)
    returns
        (if cpu.avx512f && cpu.avx2 {
            FfiSimdLevel::AVX512
        } else if cpu.fma && cpu.avx2 {
            FfiSimdLevel::AVX2FMA
        } else if cpu.avx {
            FfiSimdLevel::AVX
        } else if cpu.sse2 {
            FfiSimdLevel::SSE2
        } else {
            FfiSimdLevel::NoSimd
        }),
{
    if cpu.avx512f && cpu.avx2 {
        FfiSimdLevel::AVX512
    } else if cpu.fma && cpu.avx2 {
        FfiSimdLevel::AVX2FMA
    } else if cpu.avx {
        FfiSimdLevel::AVX
    } else if cpu.sse2 {
        FfiSimdLevel::SSE2
    } else {
        FfiSimdLevel::NoSimd
    }
}

/// A processor with more instruction sets is never put on a lower level.
pub proof fn simd_level_is_monotone(a: CpuFeatures, b: CpuFeatures)
    requires
        a.avx512f ==> b.avx512f,
        a.avx2 ==> b.avx2,
        a.fma ==> b.fma,
        a.avx ==> b.avx,
        a.sse2 ==> b.sse2,
    ensures
        detect_simd_level_internal(a).code() <= detect_simd_level_internal(b).code(),
{
}

} // verus!
