//! Instruction sets.

use vstd::prelude::*;

verus! {

/// The widest instruction set that kernels are written for.
#[derive(Debug, Clone, Copy, PartialEq, Eq, Structural)]
pub enum ISALevel {
    SSE,
    AVX2,
    AVX512,
}

impl ISALevel {
    /// The name of the level.
    #[verifier::allow_in_spec]
    pub fn name(self) -> &'static str
        returns
            (match self {
                ISALevel::SSE => "SSE",
                ISALevel::AVX2 => "AVX2",
                ISALevel::AVX512 => "AVX-512",
            }),
    {
        match self {
            ISALevel::SSE => "SSE",
            ISALevel::AVX2 => "AVX2",
            ISALevel::AVX512 => "AVX-512",
        }
    }
}

/// The level of a processor with the given features.
#[verifier::allow_in_spec]
pub fn detect_isa_level(avx512f: bool, avx2: bool) -> ISALevel
    returns
        (if avx512f {
            ISALevel::AVX512
        } else if avx2 {
            ISALevel::AVX2
        } else {
            ISALevel::SSE
        }),
{
    if avx512f {
        ISALevel::AVX512
    } else if avx2 {
        ISALevel::AVX2
    } else {
        ISALevel::SSE
    }
}

/// Single-precision elements in one vector.
#[verifier::allow_in_spec]
pub fn vector_width(level: ISALevel) -> usize
    returns
        (match level {
            ISALevel::SSE => 1usize,
            ISALevel::AVX2 => 8usize,
            ISALevel::AVX512 => 16usize,
        }),
{
    match level {
        ISALevel::SSE => 1,
        ISALevel::AVX2 => 8,
        ISALevel::AVX512 => 16,
    }
}

} // verus!
