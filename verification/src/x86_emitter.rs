//! Machine-code kernels for x86-64.

pub mod assembler;
pub mod avx512;
pub mod avx512_run;
pub mod codes;
pub mod elementwise;
pub mod elementwise_run;
pub mod exact_sums;
pub mod extremes;
pub mod fused;
pub mod inst;
pub mod isa;
pub mod kernel;
pub mod lower;
pub mod machine;
pub mod matmul;
pub mod matmul_run;
pub mod matmul_wide_run;
pub mod meaning;
pub mod program;
pub mod reduce;
pub mod reduce_choice;
pub mod reduce_order;
pub mod reduce_run;
pub mod rows;
pub mod running;
pub mod steps;
