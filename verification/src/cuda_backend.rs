//! GPU kernels: launch geometry, kernel text and the plan of a GPU call.
//!
//! The library writes the kernel text and decides sizes, launch geometry and argument order.
//! Talking to a driver is left to the caller; without one, every request of the runtime is
//! answered with [`CudaError::FeatureNotEnabled`].

pub mod device;
pub mod kernel_lines;
pub mod kernel_text;
pub mod launch;
pub mod ptx;
pub mod ptx_text;
pub mod runtime;

pub use device::{CudaError, CudaResult, GpuDeviceInfo};
pub use launch::LaunchConfig;
pub use ptx::{CudaCompiledKernel, FlopCount, PtxGenerator};
pub use runtime::{
    cuda_compile, cuda_compile_elementwise, cuda_compile_fma, cuda_compile_matmul,
    cuda_compile_reduction, cuda_compile_stencil, CudaDeviceMemory, CudaRuntime,
};
