//! Errors of the GPU backend and what is known of a device.

use crate::text;
use vstd::prelude::*;

verus! {

/// Errors produced by the GPU backend.
#[derive(Debug, Clone)]
pub enum CudaError {
    /// No driver support was built in.
    FeatureNotEnabled,
    /// No CUDA-capable GPU was found.
    NoGpuFound(String),
    /// The driver returned an error.
    DriverError(String),
    /// The kernel text did not compile.
    PtxCompileError(String),
    /// Invalid kernel parameters.
    InvalidParam(String),
    /// Out of GPU memory.
    OutOfMemory(String),
    /// Kernel execution failed.
    ExecutionError(String),
}

/// The result of a request to the GPU backend.
pub type CudaResult<T> = Result<T, CudaError>;

/// The message that describes `e`.
pub open spec fn error_text(e: CudaError) -> Seq<char> {
    match e {
        CudaError::FeatureNotEnabled => "CUDA feature not enabled. Rebuild with --features cuda"@,
        CudaError::NoGpuFound(m) => "No CUDA GPU found: "@ + m@,
        CudaError::DriverError(m) => "CUDA driver error: "@ + m@,
        CudaError::PtxCompileError(m) => "PTX compilation error: "@ + m@,
        CudaError::InvalidParam(m) => "Invalid parameter: "@ + m@,
        CudaError::OutOfMemory(m) => "GPU out of memory: "@ + m@,
        CudaError::ExecutionError(m) => "Kernel execution error: "@ + m@,
    }
}

fn prefixed(prefix: &str, message: &String) -> (r: String)
    ensures
        r@ == prefix@ + message@,
{
    let mut r = String::from_str(prefix);
    r.append(message.as_str());
    r
}

impl CudaError {
    /// The error as a message.
    pub fn message(&self) -> (r: String)
        ensures
            r@ == error_text(*self),
    {
        match self {
            CudaError::FeatureNotEnabled => String::from_str(
                "CUDA feature not enabled. Rebuild with --features cuda",
            ),
            CudaError::NoGpuFound(m) => prefixed("No CUDA GPU found: ", m),
            CudaError::DriverError(m) => prefixed("CUDA driver error: ", m),
            CudaError::PtxCompileError(m) => prefixed("PTX compilation error: ", m),
            CudaError::InvalidParam(m) => prefixed("Invalid parameter: ", m),
            CudaError::OutOfMemory(m) => prefixed("GPU out of memory: ", m),
            CudaError::ExecutionError(m) => prefixed("Kernel execution error: ", m),
        }
    }
}

/// Information about a CUDA-capable GPU device.
#[derive(Debug, Clone)]
pub struct GpuDeviceInfo {
    /// Device name.
    pub name: String,
    /// Compute capability, major version.
    pub compute_capability_major: u32,
    /// Compute capability, minor version.
    pub compute_capability_minor: u32,
    /// Total global memory in bytes.
    pub total_memory_bytes: usize,
    /// Number of streaming multiprocessors.
    pub num_sms: u32,
    /// Threads per warp.
    pub warp_size: u32,
    /// Maximum threads per block.
    pub max_threads_per_block: u32,
    /// Maximum shared memory per block in bytes.
    pub max_shared_memory_per_block: usize,
    /// Clock frequency in MHz.
    pub clock_mhz: u32,
    /// Memory bandwidth in MB/s.
    pub memory_bandwidth_mbs: u32,
}

/// Cores in one multiprocessor of compute capability `major.minor`.
#[verifier::allow_in_spec]
pub fn cores_per_sm(major: u32, minor: u32) -> u32
    returns
        (match major {
            1 => 8u32,
            2 => 8u32,
            3 => 192u32,
            6 => if minor == 0 {
                64u32
            } else {
                128u32
            },
            7 => 64u32,
            8 => if minor == 0 {
                64u32
            } else {
                128u32
            },
            _ => 128u32,
        }),
{
    match major {
        1..=2 => 8,
        3 => 192,
        6 | 8 => if minor == 0 {
            64
        } else {
            128
        },
        7 => 64,
        _ => 128,
    }
}

impl GpuDeviceInfo {
    /// The target architecture, `sm_` followed by the two version numbers.
    pub fn sm_arch(&self) -> (r: String)
        ensures
            r@ == "sm_"@ + text::decimal(self.compute_capability_major as nat) + text::decimal(
                self.compute_capability_minor as nat,
            ),
    {
        let mut r = String::from_str("sm_");
        text::push_decimal(&mut r, self.compute_capability_major as u64);
        text::push_decimal(&mut r, self.compute_capability_minor as u64);
        r
    }

    /// The number of cores: multiprocessors times cores per multiprocessor.
    pub fn num_cuda_cores(&self) -> (r: u32)
        requires
            self.num_sms * cores_per_sm(
                self.compute_capability_major,
                self.compute_capability_minor,
            ) <= u32::MAX,
        ensures
            r == self.num_sms * cores_per_sm(
                self.compute_capability_major,
                self.compute_capability_minor,
            ),
    {
        self.num_sms * cores_per_sm(self.compute_capability_major, self.compute_capability_minor)
    }
}

} // verus!
