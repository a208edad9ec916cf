//! The runtime without a driver, the compile entry points and the plans of GPU calls.

use crate::cuda_backend::device::{CudaError, CudaResult, GpuDeviceInfo};
use crate::cuda_backend::launch;
use crate::cuda_backend::ptx;
use crate::cuda_backend::ptx::{CudaCompiledKernel, FlopCount, PtxGenerator};
use crate::types::{BinOpKind, Instr};
use vstd::prelude::*;

verus! {

/// Manages device, memory and kernel execution. This build holds no driver, so there is no way
/// to make one.
#[derive(Debug)]
pub struct CudaRuntime {}

impl CudaRuntime {
    /// A runtime for the given device.
    pub fn new(device_ordinal: usize) -> (r: CudaResult<CudaRuntime>)
        ensures
            r == Err::<CudaRuntime, CudaError>(CudaError::FeatureNotEnabled),
    {
        let _ = device_ordinal;
        Err(CudaError::FeatureNotEnabled)
    }

    /// A runtime for the given device, where one is available.
    pub fn try_new(device_ordinal: usize) -> (r: Option<CudaRuntime>)
        ensures
            r is None,
    {
        match Self::new(device_ordinal) {
            Ok(rt) => Some(rt),
            Err(_) => None,
        }
    }

    /// Whether a device can be used.
    pub fn is_available() -> (r: bool)
        ensures
            !r,
    {
        false
    }

    /// Information about the device.
    pub fn device_info(&self) -> (r: CudaResult<GpuDeviceInfo>)
        ensures
            r == Err::<GpuDeviceInfo, CudaError>(CudaError::FeatureNotEnabled),
    {
        Err(CudaError::FeatureNotEnabled)
    }

    /// Allocates device memory.
    pub fn allocate(&self, bytes: usize) -> (r: CudaResult<CudaDeviceMemory>)
        ensures
            r == Err::<CudaDeviceMemory, CudaError>(CudaError::FeatureNotEnabled),
    {
        let _ = bytes;
        Err(CudaError::FeatureNotEnabled)
    }

    /// Copies data from host to device.
    pub fn htod_copy(&self, dst: &CudaDeviceMemory, src: &[u8]) -> (r: CudaResult<()>)
        ensures
            r == Err::<(), CudaError>(CudaError::FeatureNotEnabled),
    {
        let _ = (dst, src);
        Err(CudaError::FeatureNotEnabled)
    }

    /// Copies data from device to host.
    pub fn dtoh_copy(&self, dst: &mut [u8], src: &CudaDeviceMemory) -> (r: CudaResult<()>)
        ensures
            r == Err::<(), CudaError>(CudaError::FeatureNotEnabled),
            final(dst)@ == old(dst)@,
    {
        let _ = src;
        Err(CudaError::FeatureNotEnabled)
    }

    /// Compiles and launches a kernel.
    pub fn launch_kernel(&self, kernel: &CudaCompiledKernel, kernel_params: &[usize]) -> (r:
        CudaResult<()>)
        ensures
            r == Err::<(), CudaError>(CudaError::FeatureNotEnabled),
    {
        let _ = (kernel, kernel_params);
        Err(CudaError::FeatureNotEnabled)
    }
}

/// An allocation of device memory.
#[derive(Debug)]
pub struct CudaDeviceMemory {
    /// Size in bytes.
    pub size: usize,
}

impl CudaDeviceMemory {
    /// The size in bytes.
    pub fn size(&self) -> (r: usize)
        ensures
            r == self.size,
    {
        self.size
    }

    /// The device address, zero without a driver.
    pub fn device_ptr(&self) -> (r: usize)
        ensures
            r == 0,
    {
        0
    }
}

/// The text of the kernel `name` with the given body for the architecture `sm_arch`.
pub open spec fn source_for(sm_arch: Seq<char>, name: Seq<char>, body: Seq<char>) -> Seq<char> {
    ptx::header_text(name, ptx::version_for(sm_arch), sm_arch) + body
}

/// The kernel of an instruction trace.
pub fn cuda_compile(instrs: &[Instr], param_count: u16, sm_arch: &str) -> (r: CudaResult<
    CudaCompiledKernel,
>)
    ensures
        r is Ok,
        ptx::describes(
            r->Ok_0,
            source_for(
                sm_arch@,
                "symplex_ir_kernel"@,
                ptx::ir_body(instrs@, param_count as nat),
            ),
            "symplex_ir_kernel"@,
            ptx::no_estimate(),
        ),
        r->Ok_0.launch_config == (launch::LaunchConfig {
            grid: (1, 1, 1),
            block: (256, 1, 1),
            shared_mem_bytes: 0,
        }),
{
    let generator = PtxGenerator::new(sm_arch);
    Ok(generator.gen_from_instrs(instrs, param_count))
}

/// The kernel of a tiled matrix product.
pub fn cuda_compile_matmul(
    m: usize,
    n: usize,
    k: usize,
    tile_m: usize,
    tile_n: usize,
    tile_k: usize,
    sm_arch: &str,
) -> (r: CudaCompiledKernel)
    requires
        launch::blocks_fit(n, tile_n as u32),
        launch::blocks_fit(m, tile_m as u32),
        tile_m * tile_n * 4 * 2 <= usize::MAX,
        tile_m * tile_k * 4 + tile_k * tile_n * 4 <= usize::MAX,
    ensures
        ptx::describes(
            r,
            source_for(
                sm_arch@,
                "symplex_matmul"@,
                ptx::pieces_text(ptx::matmul_pieces(tile_m, tile_n, tile_k)),
            ),
            "symplex_matmul"@,
            (FlopCount { factor: 2, m, n, k }),
        ),
        r.launch_config.grid.0 == launch::blocks_for((n as u32) as int, (tile_n as u32) as int),
        r.launch_config.grid.1 == launch::blocks_for((m as u32) as int, (tile_m as u32) as int),
        r.launch_config.grid.2 == 1,
        r.launch_config.block == (32u32, 1u32, 1u32),
        r.launch_config.shared_mem_bytes == tile_m * tile_n * 4 * 2,
{
    let generator = PtxGenerator::new(sm_arch);
    generator.gen_matmul(m, n, k, tile_m, tile_n, tile_k)
}

/// The kernel of an elementwise operation.
pub fn cuda_compile_elementwise(op: BinOpKind, n: usize, sm_arch: &str) -> (r: CudaCompiledKernel)
    requires
        launch::blocks_fit(n, 256),
    ensures
        ptx::describes(
            r,
            source_for(
                sm_arch@,
                "symplex_elementwise"@,
                ptx::pieces_text(ptx::elementwise_pieces(op)),
            ),
            "symplex_elementwise"@,
            ptx::no_estimate(),
        ),
        r.launch_config.grid.0 == launch::blocks_for((n as u32) as int, 256),
        r.launch_config.grid.1 == 1,
        r.launch_config.grid.2 == 1,
        r.launch_config.block == (256u32, 1u32, 1u32),
        r.launch_config.shared_mem_bytes == 0,
{
    let generator = PtxGenerator::new(sm_arch);
    generator.gen_elementwise(op, n)
}

/// The kernel of a fused multiply-add.
pub fn cuda_compile_fma(n: usize, sm_arch: &str) -> (r: CudaCompiledKernel)
    requires
        launch::blocks_fit(n, 256),
    ensures
        ptx::describes(
            r,
            source_for(sm_arch@, "symplex_fma"@, ptx::pieces_text(ptx::fma_pieces())),
            "symplex_fma"@,
            ptx::no_estimate(),
        ),
        r.launch_config.grid.0 == launch::blocks_for((n as u32) as int, 256),
        r.launch_config.grid.1 == 1,
        r.launch_config.grid.2 == 1,
        r.launch_config.block == (256u32, 1u32, 1u32),
        r.launch_config.shared_mem_bytes == 0,
{
    let generator = PtxGenerator::new(sm_arch);
    generator.gen_fma(n)
}

/// The kernel of a reduction.
pub fn cuda_compile_reduction(op: BinOpKind, n: usize, sm_arch: &str) -> (r: CudaCompiledKernel)
    requires
        launch::blocks_fit(n, 256),
    ensures
        ptx::describes(
            r,
            source_for(
                sm_arch@,
                "symplex_reduction"@,
                ptx::pieces_text(ptx::reduction_pieces(op)),
            ),
            "symplex_reduction"@,
            ptx::no_estimate(),
        ),
        r.launch_config.grid.0 == if n as u32 == 0 {
            1
        } else {
            launch::blocks_for((n as u32) as int, 256)
        },
        r.launch_config.grid.1 == 1,
        r.launch_config.grid.2 == 1,
        r.launch_config.block == (256u32, 1u32, 1u32),
        r.launch_config.shared_mem_bytes == 1024,
{
    let generator = PtxGenerator::new(sm_arch);
    generator.gen_reduction(op, n)
}

/// The kernel of a five-point stencil.
pub fn cuda_compile_stencil(rows: usize, cols: usize, sm_arch: &str) -> (r: CudaCompiledKernel)
    requires
        2 <= rows <= usize::MAX - 13,
        2 <= cols <= usize::MAX - 13,
    ensures
        ptx::describes(
            r,
            source_for(sm_arch@, "symplex_stencil5"@, ptx::pieces_text(ptx::stencil_pieces())),
            "symplex_stencil5"@,
            (FlopCount { factor: 5, m: (rows - 2) as usize, n: (cols - 2) as usize, k: 1 }),
        ),
        r.launch_config.grid.0 == launch::blocks_for(cols - 2, 16) as u32,
        r.launch_config.grid.1 == launch::blocks_for(rows - 2, 16) as u32,
        r.launch_config.grid.2 == 1,
        r.launch_config.block == (16u32, 16u32, 1u32),
        r.launch_config.shared_mem_bytes == 0,
{
    let generator = PtxGenerator::new(sm_arch);
    generator.gen_stencil(rows, cols)
}

/// An argument of a kernel launch.
#[derive(Debug, Clone, Copy, PartialEq, Eq, Structural)]
pub enum KernelArg {
    /// The address of the buffer at this place in the plan.
    Buffer(usize),
    /// A plain number.
    Size(usize),
}

/// What a GPU call allocates, copies and passes.
#[derive(Debug, Clone)]
pub struct CallPlan {
    /// Bytes of each buffer, in the order of allocation: the inputs, which are copied to the
    /// device, and last the output, which is copied back.
    pub buffers: Vec<usize>,
    /// The arguments of the launch, in order.
    pub args: Vec<KernelArg>,
}

/// The number that an argument passes, or the place of the buffer whose address it passes.
pub open spec fn passed(a: KernelArg) -> int {
    match a {
        KernelArg::Buffer(i) => i as int,
        KernelArg::Size(n) => n as int,
    }
}

/// The plan of a matrix product of an `m` by `k` and a `k` by `n` matrix.
pub fn matmul_plan(m: usize, n: usize, k: usize) -> (r: CallPlan)
    requires
        m * k * 4 <= usize::MAX,
        k * n * 4 <= usize::MAX,
        m * n * 4 <= usize::MAX,
    ensures
        r.buffers@ == seq![(m * k * 4) as usize, (k * n * 4) as usize, (m * n * 4) as usize],
        r.args@ == seq![
            KernelArg::Buffer(0),
            KernelArg::Buffer(1),
            KernelArg::Buffer(2),
            KernelArg::Size(m),
            KernelArg::Size(n),
            KernelArg::Size(k),
        ],
        r.buffers@[0] == 4 * (passed(r.args@[3]) * passed(r.args@[5])),
        r.buffers@[1] == 4 * (passed(r.args@[5]) * passed(r.args@[4])),
        r.buffers@[2] == 4 * (passed(r.args@[3]) * passed(r.args@[4])),
        forall|i: int| 0 <= i < r.buffers@.len() ==> #[trigger] passed(r.args@[i]) == i,
{
    proof {
        assert(m * k >= 0 && k * n >= 0 && m * n >= 0) by (nonlinear_arith);
    }
    let buffers: Vec<usize> = vec![m * k * 4, k * n * 4, m * n * 4];
    let args: Vec<KernelArg> =
        vec![
            KernelArg::Buffer(0),
            KernelArg::Buffer(1),
            KernelArg::Buffer(2),
            KernelArg::Size(m),
            KernelArg::Size(n),
            KernelArg::Size(k),
        ];
    CallPlan { buffers, args }
}

/// The plan of a five-point stencil on a `rows` by `cols` grid.
pub fn stencil_plan(rows: usize, cols: usize) -> (r: CallPlan)
    requires
        2 <= rows,
        2 <= cols,
        rows * cols * 4 <= usize::MAX,
    ensures
        r.buffers@ == seq![(rows * cols * 4) as usize, ((rows - 2) * (cols - 2) * 4) as usize],
        r.args@ == seq![
            KernelArg::Buffer(0),
            KernelArg::Buffer(1),
            KernelArg::Size(rows),
            KernelArg::Size(cols),
        ],
        r.buffers@[0] == 4 * (passed(r.args@[2]) * passed(r.args@[3])),
        r.buffers@[0] - r.buffers@[1] == 4 * (2 * rows + 2 * cols - 4),
        forall|i: int| 0 <= i < r.buffers@.len() ==> #[trigger] passed(r.args@[i]) == i,
{
    proof {
        assert((rows - 2) * (cols - 2) == rows * cols - 2 * rows - 2 * cols + 4)
            by (nonlinear_arith);
        assert(0 <= (rows - 2) * (cols - 2) <= rows * cols) by (nonlinear_arith)
            requires
                2 <= rows,
                2 <= cols,
        ;
    }
    let buffers: Vec<usize> = vec![rows * cols * 4, (rows - 2) * (cols - 2) * 4];
    let args: Vec<KernelArg> =
        vec![
            KernelArg::Buffer(0),
            KernelArg::Buffer(1),
            KernelArg::Size(rows),
            KernelArg::Size(cols),
        ];
    CallPlan { buffers, args }
}

/// The plan of an elementwise operation on arrays of the given lengths, which must agree.
pub fn elementwise_plan(a_len: usize, b_len: usize, dst_len: usize) -> (r: CudaResult<CallPlan>)
    requires
        a_len * 4 <= usize::MAX,
    ensures
        (b_len != a_len || dst_len != a_len) ==> (r matches Err(CudaError::InvalidParam(m))
            && m@ == "Array length mismatch"@),
        (b_len == a_len && dst_len == a_len) ==> (r matches Ok(plan) && plan.buffers@ == seq![
            (a_len * 4) as usize,
            (a_len * 4) as usize,
            (a_len * 4) as usize,
        ] && plan.args@ == seq![
            KernelArg::Buffer(2),
            KernelArg::Buffer(0),
            KernelArg::Buffer(1),
            KernelArg::Size(a_len),
        ] && passed(plan.args@[0]) == plan.buffers@.len() - 1 && passed(plan.args@[1]) == 0
            && passed(plan.args@[2]) == 1 && 4 * passed(plan.args@[3]) == plan.buffers@[0]),
{
    if b_len != a_len || dst_len != a_len {
        return Err(CudaError::InvalidParam(String::from_str("Array length mismatch")));
    }
    let bytes: usize = a_len * 4;
    let buffers: Vec<usize> = vec![bytes, bytes, bytes];
    let args: Vec<KernelArg> =
        vec![
            KernelArg::Buffer(2),
            KernelArg::Buffer(0),
            KernelArg::Buffer(1),
            KernelArg::Size(a_len),
        ];
    Ok(CallPlan { buffers, args })
}

} // verus!
