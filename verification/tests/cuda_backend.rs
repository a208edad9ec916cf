use symplex_engine::cuda_backend::runtime::{
    elementwise_plan, matmul_plan, stencil_plan, KernelArg,
};
use symplex_engine::cuda_backend::{
    cuda_compile, cuda_compile_elementwise, cuda_compile_fma, cuda_compile_matmul,
    cuda_compile_reduction, cuda_compile_stencil, CudaDeviceMemory, CudaError, CudaRuntime,
    FlopCount, GpuDeviceInfo, LaunchConfig, PtxGenerator,
};
use symplex_engine::types::{BinOpKind, Instr, UnOpKind};

fn a100() -> GpuDeviceInfo {
    GpuDeviceInfo {
        name: "NVIDIA A100".to_string(),
        compute_capability_major: 8,
        compute_capability_minor: 0,
        total_memory_bytes: 80 * 1024 * 1024 * 1024,
        num_sms: 108,
        warp_size: 32,
        max_threads_per_block: 1024,
        max_shared_memory_per_block: 49152,
        clock_mhz: 1410,
        memory_bandwidth_mbs: 2039000,
    }
}

fn gflops(f: FlopCount) -> f64 {
    f.factor as f64 * f.m as f64 * f.n as f64 * f.k as f64 / 1e9
}

#[test]
fn test_ptx_generator_elementwise() {
    let gen = PtxGenerator::default_arch();
    let kernel = gen.gen_elementwise(BinOpKind::Add, 1024);
    assert!(kernel.ptx_source.contains("symplex_elementwise"));
    assert!(kernel.ptx_source.contains("add.f32"));
    assert!(kernel.ptx_size > 0);
}

#[test]
fn test_ptx_generator_matmul() {
    let gen = PtxGenerator::default_arch();
    let kernel = gen.gen_matmul(128, 128, 64, 32, 32, 8);
    assert!(kernel.ptx_source.contains("symplex_matmul"));
    assert!(kernel.ptx_source.contains("smem_A"));
    assert!(kernel.ptx_source.contains("smem_B"));
    assert!(gflops(kernel.flops) > 0.0);
}

#[test]
fn test_ptx_generator_fma() {
    let gen = PtxGenerator::default_arch();
    let kernel = gen.gen_fma(512);
    assert!(kernel.ptx_source.contains("symplex_fma"));
    assert!(kernel.ptx_source.contains("mad.f32"));
}

#[test]
fn test_ptx_generator_reduction() {
    let gen = PtxGenerator::default_arch();
    let kernel = gen.gen_reduction(BinOpKind::Add, 1024);
    assert!(kernel.ptx_source.contains("symplex_reduction"));
    assert!(kernel.ptx_source.contains("add.f32"));
}

#[test]
fn test_cuda_runtime_not_available() {
    assert!(CudaRuntime::is_available() == false);
    assert!(matches!(CudaRuntime::new(0), Err(CudaError::FeatureNotEnabled)));
    assert!(CudaRuntime::try_new(0).is_none());
}

#[test]
fn test_launch_config_elementwise() {
    let config = LaunchConfig::elementwise(1024, 256);
    assert_eq!(config.grid.0, 4);
    assert_eq!(config.block.0, 256);
}

#[test]
fn test_launch_config_matmul() {
    let config = LaunchConfig::matmul(128, 64, 32, 32);
    assert_eq!(config.grid.0, 2);
    assert_eq!(config.grid.1, 4);
}

#[test]
fn test_gpu_device_info_sm_arch() {
    let info = a100();
    assert_eq!(info.sm_arch(), "sm_80");
    assert_eq!(info.num_cuda_cores(), 108 * 64);
}

#[test]
fn launch_covers_every_element() {
    let config = LaunchConfig::elementwise(1025, 256);
    assert_eq!(config.grid, (5, 1, 1));
    assert_eq!(config.shared_mem_bytes, 0);
    let config = LaunchConfig::matmul(33, 65, 32, 16);
    assert_eq!(config.grid, (5, 2, 1));
    assert_eq!(config.block, (32, 1, 1));
    assert_eq!(config.shared_mem_bytes, 32 * 16 * 8);
}

#[test]
fn versions_follow_the_architecture() {
    let version = |arch: &str| {
        let k = cuda_compile_fma(1, arch);
        k.ptx_source
            .lines()
            .find(|l| l.starts_with(".version"))
            .unwrap()
            .to_string()
    };
    assert_eq!(version("sm_90"), ".version 8.5");
    assert_eq!(version("sm_100"), ".version 8.5");
    assert_eq!(version("sm_80"), ".version 8.0");
    assert_eq!(version("sm_86"), ".version 8.0");
    assert_eq!(version("sm_89"), ".version 8.0");
    assert_eq!(version("sm_90a"), ".version 8.0");
    assert_eq!(version("sm_75"), ".version 7.5");
    assert_eq!(version("sm_61"), ".version 7.0");
}

#[test]
fn header_names_kernel_and_target() {
    let k = cuda_compile_elementwise(BinOpKind::Div, 10, "sm_75");
    assert!(k.ptx_source.starts_with("// PTX kernel: symplex_elementwise\n"));
    assert!(k.ptx_source.contains("\n.version 7.5\n.target sm_75\n.address_size 64\n\n.entry symplex_elementwise(\n"));
    assert!(k.ptx_source.contains("    div.rn.f32 %f_result, %f_a, %f_b;\n"));
    assert!(k.ptx_source.ends_with("$done:\n    ret;\n}\n"));
    assert_eq!(k.ptx_size, k.ptx_source.len());
    assert_eq!(k.kernel_name, "symplex_elementwise");
}

#[test]
fn unknown_operators_add() {
    let k = cuda_compile_elementwise(BinOpKind::Rem, 10, "sm_80");
    assert!(k.ptx_source.contains("add.f32 %f_result"));
    let k = cuda_compile_reduction(BinOpKind::Mul, 10, "sm_80");
    assert!(k.ptx_source.contains("add.f32"));
    let k = cuda_compile_reduction(BinOpKind::Max, 0, "sm_80");
    assert!(k.ptx_source.contains("max.f32"));
    assert!(k.ptx_source.contains("        mov.f32 %f_val, 0fFF800000;\n"));
    let least = cuda_compile_reduction(BinOpKind::Min, 10, "sm_80");
    assert!(least.ptx_source.contains("        mov.f32 %f_val, 0f7F800000;\n"));
    let sum = cuda_compile_reduction(BinOpKind::Add, 10, "sm_80");
    assert!(sum.ptx_source.contains("        mov.f32 %f_val, 0.0;\n"));
    assert_eq!(k.launch_config.grid, (1, 1, 1));
    assert_eq!(k.launch_config.shared_mem_bytes, 1024);
}

#[test]
fn matmul_text_holds_the_tiles() {
    let k = cuda_compile_matmul(128, 96, 64, 32, 16, 8, "sm_80");
    assert!(k.ptx_source.contains("smem_A[1024];"));
    assert!(k.ptx_source.contains("smem_B[512];"));
    assert!(k.ptx_source.contains("mul.lo.u64 %rd_row, %rd_row, 32;"));
    assert!(k.ptx_source.contains("mul.lo.u64 %rd_col, %rd_col, 16;"));
    assert!(k.ptx_source.contains("setp.lt.u64 %p_bound_k, %rd_kk, 8;"));
    assert_eq!(k.flops, FlopCount { factor: 2, m: 128, n: 96, k: 64 });
    assert_eq!(k.launch_config.grid, (6, 4, 1));
}

#[test]
fn stencil_and_convolution_launches() {
    let k = cuda_compile_stencil(34, 18, "sm_80");
    assert_eq!(k.launch_config.grid, (1, 2, 1));
    assert_eq!(k.launch_config.block, (16, 16, 1));
    assert_eq!(k.flops, FlopCount { factor: 5, m: 32, n: 16, k: 1 });
    assert!(k.ptx_source.contains("symplex_stencil5"));
    let k = PtxGenerator::default_arch().gen_conv2d(2, 4, 3, 10, 20, 3, 3, 1, 1);
    assert_eq!(k.flops, FlopCount { factor: 2, m: 400, n: 4, k: 27 });
    assert_eq!(k.launch_config.grid, (2, 1, 1));
    assert!(k.ptx_source.contains("400"));
    assert!(k.ptx_source.contains("27"));
}

#[test]
fn instruction_kernel_lists_its_instructions() {
    let instrs = [
        Instr::LoadF64(3, 0),
        Instr::BinOp(2, BinOpKind::Mul, 0, 1),
        Instr::UnOp(4, UnOpKind::Neg, 2),
        Instr::Nop,
    ];
    let k = cuda_compile(&instrs, 2, "sm_80").unwrap();
    assert!(k.ptx_source.contains(
        ".entry symplex_ir_kernel(\n    .param .u64 param_0,\n    .param .u64 param_1,\n    .param .u64 slots_ptr,\n"
    ));
    assert!(k.ptx_source.ends_with(
        "\n\n    // LoadF64(slot=3, ...) \u{2014} load from param\n    // BinOp: slot2 = slot0 mul.f32 slot1\n    // UnOp\n\n    ret;\n}\n"
    ));
    assert_eq!(k.ptx_size, k.ptx_source.len());
    assert_eq!(k.launch_config.block, (256, 1, 1));
}

#[test]
fn errors_have_messages() {
    let m = "x".to_string();
    assert_eq!(
        CudaError::FeatureNotEnabled.message(),
        "CUDA feature not enabled. Rebuild with --features cuda"
    );
    assert_eq!(CudaError::NoGpuFound(m.clone()).message(), "No CUDA GPU found: x");
    assert_eq!(CudaError::DriverError(m.clone()).message(), "CUDA driver error: x");
    assert_eq!(CudaError::PtxCompileError(m.clone()).message(), "PTX compilation error: x");
    assert_eq!(CudaError::InvalidParam(m.clone()).message(), "Invalid parameter: x");
    assert_eq!(CudaError::OutOfMemory(m.clone()).message(), "GPU out of memory: x");
    assert_eq!(CudaError::ExecutionError(m).message(), "Kernel execution error: x");
}

#[test]
fn plans_hold_sizes_and_arguments() {
    let p = matmul_plan(2, 3, 5);
    assert_eq!(p.buffers, vec![40, 60, 24]);
    assert_eq!(p.args[3], KernelArg::Size(2));
    let p = stencil_plan(5, 6);
    assert_eq!(p.buffers, vec![120, 48]);
    let p = elementwise_plan(7, 7, 7).unwrap();
    assert_eq!(p.buffers, vec![28, 28, 28]);
    assert_eq!(p.args[0], KernelArg::Buffer(2));
    match elementwise_plan(7, 8, 7) {
        Err(CudaError::InvalidParam(m)) => assert_eq!(m, "Array length mismatch"),
        _ => panic!("lengths differ"),
    }
}

#[test]
fn memory_and_cores() {
    let m = CudaDeviceMemory { size: 12 };
    assert_eq!(m.size(), 12);
    assert_eq!(m.device_ptr(), 0);
    let mut info = a100();
    info.compute_capability_minor = 6;
    assert_eq!(info.num_cuda_cores(), 108 * 128);
    info.compute_capability_major = 3;
    assert_eq!(info.num_cuda_cores(), 108 * 192);
    info.compute_capability_major = 2;
    assert_eq!(info.num_cuda_cores(), 108 * 8);
    info.compute_capability_major = 7;
    assert_eq!(info.num_cuda_cores(), 108 * 64);
}
