use symplex_engine::cuda_backend::{CudaRuntime, GpuDeviceInfo, LaunchConfig, PtxGenerator};
use symplex_engine::types::BinOpKind;

#[test]
fn test_cuda_ptx_generation_elementwise() {
    let gen = PtxGenerator::default_arch();
    let kernel = gen.gen_elementwise(BinOpKind::Add, 1024);
    assert!(kernel.ptx_source.contains("symplex_elementwise"));
    assert!(kernel.ptx_source.contains("add.f32"));
    assert!(kernel.ptx_size > 0);
}

#[test]
fn test_cuda_ptx_generation_matmul() {
    let gen = PtxGenerator::default_arch();
    let kernel = gen.gen_matmul(128, 128, 64, 32, 32, 8);
    assert!(kernel.ptx_source.contains("symplex_matmul"));
    assert!(kernel.ptx_source.contains("smem_A"));
    assert!(kernel.ptx_source.contains("smem_B"));
    let f = kernel.flops;
    assert!(f.factor as f64 * f.m as f64 * f.n as f64 * f.k as f64 / 1e9 > 0.0);
}

#[test]
fn test_cuda_ptx_generation_fma() {
    let gen = PtxGenerator::default_arch();
    let kernel = gen.gen_fma(512);
    assert!(kernel.ptx_source.contains("symplex_fma"));
    assert!(kernel.ptx_source.contains("mad.f32"));
}

#[test]
fn test_cuda_ptx_generation_reduction() {
    let gen = PtxGenerator::default_arch();
    let kernel = gen.gen_reduction(BinOpKind::Add, 1024);
    assert!(kernel.ptx_source.contains("symplex_reduction"));
    assert!(kernel.ptx_source.contains("add.f32"));
}

#[test]
fn test_cuda_runtime_not_available_without_feature() {
    assert!(!CudaRuntime::is_available());
}

#[test]
fn test_cuda_launch_config() {
    let config = LaunchConfig::elementwise(1024, 256);
    assert_eq!(config.grid.0, 4);
    assert_eq!(config.block.0, 256);
}

#[test]
fn test_cuda_gpu_device_info() {
    let info = GpuDeviceInfo {
        name: "NVIDIA A100".to_string(),
        compute_capability_major: 8,
        compute_capability_minor: 0,
        total_memory_bytes: 80 * 1024 * 1024 * 1024,
        num_sms: 108,
        warp_size: 32,
        max_threads_per_block: 1024,
        max_shared_memory_per_block: 49152,
        clock_mhz: 1410,
        memory_bandwidth_mbs: 2039000,
    };
    assert_eq!(info.sm_arch(), "sm_80");
    assert_eq!(info.num_cuda_cores(), 108 * 64);
}
