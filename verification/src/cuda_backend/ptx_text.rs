//! Fixed parts of the generated kernels.

use vstd::prelude::*;

verus! {

/// The lines between the name of a kernel and its language version.
pub const HEADER_CREDIT: &'static str = "\n// Generated by SympleX CUDA Backend\n.version ";

/// What an instruction kernel holds between its parameters and its instructions.
pub const IR_PROLOGUE: &'static str = "    .param .u64 slots_ptr,
    .param .u64 n_elements
)
{
    .reg .f32 %f_tmp, %f_a, %f_b, %f_result;
    .reg .u64 %rd_idx, %rd_tmp;
    .reg .pred %p_valid;

    // Compute thread index
    mov.u64 %rd_idx, %tid.x;
    mov.u64 %rd_tmp, %ctaid.x;
    mad.lo.u64 %rd_idx, %rd_tmp, %ntid.x, %rd_idx;

";

/// Part 1 of the `symplex_elementwise` kernel.
pub const ELEMENTWISE_1: &'static str = ".entry symplex_elementwise(
    .param .u64 dst_ptr,
    .param .u64 a_ptr,
    .param .u64 b_ptr,
    .param .u64 dim_n
)
{
    .reg .u64 %rd_dst, %rd_a, %rd_b, %rd_n;
    .reg .u64 %rd_idx;
    .reg .f32 %f_a, %f_b, %f_result;
    .reg .pred %p_in_bounds;

    // Load parameters
    ld.param.u64 %rd_dst, [dst_ptr];
    ld.param.u64 %rd_a,   [a_ptr];
    ld.param.u64 %rd_b,   [b_ptr];
    ld.param.u64 %rd_n,   [dim_n];

    // Compute global thread index
    mov.u64 %rd_idx, %tid.x;
    mov.u64 %rd_tmp, %ctaid.x;
    mad.lo.u64 %rd_idx, %rd_tmp, %ntid.x, %rd_idx;

    // Bounds check
    setp.lt.u64 %p_in_bounds, %rd_idx, %rd_n;
    @!%p_in_bounds bra $done;

    // Load a[i] and b[i]
    mad.lo.u64 %rd_a_off, %rd_idx, 4, %rd_a;
    mad.lo.u64 %rd_b_off, %rd_idx, 4, %rd_b;
    ld.global.f32 %f_a, [%rd_a_off];
    ld.global.f32 %f_b, [%rd_b_off];

    // Compute result
    ";

/// Part 2 of the `symplex_elementwise` kernel.
pub const ELEMENTWISE_2: &'static str = " %f_result, %f_a, %f_b;

    // Store dst[i]
    mad.lo.u64 %rd_dst_off, %rd_idx, 4, %rd_dst;
    st.global.f32 [%rd_dst_off], %f_result;

$done:
    ret;
}
";

/// Part 1 of the `symplex_matmul` kernel.
pub const MATMUL_1: &'static str = ".entry symplex_matmul(
    .param .u64 A_ptr,
    .param .u64 B_ptr,
    .param .u64 C_ptr,
    .param .u64 dim_M,
    .param .u64 dim_N,
    .param .u64 dim_K
)
{
    // Shared memory for tiles
    .shared .align 128 .b8 smem_A[";

/// Part 2 of the `symplex_matmul` kernel.
pub const MATMUL_2: &'static str = "];
    .shared .align 128 .b8 smem_B[";

/// Part 3 of the `symplex_matmul` kernel.
pub const MATMUL_3: &'static str = "];

    // Registers
    .reg .u64 %rd_a_ptr, %rd_b_ptr, %rd_c_ptr;
    .reg .u64 %rd_M, %rd_N, %rd_K;
    .reg .u64 %rd_row, %rd_col;
    .reg .u64 %rd_k_iter, %rd_k_offset;
    .reg .u64 %rd_smem_A, %rd_smem_B;
    .reg .f32 %f_a, %f_b, %f_c;
    .reg .f32 %f_sum;
    .reg .pred %p_bound_m, %p_bound_n, %p_bound_k, %p_in_bounds;
    .reg .u64 %rd_tmp;

    // Load parameters
    ld.param.u64 %rd_a_ptr, [A_ptr];
    ld.param.u64 %rd_b_ptr, [B_ptr];
    ld.param.u64 %rd_c_ptr, [C_ptr];
    ld.param.u64 %rd_M,     [dim_M];
    ld.param.u64 %rd_N,     [dim_N];
    ld.param.u64 %rd_K,     [dim_K];

    // Compute tile coordinates
    // row = blockIdx.y * ";

/// Part 4 of the `symplex_matmul` kernel.
pub const MATMUL_4: &'static str = " + threadIdx.y
    mov.u64 %rd_row, %ctaid.y;
    mul.lo.u64 %rd_row, %rd_row, ";

/// Part 5 of the `symplex_matmul` kernel.
pub const MATMUL_5: &'static str = ";
    // col = blockIdx.x * ";

/// Part 6 of the `symplex_matmul` kernel.
pub const MATMUL_6: &'static str = " + threadIdx.x
    mov.u64 %rd_col, %ctaid.x;
    mul.lo.u64 %rd_col, %rd_col, ";

/// Part 7 of the `symplex_matmul` kernel.
pub const MATMUL_7: &'static str = ";

    // Shared memory base
    mov.u64 %rd_smem_A, smem_A;
    mov.u64 %rd_smem_B, smem_B;

    // Accumulator = 0.0
    mov.f32 %f_sum, 0.0;

    // K-loop
    mov.u64 %rd_k_offset, 0;
$K_LOOP:
    // Load A tile from global to shared
    // Each thread loads one element
    {
        .reg .u64 %rd_a_row, %rd_a_col;
        .reg .u64 %rd_a_global_off;

        mov.u64 %rd_a_row, %rd_row;
        add.u64 %rd_a_row, %rd_a_row, %tid.y;
        mov.u64 %rd_a_col, %rd_k_offset;
        add.u64 %rd_a_col, %rd_a_col, %tid.x;

        setp.lt.u64 %p_bound_m, %rd_a_row, %rd_M;
        setp.lt.u64 %p_bound_k, %rd_a_col, %rd_K;
        and.pred  %p_in_bounds, %p_bound_m, %p_bound_k;

        @%p_in_bounds {
            // A[row * K + col]
            mad.lo.u64 %rd_a_global_off, %rd_a_row, %rd_K, %rd_a_col;
            mul.lo.u64 %rd_a_global_off, %rd_a_global_off, 4;
            add.u64  %rd_a_global_off, %rd_a_global_off, %rd_a_ptr;
            ld.global.f32 %f_a, [%rd_a_global_off];
        };

        // Store to shared memory
        .reg .u64 %rd_smem_off;
        mad.lo.u64 %rd_smem_off, %tid.y, ";

/// Part 8 of the `symplex_matmul` kernel.
pub const MATMUL_8: &'static str = ", %tid.x;
        mul.lo.u64 %rd_smem_off, %rd_smem_off, 4;
        add.u64  %rd_smem_off, %rd_smem_off, %rd_smem_A;
        @%p_in_bounds st.shared.f32 [%rd_smem_off], %f_a;
    }

    // Load B tile from global to shared
    {
        .reg .u64 %rd_b_row, %rd_b_col;
        .reg .u64 %rd_b_global_off;

        mov.u64 %rd_b_row, %rd_k_offset;
        add.u64 %rd_b_row, %rd_b_row, %tid.y;
        mov.u64 %rd_b_col, %rd_col;
        add.u64 %rd_b_col, %rd_b_col, %tid.x;

        setp.lt.u64 %p_bound_k, %rd_b_row, %rd_K;
        setp.lt.u64 %p_bound_n, %rd_b_col, %rd_N;
        and.pred  %p_in_bounds, %p_bound_k, %p_bound_n;

        @%p_in_bounds {
            // B[row * N + col]
            mad.lo.u64 %rd_b_global_off, %rd_b_row, %rd_N, %rd_b_col;
            mul.lo.u64 %rd_b_global_off, %rd_b_global_off, 4;
            add.u64  %rd_b_global_off, %rd_b_global_off, %rd_b_ptr;
            ld.global.f32 %f_b, [%rd_b_global_off];
        };

        .reg .u64 %rd_smem_off_b;
        mad.lo.u64 %rd_smem_off_b, %tid.y, ";

/// Part 9 of the `symplex_matmul` kernel.
pub const MATMUL_9: &'static str = ", %tid.x;
        mul.lo.u64 %rd_smem_off_b, %rd_smem_off_b, 4;
        add.u64  %rd_smem_off_b, %rd_smem_off_b, %rd_smem_B;
        @%p_in_bounds st.shared.f32 [%rd_smem_off_b], %f_b;
    }

    bar.sync 0;

    // Compute partial dot product from shared memory
    {
        .reg .u64 %rd_kk;
        .reg .f32 %f_sa, %f_sb;
        .reg .u64 %rd_sa_off, %rd_sb_off;

        mov.u64 %rd_kk, 0;
    $INNER_LOOP:
        // Load A[tile_row][kk] from shared
        mad.lo.u64 %rd_sa_off, %tid.y, ";

/// Part 10 of the `symplex_matmul` kernel.
pub const MATMUL_10: &'static str = ", %rd_kk;
        mul.lo.u64 %rd_sa_off, %rd_sa_off, 4;
        add.u64  %rd_sa_off, %rd_sa_off, %rd_smem_A;
        ld.shared.f32 %f_sa, [%rd_sa_off];

        // Load B[kk][tile_col] from shared
        mad.lo.u64 %rd_sb_off, %rd_kk, ";

/// Part 11 of the `symplex_matmul` kernel.
pub const MATMUL_11: &'static str = ", %tid.x;
        mul.lo.u64 %rd_sb_off, %rd_sb_off, 4;
        add.u64  %rd_sb_off, %rd_sb_off, %rd_smem_B;
        ld.shared.f32 %f_sb, [%rd_sb_off];

        // Accumulate
        mad.f32 %f_sum, %f_sa, %f_sb, %f_sum;

        add.u64 %rd_kk, %rd_kk, 1;
        setp.lt.u64 %p_bound_k, %rd_kk, ";

/// Part 12 of the `symplex_matmul` kernel.
pub const MATMUL_12: &'static str = ";
        @%p_bound_k bra $INNER_LOOP;
    }

    bar.sync 0;

    // Advance K offset
    add.u64 %rd_k_offset, %rd_k_offset, ";

/// Part 13 of the `symplex_matmul` kernel.
pub const MATMUL_13: &'static str = ";
    setp.lt.u64 %p_bound_k, %rd_k_offset, %rd_K;
    @%p_bound_k bra $K_LOOP;

    // Store result to global C
    {
        .reg .u64 %rd_c_row, %rd_c_col;
        .reg .u64 %rd_c_global_off;

        mov.u64 %rd_c_row, %rd_row;
        add.u64 %rd_c_row, %rd_c_row, %tid.y;
        mov.u64 %rd_c_col, %rd_col;
        add.u64 %rd_c_col, %rd_c_col, %tid.x;

        setp.lt.u64 %p_bound_m, %rd_c_row, %rd_M;
        setp.lt.u64 %p_bound_n, %rd_c_col, %rd_N;
        and.pred  %p_in_bounds, %p_bound_m, %p_bound_n;

        @%p_in_bounds {
            mad.lo.u64 %rd_c_global_off, %rd_c_row, %rd_N, %rd_c_col;
            mul.lo.u64 %rd_c_global_off, %rd_c_global_off, 4;
            add.u64  %rd_c_global_off, %rd_c_global_off, %rd_c_ptr;
            st.global.f32 [%rd_c_global_off], %f_sum;
        };
    }

    ret;
}
";

/// Part 1 of the `symplex_fma` kernel.
pub const FMA_1: &'static str = ".entry symplex_fma(
    .param .u64 dst_ptr,
    .param .u64 a_ptr,
    .param .u64 b_ptr,
    .param .u64 c_ptr,
    .param .u64 dim_n
)
{
    .reg .u64 %rd_dst, %rd_a, %rd_b, %rd_c, %rd_n;
    .reg .u64 %rd_idx, %rd_tmp;
    .reg .f32 %f_a, %f_b, %f_c, %f_result;
    .reg .pred %p_in_bounds;

    ld.param.u64 %rd_dst, [dst_ptr];
    ld.param.u64 %rd_a,   [a_ptr];
    ld.param.u64 %rd_b,   [b_ptr];
    ld.param.u64 %rd_c,   [c_ptr];
    ld.param.u64 %rd_n,   [dim_n];

    mov.u64 %rd_idx, %tid.x;
    mov.u64 %rd_tmp, %ctaid.x;
    mad.lo.u64 %rd_idx, %rd_tmp, %ntid.x, %rd_idx;

    setp.lt.u64 %p_in_bounds, %rd_idx, %rd_n;
    @!%p_in_bounds bra $done;

    // Load a, b, c
    .reg .u64 %rd_off;
    mul.lo.u64 %rd_off, %rd_idx, 4;
    ld.global.f32 %f_a, [%rd_a + %rd_off];
    ld.global.f32 %f_b, [%rd_b + %rd_off];
    ld.global.f32 %f_c, [%rd_c + %rd_off];

    // FMA: result = a * b + c
    mad.f32 %f_result, %f_a, %f_b, %f_c;

    st.global.f32 [%rd_dst + %rd_off], %f_result;

$done:
    ret;
}
";

/// Part 1 of the `symplex_reduction` kernel.
pub const REDUCTION_1: &'static str = ".entry symplex_reduction(
    .param .u64 dst_ptr,
    .param .u64 src_ptr,
    .param .u64 dim_n
)
{
    .shared .align 128 .b8 smem[";

/// Part 2 of the `symplex_reduction` kernel.
pub const REDUCTION_2: &'static str = "];

    .reg .u64 %rd_dst, %rd_src, %rd_n;
    .reg .u64 %rd_idx, %rd_tmp;
    .reg .f32 %f_val, %f_other;
    .reg .u64 %rd_smem_base;
    .reg .pred %p_in_bounds;

    ld.param.u64 %rd_dst, [dst_ptr];
    ld.param.u64 %rd_src, [src_ptr];
    ld.param.u64 %rd_n,   [dim_n];

    // Global thread index
    mov.u64 %rd_idx, %tid.x;
    mov.u64 %rd_tmp, %ctaid.x;
    mad.lo.u64 %rd_idx, %rd_tmp, %ntid.x, %rd_idx;

    // Load value (or 0.0 for add, ±inf for min/max if out of bounds)
    setp.lt.u64 %p_in_bounds, %rd_idx, %rd_n;
    @%p_in_bounds {
        .reg .u64 %rd_off;
        mul.lo.u64 %rd_off, %rd_idx, 4;
        ld.global.f32 %f_val, [%rd_src + %rd_off];
    };
    @!%p_in_bounds {
        mov.f32 %f_val, ";

/// Part 3 of the `symplex_reduction` kernel.
pub const REDUCTION_3: &'static str = ";
    };

    // Store to shared memory
    mov.u64 %rd_smem_base, smem;
    .reg .u64 %rd_soff;
    mov.u64 %rd_soff, %tid.x;
    mul.lo.u64 %rd_soff, %rd_soff, 4;
    add.u64  %rd_soff, %rd_soff, %rd_smem_base;
    st.shared.f32 [%rd_soff], %f_val;
    bar.sync 0;

    // Sequential reduction in shared memory
    {
        .reg .u64 %rd_stride;
        .reg .pred %p_active;
        mov.u64 %rd_stride, 1;

    $REDUCE_LOOP:
        shl.u64 %rd_stride, %rd_stride, 1;
        setp.lt.u64 %p_active, %rd_stride, ";

/// Part 4 of the `symplex_reduction` kernel.
pub const REDUCTION_4: &'static str = ";
        @!%p_active bra $REDUCE_DONE;

        // If tid.x + stride < block_size, reduce
        .reg .u64 %rd_other_idx;
        add.u64 %rd_other_idx, %tid.x, %rd_stride;
        setp.lt.u64 %p_active, %rd_other_idx, ";

/// Part 5 of the `symplex_reduction` kernel.
pub const REDUCTION_5: &'static str = ";
        @%p_active {
            .reg .u64 %rd_soff2;
            mul.lo.u64 %rd_soff2, %rd_other_idx, 4;
            add.u64  %rd_soff2, %rd_soff2, %rd_smem_base;
            ld.shared.f32 %f_other, [%rd_soff2];
            ";

/// Part 6 of the `symplex_reduction` kernel.
pub const REDUCTION_6: &'static str = " %f_val, %f_val, %f_other;
            st.shared.f32 [%rd_soff], %f_val;
        };
        bar.sync 0;
        bra $REDUCE_LOOP;

    $REDUCE_DONE:
    }

    // Thread 0 writes result
    setp.eq.u64 %p_active, %tid.x, 0;
    @%p_active {
        st.global.f32 [%rd_dst], %f_val;
    };

    ret;
}
";

/// Part 1 of the `symplex_stencil5` kernel.
pub const STENCIL_1: &'static str = ".entry symplex_stencil5(
    .param .u64 src_ptr,
    .param .u64 dst_ptr,
    .param .u64 dim_rows,
    .param .u64 dim_cols
)
{
    .reg .u64 %rd_src, %rd_dst, %rd_rows, %rd_cols;
    .reg .u64 %rd_i, %rd_j, %rd_tmp;
    .reg .u64 %rd_off_center, %rd_off_north, %rd_off_south, %rd_off_west, %rd_off_east;
    .reg .u64 %rd_out_off;
    .reg .f32 %f_center, %f_north, %f_south, %f_west, %f_east;
    .reg .f32 %f_sum, %f_result;
    .reg .f32 %f_weight;
    .reg .pred %p_valid_i, %p_valid_j, %p_in_bounds;

    // Load parameters
    ld.param.u64 %rd_src,  [src_ptr];
    ld.param.u64 %rd_dst,  [dst_ptr];
    ld.param.u64 %rd_rows, [dim_rows];
    ld.param.u64 %rd_cols, [dim_cols];

    // Compute 2D thread index
    // i = blockIdx.y * blockDim.y + threadIdx.y + 1
    mov.u64 %rd_i, %ctaid.y;
    mul.lo.u64 %rd_i, %rd_i, %ntid.y;
    add.u64 %rd_i, %rd_i, %tid.y;
    add.u64 %rd_i, %rd_i, 1;

    // j = blockIdx.x * blockDim.x + threadIdx.x + 1
    mov.u64 %rd_j, %ctaid.x;
    mul.lo.u64 %rd_j, %rd_j, %ntid.x;
    add.u64 %rd_j, %rd_j, %tid.x;
    add.u64 %rd_j, %rd_j, 1;

    // Bounds check: i < rows-1 AND j < cols-1
    // rows-1 is computed as rows - 1
    {
        .reg .u64 %rd_row_limit, %rd_col_limit;
        mov.u64 %rd_row_limit, %rd_rows;
        sub.u64 %rd_row_limit, %rd_row_limit, 1;
        setp.lt.u64 %p_valid_i, %rd_i, %rd_row_limit;

        mov.u64 %rd_col_limit, %rd_cols;
        sub.u64 %rd_col_limit, %rd_col_limit, 1;
        setp.lt.u64 %p_valid_j, %rd_j, %rd_col_limit;

        and.pred %p_in_bounds, %p_valid_i, %p_valid_j;
    }
    @!%p_in_bounds bra $done;

    // Load center = src[i*cols + j]
    mad.lo.u64 %rd_off_center, %rd_i, %rd_cols, %rd_j;
    mul.lo.u64 %rd_off_center, %rd_off_center, 4;
    add.u64  %rd_off_center, %rd_off_center, %rd_src;
    ld.global.f32 %f_center, [%rd_off_center];

    // Load north = src[(i-1)*cols + j]
    {
        .reg .u64 %rd_i_minus_1;
        mov.u64 %rd_i_minus_1, %rd_i;
        sub.u64 %rd_i_minus_1, %rd_i_minus_1, 1;
        mad.lo.u64 %rd_off_north, %rd_i_minus_1, %rd_cols, %rd_j;
        mul.lo.u64 %rd_off_north, %rd_off_north, 4;
        add.u64  %rd_off_north, %rd_off_north, %rd_src;
        ld.global.f32 %f_north, [%rd_off_north];
    }

    // Load south = src[(i+1)*cols + j]
    {
        .reg .u64 %rd_i_plus_1;
        mov.u64 %rd_i_plus_1, %rd_i;
        add.u64 %rd_i_plus_1, %rd_i_plus_1, 1;
        mad.lo.u64 %rd_off_south, %rd_i_plus_1, %rd_cols, %rd_j;
        mul.lo.u64 %rd_off_south, %rd_off_south, 4;
        add.u64  %rd_off_south, %rd_off_south, %rd_src;
        ld.global.f32 %f_south, [%rd_off_south];
    }

    // Load west = src[i*cols + j - 1]
    {
        .reg .u64 %rd_j_minus_1;
        mov.u64 %rd_j_minus_1, %rd_j;
        sub.u64 %rd_j_minus_1, %rd_j_minus_1, 1;
        mad.lo.u64 %rd_off_west, %rd_i, %rd_cols, %rd_j_minus_1;
        mul.lo.u64 %rd_off_west, %rd_off_west, 4;
        add.u64  %rd_off_west, %rd_off_west, %rd_src;
        ld.global.f32 %f_west, [%rd_off_west];
    }

    // Load east = src[i*cols + j + 1]
    {
        .reg .u64 %rd_j_plus_1;
        mov.u64 %rd_j_plus_1, %rd_j;
        add.u64 %rd_j_plus_1, %rd_j_plus_1, 1;
        mad.lo.u64 %rd_off_east, %rd_i, %rd_cols, %rd_j_plus_1;
        mul.lo.u64 %rd_off_east, %rd_off_east, 4;
        add.u64  %rd_off_east, %rd_off_east, %rd_src;
        ld.global.f32 %f_east, [%rd_off_east];
    }

    // Compute sum = center + north + south + west + east
    add.f32 %f_sum, %f_center, %f_north;
    add.f32 %f_sum, %f_sum, %f_south;
    add.f32 %f_sum, %f_sum, %f_west;
    add.f32 %f_sum, %f_sum, %f_east;

    // result = 0.2 * sum  using mad.f32: result = sum * 0.2 + 0.0
    mov.f32 %f_weight, 0f3E4CCCCD;  // 0.2 in IEEE 754
    mad.f32 %f_result, %f_sum, %f_weight, 0.0;

    // Store dst[(i-1)*(cols-2) + (j-1)]
    {
        .reg .u64 %rd_out_i, %rd_out_j, %rd_out_cols;
        mov.u64 %rd_out_i, %rd_i;
        sub.u64 %rd_out_i, %rd_out_i, 1;
        mov.u64 %rd_out_cols, %rd_cols;
        sub.u64 %rd_out_cols, %rd_out_cols, 2;
        mov.u64 %rd_out_j, %rd_j;
        sub.u64 %rd_out_j, %rd_out_j, 1;
        mad.lo.u64 %rd_out_off, %rd_out_i, %rd_out_cols, %rd_out_j;
        mul.lo.u64 %rd_out_off, %rd_out_off, 4;
        add.u64  %rd_out_off, %rd_out_off, %rd_dst;
        st.global.f32 [%rd_out_off], %f_result;
    }

$done:
    ret;
}
";

/// Part 1 of the `symplex_conv2d` kernel.
pub const CONV2D_1: &'static str = ".entry symplex_conv2d(
    .param .u64 input_ptr,
    .param .u64 kernel_ptr,
    .param .u64 output_ptr,
    .param .u64 dim_batch,
    .param .u64 dim_oc,
    .param .u64 dim_ic,
    .param .u64 dim_oh,
    .param .u64 dim_ow,
    .param .u64 dim_kh,
    .param .u64 dim_kw,
    .param .u64 dim_stride,
    .param .u64 dim_pad
)
{
    .reg .u64 %rd_input, %rd_kernel, %rd_output;
    .reg .u64 %rd_batch, %rd_oc, %rd_ic;
    .reg .u64 %rd_oh, %rd_ow, %rd_kh, %rd_kw;
    .reg .u64 %rd_stride, %rd_pad;
    .reg .u64 %rd_out_idx, %rd_k_idx;
    .reg .f32 %f_sum, %f_input, %f_weight;
    .reg .u64 %rd_tmp;
    .reg .pred %p_valid;

    // Load parameters
    ld.param.u64 %rd_input,  [input_ptr];
    ld.param.u64 %rd_kernel, [kernel_ptr];
    ld.param.u64 %rd_output, [output_ptr];
    ld.param.u64 %rd_batch,  [dim_batch];
    ld.param.u64 %rd_oc,     [dim_oc];
    ld.param.u64 %rd_ic,     [dim_ic];
    ld.param.u64 %rd_oh,     [dim_oh];
    ld.param.u64 %rd_ow,     [dim_ow];
    ld.param.u64 %rd_kh,     [dim_kh];
    ld.param.u64 %rd_kw,     [dim_kw];
    ld.param.u64 %rd_stride, [dim_stride];
    ld.param.u64 %rd_pad,    [dim_pad];

    // Each thread computes one output pixel
    mov.u64 %rd_out_idx, %tid.x;
    mov.u64 %rd_tmp,     %ctaid.x;
    mad.lo.u64 %rd_out_idx, %rd_tmp, %ntid.x, %rd_out_idx;

    // Bounds check
    setp.lt.u64 %p_valid, %rd_out_idx, ";

/// Part 2 of the `symplex_conv2d` kernel.
pub const CONV2D_2: &'static str = ";
    @!%p_valid bra $done;

    mov.f32 %f_sum, 0.0;

    // Inner loop over K = ic * kh * kw
    mov.u64 %rd_k_idx, 0;
$CONV_K_LOOP:
    // Decompose k_idx into (ic_idx, kh_idx, kw_idx)
    // This is a simplified sequential reduction pattern
    // Each thread gathers one input element and one weight element

    // Compute input offset based on im2col mapping
    // input[batch, ic_idx, oh_idx * stride + kh_idx - pad, ow_idx * stride + kw_idx - pad]
    // Weight offset: kernel[oc_idx, ic_idx, kh_idx, kw_idx]
    // (simplified — full implementation would decompose the indices)

    add.u64 %rd_k_idx, %rd_k_idx, 1;
    setp.lt.u64 %p_valid, %rd_k_idx, ";

/// Part 3 of the `symplex_conv2d` kernel.
pub const CONV2D_3: &'static str = ";
    @%p_valid bra $CONV_K_LOOP;

    // Store output
    {
        .reg .u64 %rd_out_off;
        mul.lo.u64 %rd_out_off, %rd_out_idx, 4;
        add.u64  %rd_out_off, %rd_out_off, %rd_output;
        st.global.f32 [%rd_out_off], %f_sum;
    }

$done:
    ret;
}
";

} // verus!
