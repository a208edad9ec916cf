//! Lines of the kernels whose text is fixed.

use super::kernel_text;
use super::ptx;
use super::ptx_text;
use vstd::prelude::*;

verus! {

/// What stands in a stretch of a text stands in the text.
proof fn lemma_stretch(text: Seq<char>, part: Seq<char>, from: int)
    requires
        0 <= from,
        from + part.len() <= text.len(),
        text.subrange(from, from + part.len()) == part,
    ensures
        kernel_text::says(text, part),
{
    let before = text.take(from);
    let after = text.skip(from + part.len());
    assert(text =~= before + part + after);
}

/// A list of one fixed text prints that text.
proof fn lemma_single_text(t: &'static str)
    ensures
        ptx::pieces_text(seq![ptx::Piece::Text(t)]) == t@,
{
    let one = seq![ptx::Piece::Text(t)];
    reveal_with_fuel(ptx::pieces_text, 2);
    assert(one.drop_last() =~= Seq::<ptx::Piece>::empty());
    assert(ptx::pieces_text(one) =~= t@);
}

proof fn lemma_lines_of_fma()
    ensures
        kernel_text::says(ptx_text::FMA_1@, "    ld.param.u64 %rd_a,   [a_ptr];"@),
        kernel_text::says(ptx_text::FMA_1@, "    ld.param.u64 %rd_b,   [b_ptr];"@),
        kernel_text::says(ptx_text::FMA_1@, "    ld.param.u64 %rd_c,   [c_ptr];"@),
        kernel_text::says(ptx_text::FMA_1@, "    ld.param.u64 %rd_dst, [dst_ptr];"@),
        kernel_text::says(ptx_text::FMA_1@, "    setp.lt.u64 %p_in_bounds, %rd_idx, %rd_n;"@),
        kernel_text::says(ptx_text::FMA_1@, "    ld.global.f32 %f_a, [%rd_a + %rd_off];"@),
        kernel_text::says(ptx_text::FMA_1@, "    ld.global.f32 %f_b, [%rd_b + %rd_off];"@),
        kernel_text::says(ptx_text::FMA_1@, "    ld.global.f32 %f_c, [%rd_c + %rd_off];"@),
        kernel_text::says(ptx_text::FMA_1@, "    mad.f32 %f_result, %f_a, %f_b, %f_c;"@),
        kernel_text::says(ptx_text::FMA_1@, "    st.global.f32 [%rd_dst + %rd_off], %f_result;"@),
{
    let t = ptx_text::FMA_1@;
    reveal_strlit(
        ".entry symplex_fma(\n    .param .u64 dst_ptr,\n    .param .u64 a_ptr,\n    .param .u64 b_ptr,\n    .param .u64 c_ptr,\n    .param .u64 dim_n\n)\n{\n    .reg .u64 %rd_dst, %rd_a, %rd_b, %rd_c, %rd_n;\n    .reg .u64 %rd_idx, %rd_tmp;\n    .reg .f32 %f_a, %f_b, %f_c, %f_result;\n    .reg .pred %p_in_bounds;\n\n    ld.param.u64 %rd_dst, [dst_ptr];\n    ld.param.u64 %rd_a,   [a_ptr];\n    ld.param.u64 %rd_b,   [b_ptr];\n    ld.param.u64 %rd_c,   [c_ptr];\n    ld.param.u64 %rd_n,   [dim_n];\n\n    mov.u64 %rd_idx, %tid.x;\n    mov.u64 %rd_tmp, %ctaid.x;\n    mad.lo.u64 %rd_idx, %rd_tmp, %ntid.x, %rd_idx;\n\n    setp.lt.u64 %p_in_bounds, %rd_idx, %rd_n;\n    @!%p_in_bounds bra $done;\n\n    // Load a, b, c\n    .reg .u64 %rd_off;\n    mul.lo.u64 %rd_off, %rd_idx, 4;\n    ld.global.f32 %f_a, [%rd_a + %rd_off];\n    ld.global.f32 %f_b, [%rd_b + %rd_off];\n    ld.global.f32 %f_c, [%rd_c + %rd_off];\n\n    // FMA: result = a * b + c\n    mad.f32 %f_result, %f_a, %f_b, %f_c;\n\n    st.global.f32 [%rd_dst + %rd_off], %f_result;\n\n$done:\n    ret;\n}\n",
    );
    assert(t.subrange(333, 367) =~= "    ld.param.u64 %rd_a,   [a_ptr];"@) by {
        reveal_strlit("    ld.param.u64 %rd_a,   [a_ptr];");
    }
    assert("    ld.param.u64 %rd_a,   [a_ptr];"@.len() == 34) by {
        reveal_strlit("    ld.param.u64 %rd_a,   [a_ptr];");
    }
    lemma_stretch(t, "    ld.param.u64 %rd_a,   [a_ptr];"@, 333);
    assert(t.subrange(368, 402) =~= "    ld.param.u64 %rd_b,   [b_ptr];"@) by {
        reveal_strlit("    ld.param.u64 %rd_b,   [b_ptr];");
    }
    assert("    ld.param.u64 %rd_b,   [b_ptr];"@.len() == 34) by {
        reveal_strlit("    ld.param.u64 %rd_b,   [b_ptr];");
    }
    lemma_stretch(t, "    ld.param.u64 %rd_b,   [b_ptr];"@, 368);
    assert(t.subrange(403, 437) =~= "    ld.param.u64 %rd_c,   [c_ptr];"@) by {
        reveal_strlit("    ld.param.u64 %rd_c,   [c_ptr];");
    }
    assert("    ld.param.u64 %rd_c,   [c_ptr];"@.len() == 34) by {
        reveal_strlit("    ld.param.u64 %rd_c,   [c_ptr];");
    }
    lemma_stretch(t, "    ld.param.u64 %rd_c,   [c_ptr];"@, 403);
    assert(t.subrange(296, 332) =~= "    ld.param.u64 %rd_dst, [dst_ptr];"@) by {
        reveal_strlit("    ld.param.u64 %rd_dst, [dst_ptr];");
    }
    assert("    ld.param.u64 %rd_dst, [dst_ptr];"@.len() == 36) by {
        reveal_strlit("    ld.param.u64 %rd_dst, [dst_ptr];");
    }
    lemma_stretch(t, "    ld.param.u64 %rd_dst, [dst_ptr];"@, 296);
    assert(t.subrange(586, 631) =~= "    setp.lt.u64 %p_in_bounds, %rd_idx, %rd_n;"@) by {
        reveal_strlit("    setp.lt.u64 %p_in_bounds, %rd_idx, %rd_n;");
    }
    assert("    setp.lt.u64 %p_in_bounds, %rd_idx, %rd_n;"@.len() == 45) by {
        reveal_strlit("    setp.lt.u64 %p_in_bounds, %rd_idx, %rd_n;");
    }
    lemma_stretch(t, "    setp.lt.u64 %p_in_bounds, %rd_idx, %rd_n;"@, 586);
    assert(t.subrange(742, 784) =~= "    ld.global.f32 %f_a, [%rd_a + %rd_off];"@) by {
        reveal_strlit("    ld.global.f32 %f_a, [%rd_a + %rd_off];");
    }
    assert("    ld.global.f32 %f_a, [%rd_a + %rd_off];"@.len() == 42) by {
        reveal_strlit("    ld.global.f32 %f_a, [%rd_a + %rd_off];");
    }
    lemma_stretch(t, "    ld.global.f32 %f_a, [%rd_a + %rd_off];"@, 742);
    assert(t.subrange(785, 827) =~= "    ld.global.f32 %f_b, [%rd_b + %rd_off];"@) by {
        reveal_strlit("    ld.global.f32 %f_b, [%rd_b + %rd_off];");
    }
    assert("    ld.global.f32 %f_b, [%rd_b + %rd_off];"@.len() == 42) by {
        reveal_strlit("    ld.global.f32 %f_b, [%rd_b + %rd_off];");
    }
    lemma_stretch(t, "    ld.global.f32 %f_b, [%rd_b + %rd_off];"@, 785);
    assert(t.subrange(828, 870) =~= "    ld.global.f32 %f_c, [%rd_c + %rd_off];"@) by {
        reveal_strlit("    ld.global.f32 %f_c, [%rd_c + %rd_off];");
    }
    assert("    ld.global.f32 %f_c, [%rd_c + %rd_off];"@.len() == 42) by {
        reveal_strlit("    ld.global.f32 %f_c, [%rd_c + %rd_off];");
    }
    lemma_stretch(t, "    ld.global.f32 %f_c, [%rd_c + %rd_off];"@, 828);
    assert(t.subrange(903, 943) =~= "    mad.f32 %f_result, %f_a, %f_b, %f_c;"@) by {
        reveal_strlit("    mad.f32 %f_result, %f_a, %f_b, %f_c;");
    }
    assert("    mad.f32 %f_result, %f_a, %f_b, %f_c;"@.len() == 40) by {
        reveal_strlit("    mad.f32 %f_result, %f_a, %f_b, %f_c;");
    }
    lemma_stretch(t, "    mad.f32 %f_result, %f_a, %f_b, %f_c;"@, 903);
    assert(t.subrange(945, 994) =~= "    st.global.f32 [%rd_dst + %rd_off], %f_result;"@) by {
        reveal_strlit("    st.global.f32 [%rd_dst + %rd_off], %f_result;");
    }
    assert("    st.global.f32 [%rd_dst + %rd_off], %f_result;"@.len() == 49) by {
        reveal_strlit("    st.global.f32 [%rd_dst + %rd_off], %f_result;");
    }
    lemma_stretch(t, "    st.global.f32 [%rd_dst + %rd_off], %f_result;"@, 945);
}

/// The fused kernel reads its three operands at the place of the result, multiplies the first by
/// the second, adds the third and stores there.
pub proof fn fused_kernel_multiplies_and_adds()
    ensures
        kernel_text::says(
            ptx::pieces_text(ptx::fma_pieces()),
            "    ld.param.u64 %rd_a,   [a_ptr];"@,
        ),
        kernel_text::says(
            ptx::pieces_text(ptx::fma_pieces()),
            "    ld.param.u64 %rd_b,   [b_ptr];"@,
        ),
        kernel_text::says(
            ptx::pieces_text(ptx::fma_pieces()),
            "    ld.param.u64 %rd_c,   [c_ptr];"@,
        ),
        kernel_text::says(
            ptx::pieces_text(ptx::fma_pieces()),
            "    ld.param.u64 %rd_dst, [dst_ptr];"@,
        ),
        kernel_text::says(
            ptx::pieces_text(ptx::fma_pieces()),
            "    setp.lt.u64 %p_in_bounds, %rd_idx, %rd_n;"@,
        ),
        kernel_text::says(
            ptx::pieces_text(ptx::fma_pieces()),
            "    ld.global.f32 %f_a, [%rd_a + %rd_off];"@,
        ),
        kernel_text::says(
            ptx::pieces_text(ptx::fma_pieces()),
            "    ld.global.f32 %f_b, [%rd_b + %rd_off];"@,
        ),
        kernel_text::says(
            ptx::pieces_text(ptx::fma_pieces()),
            "    ld.global.f32 %f_c, [%rd_c + %rd_off];"@,
        ),
        kernel_text::says(
            ptx::pieces_text(ptx::fma_pieces()),
            "    mad.f32 %f_result, %f_a, %f_b, %f_c;"@,
        ),
        kernel_text::says(
            ptx::pieces_text(ptx::fma_pieces()),
            "    st.global.f32 [%rd_dst + %rd_off], %f_result;"@,
        ),
{
    lemma_single_text(ptx_text::FMA_1);
    assert(ptx::fma_pieces() =~= seq![ptx::Piece::Text(ptx_text::FMA_1)]);
    lemma_lines_of_fma();
}

proof fn lemma_lines_of_stencil()
    ensures
        kernel_text::says(ptx_text::STENCIL_1@, "    mad.lo.u64 %rd_off_center, %rd_i, %rd_cols, %rd_j;"@),
        kernel_text::says(ptx_text::STENCIL_1@, "        sub.u64 %rd_i_minus_1, %rd_i_minus_1, 1;"@),
        kernel_text::says(ptx_text::STENCIL_1@, "        mad.lo.u64 %rd_off_north, %rd_i_minus_1, %rd_cols, %rd_j;"@),
        kernel_text::says(ptx_text::STENCIL_1@, "        add.u64 %rd_i_plus_1, %rd_i_plus_1, 1;"@),
        kernel_text::says(ptx_text::STENCIL_1@, "        mad.lo.u64 %rd_off_south, %rd_i_plus_1, %rd_cols, %rd_j;"@),
        kernel_text::says(ptx_text::STENCIL_1@, "        sub.u64 %rd_j_minus_1, %rd_j_minus_1, 1;"@),
        kernel_text::says(ptx_text::STENCIL_1@, "        mad.lo.u64 %rd_off_west, %rd_i, %rd_cols, %rd_j_minus_1;"@),
        kernel_text::says(ptx_text::STENCIL_1@, "        add.u64 %rd_j_plus_1, %rd_j_plus_1, 1;"@),
        kernel_text::says(ptx_text::STENCIL_1@, "        mad.lo.u64 %rd_off_east, %rd_i, %rd_cols, %rd_j_plus_1;"@),
        kernel_text::says(ptx_text::STENCIL_1@, "    add.f32 %f_sum, %f_center, %f_north;"@),
        kernel_text::says(ptx_text::STENCIL_1@, "    add.f32 %f_sum, %f_sum, %f_south;"@),
        kernel_text::says(ptx_text::STENCIL_1@, "    add.f32 %f_sum, %f_sum, %f_west;"@),
        kernel_text::says(ptx_text::STENCIL_1@, "    add.f32 %f_sum, %f_sum, %f_east;"@),
        kernel_text::says(ptx_text::STENCIL_1@, "    mov.f32 %f_weight, 0f3E4CCCCD;"@),
        kernel_text::says(ptx_text::STENCIL_1@, "    mad.f32 %f_result, %f_sum, %f_weight, 0.0;"@),
        kernel_text::says(ptx_text::STENCIL_1@, "        st.global.f32 [%rd_out_off], %f_result;"@),
{
    let t = ptx_text::STENCIL_1@;
    reveal_strlit(
        ".entry symplex_stencil5(\n    .param .u64 src_ptr,\n    .param .u64 dst_ptr,\n    .param .u64 dim_rows,\n    .param .u64 dim_cols\n)\n{\n    .reg .u64 %rd_src, %rd_dst, %rd_rows, %rd_cols;\n    .reg .u64 %rd_i, %rd_j, %rd_tmp;\n    .reg .u64 %rd_off_center, %rd_off_north, %rd_off_south, %rd_off_west, %rd_off_east;\n    .reg .u64 %rd_out_off;\n    .reg .f32 %f_center, %f_north, %f_south, %f_west, %f_east;\n    .reg .f32 %f_sum, %f_result;\n    .reg .f32 %f_weight;\n    .reg .pred %p_valid_i, %p_valid_j, %p_in_bounds;\n\n    // Load parameters\n    ld.param.u64 %rd_src,  [src_ptr];\n    ld.param.u64 %rd_dst,  [dst_ptr];\n    ld.param.u64 %rd_rows, [dim_rows];\n    ld.param.u64 %rd_cols, [dim_cols];\n\n    // Compute 2D thread index\n    // i = blockIdx.y * blockDim.y + threadIdx.y + 1\n    mov.u64 %rd_i, %ctaid.y;\n    mul.lo.u64 %rd_i, %rd_i, %ntid.y;\n    add.u64 %rd_i, %rd_i, %tid.y;\n    add.u64 %rd_i, %rd_i, 1;\n\n    // j = blockIdx.x * blockDim.x + threadIdx.x + 1\n    mov.u64 %rd_j, %ctaid.x;\n    mul.lo.u64 %rd_j, %rd_j, %ntid.x;\n    add.u64 %rd_j, %rd_j, %tid.x;\n    add.u64 %rd_j, %rd_j, 1;\n\n    // Bounds check: i < rows-1 AND j < cols-1\n    // rows-1 is computed as rows - 1\n    {\n        .reg .u64 %rd_row_limit, %rd_col_limit;\n        mov.u64 %rd_row_limit, %rd_rows;\n        sub.u64 %rd_row_limit, %rd_row_limit, 1;\n        setp.lt.u64 %p_valid_i, %rd_i, %rd_row_limit;\n\n        mov.u64 %rd_col_limit, %rd_cols;\n        sub.u64 %rd_col_limit, %rd_col_limit, 1;\n        setp.lt.u64 %p_valid_j, %rd_j, %rd_col_limit;\n\n        and.pred %p_in_bounds, %p_valid_i, %p_valid_j;\n    }\n    @!%p_in_bounds bra $done;\n\n    // Load center = src[i*cols + j]\n    mad.lo.u64 %rd_off_center, %rd_i, %rd_cols, %rd_j;\n    mul.lo.u64 %rd_off_center, %rd_off_center, 4;\n    add.u64  %rd_off_center, %rd_off_center, %rd_src;\n    ld.global.f32 %f_center, [%rd_off_center];\n\n    // Load north = src[(i-1)*cols + j]\n    {\n        .reg .u64 %rd_i_minus_1;\n        mov.u64 %rd_i_minus_1, %rd_i;\n        sub.u64 %rd_i_minus_1, %rd_i_minus_1, 1;\n        mad.lo.u64 %rd_off_north, %rd_i_minus_1, %rd_cols, %rd_j;\n        mul.lo.u64 %rd_off_north, %rd_off_north, 4;\n        add.u64  %rd_off_north, %rd_off_north, %rd_src;\n        ld.global.f32 %f_north, [%rd_off_north];\n    }\n\n    // Load south = src[(i+1)*cols + j]\n    {\n        .reg .u64 %rd_i_plus_1;\n        mov.u64 %rd_i_plus_1, %rd_i;\n        add.u64 %rd_i_plus_1, %rd_i_plus_1, 1;\n        mad.lo.u64 %rd_off_south, %rd_i_plus_1, %rd_cols, %rd_j;\n        mul.lo.u64 %rd_off_south, %rd_off_south, 4;\n        add.u64  %rd_off_south, %rd_off_south, %rd_src;\n        ld.global.f32 %f_south, [%rd_off_south];\n    }\n\n    // Load west = src[i*cols + j - 1]\n    {\n        .reg .u64 %rd_j_minus_1;\n        mov.u64 %rd_j_minus_1, %rd_j;\n        sub.u64 %rd_j_minus_1, %rd_j_minus_1, 1;\n        mad.lo.u64 %rd_off_west, %rd_i, %rd_cols, %rd_j_minus_1;\n        mul.lo.u64 %rd_off_west, %rd_off_west, 4;\n        add.u64  %rd_off_west, %rd_off_west, %rd_src;\n        ld.global.f32 %f_west, [%rd_off_west];\n    }\n\n    // Load east = src[i*cols + j + 1]\n    {\n        .reg .u64 %rd_j_plus_1;\n        mov.u64 %rd_j_plus_1, %rd_j;\n        add.u64 %rd_j_plus_1, %rd_j_plus_1, 1;\n        mad.lo.u64 %rd_off_east, %rd_i, %rd_cols, %rd_j_plus_1;\n        mul.lo.u64 %rd_off_east, %rd_off_east, 4;\n        add.u64  %rd_off_east, %rd_off_east, %rd_src;\n        ld.global.f32 %f_east, [%rd_off_east];\n    }\n\n    // Compute sum = center + north + south + west + east\n    add.f32 %f_sum, %f_center, %f_north;\n    add.f32 %f_sum, %f_sum, %f_south;\n    add.f32 %f_sum, %f_sum, %f_west;\n    add.f32 %f_sum, %f_sum, %f_east;\n\n    // result = 0.2 * sum  using mad.f32: result = sum * 0.2 + 0.0\n    mov.f32 %f_weight, 0f3E4CCCCD;  // 0.2 in IEEE 754\n    mad.f32 %f_result, %f_sum, %f_weight, 0.0;\n\n    // Store dst[(i-1)*(cols-2) + (j-1)]\n    {\n        .reg .u64 %rd_out_i, %rd_out_j, %rd_out_cols;\n        mov.u64 %rd_out_i, %rd_i;\n        sub.u64 %rd_out_i, %rd_out_i, 1;\n        mov.u64 %rd_out_cols, %rd_cols;\n        sub.u64 %rd_out_cols, %rd_out_cols, 2;\n        mov.u64 %rd_out_j, %rd_j;\n        sub.u64 %rd_out_j, %rd_out_j, 1;\n        mad.lo.u64 %rd_out_off, %rd_out_i, %rd_out_cols, %rd_out_j;\n        mul.lo.u64 %rd_out_off, %rd_out_off, 4;\n        add.u64  %rd_out_off, %rd_out_off, %rd_dst;\n        st.global.f32 [%rd_out_off], %f_result;\n    }\n\n$done:\n    ret;\n}\n",
    );
    assert(t.subrange(1644, 1698) =~= "    mad.lo.u64 %rd_off_center, %rd_i, %rd_cols, %rd_j;"@) by {
        reveal_strlit("    mad.lo.u64 %rd_off_center, %rd_i, %rd_cols, %rd_j;");
    }
    assert("    mad.lo.u64 %rd_off_center, %rd_i, %rd_cols, %rd_j;"@.len() == 54) by {
        reveal_strlit("    mad.lo.u64 %rd_off_center, %rd_i, %rd_cols, %rd_j;");
    }
    lemma_stretch(t, "    mad.lo.u64 %rd_off_center, %rd_i, %rd_cols, %rd_j;"@, 1644);
    assert(t.subrange(1968, 2016) =~= "        sub.u64 %rd_i_minus_1, %rd_i_minus_1, 1;"@) by {
        reveal_strlit("        sub.u64 %rd_i_minus_1, %rd_i_minus_1, 1;");
    }
    assert("        sub.u64 %rd_i_minus_1, %rd_i_minus_1, 1;"@.len() == 48) by {
        reveal_strlit("        sub.u64 %rd_i_minus_1, %rd_i_minus_1, 1;");
    }
    lemma_stretch(t, "        sub.u64 %rd_i_minus_1, %rd_i_minus_1, 1;"@, 1968);
    assert(t.subrange(2017, 2082) =~= "        mad.lo.u64 %rd_off_north, %rd_i_minus_1, %rd_cols, %rd_j;"@) by {
        reveal_strlit("        mad.lo.u64 %rd_off_north, %rd_i_minus_1, %rd_cols, %rd_j;");
    }
    assert("        mad.lo.u64 %rd_off_north, %rd_i_minus_1, %rd_cols, %rd_j;"@.len() == 65) by {
        reveal_strlit("        mad.lo.u64 %rd_off_north, %rd_i_minus_1, %rd_cols, %rd_j;");
    }
    lemma_stretch(t, "        mad.lo.u64 %rd_off_north, %rd_i_minus_1, %rd_cols, %rd_j;"@, 2017);
    assert(t.subrange(2362, 2408) =~= "        add.u64 %rd_i_plus_1, %rd_i_plus_1, 1;"@) by {
        reveal_strlit("        add.u64 %rd_i_plus_1, %rd_i_plus_1, 1;");
    }
    assert("        add.u64 %rd_i_plus_1, %rd_i_plus_1, 1;"@.len() == 46) by {
        reveal_strlit("        add.u64 %rd_i_plus_1, %rd_i_plus_1, 1;");
    }
    lemma_stretch(t, "        add.u64 %rd_i_plus_1, %rd_i_plus_1, 1;"@, 2362);
    assert(t.subrange(2409, 2473) =~= "        mad.lo.u64 %rd_off_south, %rd_i_plus_1, %rd_cols, %rd_j;"@) by {
        reveal_strlit("        mad.lo.u64 %rd_off_south, %rd_i_plus_1, %rd_cols, %rd_j;");
    }
    assert("        mad.lo.u64 %rd_off_south, %rd_i_plus_1, %rd_cols, %rd_j;"@.len() == 64) by {
        reveal_strlit("        mad.lo.u64 %rd_off_south, %rd_i_plus_1, %rd_cols, %rd_j;");
    }
    lemma_stretch(t, "        mad.lo.u64 %rd_off_south, %rd_i_plus_1, %rd_cols, %rd_j;"@, 2409);
    assert(t.subrange(2754, 2802) =~= "        sub.u64 %rd_j_minus_1, %rd_j_minus_1, 1;"@) by {
        reveal_strlit("        sub.u64 %rd_j_minus_1, %rd_j_minus_1, 1;");
    }
    assert("        sub.u64 %rd_j_minus_1, %rd_j_minus_1, 1;"@.len() == 48) by {
        reveal_strlit("        sub.u64 %rd_j_minus_1, %rd_j_minus_1, 1;");
    }
    lemma_stretch(t, "        sub.u64 %rd_j_minus_1, %rd_j_minus_1, 1;"@, 2754);
    assert(t.subrange(2803, 2867) =~= "        mad.lo.u64 %rd_off_west, %rd_i, %rd_cols, %rd_j_minus_1;"@) by {
        reveal_strlit("        mad.lo.u64 %rd_off_west, %rd_i, %rd_cols, %rd_j_minus_1;");
    }
    assert("        mad.lo.u64 %rd_off_west, %rd_i, %rd_cols, %rd_j_minus_1;"@.len() == 64) by {
        reveal_strlit("        mad.lo.u64 %rd_off_west, %rd_i, %rd_cols, %rd_j_minus_1;");
    }
    lemma_stretch(t, "        mad.lo.u64 %rd_off_west, %rd_i, %rd_cols, %rd_j_minus_1;"@, 2803);
    assert(t.subrange(3140, 3186) =~= "        add.u64 %rd_j_plus_1, %rd_j_plus_1, 1;"@) by {
        reveal_strlit("        add.u64 %rd_j_plus_1, %rd_j_plus_1, 1;");
    }
    assert("        add.u64 %rd_j_plus_1, %rd_j_plus_1, 1;"@.len() == 46) by {
        reveal_strlit("        add.u64 %rd_j_plus_1, %rd_j_plus_1, 1;");
    }
    lemma_stretch(t, "        add.u64 %rd_j_plus_1, %rd_j_plus_1, 1;"@, 3140);
    assert(t.subrange(3187, 3250) =~= "        mad.lo.u64 %rd_off_east, %rd_i, %rd_cols, %rd_j_plus_1;"@) by {
        reveal_strlit("        mad.lo.u64 %rd_off_east, %rd_i, %rd_cols, %rd_j_plus_1;");
    }
    assert("        mad.lo.u64 %rd_off_east, %rd_i, %rd_cols, %rd_j_plus_1;"@.len() == 63) by {
        reveal_strlit("        mad.lo.u64 %rd_off_east, %rd_i, %rd_cols, %rd_j_plus_1;");
    }
    lemma_stretch(t, "        mad.lo.u64 %rd_off_east, %rd_i, %rd_cols, %rd_j_plus_1;"@, 3187);
    assert(t.subrange(3467, 3507) =~= "    add.f32 %f_sum, %f_center, %f_north;"@) by {
        reveal_strlit("    add.f32 %f_sum, %f_center, %f_north;");
    }
    assert("    add.f32 %f_sum, %f_center, %f_north;"@.len() == 40) by {
        reveal_strlit("    add.f32 %f_sum, %f_center, %f_north;");
    }
    lemma_stretch(t, "    add.f32 %f_sum, %f_center, %f_north;"@, 3467);
    assert(t.subrange(3508, 3545) =~= "    add.f32 %f_sum, %f_sum, %f_south;"@) by {
        reveal_strlit("    add.f32 %f_sum, %f_sum, %f_south;");
    }
    assert("    add.f32 %f_sum, %f_sum, %f_south;"@.len() == 37) by {
        reveal_strlit("    add.f32 %f_sum, %f_sum, %f_south;");
    }
    lemma_stretch(t, "    add.f32 %f_sum, %f_sum, %f_south;"@, 3508);
    assert(t.subrange(3546, 3582) =~= "    add.f32 %f_sum, %f_sum, %f_west;"@) by {
        reveal_strlit("    add.f32 %f_sum, %f_sum, %f_west;");
    }
    assert("    add.f32 %f_sum, %f_sum, %f_west;"@.len() == 36) by {
        reveal_strlit("    add.f32 %f_sum, %f_sum, %f_west;");
    }
    lemma_stretch(t, "    add.f32 %f_sum, %f_sum, %f_west;"@, 3546);
    assert(t.subrange(3583, 3619) =~= "    add.f32 %f_sum, %f_sum, %f_east;"@) by {
        reveal_strlit("    add.f32 %f_sum, %f_sum, %f_east;");
    }
    assert("    add.f32 %f_sum, %f_sum, %f_east;"@.len() == 36) by {
        reveal_strlit("    add.f32 %f_sum, %f_sum, %f_east;");
    }
    lemma_stretch(t, "    add.f32 %f_sum, %f_sum, %f_east;"@, 3583);
    assert(t.subrange(3688, 3722) =~= "    mov.f32 %f_weight, 0f3E4CCCCD;"@) by {
        reveal_strlit("    mov.f32 %f_weight, 0f3E4CCCCD;");
    }
    assert("    mov.f32 %f_weight, 0f3E4CCCCD;"@.len() == 34) by {
        reveal_strlit("    mov.f32 %f_weight, 0f3E4CCCCD;");
    }
    lemma_stretch(t, "    mov.f32 %f_weight, 0f3E4CCCCD;"@, 3688);
    assert(t.subrange(3743, 3789) =~= "    mad.f32 %f_result, %f_sum, %f_weight, 0.0;"@) by {
        reveal_strlit("    mad.f32 %f_result, %f_sum, %f_weight, 0.0;");
    }
    assert("    mad.f32 %f_result, %f_sum, %f_weight, 0.0;"@.len() == 46) by {
        reveal_strlit("    mad.f32 %f_result, %f_sum, %f_weight, 0.0;");
    }
    lemma_stretch(t, "    mad.f32 %f_result, %f_sum, %f_weight, 0.0;"@, 3743);
    assert(t.subrange(4297, 4344) =~= "        st.global.f32 [%rd_out_off], %f_result;"@) by {
        reveal_strlit("        st.global.f32 [%rd_out_off], %f_result;");
    }
    assert("        st.global.f32 [%rd_out_off], %f_result;"@.len() == 47) by {
        reveal_strlit("        st.global.f32 [%rd_out_off], %f_result;");
    }
    lemma_stretch(t, "        st.global.f32 [%rd_out_off], %f_result;"@, 4297);
}

/// The stencil kernel adds a point and its four neighbours, one row up and down and one column to
/// each side, and stores a fifth of the sum: `0f3E4CCCCD` is 0.2 as a 32-bit float.
pub proof fn stencil_kernel_averages_five_points()
    ensures
        kernel_text::says(
            ptx::pieces_text(ptx::stencil_pieces()),
            "    mad.lo.u64 %rd_off_center, %rd_i, %rd_cols, %rd_j;"@,
        ),
        kernel_text::says(
            ptx::pieces_text(ptx::stencil_pieces()),
            "        sub.u64 %rd_i_minus_1, %rd_i_minus_1, 1;"@,
        ),
        kernel_text::says(
            ptx::pieces_text(ptx::stencil_pieces()),
            "        mad.lo.u64 %rd_off_north, %rd_i_minus_1, %rd_cols, %rd_j;"@,
        ),
        kernel_text::says(
            ptx::pieces_text(ptx::stencil_pieces()),
            "        add.u64 %rd_i_plus_1, %rd_i_plus_1, 1;"@,
        ),
        kernel_text::says(
            ptx::pieces_text(ptx::stencil_pieces()),
            "        mad.lo.u64 %rd_off_south, %rd_i_plus_1, %rd_cols, %rd_j;"@,
        ),
        kernel_text::says(
            ptx::pieces_text(ptx::stencil_pieces()),
            "        sub.u64 %rd_j_minus_1, %rd_j_minus_1, 1;"@,
        ),
        kernel_text::says(
            ptx::pieces_text(ptx::stencil_pieces()),
            "        mad.lo.u64 %rd_off_west, %rd_i, %rd_cols, %rd_j_minus_1;"@,
        ),
        kernel_text::says(
            ptx::pieces_text(ptx::stencil_pieces()),
            "        add.u64 %rd_j_plus_1, %rd_j_plus_1, 1;"@,
        ),
        kernel_text::says(
            ptx::pieces_text(ptx::stencil_pieces()),
            "        mad.lo.u64 %rd_off_east, %rd_i, %rd_cols, %rd_j_plus_1;"@,
        ),
        kernel_text::says(
            ptx::pieces_text(ptx::stencil_pieces()),
            "    add.f32 %f_sum, %f_center, %f_north;"@,
        ),
        kernel_text::says(
            ptx::pieces_text(ptx::stencil_pieces()),
            "    add.f32 %f_sum, %f_sum, %f_south;"@,
        ),
        kernel_text::says(
            ptx::pieces_text(ptx::stencil_pieces()),
            "    add.f32 %f_sum, %f_sum, %f_west;"@,
        ),
        kernel_text::says(
            ptx::pieces_text(ptx::stencil_pieces()),
            "    add.f32 %f_sum, %f_sum, %f_east;"@,
        ),
        kernel_text::says(
            ptx::pieces_text(ptx::stencil_pieces()),
            "    mov.f32 %f_weight, 0f3E4CCCCD;"@,
        ),
        kernel_text::says(
            ptx::pieces_text(ptx::stencil_pieces()),
            "    mad.f32 %f_result, %f_sum, %f_weight, 0.0;"@,
        ),
        kernel_text::says(
            ptx::pieces_text(ptx::stencil_pieces()),
            "        st.global.f32 [%rd_out_off], %f_result;"@,
        ),
{
    lemma_single_text(ptx_text::STENCIL_1);
    assert(ptx::stencil_pieces() =~= seq![ptx::Piece::Text(ptx_text::STENCIL_1)]);
    lemma_lines_of_stencil();
}

proof fn lemma_lines_of_prologue()
    ensures
        kernel_text::says(ptx_text::IR_PROLOGUE@, "    .param .u64 slots_ptr,"@),
        kernel_text::says(ptx_text::IR_PROLOGUE@, "    .param .u64 n_elements"@),
        kernel_text::says(ptx_text::IR_PROLOGUE@, "    mov.u64 %rd_idx, %tid.x;"@),
        kernel_text::says(ptx_text::IR_PROLOGUE@, "    mov.u64 %rd_tmp, %ctaid.x;"@),
        kernel_text::says(ptx_text::IR_PROLOGUE@, "    mad.lo.u64 %rd_idx, %rd_tmp, %ntid.x, %rd_idx;"@),
{
    let t = ptx_text::IR_PROLOGUE@;
    reveal_strlit(
        "    .param .u64 slots_ptr,\n    .param .u64 n_elements\n)\n{\n    .reg .f32 %f_tmp, %f_a, %f_b, %f_result;\n    .reg .u64 %rd_idx, %rd_tmp;\n    .reg .pred %p_valid;\n\n    // Compute thread index\n    mov.u64 %rd_idx, %tid.x;\n    mov.u64 %rd_tmp, %ctaid.x;\n    mad.lo.u64 %rd_idx, %rd_tmp, %ntid.x, %rd_idx;\n\n",
    );
    assert(t.subrange(0, 26) =~= "    .param .u64 slots_ptr,"@) by {
        reveal_strlit("    .param .u64 slots_ptr,");
    }
    assert("    .param .u64 slots_ptr,"@.len() == 26) by {
        reveal_strlit("    .param .u64 slots_ptr,");
    }
    lemma_stretch(t, "    .param .u64 slots_ptr,"@, 0);
    assert(t.subrange(27, 53) =~= "    .param .u64 n_elements"@) by {
        reveal_strlit("    .param .u64 n_elements");
    }
    assert("    .param .u64 n_elements"@.len() == 26) by {
        reveal_strlit("    .param .u64 n_elements");
    }
    lemma_stretch(t, "    .param .u64 n_elements"@, 27);
    assert(t.subrange(189, 217) =~= "    mov.u64 %rd_idx, %tid.x;"@) by {
        reveal_strlit("    mov.u64 %rd_idx, %tid.x;");
    }
    assert("    mov.u64 %rd_idx, %tid.x;"@.len() == 28) by {
        reveal_strlit("    mov.u64 %rd_idx, %tid.x;");
    }
    lemma_stretch(t, "    mov.u64 %rd_idx, %tid.x;"@, 189);
    assert(t.subrange(218, 248) =~= "    mov.u64 %rd_tmp, %ctaid.x;"@) by {
        reveal_strlit("    mov.u64 %rd_tmp, %ctaid.x;");
    }
    assert("    mov.u64 %rd_tmp, %ctaid.x;"@.len() == 30) by {
        reveal_strlit("    mov.u64 %rd_tmp, %ctaid.x;");
    }
    lemma_stretch(t, "    mov.u64 %rd_tmp, %ctaid.x;"@, 218);
    assert(t.subrange(249, 299) =~= "    mad.lo.u64 %rd_idx, %rd_tmp, %ntid.x, %rd_idx;"@) by {
        reveal_strlit("    mad.lo.u64 %rd_idx, %rd_tmp, %ntid.x, %rd_idx;");
    }
    assert("    mad.lo.u64 %rd_idx, %rd_tmp, %ntid.x, %rd_idx;"@.len() == 50) by {
        reveal_strlit("    mad.lo.u64 %rd_idx, %rd_tmp, %ntid.x, %rd_idx;");
    }
    lemma_stretch(t, "    mad.lo.u64 %rd_idx, %rd_tmp, %ntid.x, %rd_idx;"@, 249);
}

/// What a part of a text says, the text says.
proof fn lemma_within(a: Seq<char>, b: Seq<char>, c: Seq<char>, part: Seq<char>)
    requires
        kernel_text::says(b, part),
    ensures
        kernel_text::says(a + b + c, part),
{
    let (x, y) = choose|x: Seq<char>, y: Seq<char>| b == #[trigger] (x + part + y);
    assert(a + b + c =~= (a + x) + part + (y + c));
}

/// Behind its parameters an instruction kernel takes the slots and the number of elements, and
/// its thread works on the element that the place of the thread in the grid gives.
pub proof fn instruction_kernel_finds_its_element(s: Seq<crate::types::Instr>, count: nat)
    ensures
        kernel_text::says(ptx::ir_body(s, count), "    .param .u64 slots_ptr,"@),
        kernel_text::says(ptx::ir_body(s, count), "    .param .u64 n_elements"@),
        kernel_text::says(ptx::ir_body(s, count), "    mov.u64 %rd_idx, %tid.x;"@),
        kernel_text::says(ptx::ir_body(s, count), "    mov.u64 %rd_tmp, %ctaid.x;"@),
        kernel_text::says(ptx::ir_body(s, count), "    mad.lo.u64 %rd_idx, %rd_tmp, %ntid.x, %rd_idx;"@),
{
    let front = ".entry symplex_ir_kernel(\n"@ + ptx::param_lines(count);
    let back = ptx::instr_lines(s) + "\n    ret;\n}\n"@;
    assert(ptx::ir_body(s, count) =~= front + ptx_text::IR_PROLOGUE@ + back);
    lemma_lines_of_prologue();
    lemma_within(front, ptx_text::IR_PROLOGUE@, back, "    .param .u64 slots_ptr,"@);
    lemma_within(front, ptx_text::IR_PROLOGUE@, back, "    .param .u64 n_elements"@);
    lemma_within(front, ptx_text::IR_PROLOGUE@, back, "    mov.u64 %rd_idx, %tid.x;"@);
    lemma_within(front, ptx_text::IR_PROLOGUE@, back, "    mov.u64 %rd_tmp, %ctaid.x;"@);
    lemma_within(front, ptx_text::IR_PROLOGUE@, back, "    mad.lo.u64 %rd_idx, %rd_tmp, %ntid.x, %rd_idx;"@);
}

/// The line in front of the language version names it as such.
pub proof fn version_is_declared(name: Seq<char>, version: Seq<char>, target: Seq<char>)
    ensures
        kernel_text::says(ptx::header_text(name, version, target), "\n.version "@ + version),
        kernel_text::says(ptx::header_text(name, version, target), "\n.target "@ + target),
        kernel_text::says(ptx::header_text(name, version, target), "// PTX kernel: "@ + name),
{
    reveal_strlit("\n// Generated by SympleX CUDA Backend\n.version ");
    reveal_strlit("\n.version ");
    let credit = ptx_text::HEADER_CREDIT@;
    let mark = "\n.version "@;
    let rest = "\n.target "@ + target + "\n.address_size 64\n\n"@;
    let whole = ptx::header_text(name, version, target);
    assert(credit.skip(37) =~= mark);
    assert(credit =~= credit.take(37) + mark);
    assert(whole =~= ("// PTX kernel: "@ + name + credit.take(37)) + (mark + version) + rest);
    assert(whole =~= ("// PTX kernel: "@ + name + credit + version) + ("\n.target "@ + target)
        + "\n.address_size 64\n\n"@);
    assert(whole =~= Seq::<char>::empty() + ("// PTX kernel: "@ + name) + (credit + version + rest));
}

} // verus!
