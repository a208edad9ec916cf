//! What the generated kernels say, as lines of their text.

use vstd::prelude::*;
use crate::types::{BinOpKind, Instr};
use super::device::{cores_per_sm, CudaError};
use super::launch;
use super::ptx::{elementwise_mnemonic, CudaCompiledKernel, FlopCount, Piece, PtxGenerator};
use super::ptx_text;

verus! {

/// Whether a text holds another one.
pub open spec fn says(text: Seq<char>, part: Seq<char>) -> bool {
    exists|before: Seq<char>, after: Seq<char>| text == #[trigger] (before + part + after)
}

/// A line that ends in a number: what stands before it, the number in decimal, and what stands
/// behind it.
pub open spec fn numbered(front: Seq<char>, n: nat, back: Seq<char>) -> Seq<char> {
    front + crate::text::decimal(n) + back
}

proof fn lemma_pieces_append(a: Seq<Piece>, b: Seq<Piece>)
    ensures
        super::ptx::pieces_text(a + b) == super::ptx::pieces_text(a) + super::ptx::pieces_text(b),
    decreases b.len(),
{
    if b.len() == 0 {
        assert(a + b =~= a);
        assert(super::ptx::pieces_text(a) + super::ptx::pieces_text(b)
            =~= super::ptx::pieces_text(a));
    } else {
        lemma_pieces_append(a, b.drop_last());
        assert((a + b).drop_last() =~= a + b.drop_last());
        assert((a + b).last() == b.last());
        assert(super::ptx::pieces_text(a + b) =~= super::ptx::pieces_text(a)
            + super::ptx::pieces_text(b));
    }
}

proof fn lemma_text_of_three(a: Piece, n: Piece, b: Piece)
    ensures
        super::ptx::pieces_text(seq![a, n, b]) == super::ptx::piece_text(a)
            + super::ptx::piece_text(n) + super::ptx::piece_text(b),
{
    let three = seq![a, n, b];
    assert(three.drop_last() =~= seq![a, n]);
    assert(seq![a, n].drop_last() =~= seq![a]);
    assert(seq![a].drop_last() =~= Seq::<Piece>::empty());
    reveal_with_fuel(super::ptx::pieces_text, 4);
    assert(super::ptx::pieces_text(seq![a]) =~= super::ptx::piece_text(a));
}

proof fn lemma_cut(
    head: Seq<char>,
    a: Seq<char>,
    n: Seq<char>,
    b: Seq<char>,
    tail: Seq<char>,
    front: Seq<char>,
    back: Seq<char>,
)
    requires
        ends_with(a, front),
        begins_with(b, back),
    ensures
        says(head + (a + n + b) + tail, front + n + back),
{
    let cut = a.len() - front.len();
    let x = a.take(cut);
    let y = b.skip(back.len() as int);
    assert(a =~= x + front);
    assert(b =~= back + y);
    assert(head + ((x + front) + n + (back + y)) + tail =~= (head + x) + (front + n + back) + (y
        + tail));
}

/// What three pieces in a row print stands in what the whole list prints, and so does each text
/// that begins with the end of the first, goes on with the second and ends with the beginning of
/// the third.
proof fn lemma_three_pieces(ps: Seq<Piece>, i: int, front: Seq<char>, back: Seq<char>)
    requires
        0 <= i,
        i + 2 < ps.len(),
        ends_with(super::ptx::piece_text(ps[i]), front),
        begins_with(super::ptx::piece_text(ps[i + 2]), back),
    ensures
        says(super::ptx::pieces_text(ps), front + super::ptx::piece_text(ps[i + 1]) + back),
{
    let head = ps.take(i);
    let three = seq![ps[i], ps[i + 1], ps[i + 2]];
    let tail = ps.skip(i + 3);
    assert(ps =~= head + three + tail);
    lemma_pieces_append(head + three, tail);
    lemma_pieces_append(head, three);
    lemma_text_of_three(ps[i], ps[i + 1], ps[i + 2]);
    lemma_cut(
        super::ptx::pieces_text(head),
        super::ptx::piece_text(ps[i]),
        super::ptx::piece_text(ps[i + 1]),
        super::ptx::piece_text(ps[i + 2]),
        super::ptx::pieces_text(tail),
        front,
        back,
    );
}

/// Whether a text ends with another one.
spec fn ends_with(text: Seq<char>, part: Seq<char>) -> bool {
    part.len() <= text.len() && text.skip(text.len() - part.len()) == part
}

/// Whether a text begins with another one.
spec fn begins_with(text: Seq<char>, part: Seq<char>) -> bool {
    part.len() <= text.len() && text.take(part.len() as int) == part
}

proof fn lemma_edges_of_matmul_1()
    ensures
        ends_with(ptx_text::MATMUL_1@, "    .shared .align 128 .b8 smem_A["@),
{
    reveal_strlit(
        ".entry symplex_matmul(\n    .param .u64 A_ptr,\n    .param .u64 B_ptr,\n    .param .u64 C_ptr,\n    .param .u64 dim_M,\n    .param .u64 dim_N,\n    .param .u64 dim_K\n)\n{\n    // Shared memory for tiles\n    .shared .align 128 .b8 smem_A[",
    );
    reveal_strlit("    .shared .align 128 .b8 smem_A[");
    assert(ptx_text::MATMUL_1@.skip(195) =~= "    .shared .align 128 .b8 smem_A["@);
}

proof fn lemma_edges_of_matmul_2()
    ensures
        ends_with(ptx_text::MATMUL_2@, "    .shared .align 128 .b8 smem_B["@),
        begins_with(ptx_text::MATMUL_2@, "];"@),
{
    reveal_strlit(
        "];\n    .shared .align 128 .b8 smem_B[",
    );
    reveal_strlit("    .shared .align 128 .b8 smem_B[");
    reveal_strlit("];");
    assert(ptx_text::MATMUL_2@.skip(3) =~= "    .shared .align 128 .b8 smem_B["@);
    assert(ptx_text::MATMUL_2@.take(2) =~= "];"@);
}

proof fn lemma_edges_of_matmul_3()
    ensures
        ends_with(ptx_text::MATMUL_3@, "    // row = blockIdx.y * "@),
        begins_with(ptx_text::MATMUL_3@, "];"@),
{
    reveal_strlit(
        "];\n\n    // Registers\n    .reg .u64 %rd_a_ptr, %rd_b_ptr, %rd_c_ptr;\n    .reg .u64 %rd_M, %rd_N, %rd_K;\n    .reg .u64 %rd_row, %rd_col;\n    .reg .u64 %rd_k_iter, %rd_k_offset;\n    .reg .u64 %rd_smem_A, %rd_smem_B;\n    .reg .f32 %f_a, %f_b, %f_c;\n    .reg .f32 %f_sum;\n    .reg .pred %p_bound_m, %p_bound_n, %p_bound_k, %p_in_bounds;\n    .reg .u64 %rd_tmp;\n\n    // Load parameters\n    ld.param.u64 %rd_a_ptr, [A_ptr];\n    ld.param.u64 %rd_b_ptr, [B_ptr];\n    ld.param.u64 %rd_c_ptr, [C_ptr];\n    ld.param.u64 %rd_M,     [dim_M];\n    ld.param.u64 %rd_N,     [dim_N];\n    ld.param.u64 %rd_K,     [dim_K];\n\n    // Compute tile coordinates\n    // row = blockIdx.y * ",
    );
    reveal_strlit("    // row = blockIdx.y * ");
    reveal_strlit("];");
    assert(ptx_text::MATMUL_3@.skip(634) =~= "    // row = blockIdx.y * "@);
    assert(ptx_text::MATMUL_3@.take(2) =~= "];"@);
}

proof fn lemma_edges_of_matmul_4()
    ensures
        ends_with(ptx_text::MATMUL_4@, "    mul.lo.u64 %rd_row, %rd_row, "@),
        begins_with(ptx_text::MATMUL_4@, " + threadIdx.y"@),
{
    reveal_strlit(
        " + threadIdx.y\n    mov.u64 %rd_row, %ctaid.y;\n    mul.lo.u64 %rd_row, %rd_row, ",
    );
    reveal_strlit("    mul.lo.u64 %rd_row, %rd_row, ");
    reveal_strlit(" + threadIdx.y");
    assert(ptx_text::MATMUL_4@.skip(46) =~= "    mul.lo.u64 %rd_row, %rd_row, "@);
    assert(ptx_text::MATMUL_4@.take(14) =~= " + threadIdx.y"@);
}

proof fn lemma_edges_of_matmul_5()
    ensures
        ends_with(ptx_text::MATMUL_5@, "    // col = blockIdx.x * "@),
        begins_with(ptx_text::MATMUL_5@, ";"@),
{
    reveal_strlit(
        ";\n    // col = blockIdx.x * ",
    );
    reveal_strlit("    // col = blockIdx.x * ");
    reveal_strlit(";");
    assert(ptx_text::MATMUL_5@.skip(2) =~= "    // col = blockIdx.x * "@);
    assert(ptx_text::MATMUL_5@.take(1) =~= ";"@);
}

proof fn lemma_edges_of_matmul_6()
    ensures
        ends_with(ptx_text::MATMUL_6@, "    mul.lo.u64 %rd_col, %rd_col, "@),
        begins_with(ptx_text::MATMUL_6@, " + threadIdx.x"@),
{
    reveal_strlit(
        " + threadIdx.x\n    mov.u64 %rd_col, %ctaid.x;\n    mul.lo.u64 %rd_col, %rd_col, ",
    );
    reveal_strlit("    mul.lo.u64 %rd_col, %rd_col, ");
    reveal_strlit(" + threadIdx.x");
    assert(ptx_text::MATMUL_6@.skip(46) =~= "    mul.lo.u64 %rd_col, %rd_col, "@);
    assert(ptx_text::MATMUL_6@.take(14) =~= " + threadIdx.x"@);
}

proof fn lemma_edges_of_matmul_7()
    ensures
        ends_with(ptx_text::MATMUL_7@, "        mad.lo.u64 %rd_smem_off, %tid.y, "@),
        begins_with(ptx_text::MATMUL_7@, ";"@),
{
    reveal_strlit(
        ";\n\n    // Shared memory base\n    mov.u64 %rd_smem_A, smem_A;\n    mov.u64 %rd_smem_B, smem_B;\n\n    // Accumulator = 0.0\n    mov.f32 %f_sum, 0.0;\n\n    // K-loop\n    mov.u64 %rd_k_offset, 0;\n$K_LOOP:\n    // Load A tile from global to shared\n    // Each thread loads one element\n    {\n        .reg .u64 %rd_a_row, %rd_a_col;\n        .reg .u64 %rd_a_global_off;\n\n        mov.u64 %rd_a_row, %rd_row;\n        add.u64 %rd_a_row, %rd_a_row, %tid.y;\n        mov.u64 %rd_a_col, %rd_k_offset;\n        add.u64 %rd_a_col, %rd_a_col, %tid.x;\n\n        setp.lt.u64 %p_bound_m, %rd_a_row, %rd_M;\n        setp.lt.u64 %p_bound_k, %rd_a_col, %rd_K;\n        and.pred  %p_in_bounds, %p_bound_m, %p_bound_k;\n\n        @%p_in_bounds {\n            // A[row * K + col]\n            mad.lo.u64 %rd_a_global_off, %rd_a_row, %rd_K, %rd_a_col;\n            mul.lo.u64 %rd_a_global_off, %rd_a_global_off, 4;\n            add.u64  %rd_a_global_off, %rd_a_global_off, %rd_a_ptr;\n            ld.global.f32 %f_a, [%rd_a_global_off];\n        };\n\n        // Store to shared memory\n        .reg .u64 %rd_smem_off;\n        mad.lo.u64 %rd_smem_off, %tid.y, ",
    );
    reveal_strlit("        mad.lo.u64 %rd_smem_off, %tid.y, ");
    reveal_strlit(";");
    assert(ptx_text::MATMUL_7@.skip(1071) =~= "        mad.lo.u64 %rd_smem_off, %tid.y, "@);
    assert(ptx_text::MATMUL_7@.take(1) =~= ";"@);
}

proof fn lemma_edges_of_matmul_8()
    ensures
        ends_with(ptx_text::MATMUL_8@, "        mad.lo.u64 %rd_smem_off_b, %tid.y, "@),
        begins_with(ptx_text::MATMUL_8@, ", %tid.x;"@),
{
    reveal_strlit(
        ", %tid.x;\n        mul.lo.u64 %rd_smem_off, %rd_smem_off, 4;\n        add.u64  %rd_smem_off, %rd_smem_off, %rd_smem_A;\n        @%p_in_bounds st.shared.f32 [%rd_smem_off], %f_a;\n    }\n\n    // Load B tile from global to shared\n    {\n        .reg .u64 %rd_b_row, %rd_b_col;\n        .reg .u64 %rd_b_global_off;\n\n        mov.u64 %rd_b_row, %rd_k_offset;\n        add.u64 %rd_b_row, %rd_b_row, %tid.y;\n        mov.u64 %rd_b_col, %rd_col;\n        add.u64 %rd_b_col, %rd_b_col, %tid.x;\n\n        setp.lt.u64 %p_bound_k, %rd_b_row, %rd_K;\n        setp.lt.u64 %p_bound_n, %rd_b_col, %rd_N;\n        and.pred  %p_in_bounds, %p_bound_k, %p_bound_n;\n\n        @%p_in_bounds {\n            // B[row * N + col]\n            mad.lo.u64 %rd_b_global_off, %rd_b_row, %rd_N, %rd_b_col;\n            mul.lo.u64 %rd_b_global_off, %rd_b_global_off, 4;\n            add.u64  %rd_b_global_off, %rd_b_global_off, %rd_b_ptr;\n            ld.global.f32 %f_b, [%rd_b_global_off];\n        };\n\n        .reg .u64 %rd_smem_off_b;\n        mad.lo.u64 %rd_smem_off_b, %tid.y, ",
    );
    reveal_strlit("        mad.lo.u64 %rd_smem_off_b, %tid.y, ");
    reveal_strlit(", %tid.x;");
    assert(ptx_text::MATMUL_8@.skip(987) =~= "        mad.lo.u64 %rd_smem_off_b, %tid.y, "@);
    assert(ptx_text::MATMUL_8@.take(9) =~= ", %tid.x;"@);
}

proof fn lemma_edges_of_matmul_9()
    ensures
        ends_with(ptx_text::MATMUL_9@, "        mad.lo.u64 %rd_sa_off, %tid.y, "@),
        begins_with(ptx_text::MATMUL_9@, ", %tid.x;"@),
{
    reveal_strlit(
        ", %tid.x;\n        mul.lo.u64 %rd_smem_off_b, %rd_smem_off_b, 4;\n        add.u64  %rd_smem_off_b, %rd_smem_off_b, %rd_smem_B;\n        @%p_in_bounds st.shared.f32 [%rd_smem_off_b], %f_b;\n    }\n\n    bar.sync 0;\n\n    // Compute partial dot product from shared memory\n    {\n        .reg .u64 %rd_kk;\n        .reg .f32 %f_sa, %f_sb;\n        .reg .u64 %rd_sa_off, %rd_sb_off;\n\n        mov.u64 %rd_kk, 0;\n    $INNER_LOOP:\n        // Load A[tile_row][kk] from shared\n        mad.lo.u64 %rd_sa_off, %tid.y, ",
    );
    reveal_strlit("        mad.lo.u64 %rd_sa_off, %tid.y, ");
    reveal_strlit(", %tid.x;");
    assert(ptx_text::MATMUL_9@.skip(458) =~= "        mad.lo.u64 %rd_sa_off, %tid.y, "@);
    assert(ptx_text::MATMUL_9@.take(9) =~= ", %tid.x;"@);
}

proof fn lemma_edges_of_matmul_10()
    ensures
        ends_with(ptx_text::MATMUL_10@, "        mad.lo.u64 %rd_sb_off, %rd_kk, "@),
        begins_with(ptx_text::MATMUL_10@, ", %rd_kk;"@),
{
    reveal_strlit(
        ", %rd_kk;\n        mul.lo.u64 %rd_sa_off, %rd_sa_off, 4;\n        add.u64  %rd_sa_off, %rd_sa_off, %rd_smem_A;\n        ld.shared.f32 %f_sa, [%rd_sa_off];\n\n        // Load B[kk][tile_col] from shared\n        mad.lo.u64 %rd_sb_off, %rd_kk, ",
    );
    reveal_strlit("        mad.lo.u64 %rd_sb_off, %rd_kk, ");
    reveal_strlit(", %rd_kk;");
    assert(ptx_text::MATMUL_10@.skip(197) =~= "        mad.lo.u64 %rd_sb_off, %rd_kk, "@);
    assert(ptx_text::MATMUL_10@.take(9) =~= ", %rd_kk;"@);
}

proof fn lemma_edges_of_matmul_11()
    ensures
        ends_with(ptx_text::MATMUL_11@, "        setp.lt.u64 %p_bound_k, %rd_kk, "@),
        begins_with(ptx_text::MATMUL_11@, ", %tid.x;"@),
{
    reveal_strlit(
        ", %tid.x;\n        mul.lo.u64 %rd_sb_off, %rd_sb_off, 4;\n        add.u64  %rd_sb_off, %rd_sb_off, %rd_smem_B;\n        ld.shared.f32 %f_sb, [%rd_sb_off];\n\n        // Accumulate\n        mad.f32 %f_sum, %f_sa, %f_sb, %f_sum;\n\n        add.u64 %rd_kk, %rd_kk, 1;\n        setp.lt.u64 %p_bound_k, %rd_kk, ",
    );
    reveal_strlit("        setp.lt.u64 %p_bound_k, %rd_kk, ");
    reveal_strlit(", %tid.x;");
    assert(ptx_text::MATMUL_11@.skip(257) =~= "        setp.lt.u64 %p_bound_k, %rd_kk, "@);
    assert(ptx_text::MATMUL_11@.take(9) =~= ", %tid.x;"@);
}

proof fn lemma_edges_of_matmul_12()
    ensures
        ends_with(ptx_text::MATMUL_12@, "    add.u64 %rd_k_offset, %rd_k_offset, "@),
        begins_with(ptx_text::MATMUL_12@, ";"@),
{
    reveal_strlit(
        ";\n        @%p_bound_k bra $INNER_LOOP;\n    }\n\n    bar.sync 0;\n\n    // Advance K offset\n    add.u64 %rd_k_offset, %rd_k_offset, ",
    );
    reveal_strlit("    add.u64 %rd_k_offset, %rd_k_offset, ");
    reveal_strlit(";");
    assert(ptx_text::MATMUL_12@.skip(87) =~= "    add.u64 %rd_k_offset, %rd_k_offset, "@);
    assert(ptx_text::MATMUL_12@.take(1) =~= ";"@);
}

proof fn lemma_edges_of_matmul_13()
    ensures
        begins_with(ptx_text::MATMUL_13@, ";"@),
{
    reveal_strlit(
        ";\n    setp.lt.u64 %p_bound_k, %rd_k_offset, %rd_K;\n    @%p_bound_k bra $K_LOOP;\n\n    // Store result to global C\n    {\n        .reg .u64 %rd_c_row, %rd_c_col;\n        .reg .u64 %rd_c_global_off;\n\n        mov.u64 %rd_c_row, %rd_row;\n        add.u64 %rd_c_row, %rd_c_row, %tid.y;\n        mov.u64 %rd_c_col, %rd_col;\n        add.u64 %rd_c_col, %rd_c_col, %tid.x;\n\n        setp.lt.u64 %p_bound_m, %rd_c_row, %rd_M;\n        setp.lt.u64 %p_bound_n, %rd_c_col, %rd_N;\n        and.pred  %p_in_bounds, %p_bound_m, %p_bound_n;\n\n        @%p_in_bounds {\n            mad.lo.u64 %rd_c_global_off, %rd_c_row, %rd_N, %rd_c_col;\n            mul.lo.u64 %rd_c_global_off, %rd_c_global_off, 4;\n            add.u64  %rd_c_global_off, %rd_c_global_off, %rd_c_ptr;\n            st.global.f32 [%rd_c_global_off], %f_sum;\n        };\n    }\n\n    ret;\n}\n",
    );
    reveal_strlit(";");
    assert(ptx_text::MATMUL_13@.take(1) =~= ";"@);
}

proof fn lemma_edges_of_reduction_1()
    ensures
        ends_with(ptx_text::REDUCTION_1@, "    .shared .align 128 .b8 smem["@),
{
    reveal_strlit(
        ".entry symplex_reduction(\n    .param .u64 dst_ptr,\n    .param .u64 src_ptr,\n    .param .u64 dim_n\n)\n{\n    .shared .align 128 .b8 smem[",
    );
    reveal_strlit("    .shared .align 128 .b8 smem[");
    assert(ptx_text::REDUCTION_1@.skip(102) =~= "    .shared .align 128 .b8 smem["@);
}

proof fn lemma_edges_of_reduction_2()
    ensures
        ends_with(ptx_text::REDUCTION_2@, "        mov.f32 %f_val, "@),
        begins_with(ptx_text::REDUCTION_2@, "];"@),
{
    reveal_strlit(
        "];\n\n    .reg .u64 %rd_dst, %rd_src, %rd_n;\n    .reg .u64 %rd_idx, %rd_tmp;\n    .reg .f32 %f_val, %f_other;\n    .reg .u64 %rd_smem_base;\n    .reg .pred %p_in_bounds;\n\n    ld.param.u64 %rd_dst, [dst_ptr];\n    ld.param.u64 %rd_src, [src_ptr];\n    ld.param.u64 %rd_n,   [dim_n];\n\n    // Global thread index\n    mov.u64 %rd_idx, %tid.x;\n    mov.u64 %rd_tmp, %ctaid.x;\n    mad.lo.u64 %rd_idx, %rd_tmp, %ntid.x, %rd_idx;\n\n    // Load value (or 0.0 for add, ±inf for min/max if out of bounds)\n    setp.lt.u64 %p_in_bounds, %rd_idx, %rd_n;\n    @%p_in_bounds {\n        .reg .u64 %rd_off;\n        mul.lo.u64 %rd_off, %rd_idx, 4;\n        ld.global.f32 %f_val, [%rd_src + %rd_off];\n    };\n    @!%p_in_bounds {\n        mov.f32 %f_val, ",
    );
    reveal_strlit("        mov.f32 %f_val, ");
    reveal_strlit("];");
    assert(ptx_text::REDUCTION_2@.skip(697) =~= "        mov.f32 %f_val, "@);
    assert(ptx_text::REDUCTION_2@.take(2) =~= "];"@);
}

proof fn lemma_edges_of_reduction_3()
    ensures
        ends_with(ptx_text::REDUCTION_3@, "        setp.lt.u64 %p_active, %rd_stride, "@),
        begins_with(ptx_text::REDUCTION_3@, ";"@),
{
    reveal_strlit(
        ";\n    };\n\n    // Store to shared memory\n    mov.u64 %rd_smem_base, smem;\n    .reg .u64 %rd_soff;\n    mov.u64 %rd_soff, %tid.x;\n    mul.lo.u64 %rd_soff, %rd_soff, 4;\n    add.u64  %rd_soff, %rd_soff, %rd_smem_base;\n    st.shared.f32 [%rd_soff], %f_val;\n    bar.sync 0;\n\n    // Sequential reduction in shared memory\n    {\n        .reg .u64 %rd_stride;\n        .reg .pred %p_active;\n        mov.u64 %rd_stride, 1;\n\n    $REDUCE_LOOP:\n        shl.u64 %rd_stride, %rd_stride, 1;\n        setp.lt.u64 %p_active, %rd_stride, ",
    );
    reveal_strlit("        setp.lt.u64 %p_active, %rd_stride, ");
    reveal_strlit(";");
    assert(ptx_text::REDUCTION_3@.skip(472) =~= "        setp.lt.u64 %p_active, %rd_stride, "@);
    assert(ptx_text::REDUCTION_3@.take(1) =~= ";"@);
}

proof fn lemma_edges_of_reduction_4()
    ensures
        ends_with(ptx_text::REDUCTION_4@, "        setp.lt.u64 %p_active, %rd_other_idx, "@),
        begins_with(ptx_text::REDUCTION_4@, ";"@),
{
    reveal_strlit(
        ";\n        @!%p_active bra $REDUCE_DONE;\n\n        // If tid.x + stride < block_size, reduce\n        .reg .u64 %rd_other_idx;\n        add.u64 %rd_other_idx, %tid.x, %rd_stride;\n        setp.lt.u64 %p_active, %rd_other_idx, ",
    );
    reveal_strlit("        setp.lt.u64 %p_active, %rd_other_idx, ");
    reveal_strlit(";");
    assert(ptx_text::REDUCTION_4@.skip(175) =~= "        setp.lt.u64 %p_active, %rd_other_idx, "@);
    assert(ptx_text::REDUCTION_4@.take(1) =~= ";"@);
}

proof fn lemma_edges_of_reduction_5()
    ensures
        ends_with(ptx_text::REDUCTION_5@, "            "@),
        begins_with(ptx_text::REDUCTION_5@, ";"@),
{
    reveal_strlit(
        ";\n        @%p_active {\n            .reg .u64 %rd_soff2;\n            mul.lo.u64 %rd_soff2, %rd_other_idx, 4;\n            add.u64  %rd_soff2, %rd_soff2, %rd_smem_base;\n            ld.shared.f32 %f_other, [%rd_soff2];\n            ",
    );
    reveal_strlit("            ");
    reveal_strlit(";");
    assert(ptx_text::REDUCTION_5@.skip(215) =~= "            "@);
    assert(ptx_text::REDUCTION_5@.take(1) =~= ";"@);
}

proof fn lemma_edges_of_reduction_6()
    ensures
        begins_with(ptx_text::REDUCTION_6@, " %f_val, %f_val, %f_other;"@),
{
    reveal_strlit(
        " %f_val, %f_val, %f_other;\n            st.shared.f32 [%rd_soff], %f_val;\n        };\n        bar.sync 0;\n        bra $REDUCE_LOOP;\n\n    $REDUCE_DONE:\n    }\n\n    // Thread 0 writes result\n    setp.eq.u64 %p_active, %tid.x, 0;\n    @%p_active {\n        st.global.f32 [%rd_dst], %f_val;\n    };\n\n    ret;\n}\n",
    );
    reveal_strlit(" %f_val, %f_val, %f_other;");
    assert(ptx_text::REDUCTION_6@.take(26) =~= " %f_val, %f_val, %f_other;"@);
}

proof fn lemma_edges_of_conv2d_1()
    ensures
        ends_with(ptx_text::CONV2D_1@, "    setp.lt.u64 %p_valid, %rd_out_idx, "@),
{
    reveal_strlit(
        ".entry symplex_conv2d(\n    .param .u64 input_ptr,\n    .param .u64 kernel_ptr,\n    .param .u64 output_ptr,\n    .param .u64 dim_batch,\n    .param .u64 dim_oc,\n    .param .u64 dim_ic,\n    .param .u64 dim_oh,\n    .param .u64 dim_ow,\n    .param .u64 dim_kh,\n    .param .u64 dim_kw,\n    .param .u64 dim_stride,\n    .param .u64 dim_pad\n)\n{\n    .reg .u64 %rd_input, %rd_kernel, %rd_output;\n    .reg .u64 %rd_batch, %rd_oc, %rd_ic;\n    .reg .u64 %rd_oh, %rd_ow, %rd_kh, %rd_kw;\n    .reg .u64 %rd_stride, %rd_pad;\n    .reg .u64 %rd_out_idx, %rd_k_idx;\n    .reg .f32 %f_sum, %f_input, %f_weight;\n    .reg .u64 %rd_tmp;\n    .reg .pred %p_valid;\n\n    // Load parameters\n    ld.param.u64 %rd_input,  [input_ptr];\n    ld.param.u64 %rd_kernel, [kernel_ptr];\n    ld.param.u64 %rd_output, [output_ptr];\n    ld.param.u64 %rd_batch,  [dim_batch];\n    ld.param.u64 %rd_oc,     [dim_oc];\n    ld.param.u64 %rd_ic,     [dim_ic];\n    ld.param.u64 %rd_oh,     [dim_oh];\n    ld.param.u64 %rd_ow,     [dim_ow];\n    ld.param.u64 %rd_kh,     [dim_kh];\n    ld.param.u64 %rd_kw,     [dim_kw];\n    ld.param.u64 %rd_stride, [dim_stride];\n    ld.param.u64 %rd_pad,    [dim_pad];\n\n    // Each thread computes one output pixel\n    mov.u64 %rd_out_idx, %tid.x;\n    mov.u64 %rd_tmp,     %ctaid.x;\n    mad.lo.u64 %rd_out_idx, %rd_tmp, %ntid.x, %rd_out_idx;\n\n    // Bounds check\n    setp.lt.u64 %p_valid, %rd_out_idx, ",
    );
    reveal_strlit("    setp.lt.u64 %p_valid, %rd_out_idx, ");
    assert(ptx_text::CONV2D_1@.skip(1338) =~= "    setp.lt.u64 %p_valid, %rd_out_idx, "@);
}

proof fn lemma_edges_of_conv2d_2()
    ensures
        ends_with(ptx_text::CONV2D_2@, "    setp.lt.u64 %p_valid, %rd_k_idx, "@),
        begins_with(ptx_text::CONV2D_2@, ";"@),
{
    reveal_strlit(
        ";\n    @!%p_valid bra $done;\n\n    mov.f32 %f_sum, 0.0;\n\n    // Inner loop over K = ic * kh * kw\n    mov.u64 %rd_k_idx, 0;\n$CONV_K_LOOP:\n    // Decompose k_idx into (ic_idx, kh_idx, kw_idx)\n    // This is a simplified sequential reduction pattern\n    // Each thread gathers one input element and one weight element\n\n    // Compute input offset based on im2col mapping\n    // input[batch, ic_idx, oh_idx * stride + kh_idx - pad, ow_idx * stride + kw_idx - pad]\n    // Weight offset: kernel[oc_idx, ic_idx, kh_idx, kw_idx]\n    // (simplified — full implementation would decompose the indices)\n\n    add.u64 %rd_k_idx, %rd_k_idx, 1;\n    setp.lt.u64 %p_valid, %rd_k_idx, ",
    );
    reveal_strlit("    setp.lt.u64 %p_valid, %rd_k_idx, ");
    reveal_strlit(";");
    assert(ptx_text::CONV2D_2@.skip(627) =~= "    setp.lt.u64 %p_valid, %rd_k_idx, "@);
    assert(ptx_text::CONV2D_2@.take(1) =~= ";"@);
}

proof fn lemma_edges_of_conv2d_3()
    ensures
        begins_with(ptx_text::CONV2D_3@, ";"@),
{
    reveal_strlit(
        ";\n    @%p_valid bra $CONV_K_LOOP;\n\n    // Store output\n    {\n        .reg .u64 %rd_out_off;\n        mul.lo.u64 %rd_out_off, %rd_out_idx, 4;\n        add.u64  %rd_out_off, %rd_out_off, %rd_output;\n        st.global.f32 [%rd_out_off], %f_sum;\n    }\n\n$done:\n    ret;\n}\n",
    );
    reveal_strlit(";");
    assert(ptx_text::CONV2D_3@.take(1) =~= ";"@);
}

proof fn lemma_edges_of_elementwise_1()
    ensures
        ends_with(ptx_text::ELEMENTWISE_1@, "    "@),
{
    reveal_strlit(
        ".entry symplex_elementwise(\n    .param .u64 dst_ptr,\n    .param .u64 a_ptr,\n    .param .u64 b_ptr,\n    .param .u64 dim_n\n)\n{\n    .reg .u64 %rd_dst, %rd_a, %rd_b, %rd_n;\n    .reg .u64 %rd_idx;\n    .reg .f32 %f_a, %f_b, %f_result;\n    .reg .pred %p_in_bounds;\n\n    // Load parameters\n    ld.param.u64 %rd_dst, [dst_ptr];\n    ld.param.u64 %rd_a,   [a_ptr];\n    ld.param.u64 %rd_b,   [b_ptr];\n    ld.param.u64 %rd_n,   [dim_n];\n\n    // Compute global thread index\n    mov.u64 %rd_idx, %tid.x;\n    mov.u64 %rd_tmp, %ctaid.x;\n    mad.lo.u64 %rd_idx, %rd_tmp, %ntid.x, %rd_idx;\n\n    // Bounds check\n    setp.lt.u64 %p_in_bounds, %rd_idx, %rd_n;\n    @!%p_in_bounds bra $done;\n\n    // Load a[i] and b[i]\n    mad.lo.u64 %rd_a_off, %rd_idx, 4, %rd_a;\n    mad.lo.u64 %rd_b_off, %rd_idx, 4, %rd_b;\n    ld.global.f32 %f_a, [%rd_a_off];\n    ld.global.f32 %f_b, [%rd_b_off];\n\n    // Compute result\n    ",
    );
    reveal_strlit("    ");
    assert(ptx_text::ELEMENTWISE_1@.skip(882) =~= "    "@);
}

proof fn lemma_edges_of_elementwise_2()
    ensures
        begins_with(ptx_text::ELEMENTWISE_2@, " %f_result, %f_a, %f_b;"@),
{
    reveal_strlit(
        " %f_result, %f_a, %f_b;\n\n    // Store dst[i]\n    mad.lo.u64 %rd_dst_off, %rd_idx, 4, %rd_dst;\n    st.global.f32 [%rd_dst_off], %f_result;\n\n$done:\n    ret;\n}\n",
    );
    reveal_strlit(" %f_result, %f_a, %f_b;");
    assert(ptx_text::ELEMENTWISE_2@.take(23) =~= " %f_result, %f_a, %f_b;"@);
}

/// What the body of a kernel says, the whole text of the kernel says.
pub proof fn kernel_says_what_its_body_says(
    g: PtxGenerator,
    name: Seq<char>,
    body: Seq<char>,
    part: Seq<char>,
)
    requires
        says(body, part),
    ensures
        says(g.source(name, body), part),
{
    let (x, y) = choose|x: Seq<char>, y: Seq<char>| body == #[trigger] (x + part + y);
    let head = super::ptx::header_text(name, g.version(), g.target());
    assert(g.source(name, body) =~= (head + x) + part + y);
}

/// In the matrix product kernel the offset by which the outer loop advances is the number of terms
/// that its inner loop adds. So over all rounds every term of a dot product is added exactly once:
/// each `k` is the sum of a multiple of the step and a number below the count, in one way.
pub proof fn every_term_is_added_once(tile_m: usize, tile_n: usize, tile_k: usize, k: int)
    requires
        tile_k > 0,
        k >= 0,
    ensures
        ({
            let body = super::ptx::pieces_text(super::ptx::matmul_pieces(tile_m, tile_n, tile_k));
            &&& says(
                body,
                numbered("    add.u64 %rd_k_offset, %rd_k_offset, "@, tile_k as nat, ";"@),
            )
            &&& says(body, numbered("        setp.lt.u64 %p_bound_k, %rd_kk, "@, tile_k as nat, ";"@))
            &&& exists|round: int, kk: int|
                #![trigger round * tile_k, kk + 0]
                round >= 0 && 0 <= kk < tile_k && round * tile_k + kk == k
            &&& forall|round: int, kk: int, other: int, ll: int|
                #![trigger round * tile_k + kk, other * tile_k + ll]
                0 <= kk < tile_k && 0 <= ll < tile_k && round * tile_k + kk == k && other * tile_k
                    + ll == k ==> round == other && kk == ll
        }),
{
    let ps = super::ptx::matmul_pieces(tile_m, tile_n, tile_k);
    lemma_edges_of_matmul_11();
    lemma_edges_of_matmul_12();
    lemma_edges_of_matmul_13();
    lemma_three_pieces(ps, 20, "        setp.lt.u64 %p_bound_k, %rd_kk, "@, ";"@);
    lemma_three_pieces(ps, 22, "    add.u64 %rd_k_offset, %rd_k_offset, "@, ";"@);
    let t = tile_k as int;
    let q = k / t;
    let r = k % t;
    vstd::arithmetic::div_mod::lemma_fundamental_div_mod(k, t);
    vstd::arithmetic::div_mod::lemma_div_pos_is_pos(k, t);
    vstd::arithmetic::div_mod::lemma_mod_bound(k, t);
    assert(q * t == t * q) by (nonlinear_arith);
    assert(q >= 0 && 0 <= r < t && q * tile_k + (r + 0) == k);
    assert forall|round: int, kk: int, other: int, ll: int|
        #![trigger round * tile_k + kk, other * tile_k + ll]
        0 <= kk < tile_k && 0 <= ll < tile_k && round * tile_k + kk == k && other * tile_k + ll
            == k implies round == other && kk == ll by {
        vstd::arithmetic::div_mod::lemma_fundamental_div_mod_converse(k, t, round, kk);
        vstd::arithmetic::div_mod::lemma_fundamental_div_mod_converse(k, t, other, ll);
    }
}

/// A block of the matrix product kernel begins at the row that is its number times the height of a
/// tile and at the column that is its number times the width, the same sizes that its grid is
/// launched for; the blocks cover every row and column.
pub proof fn blocks_cover_the_product(
    tile_m: usize,
    tile_n: usize,
    tile_k: usize,
    m: usize,
    n: usize,
    row: int,
    col: int,
)
    requires
        launch::blocks_fit(n, tile_n as u32),
        launch::blocks_fit(m, tile_m as u32),
        m <= u32::MAX,
        n <= u32::MAX,
        0 < tile_m <= u32::MAX,
        0 < tile_n <= u32::MAX,
        0 <= row < m,
        0 <= col < n,
    ensures
        ({
            let body = super::ptx::pieces_text(super::ptx::matmul_pieces(tile_m, tile_n, tile_k));
            &&& says(body, numbered("    mul.lo.u64 %rd_row, %rd_row, "@, tile_m as nat, ";"@))
            &&& says(body, numbered("    mul.lo.u64 %rd_col, %rd_col, "@, tile_n as nat, ";"@))
            &&& says(
                body,
                numbered("    // row = blockIdx.y * "@, tile_m as nat, " + threadIdx.y"@),
            )
            &&& says(
                body,
                numbered("    // col = blockIdx.x * "@, tile_n as nat, " + threadIdx.x"@),
            )
            &&& row < launch::blocks_for(m as int, tile_m as int) * tile_m
            &&& col < launch::blocks_for(n as int, tile_n as int) * tile_n
        }),
{
    let ps = super::ptx::matmul_pieces(tile_m, tile_n, tile_k);
    lemma_edges_of_matmul_3();
    lemma_edges_of_matmul_4();
    lemma_edges_of_matmul_5();
    lemma_edges_of_matmul_6();
    lemma_edges_of_matmul_7();
    lemma_three_pieces(ps, 4, "    // row = blockIdx.y * "@, " + threadIdx.y"@);
    lemma_three_pieces(ps, 6, "    mul.lo.u64 %rd_row, %rd_row, "@, ";"@);
    lemma_three_pieces(ps, 8, "    // col = blockIdx.x * "@, " + threadIdx.x"@);
    lemma_three_pieces(ps, 10, "    mul.lo.u64 %rd_col, %rd_col, "@, ";"@);
    lemma_blocks_cover(m as int, tile_m as int);
    lemma_blocks_cover(n as int, tile_n as int);
}

proof fn lemma_blocks_cover(n: int, tile: int)
    requires
        n >= 0,
        tile > 0,
    ensures
        launch::blocks_for(n, tile) * tile >= n,
{
    let x = n + tile - 1;
    let q = x / tile;
    vstd::arithmetic::div_mod::lemma_fundamental_div_mod(x, tile);
    vstd::arithmetic::div_mod::lemma_mod_bound(x, tile);
    assert(q * tile == tile * q) by (nonlinear_arith);
}

/// The tiles of the matrix product kernel are read with the strides with which they were written:
/// rows of the left tile have the depth, rows of the right one the width. Both fit the shared
/// memory that is set aside for them, four bytes for each element.
pub proof fn tiles_are_read_as_written(
    tile_m: usize,
    tile_n: usize,
    tile_k: usize,
    row: int,
    col: int,
    kk: int,
)
    requires
        tile_m * tile_k * 4 + tile_k * tile_n * 4 <= usize::MAX,
        0 <= row < tile_m,
        0 <= col < tile_n,
        0 <= kk < tile_k,
    ensures
        ({
            let body = super::ptx::pieces_text(super::ptx::matmul_pieces(tile_m, tile_n, tile_k));
            let left = (4 * (tile_m * tile_k)) as nat;
            let right = (4 * (tile_k * tile_n)) as nat;
            &&& says(body, numbered("    .shared .align 128 .b8 smem_A["@, left, "];"@))
            &&& says(body, numbered("    .shared .align 128 .b8 smem_B["@, right, "];"@))
            &&& says(
                body,
                numbered("        mad.lo.u64 %rd_smem_off, %tid.y, "@, tile_k as nat, ", %tid.x;"@),
            )
            &&& says(
                body,
                numbered("        mad.lo.u64 %rd_sa_off, %tid.y, "@, tile_k as nat, ", %rd_kk;"@),
            )
            &&& says(
                body,
                numbered("        mad.lo.u64 %rd_smem_off_b, %tid.y, "@, tile_n as nat, ", %tid.x;"@),
            )
            &&& says(
                body,
                numbered("        mad.lo.u64 %rd_sb_off, %rd_kk, "@, tile_n as nat, ", %tid.x;"@),
            )
            &&& 4 * (row * tile_k + kk) + 4 <= left
            &&& 4 * (kk * tile_n + col) + 4 <= right
        }),
{
    let ps = super::ptx::matmul_pieces(tile_m, tile_n, tile_k);
    lemma_edges_of_matmul_1();
    lemma_edges_of_matmul_2();
    lemma_edges_of_matmul_3();
    lemma_edges_of_matmul_7();
    lemma_edges_of_matmul_8();
    lemma_edges_of_matmul_9();
    lemma_edges_of_matmul_10();
    lemma_edges_of_matmul_11();
    assert(tile_m * tile_k >= 0) by (nonlinear_arith);
    assert(tile_k * tile_n >= 0) by (nonlinear_arith);
    lemma_three_pieces(ps, 0, "    .shared .align 128 .b8 smem_A["@, "];"@);
    lemma_three_pieces(ps, 2, "    .shared .align 128 .b8 smem_B["@, "];"@);
    lemma_three_pieces(ps, 12, "        mad.lo.u64 %rd_smem_off, %tid.y, "@, ", %tid.x;"@);
    lemma_three_pieces(ps, 14, "        mad.lo.u64 %rd_smem_off_b, %tid.y, "@, ", %tid.x;"@);
    lemma_three_pieces(ps, 16, "        mad.lo.u64 %rd_sa_off, %tid.y, "@, ", %rd_kk;"@);
    lemma_three_pieces(ps, 18, "        mad.lo.u64 %rd_sb_off, %rd_kk, "@, ", %tid.x;"@);
    assert(row * tile_k + kk + 1 <= tile_m * tile_k) by (nonlinear_arith)
        requires
            0 <= row < tile_m,
            0 <= kk < tile_k,
    ;
    assert(kk * tile_n + col + 1 <= tile_k * tile_n) by (nonlinear_arith)
        requires
            0 <= kk < tile_k,
            0 <= col < tile_n,
    ;
}

/// The elementwise kernel applies the operator that it was asked for to both elements, in their
/// order; an operator that it has no instruction for adds.
pub proof fn elementwise_kernel_applies_the_operator(op: BinOpKind)
    ensures
        ({
            let body = super::ptx::pieces_text(super::ptx::elementwise_pieces(op));
            let name = if op == BinOpKind::Sub {
                "sub.f32"@
            } else if op == BinOpKind::Mul {
                "mul.f32"@
            } else if op == BinOpKind::Div {
                "div.rn.f32"@
            } else if op == BinOpKind::Min {
                "min.f32"@
            } else if op == BinOpKind::Max {
                "max.f32"@
            } else {
                "add.f32"@
            };
            says(body, "    "@ + name + " %f_result, %f_a, %f_b;"@)
        }),
{
    let ps = super::ptx::elementwise_pieces(op);
    lemma_edges_of_elementwise_1();
    lemma_edges_of_elementwise_2();
    lemma_three_pieces(ps, 0, "    "@, " %f_result, %f_a, %f_b;"@);
}

/// The reduction kernel combines by the operator that it was asked for, and a thread without an
/// element brings what changes nothing: positive infinity into a minimum, negative infinity into
/// a maximum, and zero into a sum. Its loop runs over the 256 threads of a block, for each of
/// which four bytes are shared.
pub proof fn reduction_kernel_combines(op: BinOpKind)
    ensures
        ({
            let body = super::ptx::pieces_text(super::ptx::reduction_pieces(op));
            let name = if op == BinOpKind::Min {
                "min.f32"@
            } else if op == BinOpKind::Max {
                "max.f32"@
            } else {
                "add.f32"@
            };
            let neutral = if op == BinOpKind::Min {
                "0f7F800000"@
            } else if op == BinOpKind::Max {
                "0fFF800000"@
            } else {
                "0.0"@
            };
            &&& says(body, "            "@ + name + " %f_val, %f_val, %f_other;"@)
            &&& says(body, "        mov.f32 %f_val, "@ + neutral + ";"@)
            &&& says(body, numbered("        setp.lt.u64 %p_active, %rd_stride, "@, 256, ";"@))
            &&& says(body, numbered("        setp.lt.u64 %p_active, %rd_other_idx, "@, 256, ";"@))
            &&& says(body, numbered("    .shared .align 128 .b8 smem["@, 4 * 256, "];"@))
        }),
{
    let ps = super::ptx::reduction_pieces(op);
    lemma_edges_of_reduction_1();
    lemma_edges_of_reduction_2();
    lemma_edges_of_reduction_3();
    lemma_edges_of_reduction_4();
    lemma_edges_of_reduction_5();
    lemma_edges_of_reduction_6();
    lemma_three_pieces(ps, 0, "    .shared .align 128 .b8 smem["@, "];"@);
    lemma_three_pieces(ps, 2, "        mov.f32 %f_val, "@, ";"@);
    lemma_three_pieces(ps, 4, "        setp.lt.u64 %p_active, %rd_stride, "@, ";"@);
    lemma_three_pieces(ps, 6, "        setp.lt.u64 %p_active, %rd_other_idx, "@, ";"@);
    lemma_three_pieces(ps, 8, "            "@, " %f_val, %f_val, %f_other;"@);
}

/// The convolution kernel has one thread for each output position and one round for each input of
/// a position.
pub proof fn convolution_kernel_counts(positions: u64, inputs: u64)
    ensures
        ({
            let body = super::ptx::pieces_text(super::ptx::conv2d_pieces(positions, inputs));
            &&& says(
                body,
                numbered("    setp.lt.u64 %p_valid, %rd_out_idx, "@, positions as nat, ";"@),
            )
            &&& says(
                body,
                numbered("    setp.lt.u64 %p_valid, %rd_k_idx, "@, inputs as nat, ";"@),
            )
        }),
{
    let ps = super::ptx::conv2d_pieces(positions, inputs);
    lemma_edges_of_conv2d_1();
    lemma_edges_of_conv2d_2();
    lemma_edges_of_conv2d_3();
    lemma_three_pieces(ps, 0, "    setp.lt.u64 %p_valid, %rd_out_idx, "@, ";"@);
    lemma_three_pieces(ps, 2, "    setp.lt.u64 %p_valid, %rd_k_idx, "@, ";"@);
}

/// An instruction kernel declares one parameter for each number below the count.
pub proof fn parameters_are_declared(count: nat, i: nat)
    requires
        i < count,
    ensures
        says(
            super::ptx::param_lines(count),
            numbered("    .param .u64 param_"@, i, ",\n"@),
        ),
    decreases count,
{
    let before = super::ptx::param_lines((count - 1) as nat);
    let line = numbered("    .param .u64 param_"@, (count - 1) as nat, ",\n"@);
    assert(super::ptx::param_lines(count) =~= before + line);
    if i == count - 1 {
        assert(super::ptx::param_lines(count) =~= before + line + Seq::<char>::empty());
    } else {
        parameters_are_declared((count - 1) as nat, i);
        let part = numbered("    .param .u64 param_"@, i, ",\n"@);
        let (x, y) = choose|x: Seq<char>, y: Seq<char>| before == #[trigger] (x + part + y);
        assert(super::ptx::param_lines(count) =~= x + part + (y + line));
    }
}

/// The lines of two instruction lists in a row are those of the first followed by those of the
/// second; an operator names its destination and both operands in their order, and a load its
/// slot.
pub proof fn instructions_are_listed_in_order(a: Seq<Instr>, b: Seq<Instr>, i: Instr)
    ensures
        super::ptx::instr_lines(a + b) == super::ptx::instr_lines(a) + super::ptx::instr_lines(b),
        super::ptx::instr_lines(seq![i]) == match i {
            Instr::BinOp(d, op, l, r) => "    // BinOp: slot"@ + crate::text::decimal(d as nat)
                + " = slot"@ + crate::text::decimal(l as nat) + " "@ + elementwise_mnemonic(op)@
                + " slot"@ + crate::text::decimal(r as nat) + "\n"@,
            Instr::UnOp(_, _, _) => "    // UnOp\n"@,
            Instr::LoadF64(slot, _) => numbered(
                "    // LoadF64(slot="@,
                slot as nat,
                ", ...) — load from param\n"@,
            ),
            _ => Seq::empty(),
        },
    decreases b.len(),
{
    if b.len() == 0 {
        assert(a + b =~= a);
        assert(super::ptx::instr_lines(a) + super::ptx::instr_lines(b)
            =~= super::ptx::instr_lines(a));
    } else {
        instructions_are_listed_in_order(a, b.drop_last(), i);
        assert((a + b).drop_last() =~= a + b.drop_last());
        assert(super::ptx::instr_lines(a + b) =~= super::ptx::instr_lines(a)
            + super::ptx::instr_lines(b));
    }
    assert(seq![i].drop_last() =~= Seq::<Instr>::empty());
    reveal_with_fuel(super::ptx::instr_lines, 2);
    assert(super::ptx::instr_lines(seq![i]) =~= super::ptx::instr_line(i));
}

/// The text of an instruction kernel is its name, its parameters, the fixed parameters and the
/// computation of the index, the lines of its instructions, and a return.
pub proof fn instruction_kernel_is_assembled(s: Seq<Instr>, count: nat)
    ensures
        exists|middle: Seq<char>|
            super::ptx::ir_body(s, count) == ".entry symplex_ir_kernel(\n"@
                + super::ptx::param_lines(count) + #[trigger] (middle + super::ptx::instr_lines(s))
                + "\n    ret;\n}\n"@,
{
    let middle = ptx_text::IR_PROLOGUE@;
    assert(super::ptx::ir_body(s, count) =~= ".entry symplex_ir_kernel(\n"@
        + super::ptx::param_lines(count) + (middle + super::ptx::instr_lines(s))
        + "\n    ret;\n}\n"@);
}

/// A newer architecture never gets an older language version, and one that is not known gets the
/// oldest.
pub proof fn versions_of_architectures(arch: Seq<char>)
    ensures
        super::ptx::version_for("sm_90"@) == "8.5"@,
        super::ptx::version_for("sm_100"@) == "8.5"@,
        arch == "sm_80"@ || arch == "sm_86"@ || arch == "sm_89"@ || arch == "sm_90a"@
            ==> super::ptx::version_for(arch) == "8.0"@,
        super::ptx::version_for("sm_75"@) == "7.5"@,
        arch != "sm_90"@ && arch != "sm_100"@ && arch != "sm_80"@ && arch != "sm_86"@ && arch
            != "sm_89"@ && arch != "sm_90a"@ && arch != "sm_75"@ ==> super::ptx::version_for(arch)
            == "7.0"@,
{
    reveal_strlit("sm_90");
    reveal_strlit("sm_100");
    reveal_strlit("sm_80");
    reveal_strlit("sm_86");
    reveal_strlit("sm_89");
    reveal_strlit("sm_90a");
    reveal_strlit("sm_75");
    assert("sm_80"@[3] == '8' && "sm_90"@[3] == '9');
    assert("sm_86"@[4] == '6' && "sm_89"@[4] == '9');
    assert("sm_90a"@.len() == 6 && "sm_100"@.len() == 6 && "sm_90"@.len() == 5);
    assert("sm_100"@[3] == '1' && "sm_90a"@[3] == '9');
    assert("sm_75"@[3] == '7');
}

/// A kernel carries the text, the name and the estimate that it is described by, and its size is
/// that of its text.
pub proof fn kernel_is_what_describes_it(
    k: CudaCompiledKernel,
    source: Seq<char>,
    name: Seq<char>,
    flops: FlopCount,
)
    requires
        super::ptx::describes(k, source, name, flops),
    ensures
        k.ptx_source@ == source,
        k.kernel_name@ == name,
        k.flops == flops,
        k.ptx_size == vstd::utf8::encode_utf8(k.ptx_source@).len() as usize,
{
}

/// The lines in front of a kernel name it, the language version and the target.
pub proof fn headers_name_version_and_target(
    name: Seq<char>,
    version: Seq<char>,
    target: Seq<char>,
)
    ensures
        super::ptx::header_text(name, version, target) == "// PTX kernel: "@ + name
            + "\n// Generated by SympleX CUDA Backend\n.version "@ + version + "\n.target "@ + target
            + "\n.address_size 64\n\n"@,
{
}

/// The text for an architecture is the header for it, with the version that the architecture has,
/// and the body.
pub proof fn sources_are_for_their_architecture(arch: Seq<char>, name: Seq<char>, body: Seq<char>)
    ensures
        super::runtime::source_for(arch, name, body) == super::ptx::header_text(
            name,
            super::ptx::version_for(arch),
            arch,
        ) + body,
{
}

/// What a message says of an error names its kind and then what the error holds.
pub proof fn messages_name_their_error(m: String)
    ensures
        super::device::error_text(CudaError::NoGpuFound(m)) == "No CUDA GPU found: "@ + m@,
        super::device::error_text(CudaError::DriverError(m)) == "CUDA driver error: "@ + m@,
        super::device::error_text(CudaError::PtxCompileError(m)) == "PTX compilation error: "@ + m@,
        super::device::error_text(CudaError::InvalidParam(m)) == "Invalid parameter: "@ + m@,
        super::device::error_text(CudaError::OutOfMemory(m)) == "GPU out of memory: "@ + m@,
        super::device::error_text(CudaError::ExecutionError(m)) == "Kernel execution error: "@ + m@,
        super::device::error_text(CudaError::FeatureNotEnabled)
            == "CUDA feature not enabled. Rebuild with --features cuda"@,
{
}

/// Cores of a multiprocessor: eight in the first two generations, 192 in the third, 64 in the
/// seventh and in the first revisions of the sixth and the eighth, and 128 in all others.
pub proof fn cores_by_generation(major: u32, minor: u32)
    ensures
        cores_per_sm(major, minor) == 8 <==> major == 1 || major == 2,
        cores_per_sm(major, minor) == 192 <==> major == 3,
        cores_per_sm(major, minor) == 64 <==> major == 7 || ((major == 6 || major == 8) && minor
            == 0),
        cores_per_sm(major, minor) == 128 <==> major == 0 || major == 4 || major == 5 || major > 8
            || ((major == 6 || major == 8) && minor != 0),
{
}

/// A launch has a block more only where it needs one: no items need none, and one item more than
/// whole blocks needs one block more.
pub proof fn blocks_by_items(n: int, size: int)
    requires
        0 <= n,
        0 < size,
    ensures
        launch::blocks_for(0, size) == 0,
        launch::blocks_for(n * size, size) == n,
        launch::blocks_for(n * size + 1, size) == n + 1,
{
    assert(0 + size - 1 < size);
    vstd::arithmetic::div_mod::lemma_basic_div(size - 1, size);
    vstd::arithmetic::div_mod::lemma_fundamental_div_mod_converse(n * size + size - 1, size, n, size - 1);
    assert((n + 1) * size == n * size + size) by (nonlinear_arith);
    vstd::arithmetic::div_mod::lemma_fundamental_div_mod_converse(n * size + 1 + size - 1, size, n + 1, 0);
}

} // verus!
