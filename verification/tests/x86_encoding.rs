use iced_x86::code_asm::{
    CodeAssembler, dword_ptr, ecx, qword_ptr, r10, r10d, r11, r11d, r12, r13, r14, r15, r8, r8d,
    r9, rax, rbp, rbx, rcx, rdi, rdx, rsi, rsp, xmm0, xmm1, xmm2, ymm0, ymm1, ymm2, ymm3, ymm4,
    ymm5, ymm6, ymm7, ymmword_ptr, zmm0, zmm1, zmm2, zmm3, zmm4, zmm5, zmm6, zmm7, zmm8,
    zmmword_ptr,
};
use symplex_engine::x86_emitter::kernel::CompiledKernel;

// Each kernel is written down a second time with the named methods of the assembler, which choose
// the encodings themselves, and the bytes must agree.

fn reference_matmul() -> Vec<u8> {
    let mut a = CodeAssembler::new(64).unwrap();
    a.push(rbp).unwrap();
    a.mov(rbp, rsp).unwrap();
    a.push(rbx).unwrap();
    a.push(r12).unwrap();
    a.push(r13).unwrap();
    a.push(r14).unwrap();
    a.push(r15).unwrap();
    a.mov(r10, rcx).unwrap();
    a.mov(r11, r9).unwrap();
    a.mov(r12, rdi).unwrap();
    a.mov(r13, rsi).unwrap();
    a.mov(r14, rdx).unwrap();
    a.mov(r15, r8).unwrap();
    a.xorps(xmm0, xmm0).unwrap();
    a.xor(rdi, rdi).unwrap();
    let mut z_i = a.create_label();
    let mut z_i_out = a.create_label();
    a.set_label(&mut z_i).unwrap();
    a.cmp(rdi, r10).unwrap();
    a.jge(z_i_out).unwrap();
    a.xor(rsi, rsi).unwrap();
    let mut z_j = a.create_label();
    let mut z_j_out = a.create_label();
    a.set_label(&mut z_j).unwrap();
    a.cmp(rsi, r15).unwrap();
    a.jge(z_j_out).unwrap();
    a.mov(rax, rdi).unwrap();
    a.imul_2(rax, r15).unwrap();
    a.add(rax, rsi).unwrap();
    a.shl(rax, 2).unwrap();
    a.add(rax, r14).unwrap();
    a.movss(dword_ptr(rax), xmm0).unwrap();
    a.add(rsi, 1).unwrap();
    a.jmp(z_j).unwrap();
    a.set_label(&mut z_j_out).unwrap();
    a.add(rdi, 1).unwrap();
    a.jmp(z_i).unwrap();
    a.set_label(&mut z_i_out).unwrap();
    a.xor(rdi, rdi).unwrap();
    let mut m_i = a.create_label();
    let mut m_i_out = a.create_label();
    a.set_label(&mut m_i).unwrap();
    a.cmp(rdi, r10).unwrap();
    a.jge(m_i_out).unwrap();
    a.xor(r9, r9).unwrap();
    let mut m_k = a.create_label();
    let mut m_k_out = a.create_label();
    a.set_label(&mut m_k).unwrap();
    a.cmp(r9, r11).unwrap();
    a.jge(m_k_out).unwrap();
    a.mov(rax, rdi).unwrap();
    a.imul_2(rax, r11).unwrap();
    a.add(rax, r9).unwrap();
    a.shl(rax, 2).unwrap();
    a.add(rax, r12).unwrap();
    a.movss(xmm0, dword_ptr(rax)).unwrap();
    a.xor(r8, r8).unwrap();
    let mut m_j = a.create_label();
    let mut m_j_out = a.create_label();
    a.set_label(&mut m_j).unwrap();
    a.cmp(r8, r15).unwrap();
    a.jge(m_j_out).unwrap();
    a.mov(rax, rdi).unwrap();
    a.imul_2(rax, r15).unwrap();
    a.add(rax, r8).unwrap();
    a.shl(rax, 2).unwrap();
    a.add(rax, r14).unwrap();
    a.movss(xmm1, dword_ptr(rax)).unwrap();
    a.mov(rax, r9).unwrap();
    a.imul_2(rax, r15).unwrap();
    a.add(rax, r8).unwrap();
    a.shl(rax, 2).unwrap();
    a.add(rax, r13).unwrap();
    a.movss(xmm2, dword_ptr(rax)).unwrap();
    a.mulss(xmm2, xmm0).unwrap();
    a.addss(xmm1, xmm2).unwrap();
    a.mov(rax, rdi).unwrap();
    a.imul_2(rax, r15).unwrap();
    a.add(rax, r8).unwrap();
    a.shl(rax, 2).unwrap();
    a.add(rax, r14).unwrap();
    a.movss(dword_ptr(rax), xmm1).unwrap();
    a.add(r8, 1).unwrap();
    a.jmp(m_j).unwrap();
    a.set_label(&mut m_j_out).unwrap();
    a.add(r9, 1).unwrap();
    a.jmp(m_k).unwrap();
    a.set_label(&mut m_k_out).unwrap();
    a.add(rdi, 1).unwrap();
    a.jmp(m_i).unwrap();
    a.set_label(&mut m_i_out).unwrap();
    a.xor(rax, rax).unwrap();
    a.pop(r15).unwrap();
    a.pop(r14).unwrap();
    a.pop(r13).unwrap();
    a.pop(r12).unwrap();
    a.pop(rbx).unwrap();
    a.pop(rbp).unwrap();
    a.ret().unwrap();
    a.assemble(0x10000).unwrap()
}

fn reference_elementwise(op: u8) -> Vec<u8> {
    let mut a = CodeAssembler::new(64).unwrap();
    a.push(rbp).unwrap();
    a.mov(rbp, rsp).unwrap();
    a.push(rbx).unwrap();
    a.push(r12).unwrap();
    a.mov(r10, rdi).unwrap();
    a.mov(r11, rsi).unwrap();
    a.mov(r12, rdx).unwrap();
    a.mov(rbx, rcx).unwrap();
    a.xor(rcx, rcx).unwrap();
    a.mov(rax, rbx).unwrap();
    a.shl(rax, 2).unwrap();
    let mut lp = a.create_label();
    let mut lp_out = a.create_label();
    a.set_label(&mut lp).unwrap();
    a.cmp(rcx, rax).unwrap();
    a.jge(lp_out).unwrap();
    a.lea(rdx, qword_ptr(r11 + rcx)).unwrap();
    a.movss(xmm0, dword_ptr(rdx)).unwrap();
    a.lea(rdx, qword_ptr(r12 + rcx)).unwrap();
    a.movss(xmm1, dword_ptr(rdx)).unwrap();
    match op {
        0 => { a.addss(xmm0, xmm1).unwrap();
    }
        1 => { a.subss(xmm0, xmm1).unwrap();
    }
        2 => { a.mulss(xmm0, xmm1).unwrap();
    }
        3 => { a.divss(xmm0, xmm1).unwrap();
    }
        4 => { a.minss(xmm0, xmm1).unwrap();
    }
        5 => { a.maxss(xmm0, xmm1).unwrap();
    }
        _ => {}
    }
    a.lea(rdx, qword_ptr(r10 + rcx)).unwrap();
    a.movss(dword_ptr(rdx), xmm0).unwrap();
    a.add(rcx, 4).unwrap();
    a.jmp(lp).unwrap();
    a.set_label(&mut lp_out).unwrap();
    a.xor(rax, rax).unwrap();
    a.pop(r12).unwrap();
    a.pop(rbx).unwrap();
    a.pop(rbp).unwrap();
    a.ret().unwrap();
    a.assemble(0x10000).unwrap()
}

fn reference_matmul_avx2() -> Vec<u8> {
    let mut a = CodeAssembler::new(64).unwrap();
    a.push(rbp).unwrap();
    a.mov(rbp, rsp).unwrap();
    a.push(rbx).unwrap();
    a.push(r12).unwrap();
    a.push(r13).unwrap();
    a.push(r14).unwrap();
    a.push(r15).unwrap();
    a.mov(r10, rcx).unwrap();
    a.mov(r11, r9).unwrap();
    a.mov(r12, rdi).unwrap();
    a.mov(r13, rsi).unwrap();
    a.mov(r14, rdx).unwrap();
    a.mov(r15, r8).unwrap();
    a.vxorps(ymm0, ymm0, ymm0).unwrap();
    a.mov(rdi, r10).unwrap();
    a.imul_2(rdi, r15).unwrap();
    a.xor(rsi, rsi).unwrap();
    let mut zvec_loop = a.create_label();
    let mut zvec_exit = a.create_label();
    a.set_label(&mut zvec_loop).unwrap();
    a.mov(rax, rdi).unwrap();
    a.shl(rax, 2).unwrap();
    a.sub(rax, 32).unwrap();
    a.cmp(rsi, rax).unwrap();
    a.jge(zvec_exit).unwrap();
    a.lea(rax, qword_ptr(r14 + rsi)).unwrap();
    a.vmovups(ymmword_ptr(rax), ymm0).unwrap();
    a.add(rsi, 32).unwrap();
    a.jmp(zvec_loop).unwrap();
    a.set_label(&mut zvec_exit).unwrap();
    a.mov(rax, rdi).unwrap();
    a.shl(rax, 2).unwrap();
    let mut zsc_loop = a.create_label();
    let mut zsc_exit = a.create_label();
    a.set_label(&mut zsc_loop).unwrap();
    a.cmp(rsi, rax).unwrap();
    a.jge(zsc_exit).unwrap();
    a.lea(rbx, qword_ptr(r14 + rsi)).unwrap();
    a.movss(dword_ptr(rbx), xmm0).unwrap();
    a.add(rsi, 4).unwrap();
    a.jmp(zsc_loop).unwrap();
    a.set_label(&mut zsc_exit).unwrap();
    a.xor(rdi, rdi).unwrap();
    let mut mi_loop = a.create_label();
    let mut mi_exit = a.create_label();
    a.set_label(&mut mi_loop).unwrap();
    a.cmp(rdi, r10).unwrap();
    a.jge(mi_exit).unwrap();
    a.xor(r9, r9).unwrap();
    let mut mk_loop = a.create_label();
    let mut mk_exit = a.create_label();
    a.set_label(&mut mk_loop).unwrap();
    a.cmp(r9, r11).unwrap();
    a.jge(mk_exit).unwrap();
    a.mov(rax, rdi).unwrap();
    a.imul_2(rax, r11).unwrap();
    a.add(rax, r9).unwrap();
    a.shl(rax, 2).unwrap();
    a.add(rax, r12).unwrap();
    a.vbroadcastss(ymm0, dword_ptr(rax)).unwrap();
    a.xor(r8, r8).unwrap();
    a.mov(rbx, r15).unwrap();
    a.shl(rbx, 2).unwrap();
    let mut mj_vec = a.create_label();
    let mut mj_vec_exit = a.create_label();
    a.set_label(&mut mj_vec).unwrap();
    a.mov(rax, rbx).unwrap();
    a.sub(rax, 32).unwrap();
    a.cmp(r8, rax).unwrap();
    a.jge(mj_vec_exit).unwrap();
    a.mov(rax, r9).unwrap();
    a.imul_2(rax, r15).unwrap();
    a.shl(rax, 2).unwrap();
    a.add(rax, r8).unwrap();
    a.add(rax, r13).unwrap();
    a.vmovups(ymm2, ymmword_ptr(rax)).unwrap();
    a.mov(rax, rdi).unwrap();
    a.imul_2(rax, r15).unwrap();
    a.shl(rax, 2).unwrap();
    a.add(rax, r8).unwrap();
    a.add(rax, r14).unwrap();
    a.vmovups(ymm1, ymmword_ptr(rax)).unwrap();
    a.vfmadd231ps(ymm1, ymm0, ymm2).unwrap();
    a.mov(rax, rdi).unwrap();
    a.imul_2(rax, r15).unwrap();
    a.shl(rax, 2).unwrap();
    a.add(rax, r8).unwrap();
    a.add(rax, r14).unwrap();
    a.vmovups(ymmword_ptr(rax), ymm1).unwrap();
    a.add(r8, 32).unwrap();
    a.jmp(mj_vec).unwrap();
    a.set_label(&mut mj_vec_exit).unwrap();
    let mut mj_sc_exit = a.create_label();
    a.cmp(r8, rbx).unwrap();
    a.jge(mj_sc_exit).unwrap();
    a.mov(rax, r9).unwrap();
    a.imul_2(rax, r15).unwrap();
    a.shl(rax, 2).unwrap();
    a.add(rax, r8).unwrap();
    a.add(rax, r13).unwrap();
    a.movss(xmm2, dword_ptr(rax)).unwrap();
    a.mov(rax, rdi).unwrap();
    a.imul_2(rax, r15).unwrap();
    a.shl(rax, 2).unwrap();
    a.add(rax, r8).unwrap();
    a.add(rax, r14).unwrap();
    a.movss(xmm1, dword_ptr(rax)).unwrap();
    a.mulss(xmm2, xmm0).unwrap();
    a.addss(xmm1, xmm2).unwrap();
    a.mov(rax, rdi).unwrap();
    a.imul_2(rax, r15).unwrap();
    a.shl(rax, 2).unwrap();
    a.add(rax, r8).unwrap();
    a.add(rax, r14).unwrap();
    a.movss(dword_ptr(rax), xmm1).unwrap();
    a.add(r8, 4).unwrap();
    a.jmp(mj_vec_exit).unwrap();
    a.set_label(&mut mj_sc_exit).unwrap();
    a.add(r9, 1).unwrap();
    a.jmp(mk_loop).unwrap();
    a.set_label(&mut mk_exit).unwrap();
    a.add(rdi, 1).unwrap();
    a.jmp(mi_loop).unwrap();
    a.set_label(&mut mi_exit).unwrap();
    a.xor(rax, rax).unwrap();
    a.vzeroupper().unwrap();
    a.pop(r15).unwrap();
    a.pop(r14).unwrap();
    a.pop(r13).unwrap();
    a.pop(r12).unwrap();
    a.pop(rbx).unwrap();
    a.pop(rbp).unwrap();
    a.ret().unwrap();
    a.assemble(0x10000).unwrap()
}

fn reference_matmul_avx512(m: usize, n: usize, k: usize) -> Vec<u8> {
    let mut a = CodeAssembler::new(64).unwrap();
    a.push(rbp).unwrap();
    a.mov(rbp, rsp).unwrap();
    a.push(rbx).unwrap();
    a.push(r12).unwrap();
    a.push(r13).unwrap();
    a.push(r14).unwrap();
    a.push(r15).unwrap();
    a.sub(rsp, 64).unwrap();
    a.mov(r12, rdi).unwrap();
    a.mov(r13, rsi).unwrap();
    a.mov(r14, rdx).unwrap();
    let n4 = (n as u64).wrapping_mul(4);
    a.mov(r15, n4).unwrap();
    a.vxorps(zmm0, zmm0, zmm0).unwrap();
    let total_bytes = (m as u64) * (n as u64) * 4;
    a.xor(rsi, rsi).unwrap();
    let mut zvec_loop = a.create_label();
    let mut zvec_exit = a.create_label();
    a.set_label(&mut zvec_loop).unwrap();
    a.mov(rax, total_bytes).unwrap();
    a.sub(rax, 64).unwrap();
    a.cmp(rsi, rax).unwrap();
    a.jge(zvec_exit).unwrap();
    a.lea(rax, qword_ptr(r14 + rsi)).unwrap();
    a.vmovups(zmmword_ptr(rax), zmm0).unwrap();
    a.add(rsi, 64).unwrap();
    a.jmp(zvec_loop).unwrap();
    a.set_label(&mut zvec_exit).unwrap();
    a.xorps(xmm0, xmm0).unwrap();
    a.mov(rax, total_bytes).unwrap();
    let mut zsc_loop = a.create_label();
    let mut zsc_exit = a.create_label();
    a.set_label(&mut zsc_loop).unwrap();
    a.cmp(rsi, rax).unwrap();
    a.jge(zsc_exit).unwrap();
    a.lea(rbx, qword_ptr(r14 + rsi)).unwrap();
    a.movss(dword_ptr(rbx), xmm0).unwrap();
    a.add(rsi, 4).unwrap();
    a.jmp(zsc_loop).unwrap();
    a.set_label(&mut zsc_exit).unwrap();
    a.mov(r10d, m as u32).unwrap();
    a.mov(r11d, k as u32).unwrap();
    a.xor(rdi, rdi).unwrap();
    let mut i_loop = a.create_label();
    let mut i_exit = a.create_label();
    a.set_label(&mut i_loop).unwrap();
    a.cmp(rdi, r10).unwrap();
    a.jge(i_exit).unwrap();
    a.mov(rdx, rdi).unwrap();
    a.imul_2(rdx, r11).unwrap();
    a.shl(rdx, 2).unwrap();
    let n64 = n / 64;
    a.xor(r8, r8).unwrap();
    if n64 > 0 {
        let mut j_block_loop = a.create_label();
        a.set_label(&mut j_block_loop).unwrap();
        a.vxorps(zmm0, zmm0, zmm0).unwrap();
        a.vxorps(zmm1, zmm1, zmm1).unwrap();
        a.vxorps(zmm2, zmm2, zmm2).unwrap();
        a.vxorps(zmm3, zmm3, zmm3).unwrap();
        a.xor(r9, r9).unwrap();
        let mut k_loop = a.create_label();
        let mut k_exit = a.create_label();
        a.set_label(&mut k_loop).unwrap();
        a.cmp(r9, r11).unwrap();
    a.jge(k_exit).unwrap();
        a.mov(rax, r9).unwrap();
    a.shl(rax, 2).unwrap();
        a.add(rax, rdx).unwrap();
    a.add(rax, r12).unwrap();
        a.vbroadcastss(zmm8, dword_ptr(rax)).unwrap();
        a.mov(rbx, r9).unwrap();
    a.imul_2(rbx, r15).unwrap();
        a.lea(rax, qword_ptr(r13 + rbx)).unwrap();
    a.add(rax, r8).unwrap();
        a.vmovups(zmm4, zmmword_ptr(rax)).unwrap();
        a.vmovups(zmm5, zmmword_ptr(rax + 64)).unwrap();
        a.vfmadd231ps(zmm0, zmm8, zmm4).unwrap();
        a.vmovups(zmm6, zmmword_ptr(rax + 128)).unwrap();
        a.vfmadd231ps(zmm1, zmm8, zmm5).unwrap();
        a.vmovups(zmm7, zmmword_ptr(rax + 192)).unwrap();
        a.vfmadd231ps(zmm2, zmm8, zmm6).unwrap();
        a.vfmadd231ps(zmm3, zmm8, zmm7).unwrap();
        a.add(r9, 1).unwrap();
    a.jmp(k_loop).unwrap();
        a.set_label(&mut k_exit).unwrap();
        a.mov(rax, rdi).unwrap();
    a.imul_2(rax, r15).unwrap();
        a.add(rax, r8).unwrap();
    a.add(rax, r14).unwrap();
        a.vmovups(zmmword_ptr(rax), zmm0).unwrap();
        a.vmovups(zmmword_ptr(rax + 64), zmm1).unwrap();
        a.vmovups(zmmword_ptr(rax + 128), zmm2).unwrap();
        a.vmovups(zmmword_ptr(rax + 192), zmm3).unwrap();
        a.add(r8, 256).unwrap();
        a.cmp(r8, ((n64 * 256) as u32) as i32).unwrap();
        a.jl(j_block_loop).unwrap();
    }
    let n16_rem = (n % 64) / 16;
    if n16_rem > 0 {
        for j16 in 0..n16_rem {
            let j_offset = (n64 * 64 + j16 * 16) * 4;
            a.vxorps(zmm0, zmm0, zmm0).unwrap();
            a.xor(r9, r9).unwrap();
            let mut k16_loop = a.create_label();
            let mut k16_exit = a.create_label();
            a.set_label(&mut k16_loop).unwrap();
            a.cmp(r9, r11).unwrap();
    a.jge(k16_exit).unwrap();
            a.mov(rax, r9).unwrap();
    a.shl(rax, 2).unwrap();
            a.add(rax, rdx).unwrap();
    a.add(rax, r12).unwrap();
            a.vbroadcastss(zmm8, dword_ptr(rax)).unwrap();
            a.mov(rbx, r9).unwrap();
    a.imul_2(rbx, r15).unwrap();
            a.add(rbx, j_offset as i32).unwrap();
    a.add(rbx, r13).unwrap();
            a.vmovups(zmm4, zmmword_ptr(rbx)).unwrap();
            a.vfmadd231ps(zmm0, zmm8, zmm4).unwrap();
            a.add(r9, 1).unwrap();
    a.jmp(k16_loop).unwrap();
            a.set_label(&mut k16_exit).unwrap();
            a.mov(rax, rdi).unwrap();
    a.imul_2(rax, r15).unwrap();
            a.add(rax, j_offset as i32).unwrap();
    a.add(rax, r14).unwrap();
            a.vmovups(zmmword_ptr(rax), zmm0).unwrap();
        }
    }
    let n_scalar_start = n64 * 64 + n16_rem * 16;
    let n_scalar = n % 16;
    if n_scalar > 0 {
        let j_scalar_byte = n_scalar_start * 4;
        a.xor(r8, r8).unwrap();
        a.mov(ecx, n_scalar as u32).unwrap();
        let mut scalar_j_loop = a.create_label();
        let mut scalar_j_exit = a.create_label();
        a.set_label(&mut scalar_j_loop).unwrap();
        a.cmp(r8d, ecx).unwrap();
    a.jge(scalar_j_exit).unwrap();
        a.xorps(xmm0, xmm0).unwrap();
        a.xor(r9, r9).unwrap();
        let mut sk_loop = a.create_label();
        let mut sk_exit = a.create_label();
        a.set_label(&mut sk_loop).unwrap();
        a.cmp(r9, r11).unwrap();
    a.jge(sk_exit).unwrap();
        a.mov(rax, r9).unwrap();
    a.shl(rax, 2).unwrap();
        a.add(rax, rdx).unwrap();
    a.add(rax, r12).unwrap();
        a.movss(xmm1, dword_ptr(rax)).unwrap();
        a.mov(rbx, r9).unwrap();
    a.imul_2(rbx, r15).unwrap();
        a.add(rbx, j_scalar_byte as i32).unwrap();
        a.mov(rax, r8).unwrap();
    a.shl(rax, 2).unwrap();
        a.add(rbx, rax).unwrap();
        a.add(rbx, r13).unwrap();
        a.movss(xmm2, dword_ptr(rbx)).unwrap();
        a.mulss(xmm2, xmm1).unwrap();
        a.addss(xmm0, xmm2).unwrap();
        a.add(r9, 1).unwrap();
    a.jmp(sk_loop).unwrap();
        a.set_label(&mut sk_exit).unwrap();
        a.mov(rax, rdi).unwrap();
    a.imul_2(rax, r15).unwrap();
        a.add(rax, j_scalar_byte as i32).unwrap();
        a.mov(rbx, r8).unwrap();
    a.shl(rbx, 2).unwrap();
        a.add(rax, rbx).unwrap();
        a.add(rax, r14).unwrap();
        a.movss(dword_ptr(rax), xmm0).unwrap();
        a.add(r8, 1).unwrap();
    a.jmp(scalar_j_loop).unwrap();
        a.set_label(&mut scalar_j_exit).unwrap();
    }
    a.add(rdi, 1).unwrap();
    a.jmp(i_loop).unwrap();
    a.set_label(&mut i_exit).unwrap();
    a.vzeroall().unwrap();
    a.add(rsp, 64).unwrap();
    a.xor(rax, rax).unwrap();
    a.pop(r15).unwrap();
    a.pop(r14).unwrap();
    a.pop(r13).unwrap();
    a.pop(r12).unwrap();
    a.pop(rbx).unwrap();
    a.pop(rbp).unwrap();
    a.ret().unwrap();
    a.assemble(0x10000).unwrap()
}

fn reference_fused_matmul_bias_relu() -> Vec<u8> {
    let mut a = CodeAssembler::new(64).unwrap();
    a.push(rbp).unwrap();
    a.mov(rbp, rsp).unwrap();
    a.push(rbx).unwrap();
    a.push(r12).unwrap();
    a.push(r13).unwrap();
    a.push(r14).unwrap();
    a.push(r15).unwrap();
    a.mov(rax, qword_ptr(rbp + 16)).unwrap();
    a.mov(rbx, rax).unwrap();
    a.mov(r10, rcx).unwrap();
    a.mov(r11, r9).unwrap();
    a.mov(r12, rdi).unwrap();
    a.mov(r13, rsi).unwrap();
    a.mov(r14, rdx).unwrap();
    a.mov(r15, r8).unwrap();
    a.vxorps(ymm0, ymm0, ymm0).unwrap();
    a.mov(rdi, r10).unwrap();
    a.imul_2(rdi, r15).unwrap();
    a.xor(rsi, rsi).unwrap();
    let mut fz_loop = a.create_label();
    let mut fz_exit = a.create_label();
    a.set_label(&mut fz_loop).unwrap();
    a.mov(rax, rdi).unwrap();
    a.shl(rax, 2).unwrap();
    a.sub(rax, 32).unwrap();
    a.cmp(rsi, rax).unwrap();
    a.jge(fz_exit).unwrap();
    a.lea(rax, qword_ptr(r14 + rsi)).unwrap();
    a.vmovups(ymmword_ptr(rax), ymm0).unwrap();
    a.add(rsi, 32).unwrap();
    a.jmp(fz_loop).unwrap();
    a.set_label(&mut fz_exit).unwrap();
    a.mov(rax, rdi).unwrap();
    a.shl(rax, 2).unwrap();
    let mut fzsc = a.create_label();
    let mut fzsc_exit = a.create_label();
    a.set_label(&mut fzsc).unwrap();
    a.cmp(rsi, rax).unwrap();
    a.jge(fzsc_exit).unwrap();
    a.lea(rcx, qword_ptr(r14 + rsi)).unwrap();
    a.movss(dword_ptr(rcx), xmm0).unwrap();
    a.add(rsi, 4).unwrap();
    a.jmp(fzsc).unwrap();
    a.set_label(&mut fzsc_exit).unwrap();
    a.xor(rdi, rdi).unwrap();
    let mut fi_loop = a.create_label();
    let mut fi_exit = a.create_label();
    a.set_label(&mut fi_loop).unwrap();
    a.cmp(rdi, r10).unwrap();
    a.jge(fi_exit).unwrap();
    a.xor(r9, r9).unwrap();
    let mut fk_loop = a.create_label();
    let mut fk_exit = a.create_label();
    a.set_label(&mut fk_loop).unwrap();
    a.cmp(r9, r11).unwrap();
    a.jge(fk_exit).unwrap();
    a.mov(rax, rdi).unwrap();
    a.imul_2(rax, r11).unwrap();
    a.add(rax, r9).unwrap();
    a.shl(rax, 2).unwrap();
    a.add(rax, r12).unwrap();
    a.vbroadcastss(ymm0, dword_ptr(rax)).unwrap();
    a.xor(r8, r8).unwrap();
    a.mov(rcx, r15).unwrap();
    a.shl(rcx, 2).unwrap();
    let mut fj_vec = a.create_label();
    let mut fj_vec_exit = a.create_label();
    a.set_label(&mut fj_vec).unwrap();
    a.mov(rax, rcx).unwrap();
    a.sub(rax, 32).unwrap();
    a.cmp(r8, rax).unwrap();
    a.jge(fj_vec_exit).unwrap();
    a.mov(rax, r9).unwrap();
    a.imul_2(rax, r15).unwrap();
    a.shl(rax, 2).unwrap();
    a.add(rax, r8).unwrap();
    a.add(rax, r13).unwrap();
    a.vmovups(ymm2, ymmword_ptr(rax)).unwrap();
    a.mov(rax, rdi).unwrap();
    a.imul_2(rax, r15).unwrap();
    a.shl(rax, 2).unwrap();
    a.add(rax, r8).unwrap();
    a.add(rax, r14).unwrap();
    a.vmovups(ymm1, ymmword_ptr(rax)).unwrap();
    a.vfmadd231ps(ymm1, ymm0, ymm2).unwrap();
    a.mov(rax, rdi).unwrap();
    a.imul_2(rax, r15).unwrap();
    a.shl(rax, 2).unwrap();
    a.add(rax, r8).unwrap();
    a.add(rax, r14).unwrap();
    a.vmovups(ymmword_ptr(rax), ymm1).unwrap();
    a.add(r8, 32).unwrap();
    a.jmp(fj_vec).unwrap();
    a.set_label(&mut fj_vec_exit).unwrap();
    let mut fjsc_exit = a.create_label();
    a.cmp(r8, rcx).unwrap();
    a.jge(fjsc_exit).unwrap();
    a.mov(rax, r9).unwrap();
    a.imul_2(rax, r15).unwrap();
    a.shl(rax, 2).unwrap();
    a.add(rax, r8).unwrap();
    a.add(rax, r13).unwrap();
    a.movss(xmm2, dword_ptr(rax)).unwrap();
    a.mov(rax, rdi).unwrap();
    a.imul_2(rax, r15).unwrap();
    a.shl(rax, 2).unwrap();
    a.add(rax, r8).unwrap();
    a.add(rax, r14).unwrap();
    a.movss(xmm1, dword_ptr(rax)).unwrap();
    a.mulss(xmm2, xmm0).unwrap();
    a.addss(xmm1, xmm2).unwrap();
    a.mov(rax, rdi).unwrap();
    a.imul_2(rax, r15).unwrap();
    a.shl(rax, 2).unwrap();
    a.add(rax, r8).unwrap();
    a.add(rax, r14).unwrap();
    a.movss(dword_ptr(rax), xmm1).unwrap();
    a.add(r8, 4).unwrap();
    a.jmp(fj_vec_exit).unwrap();
    a.set_label(&mut fjsc_exit).unwrap();
    a.add(r9, 1).unwrap();
    a.jmp(fk_loop).unwrap();
    a.set_label(&mut fk_exit).unwrap();
    a.vxorps(ymm3, ymm3, ymm3).unwrap();
    a.xor(r8, r8).unwrap();
    a.mov(rcx, r15).unwrap();
    a.shl(rcx, 2).unwrap();
    let mut fbj_vec = a.create_label();
    let mut fbj_exit = a.create_label();
    a.set_label(&mut fbj_vec).unwrap();
    a.mov(rax, rcx).unwrap();
    a.sub(rax, 32).unwrap();
    a.cmp(r8, rax).unwrap();
    a.jge(fbj_exit).unwrap();
    a.mov(rax, rdi).unwrap();
    a.imul_2(rax, r15).unwrap();
    a.shl(rax, 2).unwrap();
    a.add(rax, r8).unwrap();
    a.add(rax, r14).unwrap();
    a.vmovups(ymm1, ymmword_ptr(rax)).unwrap();
    a.lea(rax, qword_ptr(rbx + r8)).unwrap();
    a.vmovups(ymm2, ymmword_ptr(rax)).unwrap();
    a.vaddps(ymm1, ymm2, ymm1).unwrap();
    a.vmaxps(ymm1, ymm1, ymm3).unwrap();
    a.mov(rax, rdi).unwrap();
    a.imul_2(rax, r15).unwrap();
    a.shl(rax, 2).unwrap();
    a.add(rax, r8).unwrap();
    a.add(rax, r14).unwrap();
    a.vmovups(ymmword_ptr(rax), ymm1).unwrap();
    a.add(r8, 32).unwrap();
    a.jmp(fbj_vec).unwrap();
    a.set_label(&mut fbj_exit).unwrap();
    let mut fbsc_exit = a.create_label();
    a.cmp(r8, rcx).unwrap();
    a.jge(fbsc_exit).unwrap();
    a.mov(rax, rdi).unwrap();
    a.imul_2(rax, r15).unwrap();
    a.shl(rax, 2).unwrap();
    a.add(rax, r8).unwrap();
    a.add(rax, r14).unwrap();
    a.movss(xmm1, dword_ptr(rax)).unwrap();
    a.lea(rax, qword_ptr(rbx + r8)).unwrap();
    a.movss(xmm2, dword_ptr(rax)).unwrap();
    a.addss(xmm1, xmm2).unwrap();
    a.xorps(xmm2, xmm2).unwrap();
    a.maxss(xmm1, xmm2).unwrap();
    a.mov(rax, rdi).unwrap();
    a.imul_2(rax, r15).unwrap();
    a.shl(rax, 2).unwrap();
    a.add(rax, r8).unwrap();
    a.add(rax, r14).unwrap();
    a.movss(dword_ptr(rax), xmm1).unwrap();
    a.add(r8, 4).unwrap();
    a.jmp(fbj_exit).unwrap();
    a.set_label(&mut fbsc_exit).unwrap();
    a.add(rdi, 1).unwrap();
    a.jmp(fi_loop).unwrap();
    a.set_label(&mut fi_exit).unwrap();
    a.xor(rax, rax).unwrap();
    a.vzeroupper().unwrap();
    a.pop(r15).unwrap();
    a.pop(r14).unwrap();
    a.pop(r13).unwrap();
    a.pop(r12).unwrap();
    a.pop(rbx).unwrap();
    a.pop(rbp).unwrap();
    a.ret().unwrap();
    a.assemble(0x10000).unwrap()
}

fn reference_elementwise_avx2(op: u8) -> Vec<u8> {
    let mut a = CodeAssembler::new(64).unwrap();
    a.push(rbp).unwrap();
    a.mov(rbp, rsp).unwrap();
    a.push(rbx).unwrap();
    a.push(r12).unwrap();
    a.mov(r10, rdi).unwrap();
    a.mov(r11, rsi).unwrap();
    a.mov(r12, rdx).unwrap();
    a.mov(rbx, rcx).unwrap();
    a.xor(rcx, rcx).unwrap();
    a.mov(rax, rbx).unwrap();
    a.shl(rax, 2).unwrap();
    a.sub(rax, 32).unwrap();
    let mut vec_loop = a.create_label();
    let mut vec_exit = a.create_label();
    a.set_label(&mut vec_loop).unwrap();
    a.cmp(rcx, rax).unwrap();
    a.jge(vec_exit).unwrap();
    a.lea(rdx, qword_ptr(r11 + rcx)).unwrap();
    a.vmovups(ymm0, ymmword_ptr(rdx)).unwrap();
    a.lea(rdx, qword_ptr(r12 + rcx)).unwrap();
    a.vmovups(ymm1, ymmword_ptr(rdx)).unwrap();
    match op {
        0 => { a.vaddps(ymm0, ymm0, ymm1).unwrap();
    }
        1 => { a.vsubps(ymm0, ymm0, ymm1).unwrap();
    }
        2 => { a.vmulps(ymm0, ymm0, ymm1).unwrap();
    }
        3 => { a.vdivps(ymm0, ymm0, ymm1).unwrap();
    }
        4 => { a.vminps(ymm0, ymm0, ymm1).unwrap();
    }
        5 => { a.vmaxps(ymm0, ymm0, ymm1).unwrap();
    }
        _ => {}
    }
    a.lea(rdx, qword_ptr(r10 + rcx)).unwrap();
    a.vmovups(ymmword_ptr(rdx), ymm0).unwrap();
    a.add(rcx, 32).unwrap();
    a.jmp(vec_loop).unwrap();
    a.set_label(&mut vec_exit).unwrap();
    a.mov(rax, rbx).unwrap();
    a.shl(rax, 2).unwrap();
    let mut sc_loop = a.create_label();
    let mut sc_exit = a.create_label();
    a.set_label(&mut sc_loop).unwrap();
    a.cmp(rcx, rax).unwrap();
    a.jge(sc_exit).unwrap();
    a.lea(rdx, qword_ptr(r11 + rcx)).unwrap();
    a.movss(xmm0, dword_ptr(rdx)).unwrap();
    a.lea(rdx, qword_ptr(r12 + rcx)).unwrap();
    a.movss(xmm1, dword_ptr(rdx)).unwrap();
    match op {
        0 => { a.addss(xmm0, xmm1).unwrap();
    }
        1 => { a.subss(xmm0, xmm1).unwrap();
    }
        2 => { a.mulss(xmm0, xmm1).unwrap();
    }
        3 => { a.divss(xmm0, xmm1).unwrap();
    }
        4 => { a.minss(xmm0, xmm1).unwrap();
    }
        5 => { a.maxss(xmm0, xmm1).unwrap();
    }
        _ => {}
    }
    a.lea(rdx, qword_ptr(r10 + rcx)).unwrap();
    a.movss(dword_ptr(rdx), xmm0).unwrap();
    a.add(rcx, 4).unwrap();
    a.jmp(sc_loop).unwrap();
    a.set_label(&mut sc_exit).unwrap();
    a.vzeroupper().unwrap();
    a.xor(rax, rax).unwrap();
    a.pop(r12).unwrap();
    a.pop(rbx).unwrap();
    a.pop(rbp).unwrap();
    a.ret().unwrap();
    a.assemble(0x10000).unwrap()
}

fn reference_elementwise_f64(op: u8) -> Vec<u8> {
    let mut a = CodeAssembler::new(64).unwrap();
    a.push(rbp).unwrap();
    a.mov(rbp, rsp).unwrap();
    a.push(rbx).unwrap();
    a.push(r12).unwrap();
    a.mov(r10, rdi).unwrap();
    a.mov(r11, rsi).unwrap();
    a.mov(r12, rdx).unwrap();
    a.mov(rbx, rcx).unwrap();
    a.xor(rcx, rcx).unwrap();
    a.mov(rax, rbx).unwrap();
    a.shl(rax, 3).unwrap();
    let mut lp = a.create_label();
    let mut lp_out = a.create_label();
    a.set_label(&mut lp).unwrap();
    a.cmp(rcx, rax).unwrap();
    a.jge(lp_out).unwrap();
    a.lea(rdx, qword_ptr(r11 + rcx)).unwrap();
    a.movsd_2(xmm0, qword_ptr(rdx)).unwrap();
    a.lea(rdx, qword_ptr(r12 + rcx)).unwrap();
    a.movsd_2(xmm1, qword_ptr(rdx)).unwrap();
    match op {
        0 => { a.addsd(xmm0, xmm1).unwrap();
    }
        1 => { a.subsd(xmm0, xmm1).unwrap();
    }
        2 => { a.mulsd(xmm0, xmm1).unwrap();
    }
        3 => { a.divsd(xmm0, xmm1).unwrap();
    }
        4 => { a.minsd(xmm0, xmm1).unwrap();
    }
        5 => { a.maxsd(xmm0, xmm1).unwrap();
    }
        _ => {}
    }
    a.lea(rdx, qword_ptr(r10 + rcx)).unwrap();
    a.movsd_2(qword_ptr(rdx), xmm0).unwrap();
    a.add(rcx, 8).unwrap();
    a.jmp(lp).unwrap();
    a.set_label(&mut lp_out).unwrap();
    a.xor(rax, rax).unwrap();
    a.pop(r12).unwrap();
    a.pop(rbx).unwrap();
    a.pop(rbp).unwrap();
    a.ret().unwrap();
    a.assemble(0x10000).unwrap()
}

fn reference_elementwise_avx2_f64(op: u8) -> Vec<u8> {
    let mut a = CodeAssembler::new(64).unwrap();
    a.push(rbp).unwrap();
    a.mov(rbp, rsp).unwrap();
    a.push(rbx).unwrap();
    a.push(r12).unwrap();
    a.mov(r10, rdi).unwrap();
    a.mov(r11, rsi).unwrap();
    a.mov(r12, rdx).unwrap();
    a.mov(rbx, rcx).unwrap();
    a.xor(rcx, rcx).unwrap();
    a.mov(rax, rbx).unwrap();
    a.shl(rax, 3).unwrap();
    a.sub(rax, 32).unwrap();
    let mut vec_loop = a.create_label();
    let mut vec_exit = a.create_label();
    a.set_label(&mut vec_loop).unwrap();
    a.cmp(rcx, rax).unwrap();
    a.jge(vec_exit).unwrap();
    a.lea(rdx, qword_ptr(r11 + rcx)).unwrap();
    a.vmovupd(ymm0, ymmword_ptr(rdx)).unwrap();
    a.lea(rdx, qword_ptr(r12 + rcx)).unwrap();
    a.vmovupd(ymm1, ymmword_ptr(rdx)).unwrap();
    match op {
        0 => { a.vaddpd(ymm0, ymm0, ymm1).unwrap();
    }
        1 => { a.vsubpd(ymm0, ymm0, ymm1).unwrap();
    }
        2 => { a.vmulpd(ymm0, ymm0, ymm1).unwrap();
    }
        3 => { a.vdivpd(ymm0, ymm0, ymm1).unwrap();
    }
        4 => { a.vminpd(ymm0, ymm0, ymm1).unwrap();
    }
        5 => { a.vmaxpd(ymm0, ymm0, ymm1).unwrap();
    }
        _ => {}
    }
    a.lea(rdx, qword_ptr(r10 + rcx)).unwrap();
    a.vmovupd(ymmword_ptr(rdx), ymm0).unwrap();
    a.add(rcx, 32).unwrap();
    a.jmp(vec_loop).unwrap();
    a.set_label(&mut vec_exit).unwrap();
    a.mov(rax, rbx).unwrap();
    a.shl(rax, 3).unwrap();
    let mut sc_loop = a.create_label();
    let mut sc_exit = a.create_label();
    a.set_label(&mut sc_loop).unwrap();
    a.cmp(rcx, rax).unwrap();
    a.jge(sc_exit).unwrap();
    a.lea(rdx, qword_ptr(r11 + rcx)).unwrap();
    a.movsd_2(xmm0, qword_ptr(rdx)).unwrap();
    a.lea(rdx, qword_ptr(r12 + rcx)).unwrap();
    a.movsd_2(xmm1, qword_ptr(rdx)).unwrap();
    match op {
        0 => { a.addsd(xmm0, xmm1).unwrap();
    }
        1 => { a.subsd(xmm0, xmm1).unwrap();
    }
        2 => { a.mulsd(xmm0, xmm1).unwrap();
    }
        3 => { a.divsd(xmm0, xmm1).unwrap();
    }
        4 => { a.minsd(xmm0, xmm1).unwrap();
    }
        5 => { a.maxsd(xmm0, xmm1).unwrap();
    }
        _ => {}
    }
    a.lea(rdx, qword_ptr(r10 + rcx)).unwrap();
    a.movsd_2(qword_ptr(rdx), xmm0).unwrap();
    a.add(rcx, 8).unwrap();
    a.jmp(sc_loop).unwrap();
    a.set_label(&mut sc_exit).unwrap();
    a.vzeroupper().unwrap();
    a.xor(rax, rax).unwrap();
    a.pop(r12).unwrap();
    a.pop(rbx).unwrap();
    a.pop(rbp).unwrap();
    a.ret().unwrap();
    a.assemble(0x10000).unwrap()
}

fn reference_elementwise_avx512_f64(op: u8) -> Vec<u8> {
    let mut a = CodeAssembler::new(64).unwrap();
    a.push(rbp).unwrap();
    a.mov(rbp, rsp).unwrap();
    a.push(rbx).unwrap();
    a.push(r12).unwrap();
    a.mov(r10, rdi).unwrap();
    a.mov(r11, rsi).unwrap();
    a.mov(r12, rdx).unwrap();
    a.mov(rbx, rcx).unwrap();
    a.xor(rcx, rcx).unwrap();
    a.mov(rax, rbx).unwrap();
    a.shl(rax, 3).unwrap();
    a.sub(rax, 64).unwrap();
    let mut vec_loop = a.create_label();
    let mut vec_exit = a.create_label();
    a.set_label(&mut vec_loop).unwrap();
    a.cmp(rcx, rax).unwrap();
    a.jge(vec_exit).unwrap();
    a.lea(rdx, qword_ptr(r11 + rcx)).unwrap();
    a.vmovupd(zmm0, zmmword_ptr(rdx)).unwrap();
    a.lea(rdx, qword_ptr(r12 + rcx)).unwrap();
    a.vmovupd(zmm1, zmmword_ptr(rdx)).unwrap();
    match op {
        0 => { a.vaddpd(zmm0, zmm0, zmm1).unwrap();
    }
        1 => { a.vsubpd(zmm0, zmm0, zmm1).unwrap();
    }
        2 => { a.vmulpd(zmm0, zmm0, zmm1).unwrap();
    }
        3 => { a.vdivpd(zmm0, zmm0, zmm1).unwrap();
    }
        4 => { a.vminpd(zmm0, zmm0, zmm1).unwrap();
    }
        5 => { a.vmaxpd(zmm0, zmm0, zmm1).unwrap();
    }
        _ => {}
    }
    a.lea(rdx, qword_ptr(r10 + rcx)).unwrap();
    a.vmovupd(zmmword_ptr(rdx), zmm0).unwrap();
    a.add(rcx, 64).unwrap();
    a.jmp(vec_loop).unwrap();
    a.set_label(&mut vec_exit).unwrap();
    a.mov(rax, rbx).unwrap();
    a.shl(rax, 3).unwrap();
    let mut sc_loop = a.create_label();
    let mut sc_exit = a.create_label();
    a.set_label(&mut sc_loop).unwrap();
    a.cmp(rcx, rax).unwrap();
    a.jge(sc_exit).unwrap();
    a.lea(rdx, qword_ptr(r11 + rcx)).unwrap();
    a.movsd_2(xmm0, qword_ptr(rdx)).unwrap();
    a.lea(rdx, qword_ptr(r12 + rcx)).unwrap();
    a.movsd_2(xmm1, qword_ptr(rdx)).unwrap();
    match op {
        0 => { a.addsd(xmm0, xmm1).unwrap();
    }
        1 => { a.subsd(xmm0, xmm1).unwrap();
    }
        2 => { a.mulsd(xmm0, xmm1).unwrap();
    }
        3 => { a.divsd(xmm0, xmm1).unwrap();
    }
        4 => { a.minsd(xmm0, xmm1).unwrap();
    }
        5 => { a.maxsd(xmm0, xmm1).unwrap();
    }
        _ => {}
    }
    a.lea(rdx, qword_ptr(r10 + rcx)).unwrap();
    a.movsd_2(qword_ptr(rdx), xmm0).unwrap();
    a.add(rcx, 8).unwrap();
    a.jmp(sc_loop).unwrap();
    a.set_label(&mut sc_exit).unwrap();
    a.vzeroupper().unwrap();
    a.xor(rax, rax).unwrap();
    a.pop(r12).unwrap();
    a.pop(rbx).unwrap();
    a.pop(rbp).unwrap();
    a.ret().unwrap();
    a.assemble(0x10000).unwrap()
}

fn reference_reduce_avx2_f32(op: u8) -> Vec<u8> {
    let mut a = CodeAssembler::new(64).unwrap();
    a.push(rbp).unwrap();
    a.mov(rbp, rsp).unwrap();
    a.push(rbx).unwrap();
    a.mov(rbx, rsi).unwrap();
    a.vxorps(ymm0, ymm0, ymm0).unwrap();
    a.vxorps(ymm1, ymm1, ymm1).unwrap();
    a.vxorps(ymm2, ymm2, ymm2).unwrap();
    a.vxorps(ymm3, ymm3, ymm3).unwrap();
    a.vxorps(ymm4, ymm4, ymm4).unwrap();
    a.vxorps(ymm5, ymm5, ymm5).unwrap();
    a.vxorps(ymm6, ymm6, ymm6).unwrap();
    a.vxorps(ymm7, ymm7, ymm7).unwrap();
    a.xor(rdx, rdx).unwrap();
    if op == 1 || op == 2 {
        a.mov(rax, rbx).unwrap();
        a.shl(rax, 2).unwrap();
        let mut seed_loop = a.create_label();
        let mut seed_exit = a.create_label();
        a.set_label(&mut seed_loop).unwrap();
        a.cmp(rdx, rax).unwrap();
        a.jge(seed_exit).unwrap();
        for r in [ymm0, ymm1, ymm2, ymm3, ymm4, ymm5, ymm6, ymm7] {
            a.vbroadcastss(r, dword_ptr(rdi)).unwrap();
        }
        a.xor(rax, rax).unwrap();
        a.jmp(seed_loop).unwrap();
        a.set_label(&mut seed_exit).unwrap();
    }
    a.mov(rax, rbx).unwrap();
    a.shl(rax, 2).unwrap();
    a.sub(rax, 256).unwrap();
    let mut vec_loop = a.create_label();
    let mut vec_exit = a.create_label();
    a.set_label(&mut vec_loop).unwrap();
    a.cmp(rdx, rax).unwrap();
    a.jge(vec_exit).unwrap();
    match op {
        0 => {
            a.vaddps(ymm0, ymm0, ymmword_ptr(rdi + rdx)).unwrap();
            a.vaddps(ymm1, ymm1, ymmword_ptr(rdi + rdx + 32)).unwrap();
            a.vaddps(ymm2, ymm2, ymmword_ptr(rdi + rdx + 64)).unwrap();
            a.vaddps(ymm3, ymm3, ymmword_ptr(rdi + rdx + 96)).unwrap();
            a.vaddps(ymm4, ymm4, ymmword_ptr(rdi + rdx + 128)).unwrap();
            a.vaddps(ymm5, ymm5, ymmword_ptr(rdi + rdx + 160)).unwrap();
            a.vaddps(ymm6, ymm6, ymmword_ptr(rdi + rdx + 192)).unwrap();
            a.vaddps(ymm7, ymm7, ymmword_ptr(rdi + rdx + 224)).unwrap();
        }
        1 => {
            a.vmaxps(ymm0, ymm0, ymmword_ptr(rdi + rdx)).unwrap();
            a.vmaxps(ymm1, ymm1, ymmword_ptr(rdi + rdx + 32)).unwrap();
            a.vmaxps(ymm2, ymm2, ymmword_ptr(rdi + rdx + 64)).unwrap();
            a.vmaxps(ymm3, ymm3, ymmword_ptr(rdi + rdx + 96)).unwrap();
            a.vmaxps(ymm4, ymm4, ymmword_ptr(rdi + rdx + 128)).unwrap();
            a.vmaxps(ymm5, ymm5, ymmword_ptr(rdi + rdx + 160)).unwrap();
            a.vmaxps(ymm6, ymm6, ymmword_ptr(rdi + rdx + 192)).unwrap();
            a.vmaxps(ymm7, ymm7, ymmword_ptr(rdi + rdx + 224)).unwrap();
        }
        2 => {
            a.vminps(ymm0, ymm0, ymmword_ptr(rdi + rdx)).unwrap();
            a.vminps(ymm1, ymm1, ymmword_ptr(rdi + rdx + 32)).unwrap();
            a.vminps(ymm2, ymm2, ymmword_ptr(rdi + rdx + 64)).unwrap();
            a.vminps(ymm3, ymm3, ymmword_ptr(rdi + rdx + 96)).unwrap();
            a.vminps(ymm4, ymm4, ymmword_ptr(rdi + rdx + 128)).unwrap();
            a.vminps(ymm5, ymm5, ymmword_ptr(rdi + rdx + 160)).unwrap();
            a.vminps(ymm6, ymm6, ymmword_ptr(rdi + rdx + 192)).unwrap();
            a.vminps(ymm7, ymm7, ymmword_ptr(rdi + rdx + 224)).unwrap();
        }
        _ => {}
    }
    a.add(rdx, 256).unwrap();
    a.jmp(vec_loop).unwrap();
    a.set_label(&mut vec_exit).unwrap();
    a.mov(rax, rbx).unwrap();
    a.shl(rax, 2).unwrap();
    a.sub(rax, 32).unwrap();
    let mut rem_loop = a.create_label();
    let mut rem_exit = a.create_label();
    a.set_label(&mut rem_loop).unwrap();
    a.cmp(rdx, rax).unwrap();
    a.jge(rem_exit).unwrap();
    match op {
        0 => { a.vaddps(ymm0, ymm0, ymmword_ptr(rdi + rdx)).unwrap();
    }
        1 => { a.vmaxps(ymm0, ymm0, ymmword_ptr(rdi + rdx)).unwrap();
    }
        2 => { a.vminps(ymm0, ymm0, ymmword_ptr(rdi + rdx)).unwrap();
    }
        _ => {}
    }
    a.add(rdx, 32).unwrap();
    a.jmp(rem_loop).unwrap();
    a.set_label(&mut rem_exit).unwrap();
    match op {
        0 => {
            a.vaddps(ymm0, ymm0, ymm1).unwrap();
            a.vaddps(ymm0, ymm0, ymm2).unwrap();
            a.vaddps(ymm0, ymm0, ymm3).unwrap();
            a.vaddps(ymm0, ymm0, ymm4).unwrap();
            a.vaddps(ymm0, ymm0, ymm5).unwrap();
            a.vaddps(ymm0, ymm0, ymm6).unwrap();
            a.vaddps(ymm0, ymm0, ymm7).unwrap();
        }
        1 => {
            a.vmaxps(ymm0, ymm0, ymm1).unwrap();
            a.vmaxps(ymm0, ymm0, ymm2).unwrap();
            a.vmaxps(ymm0, ymm0, ymm3).unwrap();
            a.vmaxps(ymm0, ymm0, ymm4).unwrap();
            a.vmaxps(ymm0, ymm0, ymm5).unwrap();
            a.vmaxps(ymm0, ymm0, ymm6).unwrap();
            a.vmaxps(ymm0, ymm0, ymm7).unwrap();
        }
        2 => {
            a.vminps(ymm0, ymm0, ymm1).unwrap();
            a.vminps(ymm0, ymm0, ymm2).unwrap();
            a.vminps(ymm0, ymm0, ymm3).unwrap();
            a.vminps(ymm0, ymm0, ymm4).unwrap();
            a.vminps(ymm0, ymm0, ymm5).unwrap();
            a.vminps(ymm0, ymm0, ymm6).unwrap();
            a.vminps(ymm0, ymm0, ymm7).unwrap();
        }
        _ => {}
    }
    a.vperm2f128(ymm1, ymm0, ymm0, 0x01).unwrap();
    match op {
        0 => { a.vaddps(ymm0, ymm0, ymm1).unwrap();
    }
        1 => { a.vmaxps(ymm0, ymm0, ymm1).unwrap();
    }
        2 => { a.vminps(ymm0, ymm0, ymm1).unwrap();
    }
        _ => {}
    }
    a.vshufps(ymm1, ymm0, ymm0, 0x4E).unwrap();
    match op {
        0 => { a.vaddps(ymm0, ymm0, ymm1).unwrap();
    }
        1 => { a.vmaxps(ymm0, ymm0, ymm1).unwrap();
    }
        2 => { a.vminps(ymm0, ymm0, ymm1).unwrap();
    }
        _ => {}
    }
    a.vshufps(ymm1, ymm0, ymm0, 0xB1).unwrap();
    match op {
        0 => { a.vaddps(ymm0, ymm0, ymm1).unwrap();
    }
        1 => { a.vmaxps(ymm0, ymm0, ymm1).unwrap();
    }
        2 => { a.vminps(ymm0, ymm0, ymm1).unwrap();
    }
        _ => {}
    }
    a.mov(rax, rbx).unwrap();
    a.shl(rax, 2).unwrap();
    let mut sc_loop = a.create_label();
    let mut sc_exit = a.create_label();
    a.set_label(&mut sc_loop).unwrap();
    a.cmp(rdx, rax).unwrap();
    a.jge(sc_exit).unwrap();
    match op {
        0 => { a.vaddss(xmm0, xmm0, dword_ptr(rdi + rdx)).unwrap();
    }
        1 => { a.vmaxss(xmm0, xmm0, dword_ptr(rdi + rdx)).unwrap();
    }
        2 => { a.vminss(xmm0, xmm0, dword_ptr(rdi + rdx)).unwrap();
    }
        _ => {}
    }
    a.add(rdx, 4).unwrap();
    a.jmp(sc_loop).unwrap();
    a.set_label(&mut sc_exit).unwrap();
    a.cvtss2sd(xmm0, xmm0).unwrap();
    a.vzeroupper().unwrap();
    a.pop(rbx).unwrap();
    a.pop(rbp).unwrap();
    a.ret().unwrap();
    a.assemble(0x10000).unwrap()
}

fn reference_reduce_avx2_f64(op: u8) -> Vec<u8> {
    let mut a = CodeAssembler::new(64).unwrap();
    a.push(rbp).unwrap();
    a.mov(rbp, rsp).unwrap();
    a.push(rbx).unwrap();
    a.mov(rbx, rsi).unwrap();
    a.vxorpd(ymm0, ymm0, ymm0).unwrap();
    a.vxorpd(ymm1, ymm1, ymm1).unwrap();
    a.vxorpd(ymm2, ymm2, ymm2).unwrap();
    a.vxorpd(ymm3, ymm3, ymm3).unwrap();
    a.xor(rdx, rdx).unwrap();
    if op == 1 || op == 2 {
        a.mov(rax, rbx).unwrap();
        a.shl(rax, 3).unwrap();
        let mut seed_loop = a.create_label();
        let mut seed_exit = a.create_label();
        a.set_label(&mut seed_loop).unwrap();
        a.cmp(rdx, rax).unwrap();
        a.jge(seed_exit).unwrap();
        for r in [ymm0, ymm1, ymm2, ymm3] {
            a.vbroadcastsd(r, qword_ptr(rdi)).unwrap();
        }
        a.xor(rax, rax).unwrap();
        a.jmp(seed_loop).unwrap();
        a.set_label(&mut seed_exit).unwrap();
    }
    a.mov(rax, rbx).unwrap();
    a.shl(rax, 3).unwrap();
    a.sub(rax, 128).unwrap();
    let mut vec_loop = a.create_label();
    let mut vec_exit = a.create_label();
    a.set_label(&mut vec_loop).unwrap();
    a.cmp(rdx, rax).unwrap();
    a.jge(vec_exit).unwrap();
    match op {
        0 => {
            a.vaddpd(ymm0, ymm0, ymmword_ptr(rdi + rdx)).unwrap();
            a.vaddpd(ymm1, ymm1, ymmword_ptr(rdi + rdx + 32)).unwrap();
            a.vaddpd(ymm2, ymm2, ymmword_ptr(rdi + rdx + 64)).unwrap();
            a.vaddpd(ymm3, ymm3, ymmword_ptr(rdi + rdx + 96)).unwrap();
        }
        1 => {
            a.vmaxpd(ymm0, ymm0, ymmword_ptr(rdi + rdx)).unwrap();
            a.vmaxpd(ymm1, ymm1, ymmword_ptr(rdi + rdx + 32)).unwrap();
            a.vmaxpd(ymm2, ymm2, ymmword_ptr(rdi + rdx + 64)).unwrap();
            a.vmaxpd(ymm3, ymm3, ymmword_ptr(rdi + rdx + 96)).unwrap();
        }
        2 => {
            a.vminpd(ymm0, ymm0, ymmword_ptr(rdi + rdx)).unwrap();
            a.vminpd(ymm1, ymm1, ymmword_ptr(rdi + rdx + 32)).unwrap();
            a.vminpd(ymm2, ymm2, ymmword_ptr(rdi + rdx + 64)).unwrap();
            a.vminpd(ymm3, ymm3, ymmword_ptr(rdi + rdx + 96)).unwrap();
        }
        _ => {}
    }
    a.add(rdx, 128).unwrap();
    a.jmp(vec_loop).unwrap();
    a.set_label(&mut vec_exit).unwrap();
    a.mov(rax, rbx).unwrap();
    a.shl(rax, 3).unwrap();
    a.sub(rax, 32).unwrap();
    let mut rem_loop = a.create_label();
    let mut rem_exit = a.create_label();
    a.set_label(&mut rem_loop).unwrap();
    a.cmp(rdx, rax).unwrap();
    a.jge(rem_exit).unwrap();
    match op {
        0 => { a.vaddpd(ymm0, ymm0, ymmword_ptr(rdi + rdx)).unwrap();
    }
        1 => { a.vmaxpd(ymm0, ymm0, ymmword_ptr(rdi + rdx)).unwrap();
    }
        2 => { a.vminpd(ymm0, ymm0, ymmword_ptr(rdi + rdx)).unwrap();
    }
        _ => {}
    }
    a.add(rdx, 32).unwrap();
    a.jmp(rem_loop).unwrap();
    a.set_label(&mut rem_exit).unwrap();
    match op {
        0 => {
            a.vaddpd(ymm0, ymm0, ymm1).unwrap();
            a.vaddpd(ymm0, ymm0, ymm2).unwrap();
            a.vaddpd(ymm0, ymm0, ymm3).unwrap();
        }
        1 => {
            a.vmaxpd(ymm0, ymm0, ymm1).unwrap();
            a.vmaxpd(ymm0, ymm0, ymm2).unwrap();
            a.vmaxpd(ymm0, ymm0, ymm3).unwrap();
        }
        2 => {
            a.vminpd(ymm0, ymm0, ymm1).unwrap();
            a.vminpd(ymm0, ymm0, ymm2).unwrap();
            a.vminpd(ymm0, ymm0, ymm3).unwrap();
        }
        _ => {}
    }
    a.vperm2f128(ymm1, ymm0, ymm0, 0x01).unwrap();
    match op {
        0 => { a.vaddpd(ymm0, ymm0, ymm1).unwrap();
    }
        1 => { a.vmaxpd(ymm0, ymm0, ymm1).unwrap();
    }
        2 => { a.vminpd(ymm0, ymm0, ymm1).unwrap();
    }
        _ => {}
    }
    a.vshufpd(ymm1, ymm0, ymm0, 0x05).unwrap();
    match op {
        0 => { a.vaddpd(ymm0, ymm0, ymm1).unwrap();
    }
        1 => { a.vmaxpd(ymm0, ymm0, ymm1).unwrap();
    }
        2 => { a.vminpd(ymm0, ymm0, ymm1).unwrap();
    }
        _ => {}
    }
    a.mov(rax, rbx).unwrap();
    a.shl(rax, 3).unwrap();
    let mut sc_loop = a.create_label();
    let mut sc_exit = a.create_label();
    a.set_label(&mut sc_loop).unwrap();
    a.cmp(rdx, rax).unwrap();
    a.jge(sc_exit).unwrap();
    match op {
        0 => { a.vaddsd(xmm0, xmm0, qword_ptr(rdi + rdx)).unwrap();
    }
        1 => { a.vmaxsd(xmm0, xmm0, qword_ptr(rdi + rdx)).unwrap();
    }
        2 => { a.vminsd(xmm0, xmm0, qword_ptr(rdi + rdx)).unwrap();
    }
        _ => {}
    }
    a.add(rdx, 8).unwrap();
    a.jmp(sc_loop).unwrap();
    a.set_label(&mut sc_exit).unwrap();
    a.vzeroupper().unwrap();
    a.pop(rbx).unwrap();
    a.pop(rbp).unwrap();
    a.ret().unwrap();
    a.assemble(0x10000).unwrap()
}

fn code(k: Option<CompiledKernel>) -> Vec<u8> {
    k.unwrap().code
}

#[test]
fn matmul_bytes_agree() {
    assert_eq!(code(CompiledKernel::compile_matmul()), reference_matmul());
    assert_eq!(code(CompiledKernel::compile_matmul_avx2()), reference_matmul_avx2());
    assert_eq!(
        code(CompiledKernel::compile_fused_matmul_bias_relu()),
        reference_fused_matmul_bias_relu()
    );
}

#[test]
fn wide_matmul_bytes_agree() {
    let sizes = [
        (4, 4, 4),
        (128, 128, 128),
        (3, 64, 5),
        (7, 63, 2),
        (2, 100, 9),
        (1, 16, 1),
        (5, 15, 5),
        (1, 17, 3),
        (9, 112, 1),
        (2, 1000, 300),
    ];
    for (m, n, k) in sizes {
        let kernel = CompiledKernel::compile_matmul_avx512(m, n, k).unwrap();
        assert_eq!(kernel.compiled_dims(), (m, n, k));
        assert_eq!(kernel.code, reference_matmul_avx512(m, n, k));
    }
}

#[test]
fn elementwise_bytes_agree() {
    for op in 0..8u8 {
        assert_eq!(code(CompiledKernel::compile_elementwise(op)), reference_elementwise(op));
        assert_eq!(
            code(CompiledKernel::compile_elementwise_avx2(op)),
            reference_elementwise_avx2(op)
        );
        assert_eq!(
            code(CompiledKernel::compile_elementwise_f64(op)),
            reference_elementwise_f64(op)
        );
        assert_eq!(
            code(CompiledKernel::compile_elementwise_avx2_f64(op)),
            reference_elementwise_avx2_f64(op)
        );
        assert_eq!(
            code(CompiledKernel::compile_elementwise_avx512_f64(op)),
            reference_elementwise_avx512_f64(op)
        );
    }
}

#[test]
fn reduction_bytes_agree() {
    for op in 0..4u8 {
        assert_eq!(
            code(CompiledKernel::compile_reduce_avx2_f32(op)),
            reference_reduce_avx2_f32(op)
        );
        assert_eq!(
            code(CompiledKernel::compile_reduce_avx2_f64(op)),
            reference_reduce_avx2_f64(op)
        );
    }
}
