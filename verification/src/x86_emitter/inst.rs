//! Instructions of the kernels, and the numbers by which the encoder knows them.
//!
//! The numbers are those of the enumerations `Code` and `Register` of the `iced_x86` crate.

use vstd::prelude::*;

verus! {

/// A register.
#[derive(Debug, Clone, Copy, PartialEq, Eq, Structural)]
pub enum Reg {
    Rax,
    Rcx,
    Rdx,
    Rbx,
    Rsp,
    Rbp,
    Rsi,
    Rdi,
    R8,
    R9,
    R10,
    R11,
    R12,
    R13,
    R14,
    R15,
    Ecx,
    R8d,
    R10d,
    R11d,
    Xmm0,
    Xmm1,
    Xmm2,
    Ymm0,
    Ymm1,
    Ymm2,
    Ymm3,
    Ymm4,
    Ymm5,
    Ymm6,
    Ymm7,
    Zmm0,
    Zmm1,
    Zmm2,
    Zmm3,
    Zmm4,
    Zmm5,
    Zmm6,
    Zmm7,
    Zmm8,
}

/// The number of a register.
#[verifier::opaque]
pub open spec fn reg_number(r: Reg) -> u8 {
    match r {
        Reg::Rax => 53,
        Reg::Rcx => 54,
        Reg::Rdx => 55,
        Reg::Rbx => 56,
        Reg::Rsp => 57,
        Reg::Rbp => 58,
        Reg::Rsi => 59,
        Reg::Rdi => 60,
        Reg::R8 => 61,
        Reg::R9 => 62,
        Reg::R10 => 63,
        Reg::R11 => 64,
        Reg::R12 => 65,
        Reg::R13 => 66,
        Reg::R14 => 67,
        Reg::R15 => 68,
        Reg::Ecx => 38,
        Reg::R8d => 45,
        Reg::R10d => 47,
        Reg::R11d => 48,
        Reg::Xmm0 => 77,
        Reg::Xmm1 => 78,
        Reg::Xmm2 => 79,
        Reg::Ymm0 => 109,
        Reg::Ymm1 => 110,
        Reg::Ymm2 => 111,
        Reg::Ymm3 => 112,
        Reg::Ymm4 => 113,
        Reg::Ymm5 => 114,
        Reg::Ymm6 => 115,
        Reg::Ymm7 => 116,
        Reg::Zmm0 => 141,
        Reg::Zmm1 => 142,
        Reg::Zmm2 => 143,
        Reg::Zmm3 => 144,
        Reg::Zmm4 => 145,
        Reg::Zmm5 => 146,
        Reg::Zmm6 => 147,
        Reg::Zmm7 => 148,
        Reg::Zmm8 => 149,
    }
}

/// The number of a register.
pub fn number_of_reg(r: Reg) -> (n: u8)
    ensures
        n == reg_number(r),
{
    reveal(reg_number);
    match r {
        Reg::Rax => 53,
        Reg::Rcx => 54,
        Reg::Rdx => 55,
        Reg::Rbx => 56,
        Reg::Rsp => 57,
        Reg::Rbp => 58,
        Reg::Rsi => 59,
        Reg::Rdi => 60,
        Reg::R8 => 61,
        Reg::R9 => 62,
        Reg::R10 => 63,
        Reg::R11 => 64,
        Reg::R12 => 65,
        Reg::R13 => 66,
        Reg::R14 => 67,
        Reg::R15 => 68,
        Reg::Ecx => 38,
        Reg::R8d => 45,
        Reg::R10d => 47,
        Reg::R11d => 48,
        Reg::Xmm0 => 77,
        Reg::Xmm1 => 78,
        Reg::Xmm2 => 79,
        Reg::Ymm0 => 109,
        Reg::Ymm1 => 110,
        Reg::Ymm2 => 111,
        Reg::Ymm3 => 112,
        Reg::Ymm4 => 113,
        Reg::Ymm5 => 114,
        Reg::Ymm6 => 115,
        Reg::Ymm7 => 116,
        Reg::Zmm0 => 141,
        Reg::Zmm1 => 142,
        Reg::Zmm2 => 143,
        Reg::Zmm3 => 144,
        Reg::Zmm4 => 145,
        Reg::Zmm5 => 146,
        Reg::Zmm6 => 147,
        Reg::Zmm7 => 148,
        Reg::Zmm8 => 149,
    }
}

/// An arithmetic operation on two floating-point operands.
#[derive(Debug, Clone, Copy, PartialEq, Eq, Structural)]
pub enum Arith {
    Add,
    Sub,
    Mul,
    Div,
    Min,
    Max,
}

/// Element type of a floating-point operation.
#[derive(Debug, Clone, Copy, PartialEq, Eq, Structural)]
pub enum Elem {
    /// Single precision.
    F32,
    /// Double precision.
    F64,
}

/// Width of a vector operation.
#[derive(Debug, Clone, Copy, PartialEq, Eq, Structural)]
pub enum Wide {
    /// 256 bits.
    Y,
    /// 512 bits.
    Z,
}

/// Operations without operands.
#[derive(Debug, Clone, Copy, PartialEq, Eq, Structural)]
pub enum BareOp {
    Ret,
    Vzeroupper,
    Vzeroall,
}

/// Operations on a stack register.
#[derive(Debug, Clone, Copy, PartialEq, Eq, Structural)]
pub enum StackOp {
    Push,
    Pop,
}

/// Operations on two registers.
#[derive(Debug, Clone, Copy, PartialEq, Eq, Structural)]
pub enum RrOp {
    Mov,
    Add,
    Cmp,
    Cmp32,
    Xor,
    Imul,
    Xorps,
    Cvtss2sd,
    /// Scalar arithmetic on the low element.
    Scalar(Arith, Elem),
}

/// Operations on a register and a number.
#[derive(Debug, Clone, Copy, PartialEq, Eq, Structural)]
pub enum RiOp {
    Add,
    Sub,
    Cmp,
}

/// Operations on a register and the memory that they read.
#[derive(Debug, Clone, Copy, PartialEq, Eq, Structural)]
pub enum RmOp {
    Mov,
    Lea,
    /// Load one element.
    MovScalar(Elem),
    /// Load a vector.
    MovVector(Elem, Wide),
    /// Load one single-precision element into every place.
    Broadcast(Wide),
    /// Load one double-precision element into every place of a 256-bit vector.
    BroadcastDouble,
}

/// Operations on the memory that they write and a register.
#[derive(Debug, Clone, Copy, PartialEq, Eq, Structural)]
pub enum MrOp {
    /// Store one element.
    MovScalar(Elem),
    /// Store a vector.
    MovVector(Elem, Wide),
}

/// Operations on three registers.
#[derive(Debug, Clone, Copy, PartialEq, Eq, Structural)]
pub enum RrrOp {
    /// Bitwise exclusive or of two vectors.
    Xor(Elem, Wide),
    /// Single-precision fused multiply-add.
    Fma(Wide),
    /// Arithmetic on two vectors.
    Packed(Arith, Elem, Wide),
}

/// Operations on two registers and the memory that they read.
#[derive(Debug, Clone, Copy, PartialEq, Eq, Structural)]
pub enum RrmOp {
    /// Arithmetic on two 256-bit vectors.
    Packed(Arith, Elem),
    /// Arithmetic on the low elements.
    Scalar(Arith, Elem),
}

/// Operations on three registers and a small number.
#[derive(Debug, Clone, Copy, PartialEq, Eq, Structural)]
pub enum RrriOp {
    Perm2f128,
    Shuf(Elem),
}

/// The number of an operation without operands.
#[verifier::opaque]
pub open spec fn bare_code(op: BareOp) -> u16 {
    match op {
        BareOp::Ret => 396,
        BareOp::Vzeroupper => 1736,
        BareOp::Vzeroall => 1737,
    }
}

/// The number of an operation without operands.
pub fn code_of_bare(op: BareOp) -> (n: u16)
    ensures
        n == bare_code(op),
{
    reveal(bare_code);
    match op {
        BareOp::Ret => 396,
        BareOp::Vzeroupper => 1736,
        BareOp::Vzeroall => 1737,
    }
}

/// The number of a stack operation.
#[verifier::opaque]
pub open spec fn stack_code(op: StackOp) -> u16 {
    match op {
        StackOp::Push => 126,
        StackOp::Pop => 129,
    }
}

/// The number of a stack operation.
pub fn code_of_stack(op: StackOp) -> (n: u16)
    ensures
        n == stack_code(op),
{
    reveal(stack_code);
    match op {
        StackOp::Push => 126,
        StackOp::Pop => 129,
    }
}

/// The number of an operation on two registers.
#[verifier::opaque]
pub open spec fn rr_code(op: RrOp) -> u16 {
    match op {
        RrOp::Mov => 282,
        RrOp::Add => 8,
        RrOp::Cmp => 110,
        RrOp::Cmp32 => 109,
        RrOp::Xor => 97,
        RrOp::Imul => 2072,
        RrOp::Xorps => 1324,
        RrOp::Cvtss2sd => 1384,
        RrOp::Scalar(Arith::Add, Elem::F32) => 1348,
        RrOp::Scalar(Arith::Sub, Elem::F32) => 1423,
        RrOp::Scalar(Arith::Mul, Elem::F32) => 1366,
        RrOp::Scalar(Arith::Div, Elem::F32) => 1459,
        RrOp::Scalar(Arith::Min, Elem::F32) => 1441,
        RrOp::Scalar(Arith::Max, Elem::F32) => 1477,
        RrOp::Scalar(Arith::Add, Elem::F64) => 1351,
        RrOp::Scalar(Arith::Sub, Elem::F64) => 1426,
        RrOp::Scalar(Arith::Mul, Elem::F64) => 1369,
        RrOp::Scalar(Arith::Div, Elem::F64) => 1462,
        RrOp::Scalar(Arith::Min, Elem::F64) => 1444,
        RrOp::Scalar(Arith::Max, Elem::F64) => 1480,
    }
}

/// The number of an operation on two registers.
pub fn code_of_rr(op: RrOp) -> (n: u16)
    ensures
        n == rr_code(op),
{
    reveal(rr_code);
    match op {
        RrOp::Mov => 282,
        RrOp::Add => 8,
        RrOp::Cmp => 110,
        RrOp::Cmp32 => 109,
        RrOp::Xor => 97,
        RrOp::Imul => 2072,
        RrOp::Xorps => 1324,
        RrOp::Cvtss2sd => 1384,
        RrOp::Scalar(Arith::Add, Elem::F32) => 1348,
        RrOp::Scalar(Arith::Sub, Elem::F32) => 1423,
        RrOp::Scalar(Arith::Mul, Elem::F32) => 1366,
        RrOp::Scalar(Arith::Div, Elem::F32) => 1459,
        RrOp::Scalar(Arith::Min, Elem::F32) => 1441,
        RrOp::Scalar(Arith::Max, Elem::F32) => 1477,
        RrOp::Scalar(Arith::Add, Elem::F64) => 1351,
        RrOp::Scalar(Arith::Sub, Elem::F64) => 1426,
        RrOp::Scalar(Arith::Mul, Elem::F64) => 1369,
        RrOp::Scalar(Arith::Div, Elem::F64) => 1462,
        RrOp::Scalar(Arith::Min, Elem::F64) => 1444,
        RrOp::Scalar(Arith::Max, Elem::F64) => 1480,
    }
}

/// The number of an operation on a register and memory.
#[verifier::opaque]
pub open spec fn rm_code(op: RmOp) -> u16 {
    match op {
        RmOp::Mov => 286,
        RmOp::Lea => 292,
        RmOp::MovScalar(Elem::F32) => 905,
        RmOp::MovScalar(Elem::F64) => 910,
        RmOp::MovVector(Elem::F32, Wide::Y) => 895,
        RmOp::MovVector(Elem::F32, Wide::Z) => 898,
        RmOp::MovVector(Elem::F64, Wide::Y) => 901,
        RmOp::MovVector(Elem::F64, Wide::Z) => 904,
        RmOp::Broadcast(Wide::Y) => 2689,
        RmOp::Broadcast(Wide::Z) => 2692,
        RmOp::BroadcastDouble => 2693,
    }
}

/// The number of an operation on a register and memory.
pub fn code_of_rm(op: RmOp) -> (n: u16)
    ensures
        n == rm_code(op),
{
    reveal(rm_code);
    match op {
        RmOp::Mov => 286,
        RmOp::Lea => 292,
        RmOp::MovScalar(Elem::F32) => 905,
        RmOp::MovScalar(Elem::F64) => 910,
        RmOp::MovVector(Elem::F32, Wide::Y) => 895,
        RmOp::MovVector(Elem::F32, Wide::Z) => 898,
        RmOp::MovVector(Elem::F64, Wide::Y) => 901,
        RmOp::MovVector(Elem::F64, Wide::Z) => 904,
        RmOp::Broadcast(Wide::Y) => 2689,
        RmOp::Broadcast(Wide::Z) => 2692,
        RmOp::BroadcastDouble => 2693,
    }
}

/// The number of an operation on memory and a register.
#[verifier::opaque]
pub open spec fn mr_code(op: MrOp) -> u16 {
    match op {
        MrOp::MovScalar(Elem::F32) => 927,
        MrOp::MovScalar(Elem::F64) => 932,
        MrOp::MovVector(Elem::F32, Wide::Y) => 917,
        MrOp::MovVector(Elem::F32, Wide::Z) => 920,
        MrOp::MovVector(Elem::F64, Wide::Y) => 923,
        MrOp::MovVector(Elem::F64, Wide::Z) => 926,
    }
}

/// The number of an operation on memory and a register.
pub fn code_of_mr(op: MrOp) -> (n: u16)
    ensures
        n == mr_code(op),
{
    reveal(mr_code);
    match op {
        MrOp::MovScalar(Elem::F32) => 927,
        MrOp::MovScalar(Elem::F64) => 932,
        MrOp::MovVector(Elem::F32, Wide::Y) => 917,
        MrOp::MovVector(Elem::F32, Wide::Z) => 920,
        MrOp::MovVector(Elem::F64, Wide::Y) => 923,
        MrOp::MovVector(Elem::F64, Wide::Z) => 926,
    }
}

/// The number of an operation on three registers.
#[verifier::opaque]
pub open spec fn rrr_code(op: RrrOp) -> u16 {
    match op {
        RrrOp::Xor(Elem::F32, Wide::Y) => 1326,
        RrrOp::Xor(Elem::F32, Wide::Z) => 1329,
        RrrOp::Xor(Elem::F64, Wide::Y) => 1332,
        RrrOp::Xor(Elem::F64, Wide::Z) => 1335,
        RrrOp::Fma(Wide::Y) => 3535,
        RrrOp::Fma(Wide::Z) => 3540,
        RrrOp::Packed(Arith::Add, Elem::F32, Wide::Y) => 1338,
        RrrOp::Packed(Arith::Sub, Elem::F32, Wide::Y) => 1413,
        RrrOp::Packed(Arith::Mul, Elem::F32, Wide::Y) => 1356,
        RrrOp::Packed(Arith::Div, Elem::F32, Wide::Y) => 1449,
        RrrOp::Packed(Arith::Min, Elem::F32, Wide::Y) => 1431,
        RrrOp::Packed(Arith::Max, Elem::F32, Wide::Y) => 1467,
        RrrOp::Packed(Arith::Add, Elem::F32, Wide::Z) => 1341,
        RrrOp::Packed(Arith::Sub, Elem::F32, Wide::Z) => 1416,
        RrrOp::Packed(Arith::Mul, Elem::F32, Wide::Z) => 1359,
        RrrOp::Packed(Arith::Div, Elem::F32, Wide::Z) => 1452,
        RrrOp::Packed(Arith::Min, Elem::F32, Wide::Z) => 1434,
        RrrOp::Packed(Arith::Max, Elem::F32, Wide::Z) => 1470,
        RrrOp::Packed(Arith::Add, Elem::F64, Wide::Y) => 1344,
        RrrOp::Packed(Arith::Sub, Elem::F64, Wide::Y) => 1419,
        RrrOp::Packed(Arith::Mul, Elem::F64, Wide::Y) => 1362,
        RrrOp::Packed(Arith::Div, Elem::F64, Wide::Y) => 1455,
        RrrOp::Packed(Arith::Min, Elem::F64, Wide::Y) => 1437,
        RrrOp::Packed(Arith::Max, Elem::F64, Wide::Y) => 1473,
        RrrOp::Packed(Arith::Add, Elem::F64, Wide::Z) => 1347,
        RrrOp::Packed(Arith::Sub, Elem::F64, Wide::Z) => 1422,
        RrrOp::Packed(Arith::Mul, Elem::F64, Wide::Z) => 1365,
        RrrOp::Packed(Arith::Div, Elem::F64, Wide::Z) => 1458,
        RrrOp::Packed(Arith::Min, Elem::F64, Wide::Z) => 1440,
        RrrOp::Packed(Arith::Max, Elem::F64, Wide::Z) => 1476,
    }
}

/// The number of an operation on three registers.
pub fn code_of_rrr(op: RrrOp) -> (n: u16)
    ensures
        n == rrr_code(op),
{
    reveal(rrr_code);
    match op {
        RrrOp::Xor(Elem::F32, Wide::Y) => 1326,
        RrrOp::Xor(Elem::F32, Wide::Z) => 1329,
        RrrOp::Xor(Elem::F64, Wide::Y) => 1332,
        RrrOp::Xor(Elem::F64, Wide::Z) => 1335,
        RrrOp::Fma(Wide::Y) => 3535,
        RrrOp::Fma(Wide::Z) => 3540,
        RrrOp::Packed(Arith::Add, Elem::F32, Wide::Y) => 1338,
        RrrOp::Packed(Arith::Sub, Elem::F32, Wide::Y) => 1413,
        RrrOp::Packed(Arith::Mul, Elem::F32, Wide::Y) => 1356,
        RrrOp::Packed(Arith::Div, Elem::F32, Wide::Y) => 1449,
        RrrOp::Packed(Arith::Min, Elem::F32, Wide::Y) => 1431,
        RrrOp::Packed(Arith::Max, Elem::F32, Wide::Y) => 1467,
        RrrOp::Packed(Arith::Add, Elem::F32, Wide::Z) => 1341,
        RrrOp::Packed(Arith::Sub, Elem::F32, Wide::Z) => 1416,
        RrrOp::Packed(Arith::Mul, Elem::F32, Wide::Z) => 1359,
        RrrOp::Packed(Arith::Div, Elem::F32, Wide::Z) => 1452,
        RrrOp::Packed(Arith::Min, Elem::F32, Wide::Z) => 1434,
        RrrOp::Packed(Arith::Max, Elem::F32, Wide::Z) => 1470,
        RrrOp::Packed(Arith::Add, Elem::F64, Wide::Y) => 1344,
        RrrOp::Packed(Arith::Sub, Elem::F64, Wide::Y) => 1419,
        RrrOp::Packed(Arith::Mul, Elem::F64, Wide::Y) => 1362,
        RrrOp::Packed(Arith::Div, Elem::F64, Wide::Y) => 1455,
        RrrOp::Packed(Arith::Min, Elem::F64, Wide::Y) => 1437,
        RrrOp::Packed(Arith::Max, Elem::F64, Wide::Y) => 1473,
        RrrOp::Packed(Arith::Add, Elem::F64, Wide::Z) => 1347,
        RrrOp::Packed(Arith::Sub, Elem::F64, Wide::Z) => 1422,
        RrrOp::Packed(Arith::Mul, Elem::F64, Wide::Z) => 1365,
        RrrOp::Packed(Arith::Div, Elem::F64, Wide::Z) => 1458,
        RrrOp::Packed(Arith::Min, Elem::F64, Wide::Z) => 1440,
        RrrOp::Packed(Arith::Max, Elem::F64, Wide::Z) => 1476,
    }
}

/// The number of an operation on two registers and memory.
#[verifier::opaque]
pub open spec fn rrm_code(op: RrmOp) -> u16 {
    match op {
        RrmOp::Packed(Arith::Add, Elem::F32) => 1338,
        RrmOp::Packed(Arith::Sub, Elem::F32) => 1413,
        RrmOp::Packed(Arith::Mul, Elem::F32) => 1356,
        RrmOp::Packed(Arith::Div, Elem::F32) => 1449,
        RrmOp::Packed(Arith::Min, Elem::F32) => 1431,
        RrmOp::Packed(Arith::Max, Elem::F32) => 1467,
        RrmOp::Packed(Arith::Add, Elem::F64) => 1344,
        RrmOp::Packed(Arith::Sub, Elem::F64) => 1419,
        RrmOp::Packed(Arith::Mul, Elem::F64) => 1362,
        RrmOp::Packed(Arith::Div, Elem::F64) => 1455,
        RrmOp::Packed(Arith::Min, Elem::F64) => 1437,
        RrmOp::Packed(Arith::Max, Elem::F64) => 1473,
        RrmOp::Scalar(Arith::Add, Elem::F32) => 1349,
        RrmOp::Scalar(Arith::Sub, Elem::F32) => 1424,
        RrmOp::Scalar(Arith::Mul, Elem::F32) => 1367,
        RrmOp::Scalar(Arith::Div, Elem::F32) => 1460,
        RrmOp::Scalar(Arith::Min, Elem::F32) => 1442,
        RrmOp::Scalar(Arith::Max, Elem::F32) => 1478,
        RrmOp::Scalar(Arith::Add, Elem::F64) => 1352,
        RrmOp::Scalar(Arith::Sub, Elem::F64) => 1427,
        RrmOp::Scalar(Arith::Mul, Elem::F64) => 1370,
        RrmOp::Scalar(Arith::Div, Elem::F64) => 1463,
        RrmOp::Scalar(Arith::Min, Elem::F64) => 1445,
        RrmOp::Scalar(Arith::Max, Elem::F64) => 1481,
    }
}

/// The number of an operation on two registers and memory.
pub fn code_of_rrm(op: RrmOp) -> (n: u16)
    ensures
        n == rrm_code(op),
{
    reveal(rrm_code);
    match op {
        RrmOp::Packed(Arith::Add, Elem::F32) => 1338,
        RrmOp::Packed(Arith::Sub, Elem::F32) => 1413,
        RrmOp::Packed(Arith::Mul, Elem::F32) => 1356,
        RrmOp::Packed(Arith::Div, Elem::F32) => 1449,
        RrmOp::Packed(Arith::Min, Elem::F32) => 1431,
        RrmOp::Packed(Arith::Max, Elem::F32) => 1467,
        RrmOp::Packed(Arith::Add, Elem::F64) => 1344,
        RrmOp::Packed(Arith::Sub, Elem::F64) => 1419,
        RrmOp::Packed(Arith::Mul, Elem::F64) => 1362,
        RrmOp::Packed(Arith::Div, Elem::F64) => 1455,
        RrmOp::Packed(Arith::Min, Elem::F64) => 1437,
        RrmOp::Packed(Arith::Max, Elem::F64) => 1473,
        RrmOp::Scalar(Arith::Add, Elem::F32) => 1349,
        RrmOp::Scalar(Arith::Sub, Elem::F32) => 1424,
        RrmOp::Scalar(Arith::Mul, Elem::F32) => 1367,
        RrmOp::Scalar(Arith::Div, Elem::F32) => 1460,
        RrmOp::Scalar(Arith::Min, Elem::F32) => 1442,
        RrmOp::Scalar(Arith::Max, Elem::F32) => 1478,
        RrmOp::Scalar(Arith::Add, Elem::F64) => 1352,
        RrmOp::Scalar(Arith::Sub, Elem::F64) => 1427,
        RrmOp::Scalar(Arith::Mul, Elem::F64) => 1370,
        RrmOp::Scalar(Arith::Div, Elem::F64) => 1463,
        RrmOp::Scalar(Arith::Min, Elem::F64) => 1445,
        RrmOp::Scalar(Arith::Max, Elem::F64) => 1481,
    }
}

/// The number of an operation on three registers and a small number.
#[verifier::opaque]
pub open spec fn rrri_code(op: RrriOp) -> u16 {
    match op {
        RrriOp::Perm2f128 => 3738,
        RrriOp::Shuf(Elem::F32) => 2178,
        RrriOp::Shuf(Elem::F64) => 2184,
    }
}

/// The number of an operation on three registers and a small number.
pub fn code_of_rrri(op: RrriOp) -> (n: u16)
    ensures
        n == rrri_code(op),
{
    reveal(rrri_code);
    match op {
        RrriOp::Perm2f128 => 3738,
        RrriOp::Shuf(Elem::F32) => 2178,
        RrriOp::Shuf(Elem::F64) => 2184,
    }
}

/// The number of an operation on a register and a number: there is a form for `rax`, a short form
/// for small numbers and a long form.
#[verifier::opaque]
pub open spec fn ri_code(op: RiOp, dst: Reg, imm: i32) -> u16 {
    match op {
        RiOp::Add => if dst == Reg::Rax {
            16
        } else if -128 <= imm <= 127 {
            249
        } else {
            217
        },
        RiOp::Sub => if dst == Reg::Rax {
            92
        } else if -128 <= imm <= 127 {
            264
        } else {
            232
        },
        RiOp::Cmp => if dst == Reg::Rax {
            118
        } else if -128 <= imm <= 127 {
            270
        } else {
            238
        },
    }
}

/// The number of an operation on a register and a number.
pub fn code_of_ri(op: RiOp, dst: Reg, imm: i32) -> (n: u16)
    ensures
        n == ri_code(op, dst, imm),
{
    reveal(ri_code);
    match op {
        RiOp::Add => if dst == Reg::Rax {
            16
        } else if -128 <= imm && imm <= 127 {
            249
        } else {
            217
        },
        RiOp::Sub => if dst == Reg::Rax {
            92
        } else if -128 <= imm && imm <= 127 {
            264
        } else {
            232
        },
        RiOp::Cmp => if dst == Reg::Rax {
            118
        } else if -128 <= imm && imm <= 127 {
            270
        } else {
            238
        },
    }
}

/// The number of the load of a 64-bit number.
pub const MOV_IMM64: u16 = 358;

/// The number of the load of a 32-bit number.
pub const MOV_IMM32: u16 = 357;

/// The number of the shift to the left by a fixed distance.
pub const SHL_IMM8: u16 = 381;

/// The shift that multiplies by the size of an element.
#[verifier::allow_in_spec]
pub fn size_shift(e: Elem) -> i64
    returns
        (match e {
            Elem::F32 => 2i64,
            Elem::F64 => 3i64,
        }),
{
    match e {
        Elem::F32 => 2,
        Elem::F64 => 3,
    }
}

/// A filler of one to nine bytes that does nothing.
#[derive(Debug, Clone, Copy, PartialEq, Eq, Structural)]
pub enum Filler {
    One,
    Two,
    Three,
    Four,
    Five,
    Six,
    Seven,
    Eight,
    Nine,
}

/// A place in memory: a base register, an optional index register and a displacement.
#[derive(Debug, Clone, Copy, PartialEq, Eq, Structural)]
pub struct Mem {
    pub base: Reg,
    pub index: Option<Reg>,
    pub disp: i32,
}

/// An operation that is no jump and leaves the stack alone.
#[derive(Debug, Clone, Copy, PartialEq, Eq)]
pub enum Op {
    /// No operands.
    Bare(BareOp),
    /// Destination and source.
    Rr(RrOp, Reg, Reg),
    /// Destination and number.
    Ri(RiOp, Reg, i32),
    /// Loads a 64-bit number.
    Mov64(Reg, i64),
    /// Loads a 32-bit number.
    Mov32(Reg, u32),
    /// Multiplies by the size of an element.
    Scale(Reg, Elem),
    /// Destination and the memory read.
    Rm(RmOp, Reg, Mem),
    /// The memory written and the source.
    Mr(MrOp, Mem, Reg),
    /// Destination and two sources.
    Rrr(RrrOp, Reg, Reg, Reg),
    /// Destination, source and the memory read.
    Rrm(RrmOp, Reg, Reg, Mem),
    /// Destination, two sources and a selector.
    Rrri(RrriOp, Reg, Reg, Reg, u8),
    /// A filler that does nothing.
    Nop(Filler),
}

/// When a jump is taken.
#[derive(Debug, Clone, Copy, PartialEq, Eq, Structural)]
pub enum JumpKind {
    Always,
    /// The last comparison found the first operand at least the second.
    GreaterOrEqual,
    /// The last comparison found the first operand below the second.
    Less,
}

/// One line of a program.
#[derive(Debug, Clone, Copy, PartialEq, Eq)]
pub enum Ins {
    Op(Op),
    Push(Reg),
    Pop(Reg),
    /// A jump to a label.
    Jump(JumpKind, u64),
    /// The label addresses the line that follows.
    Place(u64),
}

/// The memory at a register.
#[verifier::allow_in_spec]
pub fn at(base: Reg) -> Mem
    returns
        (Mem { base, index: None, disp: 0 }),
{
    Mem { base, index: None, disp: 0 }
}

/// The memory at a register plus a displacement.
#[verifier::allow_in_spec]
pub fn at_disp(base: Reg, disp: i32) -> Mem
    returns
        (Mem { base, index: None, disp }),
{
    Mem { base, index: None, disp }
}

/// The memory at the sum of two registers and a displacement.
#[verifier::allow_in_spec]
pub fn at_sum(base: Reg, index: Reg, disp: i32) -> Mem
    returns
        (Mem { base, index: Some(index), disp }),
{
    Mem { base, index: Some(index), disp }
}

/// `dst = src`.
#[verifier::allow_in_spec]
pub fn mov(dst: Reg, src: Reg) -> Op
    returns
        (Op::Rr(RrOp::Mov, dst, src)),
{
    Op::Rr(RrOp::Mov, dst, src)
}

/// `dst = imm`, 64 bits.
#[verifier::allow_in_spec]
pub fn mov_imm(dst: Reg, imm: i64) -> Op
    returns
        (Op::Mov64(dst, imm)),
{
    Op::Mov64(dst, imm)
}

/// `dst = imm`, 32 bits.
#[verifier::allow_in_spec]
pub fn mov_imm32(dst: Reg, imm: u32) -> Op
    returns
        (Op::Mov32(dst, imm)),
{
    Op::Mov32(dst, imm)
}

/// `dst += src`.
#[verifier::allow_in_spec]
pub fn add_reg(dst: Reg, src: Reg) -> Op
    returns
        (Op::Rr(RrOp::Add, dst, src)),
{
    Op::Rr(RrOp::Add, dst, src)
}

/// `dst += imm`.
#[verifier::allow_in_spec]
pub fn add_imm(dst: Reg, imm: i32) -> Op
    returns
        (Op::Ri(RiOp::Add, dst, imm)),
{
    Op::Ri(RiOp::Add, dst, imm)
}

/// `dst -= imm`.
#[verifier::allow_in_spec]
pub fn sub_imm(dst: Reg, imm: i32) -> Op
    returns
        (Op::Ri(RiOp::Sub, dst, imm)),
{
    Op::Ri(RiOp::Sub, dst, imm)
}

/// `dst` times the size of an element.
#[verifier::allow_in_spec]
pub fn scale(dst: Reg, e: Elem) -> Op
    returns
        (Op::Scale(dst, e)),
{
    Op::Scale(dst, e)
}

/// Compares two registers.
#[verifier::allow_in_spec]
pub fn compare(a: Reg, b: Reg) -> Op
    returns
        (Op::Rr(RrOp::Cmp, a, b)),
{
    Op::Rr(RrOp::Cmp, a, b)
}

/// Compares a register with a number.
#[verifier::allow_in_spec]
pub fn compare_imm(a: Reg, imm: i32) -> Op
    returns
        (Op::Ri(RiOp::Cmp, a, imm)),
{
    Op::Ri(RiOp::Cmp, a, imm)
}

/// `dst = 0`.
#[verifier::allow_in_spec]
pub fn clear(dst: Reg) -> Op
    returns
        (Op::Rr(RrOp::Xor, dst, dst)),
{
    Op::Rr(RrOp::Xor, dst, dst)
}

/// `dst *= src`.
#[verifier::allow_in_spec]
pub fn imul(dst: Reg, src: Reg) -> Op
    returns
        (Op::Rr(RrOp::Imul, dst, src)),
{
    Op::Rr(RrOp::Imul, dst, src)
}

/// `dst = base + index`.
#[verifier::allow_in_spec]
pub fn lea_sum(dst: Reg, base: Reg, index: Reg) -> Op
    returns
        (Op::Rm(RmOp::Lea, dst, Mem { base, index: Some(index), disp: 0 })),
{
    Op::Rm(RmOp::Lea, dst, Mem { base, index: Some(index), disp: 0 })
}

/// Loads one element.
#[verifier::allow_in_spec]
pub fn load(e: Elem, dst: Reg, m: Mem) -> Op
    returns
        (Op::Rm(RmOp::MovScalar(e), dst, m)),
{
    Op::Rm(RmOp::MovScalar(e), dst, m)
}

/// Stores one element.
#[verifier::allow_in_spec]
pub fn store(e: Elem, m: Mem, src: Reg) -> Op
    returns
        (Op::Mr(MrOp::MovScalar(e), m, src)),
{
    Op::Mr(MrOp::MovScalar(e), m, src)
}

/// Loads a vector.
#[verifier::allow_in_spec]
pub fn vload(e: Elem, w: Wide, dst: Reg, m: Mem) -> Op
    returns
        (Op::Rm(RmOp::MovVector(e, w), dst, m)),
{
    Op::Rm(RmOp::MovVector(e, w), dst, m)
}

/// Stores a vector.
#[verifier::allow_in_spec]
pub fn vstore(e: Elem, w: Wide, m: Mem, src: Reg) -> Op
    returns
        (Op::Mr(MrOp::MovVector(e, w), m, src)),
{
    Op::Mr(MrOp::MovVector(e, w), m, src)
}

/// Clears a vector register.
#[verifier::allow_in_spec]
pub fn vclear(e: Elem, w: Wide, r: Reg) -> Op
    returns
        (Op::Rrr(RrrOp::Xor(e, w), r, r, r)),
{
    Op::Rrr(RrrOp::Xor(e, w), r, r, r)
}

/// `dst += a * b` on vectors.
#[verifier::allow_in_spec]
pub fn fma(w: Wide, dst: Reg, a: Reg, b: Reg) -> Op
    returns
        (Op::Rrr(RrrOp::Fma(w), dst, a, b)),
{
    Op::Rrr(RrrOp::Fma(w), dst, a, b)
}

/// `dst = a op b` on vectors.
#[verifier::allow_in_spec]
pub fn packed(f: Arith, e: Elem, w: Wide, dst: Reg, a: Reg, b: Reg) -> Op
    returns
        (Op::Rrr(RrrOp::Packed(f, e, w), dst, a, b)),
{
    Op::Rrr(RrrOp::Packed(f, e, w), dst, a, b)
}

/// `dst = dst op src` on the low elements.
#[verifier::allow_in_spec]
pub fn scalar(f: Arith, e: Elem, dst: Reg, src: Reg) -> Op
    returns
        (Op::Rr(RrOp::Scalar(f, e), dst, src)),
{
    Op::Rr(RrOp::Scalar(f, e), dst, src)
}

/// Clears the low vector register by `xorps`.
#[verifier::allow_in_spec]
pub fn clear_low(r: Reg) -> Op
    returns
        (Op::Rr(RrOp::Xorps, r, r)),
{
    Op::Rr(RrOp::Xorps, r, r)
}

/// Loads one single-precision element into every place.
#[verifier::allow_in_spec]
pub fn broadcast(w: Wide, dst: Reg, m: Mem) -> Op
    returns
        (Op::Rm(RmOp::Broadcast(w), dst, m)),
{
    Op::Rm(RmOp::Broadcast(w), dst, m)
}

/// Loads one element into every place of a 256-bit vector.
#[verifier::allow_in_spec]
pub fn fill(e: Elem, dst: Reg, m: Mem) -> Op
    returns
        (match e {
            Elem::F32 => Op::Rm(RmOp::Broadcast(Wide::Y), dst, m),
            Elem::F64 => Op::Rm(RmOp::BroadcastDouble, dst, m),
        }),
{
    match e {
        Elem::F32 => Op::Rm(RmOp::Broadcast(Wide::Y), dst, m),
        Elem::F64 => Op::Rm(RmOp::BroadcastDouble, dst, m),
    }
}

/// `r = r op memory` on 256-bit vectors.
#[verifier::allow_in_spec]
pub fn acc_vector(f: Arith, e: Elem, r: Reg, m: Mem) -> Op
    returns
        (Op::Rrm(RrmOp::Packed(f, e), r, r, m)),
{
    Op::Rrm(RrmOp::Packed(f, e), r, r, m)
}

/// `r = r op memory` on the low elements.
#[verifier::allow_in_spec]
pub fn acc_scalar(f: Arith, e: Elem, r: Reg, m: Mem) -> Op
    returns
        (Op::Rrm(RrmOp::Scalar(f, e), r, r, m)),
{
    Op::Rrm(RrmOp::Scalar(f, e), r, r, m)
}

/// Rearranges the elements of a vector.
#[verifier::allow_in_spec]
pub fn select(op: RrriOp, dst: Reg, src: Reg, imm: u8) -> Op
    returns
        (Op::Rrri(op, dst, src, src, imm)),
{
    Op::Rrri(op, dst, src, src, imm)
}

/// An operation without operands.
#[verifier::allow_in_spec]
pub fn bare(op: BareOp) -> Op
    returns
        (Op::Bare(op)),
{
    Op::Bare(op)
}

} // verus!
