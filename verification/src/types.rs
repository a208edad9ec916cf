//! Bytecode instructions and run-time values.

use vstd::prelude::*;

verus! {

/// Operator of an instruction on two slots.
#[derive(Debug, Clone, Copy, PartialEq, Eq, Hash, Structural)]
pub enum BinOpKind {
    /// Sum.
    Add,
    /// Difference.
    Sub,
    /// Product.
    Mul,
    /// Quotient.
    Div,
    /// Remainder.
    Rem,
    /// Lesser operand.
    Min,
    /// Greater operand.
    Max,
    /// Bitwise conjunction.
    BitAnd,
    /// Bitwise disjunction.
    BitOr,
    /// Bitwise exclusive disjunction.
    BitXor,
    /// Equality.
    Eq,
    /// Inequality.
    Ne,
    /// Less than.
    Lt,
    /// Less than or equal.
    Le,
    /// Greater than.
    Gt,
    /// Greater than or equal.
    Ge,
    /// Fused multiply and add.
    FmaAdd,
}

/// Operator of an instruction on one slot.
#[derive(Debug, Clone, Copy, PartialEq, Eq, Hash, Structural)]
pub enum UnOpKind {
    /// Negation.
    Neg,
    /// Logical complement.
    Not,
    /// Square root.
    Sqrt,
}

/// A bytecode instruction. Destination slots come first. Floats are held as their bits.
#[derive(Debug, Clone, Copy, PartialEq, Eq, Hash, Structural)]
pub enum Instr {
    /// Loads a 32-bit integer.
    LoadI32(u16, i32),
    /// Loads a 64-bit integer.
    LoadI64(u16, i64),
    /// Loads a single-precision float.
    LoadF32(u16, u32),
    /// Loads a double-precision float.
    LoadF64(u16, u64),
    /// Loads a truth value.
    LoadBool(u16, bool),
    /// Loads the unit value.
    LoadUnit(u16),
    /// Applies an operator to two slots.
    BinOp(u16, BinOpKind, u16, u16),
    /// Applies an operator to one slot.
    UnOp(u16, UnOpKind, u16),
    /// Copies a slot.
    Move(u16, u16),
    /// Loads through the address in a slot.
    Load(u16, u16),
    /// Stores the second slot through the address in the first.
    Store(u16, u16),
    /// Jumps by an offset that counts from the next instruction.
    Jump(i32),
    /// Jumps if a slot is false.
    JumpFalse(u16, i32),
    /// Jumps if a slot is true.
    JumpTrue(u16, i32),
    /// Returns a slot.
    Return(u16),
    /// Does nothing.
    Nop,
}

impl BinOpKind {
    /// Whether the operator compares its operands.
    #[verifier::allow_in_spec]
    pub fn is_comparison(&self) -> (r: bool)
        returns
            matches!(self, BinOpKind::Eq
                | BinOpKind::Ne
                | BinOpKind::Lt
                | BinOpKind::Le
                | BinOpKind::Gt
                | BinOpKind::Ge),
    {
        matches!(self, BinOpKind::Eq
            | BinOpKind::Ne
            | BinOpKind::Lt
            | BinOpKind::Le
            | BinOpKind::Gt
            | BinOpKind::Ge)
    }

    /// Whether the operands may be swapped and regrouped.
    #[verifier::allow_in_spec]
    pub fn is_associative_commutative(&self) -> (r: bool)
        returns
            matches!(self, BinOpKind::Add
                | BinOpKind::Mul
                | BinOpKind::Min
                | BinOpKind::Max
                | BinOpKind::BitAnd
                | BinOpKind::BitOr
                | BinOpKind::BitXor),
    {
        matches!(self, BinOpKind::Add
            | BinOpKind::Mul
            | BinOpKind::Min
            | BinOpKind::Max
            | BinOpKind::BitAnd
            | BinOpKind::BitOr
            | BinOpKind::BitXor)
    }

    /// A number that tells the operators apart.
    #[verifier::allow_in_spec]
    pub fn code(&self) -> (r: u8)
        returns
            (match self {
                BinOpKind::Add => 0u8,
                BinOpKind::Sub => 1,
                BinOpKind::Mul => 2,
                BinOpKind::Div => 3,
                BinOpKind::Rem => 4,
                BinOpKind::Min => 5,
                BinOpKind::Max => 6,
                BinOpKind::BitAnd => 7,
                BinOpKind::BitOr => 8,
                BinOpKind::BitXor => 9,
                BinOpKind::Eq => 10,
                BinOpKind::Ne => 11,
                BinOpKind::Lt => 12,
                BinOpKind::Le => 13,
                BinOpKind::Gt => 14,
                BinOpKind::Ge => 15,
                BinOpKind::FmaAdd => 16,
            }),
    {
        match self {
            BinOpKind::Add => 0,
            BinOpKind::Sub => 1,
            BinOpKind::Mul => 2,
            BinOpKind::Div => 3,
            BinOpKind::Rem => 4,
            BinOpKind::Min => 5,
            BinOpKind::Max => 6,
            BinOpKind::BitAnd => 7,
            BinOpKind::BitOr => 8,
            BinOpKind::BitXor => 9,
            BinOpKind::Eq => 10,
            BinOpKind::Ne => 11,
            BinOpKind::Lt => 12,
            BinOpKind::Le => 13,
            BinOpKind::Gt => 14,
            BinOpKind::Ge => 15,
            BinOpKind::FmaAdd => 16,
        }
    }
}

impl UnOpKind {
    /// A number that tells the operators apart.
    #[verifier::allow_in_spec]
    pub fn code(&self) -> (r: u8)
        returns
            (match self {
                UnOpKind::Neg => 0u8,
                UnOpKind::Not => 1,
                UnOpKind::Sqrt => 2,
            }),
    {
        match self {
            UnOpKind::Neg => 0,
            UnOpKind::Not => 1,
            UnOpKind::Sqrt => 2,
        }
    }
}

/// A value that a program computes. Floats are held as their bits.
#[derive(Debug)]
pub enum Value {
    /// 8-bit signed integer.
    I8(i8),
    /// 16-bit signed integer.
    I16(i16),
    /// 32-bit signed integer.
    I32(i32),
    /// 64-bit signed integer.
    I64(i64),
    /// 8-bit unsigned integer.
    U8(u8),
    /// 16-bit unsigned integer.
    U16(u16),
    /// 32-bit unsigned integer.
    U32(u32),
    /// 64-bit unsigned integer.
    U64(u64),
    /// Single-precision float.
    F32(u32),
    /// Double-precision float.
    F64(u64),
    /// Truth value.
    Bool(bool),
    /// The unit value.
    Unit,
    /// Double-precision tensor.
    Tensor(Vec<u64>),
    /// Single-precision tensor.
    TensorF32(Vec<u32>),
    /// Double-precision tensor of fixed size.
    TensorFast(Box<[u64]>),
}

} // verus!
