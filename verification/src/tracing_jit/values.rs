//! Types of values as traces see them.

use vstd::prelude::*;
use crate::types::Value;

verus! {

/// Type of a run-time value, as far as a trace specialises on it.
#[derive(Debug, Clone, Copy, PartialEq, Eq, Hash, Structural)]
pub enum ValueType {
    /// Integer of any width.
    I64,
    /// Double-precision float.
    F64,
    /// Truth value.
    Bool,
    /// The unit value.
    Unit,
    /// Tensor of any kind.
    Tensor,
    /// Single-precision float.
    F32,
    /// Anything else.
    Unknown,
}

impl ValueType {
    /// The byte that stands for this type.
    #[verifier::allow_in_spec]
    pub fn code(self) -> (r: u8)
        returns
            (match self {
                ValueType::I64 => 0u8,
                ValueType::F64 => 1,
                ValueType::Bool => 2,
                ValueType::Unit => 3,
                ValueType::Tensor => 4,
                ValueType::F32 => 5,
                ValueType::Unknown => 255,
            }),
    {
        match self {
            ValueType::I64 => 0,
            ValueType::F64 => 1,
            ValueType::Bool => 2,
            ValueType::Unit => 3,
            ValueType::Tensor => 4,
            ValueType::F32 => 5,
            ValueType::Unknown => 255,
        }
    }
}

/// The type that a byte stands for.
pub open spec fn type_of_code(v: u8) -> ValueType {
    match v {
        0 => ValueType::I64,
        1 => ValueType::F64,
        2 => ValueType::Bool,
        3 => ValueType::Unit,
        4 => ValueType::Tensor,
        5 => ValueType::F32,
        _ => ValueType::Unknown,
    }
}

impl From<u8> for ValueType {
    fn from(v: u8) -> (r: Self) {
        match v {
            0 => ValueType::I64,
            1 => ValueType::F64,
            2 => ValueType::Bool,
            3 => ValueType::Unit,
            4 => ValueType::Tensor,
            5 => ValueType::F32,
            _ => ValueType::Unknown,
        }
    }
}

impl vstd::std_specs::convert::FromSpecImpl<u8> for ValueType {
    open spec fn obeys_from_spec() -> bool {
        true
    }

    open spec fn from_spec(v: u8) -> Self {
        type_of_code(v)
    }
}

/// Reading back the byte of a type gives the type.
pub proof fn code_round_trip(t: ValueType)
    ensures
        <ValueType as vstd::std_specs::convert::FromSpec<u8>>::obeys_from_spec(),
        <ValueType as vstd::std_specs::convert::FromSpec<u8>>::from_spec(t.code()) == t,
{
}

/// Every byte from 6 on stands for an unknown type, and the bytes before are those of the types.
pub proof fn other_codes_are_unknown(v: u8)
    ensures
        v >= 6 ==> <ValueType as vstd::std_specs::convert::FromSpec<u8>>::from_spec(v)
            == ValueType::Unknown,
        v < 6 ==> <ValueType as vstd::std_specs::convert::FromSpec<u8>>::from_spec(v).code() == v,
{
}

/// The type of a value. Integers of all widths are one type: they take one 64-bit slot.
pub open spec fn type_of_value(v: Value) -> ValueType {
    match v {
        Value::I64(_) | Value::I32(_) | Value::I8(_) | Value::I16(_) | Value::U8(_) | Value::U16(
            _,
        ) | Value::U32(_) | Value::U64(_) => ValueType::I64,
        Value::F32(_) => ValueType::F32,
        Value::F64(_) => ValueType::F64,
        Value::Bool(_) => ValueType::Bool,
        Value::Unit => ValueType::Unit,
        Value::Tensor(_) | Value::TensorF32(_) | Value::TensorFast(_) => ValueType::Tensor,
    }
}

impl Value {
    /// The type of this value.
    pub fn value_type(&self) -> (r: ValueType)
        ensures
            r == type_of_value(*self),
    {
        match self {
            Value::I64(_) | Value::I32(_) | Value::I8(_) | Value::I16(_) | Value::U8(_)
            | Value::U16(_) | Value::U32(_) | Value::U64(_) => ValueType::I64,
            Value::F32(_) => ValueType::F32,
            Value::F64(_) => ValueType::F64,
            Value::Bool(_) => ValueType::Bool,
            Value::Unit => ValueType::Unit,
            Value::Tensor(_) | Value::TensorF32(_) | Value::TensorFast(_) => ValueType::Tensor,
        }
    }
}

} // verus!
