//! Element types and tensor shapes.

use vstd::prelude::*;

verus! {

/// Data type of tensor elements, from full-precision floats down to 4-bit integers.
#[derive(Debug, Clone, Copy, PartialEq, Eq, Hash, Structural)]
pub enum DType {
    /// 32-bit IEEE 754 single-precision float.
    FP32,
    /// 16-bit IEEE 754 half-precision float.
    FP16,
    /// 16-bit brain float (8 exponent bits, 7 mantissa bits).
    BF16,
    /// 8-bit floating point (E4M3 or E5M2).
    FP8,
    /// 8-bit signed integer.
    INT8,
    /// 4-bit signed integer.
    INT4,
}

impl DType {
    /// Size in bytes of one element. A 4-bit integer counts as one byte: elements are packed
    /// two per byte, but a single access takes a full byte.
    #[inline]
    #[verifier::allow_in_spec]
    pub fn size_bytes(&self) -> (r: i64)
        returns
            (match self {
                DType::FP32 => 4i64,
                DType::FP16 => 2,
                DType::BF16 => 2,
                DType::FP8 => 1,
                DType::INT8 => 1,
                DType::INT4 => 1,
            }),
    {
        match self {
            DType::FP32 => 4,
            DType::FP16 => 2,
            DType::BF16 => 2,
            DType::FP8 => 1,
            DType::INT8 => 1,
            DType::INT4 => 1,
        }
    }

    /// Whether this is a floating-point type.
    #[inline]
    #[verifier::allow_in_spec]
    pub fn is_float(&self) -> (r: bool)
        returns
            matches!(self, DType::FP32 | DType::FP16 | DType::BF16 | DType::FP8),
    {
        matches!(self, DType::FP32 | DType::FP16 | DType::BF16 | DType::FP8)
    }

    /// Whether this is a quantized integer type.
    #[inline]
    #[verifier::allow_in_spec]
    pub fn is_quantized(&self) -> (r: bool)
        returns
            matches!(self, DType::INT8 | DType::INT4),
    {
        matches!(self, DType::INT8 | DType::INT4)
    }

    /// Name of this type in messages.
    #[verifier::allow_in_spec]
    pub fn name(&self) -> (r: &'static str)
        returns
            (match self {
                DType::FP32 => "fp32",
                DType::FP16 => "fp16",
                DType::BF16 => "bf16",
                DType::FP8 => "fp8",
                DType::INT8 => "int8",
                DType::INT4 => "int4",
            }),
    {
        match self {
            DType::FP32 => "fp32",
            DType::FP16 => "fp16",
            DType::BF16 => "bf16",
            DType::FP8 => "fp8",
            DType::INT8 => "int8",
            DType::INT4 => "int4",
        }
    }
}

/// Every element type is either a float or a quantized integer, never both, and the quantized
/// ones are the integers of 8 and of 4 bits.
pub proof fn float_or_quantized(d: DType)
    ensures
        d.is_quantized() == !d.is_float(),
        d.is_quantized() <==> d == DType::INT8 || d == DType::INT4,
{
}

/// Sizes of the dimensions of a tensor. The empty shape is a scalar.
pub type TensorShape = Vec<i64>;

/// `x` cut off to the range of `i64`.
pub open spec fn saturated(x: int) -> int {
    if x > i64::MAX {
        i64::MAX as int
    } else if x < i64::MIN {
        i64::MIN as int
    } else {
        x
    }
}

/// Product of the first `k` dimensions, cut off to the range of `i64` after each factor.
pub open spec fn saturated_product(shape: Seq<i64>, k: nat) -> int
    decreases k,
{
    if k == 0 {
        1
    } else {
        saturated(saturated_product(shape, (k - 1) as nat) * shape[k - 1])
    }
}

/// Number of elements of a tensor of this shape: zero if a dimension is zero, otherwise the
/// saturating product of the dimensions.
pub open spec fn element_count(shape: Seq<i64>) -> int {
    if shape.contains(0) {
        0
    } else {
        saturated_product(shape, shape.len())
    }
}

/// Bytes that a tensor of this shape and element type takes.
pub open spec fn tensor_bytes(shape: Seq<i64>, dtype: DType) -> int {
    saturated(element_count(shape) * dtype.size_bytes())
}

/// Mathematical product of the first `k` dimensions.
pub open spec fn exact_product(shape: Seq<i64>, k: nat) -> int
    decreases k,
{
    if k == 0 {
        1
    } else {
        exact_product(shape, (k - 1) as nat) * shape[k - 1]
    }
}

/// `saturating_mul` on `i64`.
pub fn saturating_product(a: i64, b: i64) -> (r: i64)
    ensures
        r == saturated(a * b),
{
    match a.checked_mul(b) {
        Some(p) => p,
        None => {
            if (a < 0) == (b < 0) {
                assert(a * b >= 0) by (nonlinear_arith)
                    requires
                        (a < 0) == (b < 0),
                ;
                i64::MAX
            } else {
                assert(a * b <= 0) by (nonlinear_arith)
                    requires
                        (a < 0) != (b < 0),
                ;
                i64::MIN
            }
        },
    }
}

/// Number of elements in a tensor shape: 1 for a scalar, 0 if a dimension is zero, otherwise
/// the product of the dimensions, saturating at the limits of `i64`.
pub fn shape_num_elements(shape: &TensorShape) -> (r: i64)
    ensures
        r == element_count(shape@),
{
    let mut n: i64 = 1;
    let mut k: usize = 0;
    while k < shape.len()
        invariant
            k <= shape.len(),
            forall|i: int| 0 <= i < k ==> shape@[i] != 0,
            n == saturated_product(shape@, k as nat),
        decreases shape.len() - k,
    {
        let dim: i64 = shape[k];
        if dim == 0 {
            assert(shape@.contains(0)) by {
                assert(shape@[k as int] == 0);
            }
            return 0;
        }
        n = saturating_product(n, dim);
        k += 1;
    }
    n
}

/// Memory footprint in bytes of a tensor of the given shape and element type.
pub fn shape_memory_bytes(shape: &TensorShape, dtype: DType) -> (r: i64)
    ensures
        r == tensor_bytes(shape@, dtype),
{
    saturating_product(shape_num_elements(shape), dtype.size_bytes())
}

proof fn lemma_positive_product(shape: Seq<i64>, k: nat)
    requires
        k <= shape.len(),
        forall|i: int| 0 <= i < shape.len() ==> shape[i] > 0,
    ensures
        exact_product(shape, k) >= 1,
        saturated_product(shape, k) == (if exact_product(shape, k) > i64::MAX {
            i64::MAX as int
        } else {
            exact_product(shape, k)
        }),
    decreases k,
{
    if k > 0 {
        lemma_positive_product(shape, (k - 1) as nat);
        let p = exact_product(shape, (k - 1) as nat);
        let q = saturated_product(shape, (k - 1) as nat);
        let d = shape[k - 1] as int;
        assert(p * d >= 1) by (nonlinear_arith)
            requires
                p >= 1,
                d >= 1,
        ;
        if p > i64::MAX {
            assert(p * d >= p) by (nonlinear_arith)
                requires
                    p >= 1,
                    d >= 1,
            ;
            assert(q * d >= q) by (nonlinear_arith)
                requires
                    q >= 1,
                    d >= 1,
            ;
        }
    }
}

/// Where every dimension is positive, the element count is the product of the dimensions, or
/// the largest `i64` if the product is larger.
pub proof fn element_count_of_positive_shape(shape: Seq<i64>)
    requires
        forall|i: int| 0 <= i < shape.len() ==> shape[i] > 0,
    ensures
        element_count(shape) == (if exact_product(shape, shape.len()) > i64::MAX {
            i64::MAX as int
        } else {
            exact_product(shape, shape.len())
        }),
{
    lemma_positive_product(shape, shape.len());
}

proof fn lemma_no_product(shape: Seq<i64>, at: int, k: nat)
    requires
        0 <= at < k <= shape.len(),
        shape[at] == 0,
    ensures
        exact_product(shape, k) == 0,
    decreases k,
{
    if at < k - 1 {
        lemma_no_product(shape, at, (k - 1) as nat);
    }
}

/// Where no dimension is negative, a tensor takes the product of its dimensions times the size
/// of an element, or the largest `i64` if that is larger; this is the saturating product of its
/// element count and that size, and it is never negative.
pub proof fn bytes_of_whole_shape(shape: Seq<i64>, dtype: DType)
    requires
        forall|i: int| 0 <= i < shape.len() ==> shape[i] >= 0,
    ensures
        tensor_bytes(shape, dtype) == saturated(element_count(shape) * dtype.size_bytes()),
        tensor_bytes(shape, dtype) == (if exact_product(shape, shape.len()) * dtype.size_bytes()
            > i64::MAX {
            i64::MAX as int
        } else {
            exact_product(shape, shape.len()) * dtype.size_bytes()
        }),
        tensor_bytes(shape, dtype) >= 0,
{
    let p = exact_product(shape, shape.len());
    let size = dtype.size_bytes() as int;
    if shape.contains(0) {
        let at = choose|at: int| 0 <= at < shape.len() && shape[at] == 0;
        lemma_no_product(shape, at, shape.len());
    } else {
        assert forall|i: int| 0 <= i < shape.len() implies shape[i] > 0 by {
            assert(shape.contains(shape[i]));
        }
        element_count_of_positive_shape(shape);
        lemma_positive_product(shape, shape.len());
        assert(p * size >= p && i64::MAX * size >= i64::MAX) by (nonlinear_arith)
            requires
                p >= 1,
                size >= 1,
        ;
    }
}

} // verus!
