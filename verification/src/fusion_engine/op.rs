//! Operations as the fusion analysis sees them.

use vstd::prelude::*;
use super::dtype::{shape_memory_bytes, shape_num_elements, DType, TensorShape};

verus! {

/// What an operation computes, apart from how it is implemented.
#[derive(Debug, Clone, Copy, PartialEq, Eq, Hash, Structural)]
pub enum OpType {
    /// Matrix multiplication.
    MatMul,
    /// Batched matrix multiplication.
    BatchMatMul,
    /// Element-wise addition, bias add among them.
    Add,
    /// Element-wise multiplication.
    Mul,
    /// Element-wise subtraction.
    Sub,
    /// Element-wise division.
    Div,
    /// Rectified linear unit.
    ReLU,
    /// Gaussian error linear unit.
    GELU,
    /// Sigmoid activation.
    Sigmoid,
    /// Hyperbolic tangent.
    Tanh,
    /// Sigmoid-weighted linear unit.
    SiLU,
    /// Layer normalization.
    LayerNorm,
    /// Root mean square normalization.
    RMSNorm,
    /// Softmax.
    Softmax,
    /// Logarithm of softmax.
    LogSoftmax,
    /// Swap of two dimensions.
    Transpose,
    /// Change of shape without moving data.
    Reshape,
    /// Expansion of a dimension of size 1.
    Broadcast,
    /// Reordering of dimensions.
    Permute,
    /// Concatenation along a dimension.
    Concat,
    /// Extraction of a sub-tensor.
    Slice,
    /// Reduction along dimensions.
    Reduce,
    /// Index of the largest value along a dimension.
    ArgMax,
    /// Element-wise exponential.
    Exp,
    /// Element-wise square root.
    Sqrt,
    /// Element-wise reciprocal.
    Reciprocal,
    /// Element-wise negation.
    Neg,
    /// Element-wise absolute value.
    Abs,
    /// Sum across devices.
    AllReduce,
    /// Concatenation across devices.
    AllGather,
    /// Reduction scattered across devices.
    ReduceScatter,
    /// Unknown operation; nothing fuses with it.
    Custom,
}

impl OpType {
    /// Whether the same computation applies to each element independently.
    #[inline]
    #[verifier::allow_in_spec]
    pub fn is_elementwise(&self) -> (r: bool)
        returns
            matches!(self, OpType::Add
                | OpType::Mul
                | OpType::Sub
                | OpType::Div
                | OpType::ReLU
                | OpType::GELU
                | OpType::Sigmoid
                | OpType::Tanh
                | OpType::SiLU
                | OpType::Exp
                | OpType::Sqrt
                | OpType::Reciprocal
                | OpType::Neg
                | OpType::Abs),
    {
        matches!(self, OpType::Add
            | OpType::Mul
            | OpType::Sub
            | OpType::Div
            | OpType::ReLU
            | OpType::GELU
            | OpType::Sigmoid
            | OpType::Tanh
            | OpType::SiLU
            | OpType::Exp
            | OpType::Sqrt
            | OpType::Reciprocal
            | OpType::Neg
            | OpType::Abs)
    }

    /// Whether this is an activation function.
    #[inline]
    #[verifier::allow_in_spec]
    pub fn is_activation(&self) -> (r: bool)
        returns
            matches!(self, OpType::ReLU
                | OpType::GELU
                | OpType::Sigmoid
                | OpType::Tanh
                | OpType::SiLU),
    {
        matches!(self, OpType::ReLU
            | OpType::GELU
            | OpType::Sigmoid
            | OpType::Tanh
            | OpType::SiLU)
    }

    /// Whether this is a normalization.
    #[inline]
    #[verifier::allow_in_spec]
    pub fn is_normalization(&self) -> (r: bool)
        returns
            matches!(self, OpType::LayerNorm
                | OpType::RMSNorm),
    {
        matches!(self, OpType::LayerNorm
            | OpType::RMSNorm)
    }

    /// Whether this only rearranges data.
    #[inline]
    #[verifier::allow_in_spec]
    pub fn is_structural(&self) -> (r: bool)
        returns
            matches!(self, OpType::Transpose
                | OpType::Reshape
                | OpType::Broadcast
                | OpType::Permute
                | OpType::Concat
                | OpType::Slice),
    {
        matches!(self, OpType::Transpose
            | OpType::Reshape
            | OpType::Broadcast
            | OpType::Permute
            | OpType::Concat
            | OpType::Slice)
    }

    /// Whether this is a collective across devices.
    #[inline]
    #[verifier::allow_in_spec]
    pub fn is_communication(&self) -> (r: bool)
        returns
            matches!(self, OpType::AllReduce
                | OpType::AllGather
                | OpType::ReduceScatter),
    {
        matches!(self, OpType::AllReduce
            | OpType::AllGather
            | OpType::ReduceScatter)
    }

    /// Name of this operation in messages.
    #[verifier::allow_in_spec]
    pub fn name(&self) -> (r: &'static str)
        returns
            (match self {
                OpType::MatMul => "matmul",
                OpType::BatchMatMul => "batch_matmul",
                OpType::Add => "add",
                OpType::Mul => "mul",
                OpType::Sub => "sub",
                OpType::Div => "div",
                OpType::ReLU => "relu",
                OpType::GELU => "gelu",
                OpType::Sigmoid => "sigmoid",
                OpType::Tanh => "tanh",
                OpType::SiLU => "silu",
                OpType::LayerNorm => "layer_norm",
                OpType::RMSNorm => "rms_norm",
                OpType::Softmax => "softmax",
                OpType::LogSoftmax => "log_softmax",
                OpType::Transpose => "transpose",
                OpType::Reshape => "reshape",
                OpType::Broadcast => "broadcast",
                OpType::Permute => "permute",
                OpType::Concat => "concat",
                OpType::Slice => "slice",
                OpType::Reduce => "reduce",
                OpType::ArgMax => "argmax",
                OpType::Exp => "exp",
                OpType::Sqrt => "sqrt",
                OpType::Reciprocal => "reciprocal",
                OpType::Neg => "neg",
                OpType::Abs => "abs",
                OpType::AllReduce => "all_reduce",
                OpType::AllGather => "all_gather",
                OpType::ReduceScatter => "reduce_scatter",
                OpType::Custom => "custom",
            }),
    {
        match self {
            OpType::MatMul => "matmul",
            OpType::BatchMatMul => "batch_matmul",
            OpType::Add => "add",
            OpType::Mul => "mul",
            OpType::Sub => "sub",
            OpType::Div => "div",
            OpType::ReLU => "relu",
            OpType::GELU => "gelu",
            OpType::Sigmoid => "sigmoid",
            OpType::Tanh => "tanh",
            OpType::SiLU => "silu",
            OpType::LayerNorm => "layer_norm",
            OpType::RMSNorm => "rms_norm",
            OpType::Softmax => "softmax",
            OpType::LogSoftmax => "log_softmax",
            OpType::Transpose => "transpose",
            OpType::Reshape => "reshape",
            OpType::Broadcast => "broadcast",
            OpType::Permute => "permute",
            OpType::Concat => "concat",
            OpType::Slice => "slice",
            OpType::Reduce => "reduce",
            OpType::ArgMax => "argmax",
            OpType::Exp => "exp",
            OpType::Sqrt => "sqrt",
            OpType::Reciprocal => "reciprocal",
            OpType::Neg => "neg",
            OpType::Abs => "abs",
            OpType::AllReduce => "all_reduce",
            OpType::AllGather => "all_gather",
            OpType::ReduceScatter => "reduce_scatter",
            OpType::Custom => "custom",
        }
    }
}

/// No operation belongs to two of the classes elementwise, normalization, structural and
/// communication; those that belong to none are the products, softmax and its logarithm, the
/// reductions and the unknown operation.
pub proof fn op_classes_disjoint(t: OpType)
    ensures
        t.is_elementwise() ==> !t.is_normalization() && !t.is_structural() && !t.is_communication(),
        t.is_normalization() ==> !t.is_structural() && !t.is_communication(),
        t.is_structural() ==> !t.is_communication(),
        !t.is_elementwise() && !t.is_normalization() && !t.is_structural() && !t.is_communication()
            <==> t == OpType::MatMul || t == OpType::BatchMatMul || t == OpType::Softmax || t
            == OpType::LogSoftmax || t == OpType::Reduce || t == OpType::ArgMax || t
            == OpType::Custom,
        t.is_structural() <==> t == OpType::Transpose || t == OpType::Reshape || t
            == OpType::Broadcast || t == OpType::Permute || t == OpType::Concat || t
            == OpType::Slice,
{
}

/// The elementwise operations are the four arithmetic ones, the activations, and the functions
/// of one number.
pub proof fn activations_are_elementwise(t: OpType)
    ensures
        t.is_elementwise() <==> t == OpType::Add || t == OpType::Mul || t == OpType::Sub || t
            == OpType::Div || t.is_activation() || t == OpType::Exp || t == OpType::Sqrt || t
            == OpType::Reciprocal || t == OpType::Neg || t == OpType::Abs,
        t.is_activation() <==> t == OpType::ReLU || t == OpType::GELU || t == OpType::Sigmoid || t
            == OpType::Tanh || t == OpType::SiLU,
        t.is_activation() ==> t.is_elementwise(),
        t == OpType::Add ==> t.is_elementwise() && !t.is_activation(),
{
}

/// Whether a character is a small letter or an underscore.
pub open spec fn is_name_char(c: char) -> bool {
    'a' <= c <= 'z' || c == '_'
}

/// The operation of a name, told by the length of the name and a few of its letters.
spec fn op_named(s: Seq<char>) -> OpType {
    if s.len() == 3 {
        if s[0] == 'a' {
            if s[1] == 'd' { OpType::Add } else { OpType::Abs }
        } else if s[0] == 'm' {
            OpType::Mul
        } else if s[0] == 's' {
            OpType::Sub
        } else if s[0] == 'd' {
            OpType::Div
        } else if s[0] == 'e' {
            OpType::Exp
        } else {
            OpType::Neg
        }
    } else if s.len() == 4 {
        if s[0] == 'r' {
            OpType::ReLU
        } else if s[0] == 'g' {
            OpType::GELU
        } else if s[0] == 't' {
            OpType::Tanh
        } else if s[1] == 'i' {
            OpType::SiLU
        } else {
            OpType::Sqrt
        }
    } else if s.len() == 5 {
        OpType::Slice
    } else if s.len() == 6 {
        if s[0] == 'm' {
            OpType::MatMul
        } else if s[0] == 'r' {
            OpType::Reduce
        } else if s[0] == 'a' {
            OpType::ArgMax
        } else if s[1] == 'o' {
            OpType::Concat
        } else {
            OpType::Custom
        }
    } else if s.len() == 7 {
        if s[0] == 'r' {
            OpType::Reshape
        } else if s[0] == 'p' {
            OpType::Permute
        } else if s[1] == 'i' {
            OpType::Sigmoid
        } else {
            OpType::Softmax
        }
    } else if s.len() == 8 {
        OpType::RMSNorm
    } else if s.len() == 9 {
        if s[0] == 't' { OpType::Transpose } else { OpType::Broadcast }
    } else if s.len() == 10 {
        if s[0] == 'l' {
            OpType::LayerNorm
        } else if s[0] == 'r' {
            OpType::Reciprocal
        } else if s[4] == 'r' {
            OpType::AllReduce
        } else {
            OpType::AllGather
        }
    } else if s.len() == 11 {
        OpType::LogSoftmax
    } else if s.len() == 12 {
        OpType::BatchMatMul
    } else {
        OpType::ReduceScatter
    }
}

proof fn lemma_name(t: OpType)
    ensures
        op_named(t.name()@) == t,
        t.name()@.len() > 0,
        forall|i: int| 0 <= i < t.name()@.len() ==> is_name_char(#[trigger] t.name()@[i]),
{
    match t {
        OpType::MatMul => {
            reveal_strlit("matmul");
        },
        OpType::BatchMatMul => {
            reveal_strlit("batch_matmul");
        },
        OpType::Add => {
            reveal_strlit("add");
        },
        OpType::Mul => {
            reveal_strlit("mul");
        },
        OpType::Sub => {
            reveal_strlit("sub");
        },
        OpType::Div => {
            reveal_strlit("div");
        },
        OpType::ReLU => {
            reveal_strlit("relu");
        },
        OpType::GELU => {
            reveal_strlit("gelu");
        },
        OpType::Sigmoid => {
            reveal_strlit("sigmoid");
        },
        OpType::Tanh => {
            reveal_strlit("tanh");
        },
        OpType::SiLU => {
            reveal_strlit("silu");
        },
        OpType::LayerNorm => {
            reveal_strlit("layer_norm");
        },
        OpType::RMSNorm => {
            reveal_strlit("rms_norm");
        },
        OpType::Softmax => {
            reveal_strlit("softmax");
        },
        OpType::LogSoftmax => {
            reveal_strlit("log_softmax");
        },
        OpType::Transpose => {
            reveal_strlit("transpose");
        },
        OpType::Reshape => {
            reveal_strlit("reshape");
        },
        OpType::Broadcast => {
            reveal_strlit("broadcast");
        },
        OpType::Permute => {
            reveal_strlit("permute");
        },
        OpType::Concat => {
            reveal_strlit("concat");
        },
        OpType::Slice => {
            reveal_strlit("slice");
        },
        OpType::Reduce => {
            reveal_strlit("reduce");
        },
        OpType::ArgMax => {
            reveal_strlit("argmax");
        },
        OpType::Exp => {
            reveal_strlit("exp");
        },
        OpType::Sqrt => {
            reveal_strlit("sqrt");
        },
        OpType::Reciprocal => {
            reveal_strlit("reciprocal");
        },
        OpType::Neg => {
            reveal_strlit("neg");
        },
        OpType::Abs => {
            reveal_strlit("abs");
        },
        OpType::AllReduce => {
            reveal_strlit("all_reduce");
        },
        OpType::AllGather => {
            reveal_strlit("all_gather");
        },
        OpType::ReduceScatter => {
            reveal_strlit("reduce_scatter");
        },
        OpType::Custom => {
            reveal_strlit("custom");
        },
    }
}

/// Names are made of small letters and underscores, none is empty, and no two operations have
/// the same.
pub proof fn op_names_identify(a: OpType, b: OpType)
    ensures
        a.name()@.len() > 0,
        forall|i: int| 0 <= i < a.name()@.len() ==> is_name_char(#[trigger] a.name()@[i]),
        a.name()@ == b.name()@ <==> a == b,
        a.name() == b.name() <==> a == b,
{
    lemma_name(a);
    lemma_name(b);
}

/// An operation with the properties that decide about fusion: what it computes, the shapes it
/// reads and writes, its element type, and whether it overwrites its input.
#[derive(Debug, Clone)]
pub struct FusionOp {
    /// What the operation computes.
    pub op_type: OpType,
    /// Shape of the output tensor.
    pub output_shape: TensorShape,
    /// Shapes of the input tensors.
    pub input_shapes: Vec<TensorShape>,
    /// Element type of the output tensor.
    pub dtype: DType,
    /// Whether the output overwrites an input. Such an operation writes no intermediate.
    pub is_inplace: bool,
    /// Size of the output tensor in bytes.
    pub memory_bytes: i64,
}

/// A shape with each symbolic dimension (-1) taken as 1.
pub open spec fn resolved(shape: Seq<i64>) -> Seq<i64> {
    Seq::new(shape.len(), |i: int| if shape[i] == -1 { 1i64 } else { shape[i] })
}

/// `op` has the given properties and takes the memory of a tensor of the shape `sized_as`.
pub open spec fn is_made(
    op: FusionOp,
    op_type: OpType,
    output_shape: TensorShape,
    input_shapes: Vec<TensorShape>,
    dtype: DType,
    is_inplace: bool,
    sized_as: Seq<i64>,
) -> bool {
    &&& op.op_type == op_type
    &&& op.output_shape == output_shape
    &&& op.input_shapes == input_shapes
    &&& op.dtype == dtype
    &&& op.is_inplace == is_inplace
    &&& op.memory_bytes == super::dtype::tensor_bytes(sized_as, dtype)
}

/// Length of the dot product that yields one element of a matrix product: the last dimension
/// of the first input, or 1 where there is no such dimension or it is not positive.
pub open spec fn inner_dimension(input_shapes: Seq<TensorShape>) -> int {
    if input_shapes.len() > 0 && input_shapes[0]@.len() >= 2 && input_shapes[0]@.last() >= 1 {
        input_shapes[0]@.last() as int
    } else {
        1
    }
}

/// Arithmetic operations per output element.
pub open spec fn intensity(op: FusionOp) -> int {
    if super::dtype::element_count(op.output_shape@) <= 0 {
        0
    } else {
        match op.op_type {
            OpType::MatMul | OpType::BatchMatMul => 2 * inner_dimension(op.input_shapes@),
            OpType::Softmax | OpType::LogSoftmax | OpType::RMSNorm => 3,
            OpType::LayerNorm => 4,
            _ => 1,
        }
    }
}

impl FusionOp {
    /// An operation whose `memory_bytes` is computed from its output shape.
    pub fn new(
        op_type: OpType,
        output_shape: TensorShape,
        input_shapes: Vec<TensorShape>,
        dtype: DType,
        is_inplace: bool,
    ) -> (r: Self)
        ensures
            is_made(r, op_type, output_shape, input_shapes, dtype, is_inplace, output_shape@),
    {
        let memory_bytes: i64 = shape_memory_bytes(&output_shape, dtype);
        FusionOp { op_type, output_shape, input_shapes, dtype, is_inplace, memory_bytes }
    }

    /// An operation some of whose dimensions are not known yet: -1 stands for such a dimension,
    /// and `memory_bytes` is computed as if it were 1.
    pub fn with_dynamic_shape(
        op_type: OpType,
        output_shape: TensorShape,
        input_shapes: Vec<TensorShape>,
        dtype: DType,
        is_inplace: bool,
    ) -> (r: Self)
        ensures
            is_made(r, op_type, output_shape, input_shapes, dtype, is_inplace, resolved(output_shape@)),
    {
        let mut resolved_shape: TensorShape = Vec::new();
        let mut k: usize = 0;
        while k < output_shape.len()
            invariant
                k <= output_shape.len(),
                resolved_shape@ == resolved(output_shape@).take(k as int),
            decreases output_shape.len() - k,
        {
            let d: i64 = output_shape[k];
            resolved_shape.push(if d == -1 { 1 } else { d });
            k += 1;
            assert(resolved_shape@ =~= resolved(output_shape@).take(k as int));
        }
        assert(resolved_shape@ =~= resolved(output_shape@));
        let memory_bytes: i64 = shape_memory_bytes(&resolved_shape, dtype);
        FusionOp { op_type, output_shape, input_shapes, dtype, is_inplace, memory_bytes }
    }

    /// Number of elements in the output tensor.
    #[inline]
    pub fn num_output_elements(&self) -> (r: i64)
        ensures
            r == super::dtype::element_count(self.output_shape@),
    {
        shape_num_elements(&self.output_shape)
    }

    /// Arithmetic operations per output element, as a rough model: twice the inner dimension
    /// for a matrix product, a small constant otherwise, and nothing for an empty output.
    pub fn arithmetic_intensity(&self) -> (r: u64)
        ensures
            r == intensity(*self),
    {
        if self.num_output_elements() <= 0 {
            return 0;
        }
        match self.op_type {
            OpType::MatMul | OpType::BatchMatMul => {
                if self.input_shapes.len() == 0 {
                    return 2;
                }
                let dims: &TensorShape = &self.input_shapes[0];
                if dims.len() < 2 {
                    return 2;
                }
                let k: i64 = dims[dims.len() - 1];
                if k < 1 {
                    2
                } else {
                    2 * (k as u64)
                }
            },
            OpType::Softmax | OpType::LogSoftmax => 3,
            OpType::LayerNorm => 4,
            OpType::RMSNorm => 3,
            _ => 1,
        }
    }

    /// Whether the output is an intermediate that fusion can keep out of memory: it is not
    /// written in place, it is not empty, and no other device takes part.
    #[inline]
    #[verifier::allow_in_spec]
    pub fn is_intermediate_eligible(&self) -> (r: bool)
        returns
            !self.is_inplace && self.memory_bytes > 0 && !self.op_type.is_communication(),
    {
        !self.is_inplace && self.memory_bytes > 0 && !self.op_type.is_communication()
    }
}

/// An operation with symbolic dimensions keeps its shapes as they were given and takes as much
/// memory as one of the resolved shape; where no dimension is symbolic, it is the operation that
/// `FusionOp::new` makes.
pub proof fn dynamic_op_is_sized_as_resolved(
    dynamic: FusionOp,
    known: FusionOp,
    op_type: OpType,
    output_shape: TensorShape,
    known_shape: TensorShape,
    input_shapes: Vec<TensorShape>,
    dtype: DType,
    is_inplace: bool,
)
    requires
        is_made(
            dynamic,
            op_type,
            output_shape,
            input_shapes,
            dtype,
            is_inplace,
            resolved(output_shape@),
        ),
        is_made(known, op_type, known_shape, input_shapes, dtype, is_inplace, known_shape@),
    ensures
        known_shape@ == resolved(output_shape@) ==> dynamic.memory_bytes == known.memory_bytes,
        dynamic.output_shape == output_shape,
        dynamic.input_shapes == input_shapes,
        !output_shape@.contains(-1i64) && known_shape == output_shape ==> dynamic == known,
{
    if !output_shape@.contains(-1i64) {
        assert forall|i: int| 0 <= i < output_shape@.len() implies output_shape@[i] != -1 by {
            assert(output_shape@.contains(output_shape@[i]));
        }
        assert(resolved(output_shape@) =~= output_shape@);
    }
}

} // verus!
