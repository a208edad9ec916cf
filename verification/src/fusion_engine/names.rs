//! Names of operations and descriptions of patterns.

use vstd::prelude::*;
use super::expr::{BinaryOp, NormOp, UnaryOp};
use super::findings;
use super::op::OpType;
use super::pattern::FusionPattern;

verus! {

/// An operation is called in an expression as it is called by itself; a norm goes without the
/// underscore, and what no operation stands for is called after what it is made of.
pub proof fn operations_keep_their_names()
    ensures
        UnaryOp::ReLU.symbol()@ == OpType::ReLU.name()@,
        UnaryOp::GELU.symbol()@ == OpType::GELU.name()@,
        UnaryOp::Sigmoid.symbol()@ == OpType::Sigmoid.name()@,
        UnaryOp::Tanh.symbol()@ == OpType::Tanh.name()@,
        UnaryOp::SiLU.symbol()@ == OpType::SiLU.name()@,
        UnaryOp::Neg.symbol()@ == OpType::Neg.name()@,
        UnaryOp::Exp.symbol()@ == OpType::Exp.name()@,
        UnaryOp::Abs.symbol()@ == OpType::Abs.name()@,
        UnaryOp::Sqrt.symbol()@ == OpType::Sqrt.name()@,
        BinaryOp::Add.symbol()@ == OpType::Add.name()@,
        BinaryOp::Mul.symbol()@ == OpType::Mul.name()@,
        BinaryOp::Sub.symbol()@ == OpType::Sub.name()@,
        BinaryOp::Div.symbol()@ == OpType::Div.name()@,
        BinaryOp::MatMul.symbol()@ == OpType::MatMul.name()@,
        UnaryOp::Rsqrt.symbol()@ == "r"@ + OpType::Sqrt.name()@,
        BinaryOp::ReduceSum.symbol()@ == OpType::Reduce.name()@ + "sum"@,
        OpType::LayerNorm.name()@ == NormOp::LayerNorm.symbol()@.take(5) + "_"@
            + NormOp::LayerNorm.symbol()@.skip(5),
        OpType::RMSNorm.name()@ == NormOp::RMSNorm.symbol()@.take(3) + "_"@
            + NormOp::RMSNorm.symbol()@.skip(3),
{
    reveal_strlit("rsqrt");
    reveal_strlit("sqrt");
    reveal_strlit("r");
    reveal_strlit("reducesum");
    reveal_strlit("reduce");
    reveal_strlit("sum");
    reveal_strlit("_");
    reveal_strlit("layer_norm");
    reveal_strlit("layernorm");
    reveal_strlit("rms_norm");
    reveal_strlit("rmsnorm");
    assert(UnaryOp::Rsqrt.symbol()@ =~= "r"@ + OpType::Sqrt.name()@);
    assert(BinaryOp::ReduceSum.symbol()@ =~= OpType::Reduce.name()@ + "sum"@);
    assert(OpType::LayerNorm.name()@ =~= NormOp::LayerNorm.symbol()@.take(5) + "_"@
        + NormOp::LayerNorm.symbol()@.skip(5));
    assert(OpType::RMSNorm.name()@ =~= NormOp::RMSNorm.symbol()@.take(3) + "_"@
        + NormOp::RMSNorm.symbol()@.skip(3));
}

proof fn lemma_stretch(text: Seq<char>, part: Seq<char>, from: int)
    requires
        0 <= from,
        from + part.len() <= text.len(),
        text.subrange(from, from + part.len()) == part,
    ensures
        findings::holds_text(text, part),
{
    let before = text.take(from);
    let after = text.skip(from + part.len());
    assert(text =~= before + part + after);
}

/// The description of a pattern says what the pattern brings together.
pub proof fn descriptions_say_what_is_fused(p: FusionPattern)
    ensures
        findings::holds_text(
            p.description()@,
            match p {
                FusionPattern::MatMulBiasReLU => "MatMul + bias add + activation"@,
                FusionPattern::AttentionBlock => "(Q*K^T + softmax + *V)"@,
                FusionPattern::NormResidualActivation => "LayerNorm/RMSNorm + residual addition + activation"@,
                FusionPattern::OptimizerStepFusion => "(weight + momentum + gradient)"@,
                FusionPattern::BackwardPassChain => "chain rule gradient computation"@,
                FusionPattern::CommunicationComputeOverlap => "communication (allreduce) with computation"@,
                FusionPattern::PersistentKernel => "resident on the device across iterations"@,
                FusionPattern::ElementwiseChain => "chain of element-wise operations"@,
                FusionPattern::ReductionFusion => "reduction + broadcast + elementwise"@,
                FusionPattern::HorizontalElementwise => "independent elementwise ops"@,
            },
        ),
{
    match p {
        FusionPattern::MatMulBiasReLU => {
            reveal_strlit("Fuses MatMul + bias add + activation into a single kernel, eliminating intermediate HBM writes for the MatMul and Add outputs");
            reveal_strlit("MatMul + bias add + activation");
            assert(p.description()@.subrange(6, 36) =~= "MatMul + bias add + activation"@);
            lemma_stretch(p.description()@, "MatMul + bias add + activation"@, 6);
        },
        FusionPattern::AttentionBlock => {
            reveal_strlit("Fuses the full attention block (Q*K^T + softmax + *V) into a single persistent kernel using online-softmax, avoiding materializing the large attention matrix in HBM");
            reveal_strlit("(Q*K^T + softmax + *V)");
            assert(p.description()@.subrange(31, 53) =~= "(Q*K^T + softmax + *V)"@);
            lemma_stretch(p.description()@, "(Q*K^T + softmax + *V)"@, 31);
        },
        FusionPattern::NormResidualActivation => {
            reveal_strlit("Fuses LayerNorm/RMSNorm + residual addition + activation, keeping the normalized intermediate in SRAM before the add");
            reveal_strlit("LayerNorm/RMSNorm + residual addition + activation");
            assert(p.description()@.subrange(6, 56) =~= "LayerNorm/RMSNorm + residual addition + activation"@);
            lemma_stretch(p.description()@, "LayerNorm/RMSNorm + residual addition + activation"@, 6);
        },
        FusionPattern::OptimizerStepFusion => {
            reveal_strlit("Fuses the optimizer update (weight + momentum + gradient) into a single pass, eliminating redundant memory traffic");
            reveal_strlit("(weight + momentum + gradient)");
            assert(p.description()@.subrange(27, 57) =~= "(weight + momentum + gradient)"@);
            lemma_stretch(p.description()@, "(weight + momentum + gradient)"@, 27);
        },
        FusionPattern::BackwardPassChain => {
            reveal_strlit("Fuses the chain rule gradient computation into a single kernel, eliminating intermediate gradient writes to HBM");
            reveal_strlit("chain rule gradient computation");
            assert(p.description()@.subrange(10, 41) =~= "chain rule gradient computation"@);
            lemma_stretch(p.description()@, "chain rule gradient computation"@, 10);
        },
        FusionPattern::CommunicationComputeOverlap => {
            reveal_strlit("Overlaps communication (allreduce) with computation for the next micro-batch, hiding communication latency");
            reveal_strlit("communication (allreduce) with computation");
            assert(p.description()@.subrange(9, 51) =~= "communication (allreduce) with computation"@);
            lemma_stretch(p.description()@, "communication (allreduce) with computation"@, 9);
        },
        FusionPattern::PersistentKernel => {
            reveal_strlit("Keeps a kernel resident on the device across iterations, avoiding launch overhead and retaining SRAM state");
            reveal_strlit("resident on the device across iterations");
            assert(p.description()@.subrange(15, 55) =~= "resident on the device across iterations"@);
            lemma_stretch(p.description()@, "resident on the device across iterations"@, 15);
        },
        FusionPattern::ElementwiseChain => {
            reveal_strlit("Fuses a chain of element-wise operations into a single kernel that reads input once and writes output once");
            reveal_strlit("chain of element-wise operations");
            assert(p.description()@.subrange(8, 40) =~= "chain of element-wise operations"@);
            lemma_stretch(p.description()@, "chain of element-wise operations"@, 8);
        },
        FusionPattern::ReductionFusion => {
            reveal_strlit("Fuses reduction + broadcast + elementwise into a single kernel, avoiding the reduced intermediate HBM round-trip");
            reveal_strlit("reduction + broadcast + elementwise");
            assert(p.description()@.subrange(6, 41) =~= "reduction + broadcast + elementwise"@);
            lemma_stretch(p.description()@, "reduction + broadcast + elementwise"@, 6);
        },
        FusionPattern::HorizontalElementwise => {
            reveal_strlit("Fuses independent elementwise ops operating on same-shape tensors into a single kernel, eliminating kernel launch overhead");
            reveal_strlit("independent elementwise ops");
            assert(p.description()@.subrange(6, 33) =~= "independent elementwise ops"@);
            lemma_stretch(p.description()@, "independent elementwise ops"@, 6);
        },
    }
}

} // verus!
