//! The compositions of operations that can be replaced by one fused kernel.

use vstd::prelude::*;

verus! {

/// A known composition of operations that one fused kernel can replace.
#[derive(Debug, Clone, Copy, PartialEq, Eq, Hash, Structural)]
pub enum FusionPattern {
    /// Matrix multiplication, bias add and activation.
    MatMulBiasReLU,
    /// Scaled dot-product attention around a softmax.
    AttentionBlock,
    /// Normalization, residual addition and activation.
    NormResidualActivation,
    /// Weight, momentum and gradient update of an optimizer.
    OptimizerStepFusion,
    /// Chain-rule products and sums of a backward pass.
    BackwardPassChain,
    /// A collective that overlaps with a computation.
    CommunicationComputeOverlap,
    /// A repeated block whose kernel stays resident.
    PersistentKernel,
    /// A chain of element-wise operations.
    ElementwiseChain,
    /// A reduction followed by element-wise operations.
    ReductionFusion,
    /// Independent element-wise operations on tensors of one shape.
    HorizontalElementwise,
}

impl FusionPattern {
    /// Name of this pattern in messages.
    #[verifier::allow_in_spec]
    pub fn name(&self) -> (r: &'static str)
        returns
            (match self {
                FusionPattern::MatMulBiasReLU => "matmul_bias_relu",
                FusionPattern::AttentionBlock => "attention_block",
                FusionPattern::NormResidualActivation => "norm_residual_activation",
                FusionPattern::OptimizerStepFusion => "optimizer_step",
                FusionPattern::BackwardPassChain => "backward_pass_chain",
                FusionPattern::CommunicationComputeOverlap => "comm_compute_overlap",
                FusionPattern::PersistentKernel => "persistent_kernel",
                FusionPattern::ElementwiseChain => "elementwise_chain",
                FusionPattern::ReductionFusion => "reduction_fusion",
                FusionPattern::HorizontalElementwise => "horizontal_elementwise",
            }),
    {
        match self {
            FusionPattern::MatMulBiasReLU => "matmul_bias_relu",
            FusionPattern::AttentionBlock => "attention_block",
            FusionPattern::NormResidualActivation => "norm_residual_activation",
            FusionPattern::OptimizerStepFusion => "optimizer_step",
            FusionPattern::BackwardPassChain => "backward_pass_chain",
            FusionPattern::CommunicationComputeOverlap => "comm_compute_overlap",
            FusionPattern::PersistentKernel => "persistent_kernel",
            FusionPattern::ElementwiseChain => "elementwise_chain",
            FusionPattern::ReductionFusion => "reduction_fusion",
            FusionPattern::HorizontalElementwise => "horizontal_elementwise",
        }
    }

    /// What fusing this pattern does.
    #[verifier::allow_in_spec]
    pub fn description(&self) -> (r: &'static str)
        returns
            (match self {
                FusionPattern::MatMulBiasReLU => "Fuses MatMul + bias add + activation into a single kernel, eliminating intermediate HBM writes for the MatMul and Add outputs",
                FusionPattern::AttentionBlock => "Fuses the full attention block (Q*K^T + softmax + *V) into a single persistent kernel using online-softmax, avoiding materializing the large attention matrix in HBM",
                FusionPattern::NormResidualActivation => "Fuses LayerNorm/RMSNorm + residual addition + activation, keeping the normalized intermediate in SRAM before the add",
                FusionPattern::OptimizerStepFusion => "Fuses the optimizer update (weight + momentum + gradient) into a single pass, eliminating redundant memory traffic",
                FusionPattern::BackwardPassChain => "Fuses the chain rule gradient computation into a single kernel, eliminating intermediate gradient writes to HBM",
                FusionPattern::CommunicationComputeOverlap => "Overlaps communication (allreduce) with computation for the next micro-batch, hiding communication latency",
                FusionPattern::PersistentKernel => "Keeps a kernel resident on the device across iterations, avoiding launch overhead and retaining SRAM state",
                FusionPattern::ElementwiseChain => "Fuses a chain of element-wise operations into a single kernel that reads input once and writes output once",
                FusionPattern::ReductionFusion => "Fuses reduction + broadcast + elementwise into a single kernel, avoiding the reduced intermediate HBM round-trip",
                FusionPattern::HorizontalElementwise => "Fuses independent elementwise ops operating on same-shape tensors into a single kernel, eliminating kernel launch overhead",
            }),
    {
        match self {
            FusionPattern::MatMulBiasReLU => "Fuses MatMul + bias add + activation into a single kernel, eliminating intermediate HBM writes for the MatMul and Add outputs",
            FusionPattern::AttentionBlock => "Fuses the full attention block (Q*K^T + softmax + *V) into a single persistent kernel using online-softmax, avoiding materializing the large attention matrix in HBM",
            FusionPattern::NormResidualActivation => "Fuses LayerNorm/RMSNorm + residual addition + activation, keeping the normalized intermediate in SRAM before the add",
            FusionPattern::OptimizerStepFusion => "Fuses the optimizer update (weight + momentum + gradient) into a single pass, eliminating redundant memory traffic",
            FusionPattern::BackwardPassChain => "Fuses the chain rule gradient computation into a single kernel, eliminating intermediate gradient writes to HBM",
            FusionPattern::CommunicationComputeOverlap => "Overlaps communication (allreduce) with computation for the next micro-batch, hiding communication latency",
            FusionPattern::PersistentKernel => "Keeps a kernel resident on the device across iterations, avoiding launch overhead and retaining SRAM state",
            FusionPattern::ElementwiseChain => "Fuses a chain of element-wise operations into a single kernel that reads input once and writes output once",
            FusionPattern::ReductionFusion => "Fuses reduction + broadcast + elementwise into a single kernel, avoiding the reduced intermediate HBM round-trip",
            FusionPattern::HorizontalElementwise => "Fuses independent elementwise ops operating on same-shape tensors into a single kernel, eliminating kernel launch overhead",
        }
    }

    /// Whether the fused schedule must be checked against the data dependencies of its loops.
    #[verifier::allow_in_spec]
    pub fn requires_polyhedral_validation(&self) -> (r: bool)
        returns
            matches!(self, FusionPattern::MatMulBiasReLU
                | FusionPattern::AttentionBlock
                | FusionPattern::ReductionFusion
                | FusionPattern::PersistentKernel
                | FusionPattern::BackwardPassChain
                | FusionPattern::HorizontalElementwise),
    {
        matches!(self, FusionPattern::MatMulBiasReLU
            | FusionPattern::AttentionBlock
            | FusionPattern::ReductionFusion
            | FusionPattern::PersistentKernel
            | FusionPattern::BackwardPassChain
            | FusionPattern::HorizontalElementwise)
    }

    /// Typical number of intermediate tensors that fusing this pattern removes.
    #[verifier::allow_in_spec]
    pub fn intermediates_eliminated(&self) -> (r: usize)
        returns
            (match self {
                FusionPattern::MatMulBiasReLU => 2usize,
                FusionPattern::AttentionBlock => 2usize,
                FusionPattern::NormResidualActivation => 1usize,
                FusionPattern::OptimizerStepFusion => 2usize,
                FusionPattern::BackwardPassChain => 1usize,
                FusionPattern::CommunicationComputeOverlap => 0usize,
                FusionPattern::PersistentKernel => 1usize,
                FusionPattern::ElementwiseChain => 1usize,
                FusionPattern::ReductionFusion => 1usize,
                FusionPattern::HorizontalElementwise => 0usize,
            }),
    {
        match self {
            FusionPattern::MatMulBiasReLU => 2usize,
            FusionPattern::AttentionBlock => 2usize,
            FusionPattern::NormResidualActivation => 1usize,
            FusionPattern::OptimizerStepFusion => 2usize,
            FusionPattern::BackwardPassChain => 1usize,
            FusionPattern::CommunicationComputeOverlap => 0usize,
            FusionPattern::PersistentKernel => 1usize,
            FusionPattern::ElementwiseChain => 1usize,
            FusionPattern::ReductionFusion => 1usize,
            FusionPattern::HorizontalElementwise => 0usize,
        }
    }
}

} // verus!
