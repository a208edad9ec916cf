//! Discovery of operations that can run as one fused kernel.

pub mod boundary;
pub mod choosing;
pub mod classify;
pub mod coverage;
pub mod dtype;
pub mod engine;
pub mod estimates;
pub mod exploration;
pub mod explorer;
pub mod expr;
pub mod findings;
pub mod horizontal;
pub mod ilp;
pub mod legality;
pub mod listing;
pub mod names;
pub mod op;
pub mod pattern;
pub mod profile;
pub mod ranking;
pub mod recognition;
pub mod savings;

pub use boundary::{FusionBoundary, FusionDecision};
pub use classify::classify_pattern_with_shapes;
pub use coverage::{compute_coverage_report, FusionCoverageReport};
pub use dtype::{shape_memory_bytes, shape_num_elements, DType, TensorShape};
pub use engine::FusionEngine;
pub use explorer::EgraphFusionExplorer;
pub use expr::{FusionExpr, RewriteRule};
pub use horizontal::detect_horizontal_fusion;
pub use ilp::{ilp_select_boundaries, selection_constraints};
pub use legality::{
    shapes_broadcast_compatible, validate_fusion_legality_detailed, FusionLegalityResult,
};
pub use op::{FusionOp, OpType};
pub use pattern::FusionPattern;
pub use profile::{speculative_handshake, DynamicShapeProfile};
