//! Matrix-multiplication microkernel (MMM) core for a tensor-inference
//! runtime.
//!
//! The crate concentrates the numerically delicate parts of executing
//! tensor operations through a small set of shape-specialized kernels:
//!
//! - [`rounding`]: bit-exact fixed-point rescale-and-round policies used
//!   when an integer accumulator is narrowed back to a quantized type;
//! - [`pack`]: rearranging a logical 2-D operand into the blocked,
//!   panel-major layout a kernel consumes;
//! - [`im2col`]: a virtual operand source that synthesizes packed
//!   convolution-window data on demand instead of materializing it;
//! - [`mmm`]: operand stores, the fused-operation pipeline, and
//!   deterministic kernel dispatch;
//! - [`tensor`], [`ops`], [`resize`]: the tensor view and operator-layer
//!   scaffolding the core is driven through.

use vstd::prelude::*;

pub mod rounding;
pub mod tensor;
pub mod pack;
pub mod im2col;
pub mod mmm;
pub mod ops;
pub mod resize;

verus! {

/// Error taxonomy of the core.
///
/// Shape and type mismatches are recoverable: they derive from model data
/// that may be malformed, so they are returned to the caller.  An
/// unsupported kernel configuration is a `NotSupported` answer from
/// dispatch.  The remaining variants belong to the operator layer.
#[derive(Debug, Clone, PartialEq, Eq)]
pub enum CoreError {
    /// Operand dimensions are inconsistent with the declared m/k/n extents.
    ShapeMismatch,
    /// Element types are inconsistent with the kernel's declared types.
    TypeMismatch,
    /// No kernel implementation exists for the requested type combination.
    NotSupported,
    /// The named operation has no implementation.
    Unimplemented { op: String },
    /// The operation does not support streaming evaluation.
    StreamingUnavailable,
    /// More input views were offered than the buffer has queues.
    QueueOverflow,
}

} // verus!
