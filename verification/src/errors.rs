//! Typed failures of the coordination engine.
use vstd::prelude::*;

verus! {

/// Structural misuse surfaced to the caller instead of a crash.
#[derive(Debug, Clone, Copy, PartialEq, Eq, Structural)]
pub enum DistributedError {
    /// A routing or connection request named an unknown node id.
    InvalidReference,
    /// Aggregation was attempted with an empty submission set.
    NoPendingData,
    /// A quantization bit-width outside the supported set, or a
    /// sparsification ratio outside `(0, 1]`.
    UnsupportedParameter,
}

} // verus!
