//! The error that the point bridge reports.

use vstd::prelude::*;

verus! {

/// Why an operation on signature material was refused.
#[derive(Debug, Clone, Copy, PartialEq, Eq, Structural)]
pub enum SignatureError {
    /// A point of the curve has a component in the torsion subgroup of
    /// order 8, so it stands for no point of the prime-order group.
    PointDecompressionError,
}

} // verus!
