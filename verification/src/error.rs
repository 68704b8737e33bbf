//! Error kinds raised by the clustering pipeline.

use vstd::prelude::*;

verus! {

/// Why a clustering or simplification request was refused.
#[derive(Clone, Copy, Debug, PartialEq, Eq, Structural)]
pub enum ClusterError {
    /// A parameter was outside its allowed range: a bin size that is not
    /// strictly positive, or a grid whose occupied extent would exceed the
    /// machine limits of the index.
    InvalidParameter,
    /// Simplification was requested on zero points.
    EmptyInput,
    /// Simplification against the cached index was requested before any
    /// clustering call populated the session.
    NoClustererAvailable,
    /// The external mesh-generation collaborator rejected its input.
    UpstreamFailure,
}

} // verus!
