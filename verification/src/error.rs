//! The ways in which an operation can refuse its input.

use vstd::prelude::*;

verus! {

/// Why an operation did not produce a result. No operation recovers from any of
/// these: each is handed straight back to the caller.
#[derive(Clone, Copy, Debug, PartialEq, Eq, Structural)]
pub enum Error {
    /// Two shapes that had to agree did not.
    ShapeMismatch,
    /// `backward` was called with no matching `forward` before it.
    MissingCache,
    /// An index went past an axis that is not broadcast.
    BroadcastViolation,
}

} // verus!
