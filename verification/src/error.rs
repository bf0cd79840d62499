use vstd::prelude::*;

verus! {

/// Failures that the core reports to its caller; none is retried, since each
/// stems from an invariant violation rather than a transient condition.
#[derive(Clone, Copy, Debug, PartialEq, Eq, Structural)]
pub enum CoreError {
    /// Channel count, bit depth, or sample encoding outside the supported
    /// profile (stereo, 16-bit, integer PCM).
    UnsupportedFormat,
    /// Decoded channel sequences of unequal length, or of zero length.
    MalformedInput,
    /// Zero pixel width or height, or fewer samples than pixel columns, so
    /// that chunking cannot give every column at least one sample.
    DegenerateGeometry,
}

} // verus!
