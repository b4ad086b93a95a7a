//! Error taxonomy shared by the eviction policies.

use vstd::prelude::*;

verus! {

/// Cache eviction policy error.
///
/// Every failure an eviction policy can report is one of these kinds; all of
/// them are expected, recoverable outcomes of normal cache operation, and the
/// operations return them synchronously instead of panicking.
#[derive(Debug, Clone, Copy, PartialEq, Eq)]
pub enum EvictError<F> {
    /// Operation referenced a frame the replacer has no record of.
    InvalidFrameId(F),

    /// `remove` was attempted on a frame currently marked non-evictable.
    PinnedFrameRemoval(F),

    /// A new frame's first entry would exceed the configured capacity.
    FrameReplacerFull,

    /// The sequence source produced an unusable timestamp.
    InvalidTimestamp,

    /// No free frames available; reserved for the owning cache manager,
    /// which shares this taxonomy.  Never raised by the policies themselves.
    NoFramesAvailable,

    /// The sequence source reached its maximum value and cannot produce
    /// another strictly larger token.
    SequenceExhausted,
}

/// Cache eviction policy result type.
pub type EvictResult<T, F> = Result<T, EvictError<F>>;

} // verus!
