//! Eviction-policy engine for a fixed-capacity frame cache.
//!
//! The crate tracks, per frame of an external cache, whether the frame is
//! currently evictable and how recently it was accessed, and on demand picks
//! the next frame to reclaim.  Two policies are provided: a plain
//! least-recently-used replacer ([`LruReplacer`]) and an LRU-K replacer
//! ([`LruKReplacer`]) that ranks frames by backward-K distance over a bounded
//! history of uncorrelated accesses.

use vstd::prelude::*;

mod error;
mod util;
pub mod replacer;

pub use error::{EvictError, EvictResult};
pub use replacer::{LruReplacer, LruKReplacer, LruKConfig, LRUK_REPLACER_K, LRUK_REPLACER_REF_PERIOD};
pub use util::unique_sequence::UniqueSequence;
pub use util::timestamp_generator::UniqueTimestampGenerator;

verus! {

/// Frame identifier type.
///
/// A replacement policy is conceptually a fixed-size array of frames, where
/// each frame holds some page of data; a frame identifier is an index into
/// this array.  Identifiers are supplied by the caller, and the caller is
/// responsible for the uniqueness of their meaning.
pub trait FrameId: Copy + Eq + core::hash::Hash + core::fmt::Debug {}

impl<T: Copy + Eq + core::hash::Hash + core::fmt::Debug> FrameId for T {}

/// Page access type.
///
/// When pages are accessed, a policy might log the access differently based
/// on its nature (a point read, a scan of the whole page, and so on).  The
/// policies in this crate accept an access type but do not use it to alter
/// their ranking; the parameter is an extension seam for future policies.
pub trait AccessType {}

/// Page eviction policy.
///
/// The capability interface every replacement algorithm implements: methods
/// for logging page accesses, managing pin state, and locating the next
/// frame to evict.  Each implementation carries an invariant `inv` that its
/// constructors establish and every operation preserves; the exact behavior
/// of each operation is stated on the implementing type itself.
pub trait EvictionPolicy<F: FrameId> {
    /// Error type for the eviction policy.
    type Error;

    /// The implementation's internal invariant.
    spec fn inv(&self) -> bool;

    /// Find the next frame to be evicted, per the algorithm's ranking among
    /// the non-pinned frames, and evict it.
    fn evict(&mut self) -> (r: Option<F>)
        requires
            old(self).inv(),
        ensures
            final(self).inv(),
    ;

    /// Find the next frame to be evicted without removing it.
    fn peek(&mut self) -> (r: Option<F>)
        requires
            old(self).inv(),
        ensures
            final(self).inv(),
    ;

    /// Log an access to the page held by the frame.
    fn touch(&mut self, id: F) -> (r: Result<(), Self::Error>)
        requires
            old(self).inv(),
        ensures
            final(self).inv(),
    ;

    /// Log an access to the page held by the frame, together with the type
    /// of the access.
    fn touch_with<T: AccessType>(&mut self, id: F, access_type: T) -> (r: Result<
        (),
        Self::Error,
    >)
        requires
            old(self).inv(),
        ensures
            final(self).inv(),
    ;

    /// Pin a frame, marking it as non-evictable.
    fn pin(&mut self, id: F) -> (r: Result<(), Self::Error>)
        requires
            old(self).inv(),
        ensures
            final(self).inv(),
    ;

    /// Unpin a frame, marking it as evictable.
    fn unpin(&mut self, id: F) -> (r: Result<(), Self::Error>)
        requires
            old(self).inv(),
        ensures
            final(self).inv(),
    ;

    /// Remove a non-pinned frame, whatever its ranking position.
    fn remove(&mut self, id: F) -> (r: Result<(), Self::Error>)
        requires
            old(self).inv(),
        ensures
            final(self).inv(),
    ;

    /// The maximum number of frames that can be stored.
    fn capacity(&self) -> usize;

    /// The number of frames that can be evicted (the non-pinned frames).
    fn size(&self) -> usize;
}

} // verus!
