//! A wall-clock-backed unique timestamp source.

use vstd::prelude::*;

verus! {

/// Relies on `chrono::Utc::now` and `chrono::DateTime::timestamp_nanos_opt`:
/// samples the wall clock and returns the number of non-leap nanoseconds
/// since the Unix epoch, or `None` when that count does not fit in an `i64`.
/// Nothing is assumed about the value: it depends on the machine's clock.
/// `Utc::now` expects the system clock to stand at or after the Unix epoch
/// and panics otherwise; no input controls that, so the generator inherits
/// the assumption.
#[verifier::external_body]
fn utc_now_nanos() -> (r: Option<i64>) {
    chrono::Utc::now().timestamp_nanos_opt()
}

/// Unique timestamp generator.
///
/// Monotonically increasing timestamp generator, with an additional guarantee
/// of uniqueness of produced values.  The granularity of the timestamp is
/// nanoseconds; whenever the sampled clock has not advanced past the last
/// issued value (including when the sample is unavailable), the generator
/// bumps the last issued value by one instead.
pub struct UniqueTimestampGenerator {
    last_timestamp: i64,
}

impl UniqueTimestampGenerator {
    /// The value most recently issued (zero before the first call).
    pub closed spec fn spec_last(&self) -> int {
        self.last_timestamp as int
    }

    /// The value most recently issued, for callers that must rule out
    /// exhaustion of the timestamp domain before asking for another value.
    pub fn last_timestamp(&self) -> (r: i64)
        ensures
            r == self.spec_last(),
    {
        self.last_timestamp
    }

    /// Creates a new unique timestamp generator.
    pub fn new() -> (r: Self)
        ensures
            r.spec_last() == 0,
    {
        UniqueTimestampGenerator { last_timestamp: 0 }
    }

    /// Returns a unique timestamp: a value strictly greater than everything
    /// this generator returned before.
    pub fn generate(&mut self) -> (r: i64)
        requires
            old(self).spec_last() < i64::MAX,
        ensures
            r == final(self).spec_last(),
            final(self).spec_last() > old(self).spec_last(),
    {
        let sampled = utc_now_nanos();
        let timestamp: i64 = match sampled {
            Some(t) if t > self.last_timestamp => t,
            _ => self.last_timestamp + 1,
        };
        self.last_timestamp = timestamp;
        timestamp
    }
}

} // verus!
