//! A strictly increasing sequence-number source.

use vstd::prelude::*;

verus! {

/// Unique sequence number generator.
///
/// Whenever a replacer needs to log the time of the last access, it can use
/// sequence numbers as a timestamp: every call to [`next`](Self::next) hands
/// out a value strictly greater than every value handed out before.  When the
/// counter reaches the maximum representable value, the source reports
/// exhaustion instead of wrapping around, since wrapping would silently
/// corrupt the eviction ordering.
pub struct UniqueSequence {
    val: i64,
}

impl UniqueSequence {
    /// The value the next successful call to `next` will return.
    pub closed spec fn spec_val(&self) -> int {
        self.val as int
    }

    /// Creates a new unique sequence number generator, starting at zero.
    pub fn new() -> (r: Self)
        ensures
            r.spec_val() == 0,
    {
        UniqueSequence { val: 0 }
    }

    /// Returns the next sequence number.
    ///
    /// Once the maximum value is reached, the function returns `None` and
    /// the source stays unchanged.
    pub fn next(&mut self) -> (r: Option<i64>)
        ensures
            match r {
                Some(t) => {
                    &&& old(self).spec_val() < i64::MAX
                    &&& t == old(self).spec_val()
                    &&& final(self).spec_val() == old(self).spec_val() + 1
                },
                None => {
                    &&& old(self).spec_val() == i64::MAX
                    &&& *final(self) == *old(self)
                },
            },
    {
        if self.val == i64::MAX {
            None
        } else {
            let v = self.val;
            self.val = v + 1;
            Some(v)
        }
    }
}

/// Holds when `tokens` is exactly what a run of successive [`UniqueSequence::next`]
/// calls returns, starting from a source whose counter stands at `s0`.
pub open spec fn issued_from(s0: int, tokens: Seq<i64>) -> bool
    decreases tokens.len(),
{
    tokens.len() == 0 || {
        &&& s0 < i64::MAX
        &&& tokens[0] == s0
        &&& issued_from(s0 + 1, tokens.skip(1))
    }
}

/// Every token in a run issued from counter value `s0` equals `s0` plus its
/// position in the run.
pub proof fn lemma_issued_token_value(s0: int, tokens: Seq<i64>, m: int)
    requires
        issued_from(s0, tokens),
        0 <= m < tokens.len(),
    ensures
        tokens[m] == s0 + m,
    decreases m,
{
    if m > 0 {
        lemma_issued_token_value(s0 + 1, tokens.skip(1), m - 1);
        assert(tokens.skip(1)[m - 1] == tokens[m]);
    }
}

/// Law: a sequence source never hands out two equal tokens, and the tokens
/// any single observer sees are strictly increasing.  Any run of successive
/// `next` calls returns pairwise distinct, strictly increasing values, so
/// every subsequence one caller observes is strictly increasing as well.
pub proof fn lemma_tokens_strictly_increase(s0: int, tokens: Seq<i64>, i: int, j: int)
    requires
        issued_from(s0, tokens),
        0 <= i < j < tokens.len(),
    ensures
        tokens[i] < tokens[j],
{
    lemma_issued_token_value(s0, tokens, i);
    lemma_issued_token_value(s0, tokens, j);
}

} // verus!
