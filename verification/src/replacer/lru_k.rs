//! LRU-K page replacement.
//!
//! The replacer keeps, per frame, a bounded history of the last `k`
//! *uncorrelated* access tokens and ranks eviction victims by backward-K
//! distance: the time since the K-th most recent uncorrelated access, with a
//! frame of fewer than `k` recorded accesses ranked at a very large sentinel
//! distance derived from its oldest token.  A reference period filters
//! correlated re-references out of the history and guards freshly used frames
//! against early eviction.

use vstd::prelude::*;

use crate::AccessType;
use crate::error::{EvictError, EvictResult};
use hlc_gen::HlcGenerator;
use hlc_gen::source::UtcClock;

verus! {

/// The default look-back window for the LRU-K frame replacer.
pub const LRUK_REPLACER_K: usize = 10;

/// The default correlated reference period (in milliseconds), following
/// Gray's five-second rule: accesses within five seconds of each other are
/// considered one logical reference.
pub const LRUK_REPLACER_REF_PERIOD: i64 = 5_000;

/// Holds the hybrid-logical-clock generator.  `hlc_gen::HlcGenerator` cannot
/// be declared to Verus (its type parameter is bound by the crate's own
/// `ClockSource` trait), so this one-field struct hides it instead; values
/// are opaque, and the replacer derives every guarantee about tokens from
/// its own watermark.
#[verifier::external_body]
struct TokenClock {
    gen: HlcGenerator<UtcClock>,
}

/// Relies on `HlcGenerator::default`: a fresh hybrid-logical-clock generator
/// over the UTC wall clock.
#[verifier::external_body]
fn hlc_new() -> (g: TokenClock) {
    TokenClock { gen: HlcGenerator::default() }
}

/// Relies on `HlcGenerator::next_timestamp` and `HlcTimestamp::timestamp`:
/// draws the generator's next timestamp and returns its physical part, in
/// milliseconds since the Unix epoch, or `None` when the generator cannot
/// advance.  The value depends on the machine's clock; all that is promised
/// is that it is positive, since the generator's domain starts at a fixed
/// epoch above zero.  The underlying `UtcClock` samples `chrono::Utc::now`,
/// which expects the system clock to stand at or after the Unix epoch and
/// panics otherwise; no input controls that.
#[verifier::external_body]
fn hlc_next_millis(g: &mut TokenClock) -> (r: Option<i64>)
    ensures
        r matches Some(t) ==> t > 0,
{
    g.gen.next_timestamp().map(|ts| ts.timestamp())
}

/// Configuration of the LRU-K replacer.
#[derive(Debug)]
pub struct LruKConfig {
    /// Maximum number of frames to keep track of.
    pub capacity: usize,
    /// Number of most recent uncorrelated page accesses to keep per frame;
    /// at least one.
    pub k: usize,
    /// Correlated reference period, in the time units of the token source
    /// (milliseconds here).  An access within this period of the previous
    /// access to the same frame is correlated with it and does not enter the
    /// history; a frame accessed within this period of an eviction decision
    /// is not a candidate.  Zero disables both effects.  Never negative.
    pub ref_period: i64,
}

impl Default for LruKConfig {
    /// The default configuration: four thousand and ninety-six frames,
    /// two history entries, no correlation filtering.
    fn default() -> (r: Self)
        ensures
            r.capacity == 4096,
            r.k == 2,
            r.ref_period == 0,
    {
        LruKConfig { capacity: 4096, k: 2, ref_period: 0 }
    }
}

/// Page information tracked per frame.
struct PageInfo {
    /// Tokens of up to `k` most recent uncorrelated references, oldest first.
    refs: Vec<i64>,
    /// Token of the last reference, correlated or not.
    last_ref: i64,
    /// Whether the page may be considered for eviction.
    evictable: bool,
}

/// A tracked frame together with its page information.
struct FrameEntry {
    id: u64,
    page: PageInfo,
}

/// The number of evictable entries in a frame sequence.
spec fn count_evictable(s: Seq<FrameEntry>) -> int
    decreases s.len(),
{
    if s.len() == 0 {
        0
    } else {
        count_evictable(s.drop_last()) + if s.last().page.evictable {
            1int
        } else {
            0int
        }
    }
}

proof fn lemma_count_evictable_bounds(s: Seq<FrameEntry>)
    ensures
        0 <= count_evictable(s) <= s.len(),
    decreases s.len(),
{
    if s.len() > 0 {
        lemma_count_evictable_bounds(s.drop_last());
    }
}

proof fn lemma_count_evictable_update(s: Seq<FrameEntry>, i: int, e: FrameEntry)
    requires
        0 <= i < s.len(),
    ensures
        count_evictable(s.update(i, e)) == count_evictable(s) - (if s[i].page.evictable {
            1int
        } else {
            0int
        }) + (if e.page.evictable {
            1int
        } else {
            0int
        }),
    decreases s.len(),
{
    let t = s.update(i, e);
    if i == s.len() - 1 {
        assert(t.drop_last() =~= s.drop_last());
    } else {
        assert(t.drop_last() =~= s.drop_last().update(i, e));
        lemma_count_evictable_update(s.drop_last(), i, e);
    }
}

proof fn lemma_count_evictable_remove(s: Seq<FrameEntry>, i: int)
    requires
        0 <= i < s.len(),
    ensures
        count_evictable(s.remove(i)) == count_evictable(s) - (if s[i].page.evictable {
            1int
        } else {
            0int
        }),
    decreases s.len(),
{
    let t = s.remove(i);
    if i == s.len() - 1 {
        assert(t =~= s.drop_last());
    } else {
        assert(t.drop_last() =~= s.drop_last().remove(i));
        assert(t.last() == s.last());
        lemma_count_evictable_remove(s.drop_last(), i);
    }
}

proof fn lemma_count_evictable_push(s: Seq<FrameEntry>, e: FrameEntry)
    ensures
        count_evictable(s.push(e)) == count_evictable(s) + (if e.page.evictable {
            1int
        } else {
            0int
        }),
{
    assert(s.push(e).drop_last() =~= s);
}

/// Implements the LRU-K page replacement algorithm over `u64` frame
/// identifiers.
///
/// Tokens are drawn from a hybrid-logical-clock generator and normalized
/// against a watermark so that every recorded token is strictly greater than
/// all earlier ones, whatever the wall clock does.
pub struct LruKReplacer {
    /// Configuration of the replacer.
    config: LruKConfig,
    /// Number of evictable frames in the replacer.
    size: usize,
    /// The tracked frames and their page information.
    frames: Vec<FrameEntry>,
    /// The largest token recorded so far; never decreases.
    last_token: i64,
    /// Source of wall-clock-derived tokens.
    gen: TokenClock,
}

impl LruKReplacer {
    /// Whether the replacer tracks frame `id`.
    pub closed spec fn is_tracked(&self, id: u64) -> bool {
        exists|i: int| 0 <= i < self.frames@.len() && self.frames@[i].id == id
    }

    /// The index of frame `id` in the internal frame table.
    closed spec fn idx(&self, id: u64) -> int {
        choose|i: int| 0 <= i < self.frames@.len() && self.frames@[i].id == id
    }

    /// The recorded history of frame `id`: the tokens of its most recent
    /// uncorrelated accesses, oldest first.
    pub closed spec fn refs_of(&self, id: u64) -> Seq<i64> {
        self.frames@[self.idx(id)].page.refs@
    }

    /// The token of the last access to frame `id`, correlated or not.
    pub closed spec fn last_ref_of(&self, id: u64) -> i64 {
        self.frames@[self.idx(id)].page.last_ref
    }

    /// Whether frame `id` is currently evictable (not pinned).
    pub closed spec fn evictable(&self, id: u64) -> bool {
        self.frames@[self.idx(id)].page.evictable
    }

    /// The number of evictable tracked frames.
    pub closed spec fn spec_size(&self) -> int {
        self.size as int
    }

    /// The number of tracked frames, pinned ones included.
    pub closed spec fn tracked_count(&self) -> int {
        self.frames@.len() as int
    }

    /// The configured capacity.
    pub closed spec fn spec_capacity(&self) -> int {
        self.config.capacity as int
    }

    /// The configured history depth.
    pub closed spec fn spec_k(&self) -> int {
        self.config.k as int
    }

    /// The configured correlated reference period.
    pub closed spec fn spec_ref_period(&self) -> int {
        self.config.ref_period as int
    }

    /// The largest token recorded so far.
    pub closed spec fn watermark(&self) -> int {
        self.last_token as int
    }

    /// Internal consistency of one frame entry against the history depth `k`
    /// and the watermark `hi`: at least one and at most `k` recorded tokens,
    /// strictly increasing, non-negative, none above the last reference,
    /// which itself is no later than the watermark.
    closed spec fn entry_wf(e: FrameEntry, k: int, hi: int) -> bool {
        let r = e.page.refs@;
        &&& 1 <= r.len() <= k
        &&& forall|m: int, n: int| 0 <= m < n < r.len() ==> r[m] < r[n]
        &&& 0 <= r[0]
        &&& r[r.len() - 1] <= e.page.last_ref
        &&& e.page.last_ref <= hi
    }

    /// Internal consistency of the whole replacer.
    pub closed spec fn wf(&self) -> bool {
        &&& 1 <= self.config.k
        &&& 0 <= self.config.ref_period
        &&& 0 <= self.last_token
        &&& self.frames@.len() <= self.config.capacity
        &&& forall|i: int, j: int|
            0 <= i < j < self.frames@.len() ==> self.frames@[i].id != self.frames@[j].id
        &&& forall|i: int|
            0 <= i < self.frames@.len() ==> Self::entry_wf(
                #[trigger] self.frames@[i],
                self.config.k as int,
                self.last_token as int,
            )
        &&& self.size == count_evictable(self.frames@)
    }

    /// Creates a new LRU-K replacer with the given capacity and `k` value,
    /// with correlation filtering disabled.
    pub fn new(capacity: usize, k: usize) -> (r: Self)
        requires
            k >= 1,
        ensures
            r.wf(),
            r.spec_capacity() == capacity,
            r.spec_k() == k,
            r.spec_ref_period() == 0,
            r.spec_size() == 0,
            r.tracked_count() == 0,
            r.watermark() == 0,
            forall|id: u64| !r.is_tracked(id),
    {
        Self::with_config(LruKConfig { capacity, k, ref_period: 0 })
    }

    /// Creates a new LRU-K replacer with the given configuration.
    pub fn with_config(config: LruKConfig) -> (r: Self)
        requires
            config.k >= 1,
            config.ref_period >= 0,
        ensures
            r.wf(),
            r.spec_capacity() == config.capacity,
            r.spec_k() == config.k,
            r.spec_ref_period() == config.ref_period,
            r.spec_size() == 0,
            r.tracked_count() == 0,
            r.watermark() == 0,
            forall|id: u64| !r.is_tracked(id),
    {
        LruKReplacer {
            config,
            size: 0,
            frames: Vec::new(),
            last_token: 0,
            gen: hlc_new(),
        }
    }

    /// Returns the maximum number of frames the replacer will track.
    pub fn capacity(&self) -> (r: usize)
        ensures
            r == self.spec_capacity(),
    {
        self.config.capacity
    }

    /// Returns the number of frames that can be evicted: the tracked frames
    /// that are not pinned.
    pub fn size(&self) -> (r: usize)
        ensures
            r == self.spec_size(),
    {
        self.size
    }

    /// Draws a token strictly above the watermark: the generator's next
    /// physical timestamp when the clock has advanced past the watermark,
    /// and the watermark plus one otherwise.  Returns `None`, leaving every
    /// observable part of the state unchanged, when the generator cannot
    /// advance or the watermark has reached the maximum token.
    fn draw_token(&mut self) -> (r: Option<i64>)
        ensures
            final(self).config == old(self).config,
            final(self).size == old(self).size,
            final(self).frames == old(self).frames,
            final(self).last_token == old(self).last_token,
            r matches Some(t) ==> t > old(self).watermark(),
    {
        match hlc_next_millis(&mut self.gen) {
            None => None,
            Some(ms) => {
                if ms > self.last_token {
                    Some(ms)
                } else if self.last_token == i64::MAX {
                    None
                } else {
                    Some(self.last_token + 1)
                }
            },
        }
    }
}

} // verus!

verus! {

/// An access at token `t` is correlated with a preceding access at token
/// `last` when the reference period `rp` is non-zero and no more than `rp`
/// time units separate them.  A zero `rp` makes every access uncorrelated.
pub open spec fn lruk_correlated(t: int, last: int, rp: int) -> bool {
    rp != 0 && t - last <= rp
}

/// What one access at token `t` does to a frame's history: a correlated
/// access leaves it alone; an uncorrelated one appends `t`, discarding the
/// oldest token first once `k` entries are held.
pub open spec fn lruk_record(refs: Seq<i64>, last: int, t: i64, rp: int, k: int) -> Seq<i64> {
    if lruk_correlated(t as int, last, rp) {
        refs
    } else if refs.len() < k {
        refs.push(t)
    } else {
        refs.subrange(1, refs.len() as int).push(t)
    }
}

/// States `pre` and `post` agree on everything a caller can observe.
pub open spec fn lruk_unchanged(pre: LruKReplacer, post: LruKReplacer) -> bool {
    &&& forall|j: u64|
        #![trigger pre.is_tracked(j)]
        #![trigger post.is_tracked(j)]
        post.is_tracked(j) <==> pre.is_tracked(j)
    &&& forall|j: u64|
        pre.is_tracked(j) ==> post.refs_of(j) == pre.refs_of(j) && post.last_ref_of(j)
            == pre.last_ref_of(j) && post.evictable(j) == pre.evictable(j)
    &&& post.spec_size() == pre.spec_size()
    &&& post.tracked_count() == pre.tracked_count()
    &&& post.watermark() == pre.watermark()
    &&& post.spec_capacity() == pre.spec_capacity()
    &&& post.spec_k() == pre.spec_k()
    &&& post.spec_ref_period() == pre.spec_ref_period()
}

/// State `post` is state `pre` after recording an access to frame `id` at
/// token `t`: a frame already tracked has its history updated per
/// [`lruk_record`] and keeps its pin state; a new frame enters evictable
/// with the single history entry `t`.  Every other frame is untouched.
pub open spec fn lruk_touched(pre: LruKReplacer, post: LruKReplacer, id: u64, t: i64) -> bool {
    &&& t > pre.watermark()
    &&& post.watermark() == t
    &&& post.spec_capacity() == pre.spec_capacity()
    &&& post.spec_k() == pre.spec_k()
    &&& post.spec_ref_period() == pre.spec_ref_period()
    &&& forall|j: u64|
        #![trigger pre.is_tracked(j)]
        #![trigger post.is_tracked(j)]
        j != id ==> (post.is_tracked(j) <==> pre.is_tracked(j))
    &&& forall|j: u64|
        j != id && pre.is_tracked(j) ==> post.refs_of(j) == pre.refs_of(j) && post.last_ref_of(j)
            == pre.last_ref_of(j) && post.evictable(j) == pre.evictable(j)
    &&& post.is_tracked(id)
    &&& post.last_ref_of(id) == t
    &&& if pre.is_tracked(id) {
        &&& post.refs_of(id) == lruk_record(
            pre.refs_of(id),
            pre.last_ref_of(id) as int,
            t,
            pre.spec_ref_period(),
            pre.spec_k(),
        )
        &&& post.evictable(id) == pre.evictable(id)
        &&& post.spec_size() == pre.spec_size()
        &&& post.tracked_count() == pre.tracked_count()
    } else {
        &&& post.refs_of(id) == seq![t]
        &&& post.evictable(id)
        &&& post.spec_size() == pre.spec_size() + 1
        &&& post.tracked_count() == pre.tracked_count() + 1
    }
}

/// Finds the index of the entry of frame `id` in the frame table.
fn find_frame(frames: &Vec<FrameEntry>, id: u64) -> (r: Option<usize>)
    ensures
        match r {
            Some(i) => i < frames@.len() && frames@[i as int].id == id,
            None => forall|m: int| 0 <= m < frames@.len() ==> frames@[m].id != id,
        },
{
    let mut i: usize = 0;
    while i < frames.len()
        invariant
            i <= frames@.len(),
            forall|m: int| 0 <= m < i ==> frames@[m].id != id,
        decreases frames@.len() - i,
    {
        if frames[i].id == id {
            return Some(i);
        }
        i += 1;
    }
    None
}

/// Hands out a mutable reference to the entry at index `i`.
fn entry_mut(frames: &mut Vec<FrameEntry>, i: usize) -> (e: &mut FrameEntry)
    requires
        i < old(frames)@.len(),
    ensures
        *e == old(frames)@[i as int],
        final(frames)@ == old(frames)@.update(i as int, *final(e)),
{
    &mut frames[i]
}

impl LruKReplacer {
    /// In a table of pairwise distinct identifiers, the entry at index `m`
    /// is the one every accessor of its identifier reads.
    proof fn lemma_idx_is(self, m: int)
        requires
            forall|i: int, j: int|
                0 <= i < j < self.frames@.len() ==> self.frames@[i].id != self.frames@[j].id,
            0 <= m < self.frames@.len(),
        ensures
            self.is_tracked(self.frames@[m].id),
            self.idx(self.frames@[m].id) == m,
    {
        let id = self.frames@[m].id;
        assert(self.is_tracked(id));
        let i = self.idx(id);
        assert(0 <= i < self.frames@.len() && self.frames@[i].id == id);
        if i < m {
            assert(self.frames@[i].id != self.frames@[m].id);
        } else if m < i {
            assert(self.frames@[m].id != self.frames@[i].id);
        }
    }

    /// Records an access to frame `id` at the caller-supplied token `t`,
    /// which must be fresher than everything recorded so far.
    ///
    /// A frame that is not yet tracked enters the replacer evictable, unless
    /// the replacer already tracks its full capacity of frames; a tracked
    /// frame has its history updated in place, keeping its pin state.
    pub fn touch_at(&mut self, id: u64, t: i64) -> (r: EvictResult<(), u64>)
        requires
            old(self).wf(),
            t > old(self).watermark(),
        ensures
            final(self).wf(),
            match r {
                Ok(()) => lruk_touched(*old(self), *final(self), id, t),
                Err(EvictError::FrameReplacerFull) => {
                    &&& !old(self).is_tracked(id)
                    &&& old(self).tracked_count() >= old(self).spec_capacity()
                    &&& *final(self) == *old(self)
                },
                Err(_) => false,
            },
    {
        let rp = self.config.ref_period;
        let k = self.config.k;
        match find_frame(&self.frames, id) {
            Some(i) => {
                proof {
                    old(self).lemma_idx_is(i as int);
                    lemma_count_evictable_bounds(self.frames@);
                }
                let e = entry_mut(&mut self.frames, i);
                let correlated = rp != 0 && t - e.page.last_ref <= rp;
                if !correlated {
                    if e.page.refs.len() >= k {
                        e.page.refs.remove(0);
                    }
                    e.page.refs.push(t);
                }
                e.page.last_ref = t;
                self.last_token = t;
                proof {
                    let pre = *old(self);
                    let post = *self;
                    lemma_count_evictable_update(pre.frames@, i as int, post.frames@[i as int]);
                    assert(post.refs_of(id) == lruk_record(
                        pre.refs_of(id),
                        pre.last_ref_of(id) as int,
                        t,
                        pre.spec_ref_period(),
                        pre.spec_k(),
                    )) by {
                        post.lemma_idx_is(i as int);
                        if !lruk_correlated(t as int, pre.last_ref_of(id) as int, rp as int)
                            && pre.refs_of(id).len() >= k {
                            assert(post.refs_of(id) =~= pre.refs_of(id).subrange(
                                1,
                                pre.refs_of(id).len() as int,
                            ).push(t));
                        }
                    }
                    assert forall|j: u64| j != id && pre.is_tracked(j) implies post.refs_of(j)
                        == pre.refs_of(j) && post.last_ref_of(j) == pre.last_ref_of(j)
                        && post.evictable(j) == pre.evictable(j) && post.is_tracked(j) by {
                        let m = pre.idx(j);
                        pre.lemma_idx_is(m);
                        post.lemma_idx_is(m);
                    }
                    assert forall|j: u64| j != id && post.is_tracked(j) implies pre.is_tracked(
                        j,
                    ) by {
                        let m = post.idx(j);
                        post.lemma_idx_is(m);
                        pre.lemma_idx_is(m);
                    }
                    assert forall|m: int| 0 <= m < post.frames@.len() implies Self::entry_wf(
                        #[trigger] post.frames@[m],
                        post.config.k as int,
                        post.last_token as int,
                    ) by {
                        if m != i as int {
                            assert(post.frames@[m] == pre.frames@[m]);
                            assert(Self::entry_wf(
                                pre.frames@[m],
                                pre.config.k as int,
                                pre.last_token as int,
                            ));
                        }
                    }
                }
                Ok(())
            },
            None => {
                if self.frames.len() >= self.config.capacity {
                    return Err(EvictError::FrameReplacerFull);
                }
                proof {
                    lemma_count_evictable_bounds(self.frames@);
                }
                let mut refs: Vec<i64> = Vec::new();
                refs.push(t);
                let page = PageInfo { refs, last_ref: t, evictable: true };
                self.frames.push(FrameEntry { id, page });
                self.size = self.size + 1;
                self.last_token = t;
                proof {
                    let pre = *old(self);
                    let post = *self;
                    let n = pre.frames@.len() as int;
                    lemma_count_evictable_push(pre.frames@, post.frames@[n]);
                    post.lemma_idx_is(n);
                    assert(post.refs_of(id) =~= seq![t]);
                    assert forall|j: u64| j != id && pre.is_tracked(j) implies post.refs_of(j)
                        == pre.refs_of(j) && post.last_ref_of(j) == pre.last_ref_of(j)
                        && post.evictable(j) == pre.evictable(j) && post.is_tracked(j) by {
                        let m = pre.idx(j);
                        pre.lemma_idx_is(m);
                        post.lemma_idx_is(m);
                    }
                    assert forall|j: u64| j != id && post.is_tracked(j) implies pre.is_tracked(
                        j,
                    ) by {
                        let m = post.idx(j);
                        post.lemma_idx_is(m);
                        if m < n {
                            pre.lemma_idx_is(m);
                        }
                    }
                    assert forall|m: int| 0 <= m < post.frames@.len() implies Self::entry_wf(
                        #[trigger] post.frames@[m],
                        post.config.k as int,
                        post.last_token as int,
                    ) by {
                        if m < n {
                            assert(post.frames@[m] == pre.frames@[m]);
                            assert(Self::entry_wf(
                                pre.frames@[m],
                                pre.config.k as int,
                                pre.last_token as int,
                            ));
                        }
                    }
                }
                Ok(())
            },
        }
    }

    /// Records that the page held by frame `id` has been accessed now,
    /// stamping the access with a fresh token from the replacer's source.
    /// The source can only fail for a frame the replacer could accept: a new
    /// frame at capacity is refused before a token is ever drawn.
    pub fn touch(&mut self, id: u64) -> (r: EvictResult<(), u64>)
        requires
            old(self).wf(),
        ensures
            final(self).wf(),
            match r {
                Ok(()) => exists|t: i64| #[trigger] lruk_touched(*old(self), *final(self), id, t),
                Err(EvictError::FrameReplacerFull) => {
                    &&& !old(self).is_tracked(id)
                    &&& old(self).tracked_count() >= old(self).spec_capacity()
                    &&& lruk_unchanged(*old(self), *final(self))
                },
                Err(EvictError::SequenceExhausted) => {
                    &&& (old(self).is_tracked(id) || old(self).tracked_count() < old(
                        self,
                    ).spec_capacity())
                    &&& lruk_unchanged(*old(self), *final(self))
                },
                Err(_) => false,
            },
    {
        let present = match find_frame(&self.frames, id) {
            Some(i) => {
                proof {
                    self.lemma_idx_is(i as int);
                }
                true
            },
            None => false,
        };
        if !present && self.frames.len() >= self.config.capacity {
            return Err(EvictError::FrameReplacerFull);
        }
        let t = match self.draw_token() {
            Some(t) => t,
            None => {
                proof {
                    Self::lemma_same_observables(*old(self), *self);
                }
                return Err(EvictError::SequenceExhausted);
            },
        };
        let r = self.touch_at(id, t);
        proof {
            if r is Ok {
                assert(lruk_touched(*old(self), *self, id, t));
            }
        }
        r
    }

    /// Records an access together with its type.  The LRU-K policy does not
    /// distinguish access types, so this behaves exactly like
    /// [`touch`](Self::touch).
    pub fn touch_with<T: AccessType>(&mut self, id: u64, _access_type: T) -> (r: EvictResult<
        (),
        u64,
    >)
        requires
            old(self).wf(),
        ensures
            final(self).wf(),
            match r {
                Ok(()) => exists|t: i64| #[trigger] lruk_touched(*old(self), *final(self), id, t),
                Err(EvictError::FrameReplacerFull) => {
                    &&& !old(self).is_tracked(id)
                    &&& old(self).tracked_count() >= old(self).spec_capacity()
                    &&& lruk_unchanged(*old(self), *final(self))
                },
                Err(EvictError::SequenceExhausted) => {
                    &&& (old(self).is_tracked(id) || old(self).tracked_count() < old(
                        self,
                    ).spec_capacity())
                    &&& lruk_unchanged(*old(self), *final(self))
                },
                Err(_) => false,
            },
    {
        self.touch(id)
    }
}

} // verus!

verus! {

/// State `post` is state `pre` with frame `id`'s evictable flag set to `v`
/// (an actual change) and everything else kept: same frames, same histories,
/// the size adjusted by exactly one.
pub open spec fn lruk_flag_set(pre: LruKReplacer, post: LruKReplacer, id: u64, v: bool) -> bool {
    &&& pre.is_tracked(id)
    &&& pre.evictable(id) == !v
    &&& forall|j: u64|
        #![trigger pre.is_tracked(j)]
        #![trigger post.is_tracked(j)]
        post.is_tracked(j) <==> pre.is_tracked(j)
    &&& forall|j: u64|
        j != id && pre.is_tracked(j) ==> post.refs_of(j) == pre.refs_of(j) && post.last_ref_of(j)
            == pre.last_ref_of(j) && post.evictable(j) == pre.evictable(j)
    &&& post.refs_of(id) == pre.refs_of(id)
    &&& post.last_ref_of(id) == pre.last_ref_of(id)
    &&& post.evictable(id) == v
    &&& post.spec_size() == pre.spec_size() + (if v {
        1int
    } else {
        -1int
    })
    &&& post.tracked_count() == pre.tracked_count()
    &&& post.watermark() == pre.watermark()
    &&& post.spec_capacity() == pre.spec_capacity()
    &&& post.spec_k() == pre.spec_k()
    &&& post.spec_ref_period() == pre.spec_ref_period()
}

/// State `post` is state `pre` with frame `id` dropped from the replacer and
/// every other frame kept untouched.
pub open spec fn lruk_removed(pre: LruKReplacer, post: LruKReplacer, id: u64) -> bool {
    &&& pre.is_tracked(id)
    &&& !post.is_tracked(id)
    &&& forall|j: u64|
        #![trigger pre.is_tracked(j)]
        #![trigger post.is_tracked(j)]
        j != id ==> (post.is_tracked(j) <==> pre.is_tracked(j))
    &&& forall|j: u64|
        j != id && pre.is_tracked(j) ==> post.refs_of(j) == pre.refs_of(j) && post.last_ref_of(j)
            == pre.last_ref_of(j) && post.evictable(j) == pre.evictable(j)
    &&& post.spec_size() == pre.spec_size() - (if pre.evictable(id) {
        1int
    } else {
        0int
    })
    &&& post.tracked_count() == pre.tracked_count() - 1
    &&& post.watermark() == pre.watermark()
    &&& post.spec_capacity() == pre.spec_capacity()
    &&& post.spec_k() == pre.spec_k()
    &&& post.spec_ref_period() == pre.spec_ref_period()
}

impl LruKReplacer {
    /// The proofs shared by `pin` and `unpin`: flipping the evictable flag of
    /// the entry at index `i` moves every observable as `lruk_flag_set` says.
    proof fn lemma_flag_flip(pre: Self, post: Self, i: int, v: bool)
        requires
            pre.wf(),
            0 <= i < pre.frames@.len(),
            pre.frames@[i].page.evictable == !v,
            post.frames@ == pre.frames@.update(
                i,
                FrameEntry {
                    id: pre.frames@[i].id,
                    page: PageInfo {
                        refs: pre.frames@[i].page.refs,
                        last_ref: pre.frames@[i].page.last_ref,
                        evictable: v,
                    },
                },
            ),
            post.size == pre.size + (if v {
                1int
            } else {
                -1int
            }),
            post.config == pre.config,
            post.last_token == pre.last_token,
        ensures
            post.wf(),
            lruk_flag_set(pre, post, pre.frames@[i].id, v),
    {
        let id = pre.frames@[i].id;
        lemma_count_evictable_update(pre.frames@, i, post.frames@[i]);
        pre.lemma_idx_is(i);
        post.lemma_idx_is(i);
        assert forall|j: u64| j != id && pre.is_tracked(j) implies post.refs_of(j) == pre.refs_of(
            j,
        ) && post.last_ref_of(j) == pre.last_ref_of(j) && post.evictable(j) == pre.evictable(j)
            && post.is_tracked(j) by {
            let m = pre.idx(j);
            pre.lemma_idx_is(m);
            post.lemma_idx_is(m);
        }
        assert forall|j: u64| post.is_tracked(j) implies pre.is_tracked(j) by {
            let m = post.idx(j);
            post.lemma_idx_is(m);
            pre.lemma_idx_is(m);
        }
        assert forall|m: int| 0 <= m < post.frames@.len() implies Self::entry_wf(
            #[trigger] post.frames@[m],
            post.config.k as int,
            post.last_token as int,
        ) by {
            assert(Self::entry_wf(pre.frames@[m], pre.config.k as int, pre.last_token as int));
            assert(post.frames@[m].page.refs == pre.frames@[m].page.refs);
        }
    }

    /// Pins frame `id`, marking it non-evictable and excluding it from the
    /// size.  Pinning an already-pinned frame does nothing; pinning a frame
    /// the replacer has no record of is an error.
    pub fn pin(&mut self, id: u64) -> (r: EvictResult<(), u64>)
        requires
            old(self).wf(),
        ensures
            final(self).wf(),
            match r {
                Ok(()) => {
                    &&& old(self).is_tracked(id)
                    &&& if old(self).evictable(id) {
                        lruk_flag_set(*old(self), *final(self), id, false)
                    } else {
                        *final(self) == *old(self)
                    }
                },
                Err(EvictError::InvalidFrameId(f)) => {
                    &&& f == id
                    &&& !old(self).is_tracked(id)
                    &&& *final(self) == *old(self)
                },
                Err(_) => false,
            },
    {
        match find_frame(&self.frames, id) {
            None => Err(EvictError::InvalidFrameId(id)),
            Some(i) => {
                proof {
                    old(self).lemma_idx_is(i as int);
                }
                if !self.frames[i].page.evictable {
                    return Ok(());
                }
                proof {
                    lemma_count_evictable_update(
                        self.frames@,
                        i as int,
                        FrameEntry {
                            id: self.frames@[i as int].id,
                            page: PageInfo {
                                refs: self.frames@[i as int].page.refs,
                                last_ref: self.frames@[i as int].page.last_ref,
                                evictable: false,
                            },
                        },
                    );
                    lemma_count_evictable_bounds(
                        self.frames@.update(
                            i as int,
                            FrameEntry {
                                id: self.frames@[i as int].id,
                                page: PageInfo {
                                    refs: self.frames@[i as int].page.refs,
                                    last_ref: self.frames@[i as int].page.last_ref,
                                    evictable: false,
                                },
                            },
                        ),
                    );
                }
                let e = entry_mut(&mut self.frames, i);
                e.page.evictable = false;
                self.size = self.size - 1;
                proof {
                    Self::lemma_flag_flip(*old(self), *self, i as int, false);
                }
                Ok(())
            },
        }
    }

    /// Unpins frame `id`, marking it evictable and counting it in the size.
    ///
    /// A frame the replacer has no record of enters it through this call:
    /// evictable, with a fresh initial access, exactly as a first touch
    /// would enter it — unless the replacer is full.  Unpinning an
    /// already-evictable frame does nothing.
    pub fn unpin(&mut self, id: u64) -> (r: EvictResult<(), u64>)
        requires
            old(self).wf(),
        ensures
            final(self).wf(),
            match r {
                Ok(()) => {
                    if old(self).is_tracked(id) {
                        if old(self).evictable(id) {
                            *final(self) == *old(self)
                        } else {
                            lruk_flag_set(*old(self), *final(self), id, true)
                        }
                    } else {
                        exists|t: i64| #[trigger] lruk_touched(*old(self), *final(self), id, t)
                    }
                },
                Err(EvictError::FrameReplacerFull) => {
                    &&& !old(self).is_tracked(id)
                    &&& old(self).tracked_count() >= old(self).spec_capacity()
                    &&& *final(self) == *old(self)
                },
                Err(EvictError::SequenceExhausted) => {
                    &&& !old(self).is_tracked(id)
                    &&& old(self).tracked_count() < old(self).spec_capacity()
                    &&& lruk_unchanged(*old(self), *final(self))
                },
                Err(_) => false,
            },
    {
        match find_frame(&self.frames, id) {
            None => {
                if self.frames.len() >= self.config.capacity {
                    return Err(EvictError::FrameReplacerFull);
                }
                let t = match self.draw_token() {
                    Some(t) => t,
                    None => {
                        proof {
                            Self::lemma_same_observables(*old(self), *self);
                        }
                        return Err(EvictError::SequenceExhausted);
                    },
                };
                let r = self.touch_at(id, t);
                proof {
                    match r {
                        Ok(()) => {
                            assert(lruk_touched(*old(self), *self, id, t));
                        },
                        Err(_) => {
                            assert(false);
                        },
                    }
                }
                r
            },
            Some(i) => {
                proof {
                    old(self).lemma_idx_is(i as int);
                }
                if self.frames[i].page.evictable {
                    return Ok(());
                }
                proof {
                    lemma_count_evictable_update(
                        self.frames@,
                        i as int,
                        FrameEntry {
                            id: self.frames@[i as int].id,
                            page: PageInfo {
                                refs: self.frames@[i as int].page.refs,
                                last_ref: self.frames@[i as int].page.last_ref,
                                evictable: true,
                            },
                        },
                    );
                    lemma_count_evictable_bounds(
                        self.frames@.update(
                            i as int,
                            FrameEntry {
                                id: self.frames@[i as int].id,
                                page: PageInfo {
                                    refs: self.frames@[i as int].page.refs,
                                    last_ref: self.frames@[i as int].page.last_ref,
                                    evictable: true,
                                },
                            },
                        ),
                    );
                }
                let e = entry_mut(&mut self.frames, i);
                e.page.evictable = true;
                self.size = self.size + 1;
                proof {
                    Self::lemma_flag_flip(*old(self), *self, i as int, true);
                }
                Ok(())
            },
        }
    }

    /// Removes frame `id` from the replacer, whatever its ranking position.
    ///
    /// Removing a pinned frame is refused, since it would desynchronize the
    /// caller's notion of pin state from the replacer's; removing a frame
    /// the replacer has no record of is an error as well.
    pub fn remove(&mut self, id: u64) -> (r: EvictResult<(), u64>)
        requires
            old(self).wf(),
        ensures
            final(self).wf(),
            match r {
                Ok(()) => {
                    &&& old(self).is_tracked(id)
                    &&& old(self).evictable(id)
                    &&& lruk_removed(*old(self), *final(self), id)
                },
                Err(EvictError::PinnedFrameRemoval(f)) => {
                    &&& f == id
                    &&& old(self).is_tracked(id)
                    &&& !old(self).evictable(id)
                    &&& *final(self) == *old(self)
                },
                Err(EvictError::InvalidFrameId(f)) => {
                    &&& f == id
                    &&& !old(self).is_tracked(id)
                    &&& *final(self) == *old(self)
                },
                Err(_) => false,
            },
    {
        match find_frame(&self.frames, id) {
            None => Err(EvictError::InvalidFrameId(id)),
            Some(i) => {
                proof {
                    old(self).lemma_idx_is(i as int);
                }
                if !self.frames[i].page.evictable {
                    return Err(EvictError::PinnedFrameRemoval(id));
                }
                self.drop_frame(i);
                Ok(())
            },
        }
    }
}

} // verus!

verus! {

/// Frame `id` is an eviction candidate of state `s` at evaluation time
/// `now`: tracked, evictable, and not accessed within the reference period
/// before `now` (the early-eviction guard; disabled when the period is 0).
pub open spec fn is_lruk_candidate(s: LruKReplacer, id: u64, now: int) -> bool {
    &&& s.is_tracked(id)
    &&& s.evictable(id)
    &&& (s.spec_ref_period() == 0 || now - s.last_ref_of(id) > s.spec_ref_period())
}

/// The backward-K distance of frame `id` at evaluation time `now`: the time
/// since the oldest recorded access when the history is full, and a very
/// large sentinel derived from that oldest access when fewer than `k`
/// accesses are recorded, so that among frames with short histories the one
/// with the older access still ranks higher.
pub open spec fn lruk_dist(s: LruKReplacer, id: u64, now: int) -> int {
    if s.refs_of(id).len() < s.spec_k() {
        i64::MAX - s.refs_of(id)[0]
    } else {
        now - s.refs_of(id)[0]
    }
}

/// Frame `a` is preferred over frame `b` as the eviction victim: its
/// backward-K distance is larger, or equal with the smaller identifier (the
/// documented deterministic tie-break).
pub open spec fn lruk_beats(s: LruKReplacer, a: u64, b: u64, now: int) -> bool {
    ||| lruk_dist(s, a, now) > lruk_dist(s, b, now)
    ||| (lruk_dist(s, a, now) == lruk_dist(s, b, now) && a < b)
}

/// Frame `v` is the eviction victim of state `s` at evaluation time `now`:
/// a candidate preferred over every other candidate.
pub open spec fn is_lruk_victim(s: LruKReplacer, v: u64, now: int) -> bool {
    &&& is_lruk_candidate(s, v, now)
    &&& forall|c: u64|
        #[trigger] is_lruk_candidate(s, c, now) && c != v ==> lruk_beats(s, v, c, now)
}

impl LruKReplacer {
    /// Finds the eviction victim at the caller-supplied evaluation time
    /// `now`, which must be fresher than everything recorded, without
    /// mutating anything: the evictable frame with the maximum backward-K
    /// distance, ties resolved towards the smallest frame identifier, among
    /// the frames not under the early-eviction guard.  Returns `None` when
    /// no frame is a candidate.
    pub fn peek_at(&self, now: i64) -> (r: Option<u64>)
        requires
            self.wf(),
            now > self.watermark(),
        ensures
            match r {
                None => forall|j: u64| !is_lruk_candidate(*self, j, now as int),
                Some(v) => is_lruk_victim(*self, v, now as int),
            },
    {
        let rp = self.config.ref_period;
        let k = self.config.k;
        let mut best_id: u64 = 0;
        let mut best_dist: i64 = 0;
        let mut found = false;
        let mut i: usize = 0;
        while i < self.frames.len()
            invariant
                self.wf(),
                now > self.watermark(),
                rp == self.config.ref_period,
                k == self.config.k,
                i <= self.frames@.len(),
                !found ==> forall|m: int|
                    0 <= m < i ==> !is_lruk_candidate(*self, self.frames@[m].id, now as int),
                found ==> {
                    &&& is_lruk_candidate(*self, best_id, now as int)
                    &&& best_dist == lruk_dist(*self, best_id, now as int)
                    &&& forall|m: int|
                        0 <= m < i && is_lruk_candidate(*self, self.frames@[m].id, now as int)
                            && self.frames@[m].id != best_id ==> lruk_beats(
                            *self,
                            best_id,
                            self.frames@[m].id,
                            now as int,
                        )
                },
            decreases self.frames@.len() - i,
        {
            proof {
                self.lemma_idx_is(i as int);
                assert(Self::entry_wf(
                    self.frames@[i as int],
                    self.config.k as int,
                    self.last_token as int,
                ));
            }
            let ghost prev_found = found;
            let ghost prev_best = best_id;
            let id = self.frames[i].id;
            let evictable = self.frames[i].page.evictable;
            let last_ref = self.frames[i].page.last_ref;
            if evictable && (rp == 0 || now - last_ref > rp) {
                proof {
                    assert(is_lruk_candidate(*self, id, now as int));
                }
                let r0 = self.frames[i].page.refs[0];
                proof {
                    let refs = self.frames@[i as int].page.refs@;
                    if refs.len() > 1 {
                        assert(refs[0] < refs[refs.len() - 1]);
                    }
                    assert(r0 <= last_ref);
                }
                let dist: i64 = if self.frames[i].page.refs.len() < k {
                    i64::MAX - r0
                } else {
                    now - r0
                };
                proof {
                    assert(dist == lruk_dist(*self, id, now as int));
                }
                if !found || dist > best_dist || (dist == best_dist && id < best_id) {
                    found = true;
                    best_id = id;
                    best_dist = dist;
                }
                proof {
                    assert forall|m: int|
                        0 <= m < i + 1 && is_lruk_candidate(*self, self.frames@[m].id, now as int)
                            && self.frames@[m].id != best_id implies lruk_beats(
                        *self,
                        best_id,
                        self.frames@[m].id,
                        now as int,
                    ) by {
                        if m == i as int {
                            assert(best_id != id ==> lruk_beats(*self, best_id, id, now as int));
                        } else if prev_found && best_id != prev_best {
                            if self.frames@[m].id == prev_best {
                                assert(lruk_beats(*self, best_id, prev_best, now as int));
                            } else {
                                assert(lruk_beats(*self, prev_best, self.frames@[m].id, now as int));
                            }
                        }
                    }
                }
            } else {
                proof {
                    assert(!is_lruk_candidate(*self, id, now as int));
                }
            }
            i += 1;
        }
        if found {
            proof {
                assert forall|c: u64| is_lruk_candidate(*self, c, now as int) && c != best_id
                    implies lruk_beats(*self, best_id, c, now as int) by {
                    let m = self.idx(c);
                    self.lemma_idx_is(m);
                }
            }
            Some(best_id)
        } else {
            proof {
                assert forall|j: u64| !is_lruk_candidate(*self, j, now as int) by {
                    if self.is_tracked(j) {
                        let m = self.idx(j);
                        self.lemma_idx_is(m);
                    }
                }
            }
            None
        }
    }

    /// Drops the frame entry at index `i`, which must be evictable.
    fn drop_frame(&mut self, i: usize)
        requires
            old(self).wf(),
            i < old(self).frames@.len(),
            old(self).frames@[i as int].page.evictable,
        ensures
            final(self).wf(),
            lruk_removed(*old(self), *final(self), old(self).frames@[i as int].id),
    {
        proof {
            old(self).lemma_idx_is(i as int);
            lemma_count_evictable_remove(self.frames@, i as int);
            lemma_count_evictable_bounds(self.frames@.remove(i as int));
        }
        let ghost id = self.frames@[i as int].id;
        self.frames.remove(i);
        self.size = self.size - 1;
        proof {
            let pre = *old(self);
            let post = *self;
            assert forall|a: int, b: int| 0 <= a < b < post.frames@.len() implies post.frames@[a].id
                != post.frames@[b].id by {
                let a0 = if a < i as int { a } else { a + 1 };
                let b0 = if b < i as int { b } else { b + 1 };
                assert(post.frames@[a] == pre.frames@[a0]);
                assert(post.frames@[b] == pre.frames@[b0]);
            }
            assert forall|j: u64| j != id && pre.is_tracked(j) implies post.refs_of(j)
                == pre.refs_of(j) && post.last_ref_of(j) == pre.last_ref_of(j) && post.evictable(j)
                == pre.evictable(j) && post.is_tracked(j) by {
                let m = pre.idx(j);
                pre.lemma_idx_is(m);
                let m2 = if m < i as int { m } else { m - 1 };
                assert(post.frames@[m2] == pre.frames@[m]);
                post.lemma_idx_is(m2);
            }
            assert forall|j: u64| post.is_tracked(j) implies pre.is_tracked(j) && j != id by {
                let m = post.idx(j);
                post.lemma_idx_is(m);
                let m0 = if m < i as int { m } else { m + 1 };
                assert(post.frames@[m] == pre.frames@[m0]);
                pre.lemma_idx_is(m0);
            }
            assert forall|m: int| 0 <= m < post.frames@.len() implies Self::entry_wf(
                #[trigger] post.frames@[m],
                post.config.k as int,
                post.last_token as int,
            ) by {
                let m0 = if m < i as int { m } else { m + 1 };
                assert(post.frames@[m] == pre.frames@[m0]);
                assert(Self::entry_wf(pre.frames@[m0], pre.config.k as int, pre.last_token as int));
            }
        }
    }

    /// Finds the eviction victim at the caller-supplied evaluation time
    /// `now` and removes it, returning it, or returns `None`, mutating
    /// nothing, when no frame is a candidate.
    pub fn evict_at(&mut self, now: i64) -> (r: Option<u64>)
        requires
            old(self).wf(),
            now > old(self).watermark(),
        ensures
            final(self).wf(),
            match r {
                None => {
                    &&& *final(self) == *old(self)
                    &&& forall|j: u64| !is_lruk_candidate(*old(self), j, now as int)
                },
                Some(v) => {
                    &&& is_lruk_victim(*old(self), v, now as int)
                    &&& lruk_removed(*old(self), *final(self), v)
                },
            },
    {
        match self.peek_at(now) {
            None => None,
            Some(v) => {
                let i = match find_frame(&self.frames, v) {
                    Some(i) => i,
                    None => {
                        proof {
                            let m = self.idx(v);
                            self.lemma_idx_is(m);
                            assert(false);
                        }
                        return None;
                    },
                };
                proof {
                    self.lemma_idx_is(i as int);
                }
                self.drop_frame(i);
                Some(v)
            },
        }
    }
}

} // verus!

verus! {

impl LruKReplacer {
    /// Two states with the same frame table, size, watermark and
    /// configuration agree on every observable.
    proof fn lemma_same_observables(s1: Self, s2: Self)
        requires
            s2.frames == s1.frames,
            s2.size == s1.size,
            s2.last_token == s1.last_token,
            s2.config == s1.config,
        ensures
            lruk_unchanged(s1, s2),
            s1.wf() ==> s2.wf(),
            forall|v: u64, now: int|
                #[trigger] is_lruk_victim(s1, v, now) <==> is_lruk_victim(s2, v, now),
    {
        assert forall|j: u64| s1.is_tracked(j) implies s2.refs_of(j) == s1.refs_of(j)
            && s2.last_ref_of(j) == s1.last_ref_of(j) && s2.evictable(j) == s1.evictable(j) by {
            assert(s2.idx(j) == s1.idx(j));
        }
        assert forall|v: u64, now: int| #[trigger]
            is_lruk_victim(s1, v, now) <==> is_lruk_victim(s2, v, now) by {
            assert forall|c: u64, now2: int| #[trigger]
                is_lruk_candidate(s1, c, now2) <==> is_lruk_candidate(s2, c, now2) by {}
            assert forall|c: u64, now2: int|
                s1.is_tracked(c) implies #[trigger] lruk_dist(s1, c, now2) == lruk_dist(
                s2,
                c,
                now2,
            ) by {}
            if is_lruk_victim(s1, v, now) {
                assert forall|c: u64| is_lruk_candidate(s2, c, now) && c != v implies lruk_beats(
                    s2,
                    v,
                    c,
                    now,
                ) by {
                    assert(is_lruk_candidate(s1, c, now));
                    assert(lruk_beats(s1, v, c, now));
                }
            }
            if is_lruk_victim(s2, v, now) {
                assert forall|c: u64| is_lruk_candidate(s1, c, now) && c != v implies lruk_beats(
                    s1,
                    v,
                    c,
                    now,
                ) by {
                    assert(is_lruk_candidate(s2, c, now));
                    assert(lruk_beats(s2, v, c, now));
                }
            }
        }
    }

    /// Returns the frame the next eviction would reclaim, without removing
    /// it: the eviction victim at a freshly drawn evaluation time.  Returns
    /// `None` when no frame is a candidate or the token source cannot
    /// advance; nothing observable changes either way.
    pub fn peek(&mut self) -> (r: Option<u64>)
        requires
            old(self).wf(),
        ensures
            final(self).wf(),
            lruk_unchanged(*old(self), *final(self)),
            r matches Some(v) ==> exists|now: int|
                now > old(self).watermark() && #[trigger] is_lruk_victim(*old(self), v, now),
    {
        let now = match self.draw_token() {
            Some(t) => t,
            None => {
                proof {
                    Self::lemma_same_observables(*old(self), *self);
                }
                return None;
            },
        };
        proof {
            Self::lemma_same_observables(*old(self), *self);
        }
        let r = self.peek_at(now);
        proof {
            if let Some(v) = r {
                assert(is_lruk_victim(*old(self), v, now as int));
            }
        }
        r
    }

    /// Finds the frame with the maximum backward-K distance at a freshly
    /// drawn evaluation time, removes it, and returns it.  Returns `None`,
    /// mutating nothing observable, when no frame is a candidate (none is
    /// tracked and evictable, or all were accessed within the reference
    /// period) or the token source cannot advance.
    pub fn evict(&mut self) -> (r: Option<u64>)
        requires
            old(self).wf(),
        ensures
            final(self).wf(),
            match r {
                None => lruk_unchanged(*old(self), *final(self)),
                Some(v) => {
                    &&& exists|now: int|
                        now > old(self).watermark() && #[trigger] is_lruk_victim(
                            *old(self),
                            v,
                            now,
                        )
                    &&& lruk_removed(*old(self), *final(self), v)
                },
            },
    {
        let now = match self.draw_token() {
            Some(t) => t,
            None => {
                proof {
                    Self::lemma_same_observables(*old(self), *self);
                }
                return None;
            },
        };
        let ghost mid = *self;
        proof {
            Self::lemma_same_observables(*old(self), mid);
        }
        let r = self.evict_at(now);
        proof {
            match r {
                None => {
                    Self::lemma_same_observables(*old(self), *self);
                },
                Some(v) => {
                    assert(is_lruk_victim(*old(self), v, now as int));
                    assert(lruk_removed(mid, *self, v));
                    assert forall|j: u64| j != v && old(self).is_tracked(j) implies self.refs_of(j)
                        == old(self).refs_of(j) && self.last_ref_of(j) == old(self).last_ref_of(j)
                        && self.evictable(j) == old(self).evictable(j) by {
                        assert(mid.refs_of(j) == old(self).refs_of(j));
                        assert(mid.idx(j) == old(self).idx(j));
                    }
                },
            }
        }
        r
    }
}

impl Default for LruKReplacer {
    /// A replacer with the default configuration.
    fn default() -> (r: Self)
        ensures
            r.wf(),
            r.spec_capacity() == 4096,
            r.spec_k() == 2,
            r.spec_ref_period() == 0,
            r.spec_size() == 0,
            r.tracked_count() == 0,
            r.watermark() == 0,
            forall|id: u64| !r.is_tracked(id),
    {
        LruKReplacer::with_config(LruKConfig::default())
    }
}

} // verus!

verus! {

/// The identifiers of the evictable entries of a frame table.
spec fn evictable_ids(entries: Seq<FrameEntry>) -> Set<u64> {
    Set::new(
        |id: u64|
            exists|i: int|
                0 <= i < entries.len() && entries[i].id == id && entries[i].page.evictable,
    )
}

proof fn lemma_count_evictable_is_cardinality(entries: Seq<FrameEntry>)
    requires
        forall|i: int, j: int| 0 <= i < j < entries.len() ==> entries[i].id != entries[j].id,
    ensures
        evictable_ids(entries).finite(),
        count_evictable(entries) == evictable_ids(entries).len(),
    decreases entries.len(),
{
    broadcast use vstd::set::group_set_axioms;

    if entries.len() == 0 {
        assert(evictable_ids(entries) =~= Set::<u64>::empty());
    } else {
        let prefix = entries.drop_last();
        let e = entries.last();
        lemma_count_evictable_is_cardinality(prefix);
        if e.page.evictable {
            assert(evictable_ids(entries) =~= evictable_ids(prefix).insert(e.id)) by {
                assert forall|id: u64| #[trigger]
                    evictable_ids(entries).contains(id)
                        <==> evictable_ids(prefix).insert(e.id).contains(id) by {
                    if evictable_ids(entries).contains(id) {
                        let i = choose|i: int|
                            0 <= i < entries.len() && entries[i].id == id
                                && entries[i].page.evictable;
                        if i < entries.len() - 1 {
                            assert(prefix[i] == entries[i]);
                            assert(evictable_ids(prefix).contains(id));
                        }
                    }
                    if evictable_ids(prefix).contains(id) {
                        let i = choose|i: int|
                            0 <= i < prefix.len() && prefix[i].id == id && prefix[i].page.evictable;
                        assert(entries[i] == prefix[i]);
                    }
                    if id == e.id {
                        assert(entries[entries.len() - 1].id == id
                            && entries[entries.len() - 1].page.evictable);
                    }
                }
            }
            assert(!evictable_ids(prefix).contains(e.id)) by {
                if evictable_ids(prefix).contains(e.id) {
                    let i = choose|i: int|
                        0 <= i < prefix.len() && prefix[i].id == e.id && prefix[i].page.evictable;
                    assert(entries[i].id == entries[entries.len() - 1].id);
                }
            }
        } else {
            assert(evictable_ids(entries) =~= evictable_ids(prefix)) by {
                assert forall|id: u64| #[trigger]
                    evictable_ids(entries).contains(id) <==> evictable_ids(prefix).contains(
                        id,
                    ) by {
                    if evictable_ids(entries).contains(id) {
                        let i = choose|i: int|
                            0 <= i < entries.len() && entries[i].id == id
                                && entries[i].page.evictable;
                        assert(i < entries.len() - 1);
                        assert(prefix[i] == entries[i]);
                    }
                    if evictable_ids(prefix).contains(id) {
                        let i = choose|i: int|
                            0 <= i < prefix.len() && prefix[i].id == id && prefix[i].page.evictable;
                        assert(entries[i] == prefix[i]);
                    }
                }
            }
        }
    }
}

/// Law: at any point, the size is exactly the number of distinct frames that
/// entered the replacer and are not pinned: the cardinality of the set of
/// tracked evictable frame identifiers.
pub proof fn lemma_lruk_size_counts_evictable(s: LruKReplacer)
    requires
        s.wf(),
    ensures
        Set::new(|id: u64| s.is_tracked(id) && s.evictable(id)).finite(),
        s.spec_size() == Set::new(|id: u64| s.is_tracked(id) && s.evictable(id)).len(),
{
    lemma_count_evictable_is_cardinality(s.frames@);
    assert(Set::new(|id: u64| s.is_tracked(id) && s.evictable(id)) =~= evictable_ids(s.frames@))
        by {
        assert forall|id: u64|
            (s.is_tracked(id) && s.evictable(id)) <==> #[trigger] evictable_ids(
                s.frames@,
            ).contains(id) by {
            if s.is_tracked(id) && s.evictable(id) {
                let m = s.idx(id);
                s.lemma_idx_is(m);
                assert(s.frames@[m].id == id && s.frames@[m].page.evictable);
            }
            if evictable_ids(s.frames@).contains(id) {
                let i = choose|i: int|
                    0 <= i < s.frames@.len() && s.frames@[i].id == id
                        && s.frames@[i].page.evictable;
                s.lemma_idx_is(i);
            }
        }
    }
}

/// Law: the size never exceeds the number of tracked frames, which never
/// exceeds the configured capacity.
pub proof fn lemma_lruk_size_within_capacity(s: LruKReplacer)
    requires
        s.wf(),
    ensures
        0 <= s.spec_size() <= s.tracked_count() <= s.spec_capacity(),
{
    lemma_count_evictable_bounds(s.frames@);
}

/// Law: pinning a frame and unpinning it again, with no intervening touch,
/// restores every observable of the replacer: the frame is evictable again,
/// its history is untouched, and the size is back to what it was.
pub proof fn lemma_lruk_pin_unpin_roundtrip(
    s0: LruKReplacer,
    s1: LruKReplacer,
    s2: LruKReplacer,
    id: u64,
)
    requires
        lruk_flag_set(s0, s1, id, false),
        lruk_flag_set(s1, s2, id, true),
    ensures
        lruk_unchanged(s0, s2),
{
    assert forall|j: u64| s0.is_tracked(j) implies s2.refs_of(j) == s0.refs_of(j)
        && s2.last_ref_of(j) == s0.last_ref_of(j) && s2.evictable(j) == s0.evictable(j) by {
        assert(s1.is_tracked(j));
    }
}

/// Law: a frame with fewer than `k` recorded accesses has "infinite"
/// backward distance — it is preferred for eviction over any frame with a
/// full history, as long as the evaluation time stays in the lower half of
/// the token domain (above that, the sentinel can collide with true
/// distances).
pub proof fn lemma_lruk_short_history_preferred(s: LruKReplacer, a: u64, b: u64, now: int)
    requires
        s.wf(),
        s.is_tracked(a),
        s.is_tracked(b),
        a != b,
        s.refs_of(a).len() < s.spec_k(),
        s.refs_of(b).len() >= s.spec_k(),
        s.watermark() < now,
        now <= i64::MAX / 2,
    ensures
        lruk_dist(s, a, now) > lruk_dist(s, b, now),
        lruk_beats(s, a, b, now),
{
    let ma = s.idx(a);
    s.lemma_idx_is(ma);
    assert(LruKReplacer::entry_wf(s.frames@[ma], s.spec_k(), s.watermark()));
    let ra = s.refs_of(a);
    if ra.len() > 1 {
        assert(ra[0] < ra[ra.len() - 1]);
    }
    assert(0 <= ra[0] && ra[0] <= s.watermark());
    let mb = s.idx(b);
    s.lemma_idx_is(mb);
    assert(LruKReplacer::entry_wf(s.frames@[mb], s.spec_k(), s.watermark()));
    let rb = s.refs_of(b);
    assert(0 <= rb[0]);
}

/// Law: with a positive reference period, a frame accessed within that
/// period of the evaluation time is never the eviction victim, however large
/// its backward distance; once the period has elapsed it is eligible again
/// (it is a candidate whenever it is evictable).
pub proof fn lemma_lruk_guarded_frame_not_victim(s: LruKReplacer, v: u64, id: u64, now: int)
    requires
        s.spec_ref_period() > 0,
        s.is_tracked(id),
        now - s.last_ref_of(id) <= s.spec_ref_period(),
        is_lruk_victim(s, v, now),
    ensures
        v != id,
        !is_lruk_candidate(s, id, now),
{
}

/// Law: the eviction victim is unique — at one evaluation time, whichever
/// two frames qualify as the victim are the same frame, so a peek followed
/// immediately by an eviction at the same evaluation time selects the same
/// frame.
pub proof fn lemma_lruk_victim_unique(s: LruKReplacer, v1: u64, v2: u64, now: int)
    requires
        is_lruk_victim(s, v1, now),
        is_lruk_victim(s, v2, now),
    ensures
        v1 == v2,
{
    if v1 != v2 {
        assert(lruk_beats(s, v1, v2, now));
        assert(lruk_beats(s, v2, v1, now));
    }
}

/// Law: the correlation filter merges accesses within the reference period.
/// For a fresh frame touched at `t1` and then at `t2`: within the period the
/// two accesses leave one history entry (the second only refreshes the time
/// of last access); spaced beyond it — or with the period disabled — they
/// leave two.
pub proof fn lemma_lruk_correlation_filter(
    s0: LruKReplacer,
    s1: LruKReplacer,
    s2: LruKReplacer,
    id: u64,
    t1: i64,
    t2: i64,
)
    requires
        !s0.is_tracked(id),
        s0.spec_k() >= 2,
        lruk_touched(s0, s1, id, t1),
        lruk_touched(s1, s2, id, t2),
    ensures
        s0.spec_ref_period() > 0 && t2 - t1 <= s0.spec_ref_period() ==> s2.refs_of(id) == seq![t1]
            && s2.last_ref_of(id) == t2,
        s0.spec_ref_period() == 0 || t2 - t1 > s0.spec_ref_period() ==> s2.refs_of(id) == seq![
            t1,
            t2,
        ],
{
    assert(s1.refs_of(id) == seq![t1]);
    assert(s1.refs_of(id).len() == 1);
    if !(s0.spec_ref_period() > 0 && t2 - t1 <= s0.spec_ref_period()) {
        assert(s2.refs_of(id) =~= seq![t1, t2]);
    }
}

} // verus!

verus! {

impl crate::EvictionPolicy<u64> for LruKReplacer {
    type Error = EvictError<u64>;

    open spec fn inv(&self) -> bool {
        self.wf()
    }

    fn evict(&mut self) -> (r: Option<u64>) {
        LruKReplacer::evict(self)
    }

    fn peek(&mut self) -> (r: Option<u64>) {
        LruKReplacer::peek(self)
    }

    fn touch(&mut self, id: u64) -> (r: Result<(), EvictError<u64>>) {
        LruKReplacer::touch(self, id)
    }

    fn touch_with<T: AccessType>(&mut self, id: u64, access_type: T) -> (r: Result<
        (),
        EvictError<u64>,
    >) {
        LruKReplacer::touch_with(self, id, access_type)
    }

    fn pin(&mut self, id: u64) -> (r: Result<(), EvictError<u64>>) {
        LruKReplacer::pin(self, id)
    }

    fn unpin(&mut self, id: u64) -> (r: Result<(), EvictError<u64>>) {
        LruKReplacer::unpin(self, id)
    }

    fn remove(&mut self, id: u64) -> (r: Result<(), EvictError<u64>>) {
        LruKReplacer::remove(self, id)
    }

    fn capacity(&self) -> (r: usize) {
        LruKReplacer::capacity(self)
    }

    fn size(&self) -> (r: usize) {
        LruKReplacer::size(self)
    }
}

} // verus!
