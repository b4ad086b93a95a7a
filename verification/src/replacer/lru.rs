//! Least Recently Used (LRU) frame replacer.
//!
//! The replacer keeps its evictable frames in a priority queue ordered by the
//! token of the last access.  The most recently accessed frame sits at the
//! back of that ordering, while the least recently accessed frame is the
//! first to be evicted.

use vstd::prelude::*;

use crate::AccessType;
use crate::error::{EvictError, EvictResult};
use crate::util::unique_sequence::UniqueSequence;
use priority_queue::PriorityQueue;

verus! {

broadcast use vstd::set::group_set_axioms;

/// Declares `priority_queue::PriorityQueue` so that it can stand in fields
/// and signatures.  Values of it are opaque; everything the replacer knows
/// about one is phrased over [`pq_contents`].
#[verifier::external_type_specification]
#[verifier::external_body]
#[verifier::reject_recursive_types(I)]
#[verifier::reject_recursive_types(P)]
#[verifier::reject_recursive_types(H)]
pub struct ExPriorityQueue<I, P, H>(PriorityQueue<I, P, H>);

/// What a queue of frame identifiers keyed by priority holds: a map from
/// each stored identifier to its current priority.
pub uninterp spec fn pq_contents(q: PriorityQueue<u64, u64>) -> Map<u64, u64>;

/// Relies on `PriorityQueue::with_capacity`: creates an empty queue.
#[verifier::external_body]
fn pq_with_capacity(capacity: usize) -> (q: PriorityQueue<u64, u64>)
    ensures
        pq_contents(q).dom() =~= Set::<u64>::empty(),
{
    PriorityQueue::with_capacity(capacity)
}

/// Relies on `PriorityQueue::push`: inserts the pair, or updates the
/// priority of an already-stored identifier, returning the old priority.
#[verifier::external_body]
fn pq_push(q: &mut PriorityQueue<u64, u64>, id: u64, priority: u64) -> (r: Option<
    u64,
>)
    ensures
        pq_contents(*final(q)) == pq_contents(*old(q)).insert(id, priority),
        r is Some <==> pq_contents(*old(q)).dom().contains(id),
        r matches Some(p) ==> p == pq_contents(*old(q))[id],
{
    q.push(id, priority)
}

/// Relies on `PriorityQueue::pop`: removes and returns a pair whose priority
/// is greatest, or `None` if the queue is empty.  Which of several equal
/// greatest priorities leaves is not specified.
#[verifier::external_body]
fn pq_pop(q: &mut PriorityQueue<u64, u64>) -> (r: Option<(u64, u64)>)
    ensures
        match r {
            None => {
                &&& pq_contents(*old(q)).dom() =~= Set::<u64>::empty()
                &&& pq_contents(*final(q)) == pq_contents(*old(q))
            },
            Some((id, p)) => {
                &&& pq_contents(*old(q)).contains_pair(id, p)
                &&& forall|j: u64|
                    pq_contents(*old(q)).dom().contains(j) ==> pq_contents(*old(q))[j] <= p
                &&& pq_contents(*final(q)) == pq_contents(*old(q)).remove(id)
            },
        },
{
    q.pop()
}

/// Relies on `PriorityQueue::peek`: returns a pair whose priority is
/// greatest, without removing it, or `None` if the queue is empty.
#[verifier::external_body]
fn pq_peek(q: &PriorityQueue<u64, u64>) -> (r: Option<(u64, u64)>)
    ensures
        match r {
            None => pq_contents(*q).dom() =~= Set::<u64>::empty(),
            Some((id, p)) => {
                &&& pq_contents(*q).contains_pair(id, p)
                &&& forall|j: u64| pq_contents(*q).dom().contains(j) ==> pq_contents(*q)[j] <= p
            },
        },
{
    q.peek().map(|(id, p)| (*id, *p))
}

/// Relies on `PriorityQueue::remove`: removes the pair of the given
/// identifier, returning its priority, or `None` if it is not stored.
#[verifier::external_body]
fn pq_remove(q: &mut PriorityQueue<u64, u64>, id: u64) -> (r: Option<u64>)
    ensures
        r is Some <==> pq_contents(*old(q)).dom().contains(id),
        r matches Some(p) ==> p == pq_contents(*old(q))[id],
        pq_contents(*final(q)) == pq_contents(*old(q)).remove(id),
{
    q.remove(&id).map(|(_, p)| p)
}

/// Relies on `PriorityQueue::get`: returns the priority of the given
/// identifier, or `None` if it is not stored.
#[verifier::external_body]
fn pq_get(q: &PriorityQueue<u64, u64>, id: u64) -> (r: Option<u64>)
    ensures
        r is Some <==> pq_contents(*q).dom().contains(id),
        r matches Some(p) ==> p == pq_contents(*q)[id],
{
    q.get(&id).map(|(_, p)| *p)
}

/// Relies on `PriorityQueue::len`: the number of stored pairs.
#[verifier::external_body]
fn pq_len(q: &PriorityQueue<u64, u64>) -> (r: usize)
    ensures
        r == pq_contents(*q).dom().len(),
{
    q.len()
}

/// Least Recently Used (LRU) frame replacer.
///
/// Frames are identified by `u64` indices into the owning cache's frame
/// array.  The replacer holds the evictable frames in a priority queue keyed
/// by access token (newer access, later eviction); pinning a frame drops it
/// from the queue, so a later unpin re-enters it with a fresh token.
pub struct LruReplacer {
    /// Maximum number of frames that can be stored in the replacer.
    capacity: usize,
    /// Evictable frames, keyed by a priority that inverts the access token.
    frames: PriorityQueue<u64, u64>,
    /// Monotonically increasing source of access tokens.
    seq: UniqueSequence,
}

impl LruReplacer {
    /// Whether the replacer currently tracks `id` as evictable.
    pub closed spec fn contains(&self, id: u64) -> bool {
        pq_contents(self.frames).dom().contains(id)
    }

    /// The access token recorded for `id`: larger means more recently used.
    pub closed spec fn token_of(&self, id: u64) -> int {
        u64::MAX - pq_contents(self.frames)[id]
    }

    /// The number of frames currently tracked (all of them evictable).
    pub closed spec fn spec_size(&self) -> nat {
        pq_contents(self.frames).dom().len()
    }

    /// The configured capacity.
    pub closed spec fn spec_capacity(&self) -> int {
        self.capacity as int
    }

    /// The token the next recorded access will receive.
    pub closed spec fn next_token(&self) -> int {
        self.seq.spec_val()
    }

    /// Internal consistency: the size stays within the capacity, tokens are
    /// non-negative and below the source's next value, and no two frames
    /// share one.
    pub closed spec fn wf(&self) -> bool {
        &&& pq_contents(self.frames).dom().finite()
        &&& pq_contents(self.frames).dom().len() <= self.capacity
        &&& 0 <= self.seq.spec_val() <= i64::MAX
        &&& forall|id: u64| #[trigger]
            self.contains(id) ==> 0 <= self.token_of(id) < self.next_token()
        &&& forall|a: u64, b: u64|
            #![trigger self.token_of(a), self.token_of(b)]
            self.contains(a) && self.contains(b) && a != b ==> self.token_of(a) != self.token_of(b)
    }

    /// Creates a new LRU replacer that will track at most `capacity` frames.
    pub fn new(capacity: usize) -> (r: Self)
        ensures
            r.wf(),
            r.spec_capacity() == capacity,
            r.spec_size() == 0,
            r.next_token() == 0,
            forall|id: u64| !r.contains(id),
    {
        LruReplacer { capacity, frames: pq_with_capacity(capacity), seq: UniqueSequence::new() }
    }

    /// Records an access to `id` with a fresh token, entering the frame if it
    /// was not tracked.  A new frame is refused when the replacer is full; an
    /// already-tracked frame only has its token renewed.
    fn push_frame(&mut self, id: u64) -> (r: EvictResult<(), u64>)
        requires
            old(self).wf(),
        ensures
            match r {
                Ok(()) => {
                    &&& lru_touch_ok(*old(self), *final(self), id)
                    &&& !(old(self).spec_size() >= old(self).spec_capacity() && !old(
                        self,
                    ).contains(id))
                    &&& old(self).next_token() < i64::MAX
                },
                Err(EvictError::FrameReplacerFull) => {
                    &&& *final(self) == *old(self)
                    &&& old(self).spec_size() >= old(self).spec_capacity()
                    &&& !old(self).contains(id)
                },
                Err(EvictError::SequenceExhausted) => {
                    &&& *final(self) == *old(self)
                    &&& old(self).next_token() == i64::MAX
                },
                Err(_) => false,
            },
    {
        // Refuse a new frame once the replacer is at capacity; an access to
        // an already-tracked frame only renews its token.
        if pq_get(&self.frames, id).is_none() && pq_len(&self.frames) >= self.capacity {
            return Err(EvictError::FrameReplacerFull);
        }

        let t = match self.seq.next() {
            Some(t) => t,
            None => {
                return Err(EvictError::SequenceExhausted);
            },
        };
        let priority = u64::MAX - (t as u64);
        pq_push(&mut self.frames, id, priority);
        proof {
            lemma_after_contents_insert(*old(self), *self, id, t, priority);
        }
        Ok(())
    }

    /// Finds the least recently used frame, removes it, and returns it.
    ///
    /// Returns `None`, and mutates nothing, if no frame is tracked.
    pub fn evict(&mut self) -> (r: Option<u64>)
        requires
            old(self).wf(),
        ensures
            final(self).wf(),
            match r {
                None => {
                    &&& lru_unchanged(*old(self), *final(self))
                    &&& old(self).spec_size() == 0
                },
                Some(id) => {
                    &&& is_lru_victim(*old(self), id)
                    &&& lru_evict_removes(*old(self), *final(self), id)
                },
            },
    {
        match pq_pop(&mut self.frames) {
            None => None,
            Some((id, _p)) => {
                proof {
                    let pre = *old(self);
                    assert(pre.token_of(id) == u64::MAX - _p);
                    assert forall|j: u64| pre.contains(j) && j != id implies pre.token_of(j)
                        > pre.token_of(id) by {
                        assert(pq_contents(pre.frames)[j] <= _p);
                    }
                    lemma_after_contents_remove(pre, *self, id);
                }
                Some(id)
            },
        }
    }

    /// Returns the least recently used frame without removing it, or `None`
    /// if no frame is tracked.
    pub fn peek(&self) -> (r: Option<u64>)
        requires
            self.wf(),
        ensures
            match r {
                None => self.spec_size() == 0,
                Some(id) => is_lru_victim(*self, id),
            },
    {
        match pq_peek(&self.frames) {
            None => None,
            Some((id, _p)) => {
                proof {
                    assert(self.token_of(id) == u64::MAX - _p);
                    assert forall|j: u64| self.contains(j) && j != id implies self.token_of(j)
                        > self.token_of(id) by {
                        assert(pq_contents(self.frames)[j] <= _p);
                    }
                }
                Some(id)
            },
        }
    }

    /// Records that the page held by frame `id` has been accessed now.
    ///
    /// A frame that is not yet tracked enters the replacer, unless the
    /// replacer is full; a tracked frame moves to the most recently used
    /// position.
    pub fn touch(&mut self, id: u64) -> (r: EvictResult<(), u64>)
        requires
            old(self).wf(),
        ensures
            match r {
                Ok(()) => {
                    &&& lru_touch_ok(*old(self), *final(self), id)
                    &&& !(old(self).spec_size() >= old(self).spec_capacity() && !old(
                        self,
                    ).contains(id))
                    &&& old(self).next_token() < i64::MAX
                },
                Err(EvictError::FrameReplacerFull) => {
                    &&& *final(self) == *old(self)
                    &&& old(self).spec_size() >= old(self).spec_capacity()
                    &&& !old(self).contains(id)
                },
                Err(EvictError::SequenceExhausted) => {
                    &&& *final(self) == *old(self)
                    &&& old(self).next_token() == i64::MAX
                },
                Err(_) => false,
            },
    {
        self.push_frame(id)
    }

    /// Records an access together with its type.  The LRU policy does not
    /// distinguish access types, so this behaves exactly like
    /// [`touch`](Self::touch).
    pub fn touch_with<T: AccessType>(&mut self, id: u64, _access_type: T) -> (r: EvictResult<
        (),
        u64,
    >)
        requires
            old(self).wf(),
        ensures
            match r {
                Ok(()) => {
                    &&& lru_touch_ok(*old(self), *final(self), id)
                    &&& !(old(self).spec_size() >= old(self).spec_capacity() && !old(
                        self,
                    ).contains(id))
                    &&& old(self).next_token() < i64::MAX
                },
                Err(EvictError::FrameReplacerFull) => {
                    &&& *final(self) == *old(self)
                    &&& old(self).spec_size() >= old(self).spec_capacity()
                    &&& !old(self).contains(id)
                },
                Err(EvictError::SequenceExhausted) => {
                    &&& *final(self) == *old(self)
                    &&& old(self).next_token() == i64::MAX
                },
                Err(_) => false,
            },
    {
        self.push_frame(id)
    }

    /// Pins frame `id`, marking it non-evictable.
    ///
    /// The frame leaves the queue and its ordering position is forgotten:
    /// unpinning it later re-enters it with a fresh token.  Pinning a frame
    /// that is not tracked does nothing; the call never fails.
    pub fn pin(&mut self, id: u64) -> (r: EvictResult<(), u64>)
        requires
            old(self).wf(),
        ensures
            final(self).wf(),
            r is Ok,
            !final(self).contains(id),
            forall|j: u64| j != id ==> (final(self).contains(j) <==> old(self).contains(j)),
            forall|j: u64|
                j != id && old(self).contains(j) ==> final(self).token_of(j) == old(self).token_of(
                    j,
                ),
            final(self).spec_size() == old(self).spec_size() - (if old(self).contains(id) {
                1int
            } else {
                0int
            }),
            final(self).next_token() == old(self).next_token(),
            final(self).spec_capacity() == old(self).spec_capacity(),
    {
        pq_remove(&mut self.frames, id);
        proof {
            lemma_after_contents_remove(*old(self), *self, id);
        }
        Ok(())
    }

    /// Unpins frame `id`, marking it evictable.
    ///
    /// A frame that is not tracked enters the replacer as if freshly touched
    /// (this is a frame's entry point, equivalent to an initial access); a
    /// frame already tracked is left exactly as it is.
    pub fn unpin(&mut self, id: u64) -> (r: EvictResult<(), u64>)
        requires
            old(self).wf(),
        ensures
            match r {
                Ok(()) => {
                    if old(self).contains(id) {
                        *final(self) == *old(self)
                    } else {
                        lru_touch_ok(*old(self), *final(self), id) && old(self).spec_size() < old(
                            self,
                        ).spec_capacity() && old(self).next_token() < i64::MAX
                    }
                },
                Err(EvictError::FrameReplacerFull) => {
                    &&& *final(self) == *old(self)
                    &&& old(self).spec_size() >= old(self).spec_capacity()
                    &&& !old(self).contains(id)
                },
                Err(EvictError::SequenceExhausted) => {
                    &&& *final(self) == *old(self)
                    &&& old(self).next_token() == i64::MAX
                    &&& !old(self).contains(id)
                },
                Err(_) => false,
            },
    {
        if pq_get(&self.frames, id).is_none() {
            self.push_frame(id)
        } else {
            Ok(())
        }
    }

    /// Removes frame `id` from the replacer, whatever its ranking position.
    ///
    /// The LRU replacer keeps no record of pinned frames, so a frame that is
    /// not in the queue — pinned or never entered — is reported as a pinned
    /// frame removal.
    pub fn remove(&mut self, id: u64) -> (r: EvictResult<(), u64>)
        requires
            old(self).wf(),
        ensures
            final(self).wf(),
            match r {
                Ok(()) => {
                    &&& old(self).contains(id)
                    &&& lru_evict_removes(*old(self), *final(self), id)
                },
                Err(EvictError::PinnedFrameRemoval(f)) => {
                    &&& f == id
                    &&& !old(self).contains(id)
                    &&& lru_unchanged(*old(self), *final(self))
                },
                Err(_) => false,
            },
    {
        let res = pq_remove(&mut self.frames, id);
        proof {
            lemma_after_contents_remove(*old(self), *self, id);
        }
        if res.is_none() {
            return Err(EvictError::PinnedFrameRemoval(id));
        }
        Ok(())
    }

    /// Returns the maximum number of frames the replacer will track.
    pub fn capacity(&self) -> (r: usize)
        ensures
            r == self.spec_capacity(),
    {
        self.capacity
    }

    /// Returns the number of frames that can be evicted: every tracked frame,
    /// since pinned frames are not tracked by this replacer.
    pub fn size(&self) -> (r: usize)
        ensures
            r == self.spec_size(),
    {
        pq_len(&self.frames)
    }
}

/// How every observable of the replacer changes when the queue's contents
/// lose the pair of `id` and nothing else moves.
proof fn lemma_after_contents_remove(pre: LruReplacer, post: LruReplacer, id: u64)
    requires
        pre.wf(),
        pq_contents(post.frames) == pq_contents(pre.frames).remove(id),
        post.seq == pre.seq,
        post.capacity == pre.capacity,
    ensures
        post.wf(),
        !post.contains(id),
        forall|j: u64| j != id ==> (post.contains(j) <==> pre.contains(j)),
        forall|j: u64| j != id && pre.contains(j) ==> post.token_of(j) == pre.token_of(j),
        post.spec_size() == pre.spec_size() - (if pre.contains(id) {
            1int
        } else {
            0int
        }),
        post.next_token() == pre.next_token(),
        post.spec_capacity() == pre.spec_capacity(),
{
    assert forall|j: u64| #[trigger] post.contains(j) implies 0 <= post.token_of(j)
        < post.next_token() by {
        assert(pre.contains(j));
        assert(post.token_of(j) == pre.token_of(j));
    }
    assert forall|a: u64, b: u64| post.contains(a) && post.contains(b) && a != b implies post
        .token_of(a) != post.token_of(b) by {
        assert(pre.contains(a) && pre.contains(b));
        assert(post.token_of(a) == pre.token_of(a));
        assert(post.token_of(b) == pre.token_of(b));
    }
}

/// How every observable of the replacer changes when the queue's contents
/// gain the pair of `id` with the priority that encodes fresh token `t`.
proof fn lemma_after_contents_insert(pre: LruReplacer, post: LruReplacer, id: u64, t: i64, p: u64)
    requires
        pre.wf(),
        pre.contains(id) || pre.spec_size() < pre.spec_capacity(),
        t == pre.next_token(),
        pre.next_token() < i64::MAX,
        p == u64::MAX - t,
        pq_contents(post.frames) == pq_contents(pre.frames).insert(id, p),
        post.next_token() == pre.next_token() + 1,
        post.capacity == pre.capacity,
    ensures
        lru_touch_ok(pre, post, id),
{
    assert(post.token_of(id) == t);
    assert forall|j: u64| #[trigger] post.contains(j) implies 0 <= post.token_of(j)
        < post.next_token() by {
        if j != id {
            assert(pre.contains(j));
            assert(post.token_of(j) == pre.token_of(j));
        }
    }
    assert forall|a: u64, b: u64| post.contains(a) && post.contains(b) && a != b implies post
        .token_of(a) != post.token_of(b) by {
        if a != id && b != id {
            assert(pre.contains(a) && pre.contains(b));
            assert(post.token_of(a) == pre.token_of(a));
            assert(post.token_of(b) == pre.token_of(b));
        } else if a == id {
            assert(pre.contains(b));
            assert(post.token_of(b) == pre.token_of(b));
        } else {
            assert(pre.contains(a));
            assert(post.token_of(a) == pre.token_of(a));
        }
    }
}

/// States `pre` and `post` agree on everything a caller can observe: the
/// tracked frames and their tokens, the size, the next token, the capacity.
pub open spec fn lru_unchanged(pre: LruReplacer, post: LruReplacer) -> bool {
    &&& forall|j: u64|
        #![trigger pre.contains(j)]
        #![trigger post.contains(j)]
        post.contains(j) <==> pre.contains(j)
    &&& forall|j: u64| pre.contains(j) ==> post.token_of(j) == pre.token_of(j)
    &&& post.spec_size() == pre.spec_size()
    &&& post.next_token() == pre.next_token()
    &&& post.spec_capacity() == pre.spec_capacity()
}

/// Frame `id` is the eviction candidate of state `s`: it is tracked, and
/// every other tracked frame was used more recently.
pub open spec fn is_lru_victim(s: LruReplacer, id: u64) -> bool {
    &&& s.contains(id)
    &&& forall|j: u64| #[trigger] s.contains(j) && j != id ==> s.token_of(j) > s.token_of(id)
}

/// State `post` is state `pre` with frame `id` taken out and all else kept.
pub open spec fn lru_evict_removes(pre: LruReplacer, post: LruReplacer, id: u64) -> bool {
    &&& pre.contains(id)
    &&& forall|j: u64| j != id ==> (post.contains(j) <==> pre.contains(j))
    &&& !post.contains(id)
    &&& forall|j: u64| j != id && pre.contains(j) ==> post.token_of(j) == pre.token_of(j)
    &&& post.spec_size() == pre.spec_size() - 1
    &&& post.next_token() == pre.next_token()
    &&& post.spec_capacity() == pre.spec_capacity()
}

/// State `post` is state `pre` after a successful access to frame `id`: the
/// frame is tracked and carries the freshest token, every other frame is
/// untouched, and the size grew exactly when the frame was new.
pub open spec fn lru_touch_ok(pre: LruReplacer, post: LruReplacer, id: u64) -> bool {
    &&& post.wf()
    &&& post.contains(id)
    &&& post.token_of(id) == pre.next_token()
    &&& forall|j: u64| j != id ==> (post.contains(j) <==> pre.contains(j))
    &&& forall|j: u64| j != id && pre.contains(j) ==> post.token_of(j) == pre.token_of(j)
    &&& post.spec_size() == pre.spec_size() + (if pre.contains(id) {
        0int
    } else {
        1int
    })
    &&& post.next_token() == pre.next_token() + 1
    &&& post.spec_capacity() == pre.spec_capacity()
}

} // verus!

verus! {

/// Law: at any point, the size is exactly the number of distinct frames that
/// entered the replacer and were not pinned away again: the cardinality of
/// the set of tracked identifiers (every tracked frame of this replacer is
/// evictable, since pinning removes a frame from it).
pub proof fn lemma_lru_size_counts_evictable(s: LruReplacer)
    requires
        s.wf(),
    ensures
        Set::new(|id: u64| s.contains(id)).finite(),
        s.spec_size() == Set::new(|id: u64| s.contains(id)).len(),
{
    assert(Set::new(|id: u64| s.contains(id)) =~= pq_contents(s.frames).dom());
}

/// Law: the size never exceeds the configured capacity.
pub proof fn lemma_lru_size_within_capacity(s: LruReplacer)
    requires
        s.wf(),
    ensures
        0 <= s.spec_size() <= s.spec_capacity(),
{
}

/// Law: pinning an evictable frame and unpinning it again, with no
/// intervening touch, restores evictability and the size without error; the
/// frame's recency position is deliberately forgotten — it re-enters with a
/// fresh token, as the most recently used of the tracked frames.
pub proof fn lemma_lru_pin_unpin_reenters(
    pre: LruReplacer,
    mid: LruReplacer,
    post: LruReplacer,
    id: u64,
)
    requires
        pre.wf(),
        lru_evict_removes(pre, mid, id),
        lru_touch_ok(mid, post, id),
    ensures
        post.contains(id),
        post.spec_size() == pre.spec_size(),
        forall|j: u64|
            #![trigger pre.contains(j)]
            #![trigger post.contains(j)]
            post.contains(j) <==> pre.contains(j),
        forall|j: u64| j != id && pre.contains(j) ==> post.token_of(j) == pre.token_of(j),
        forall|j: u64| #[trigger] post.contains(j) && j != id ==> post.token_of(j) < post.token_of(id),
{
    assert forall|j: u64| #[trigger] post.contains(j) && j != id implies post.token_of(j)
        < post.token_of(id) by {
        assert(mid.contains(j));
        assert(pre.contains(j));
        assert(mid.token_of(j) == pre.token_of(j));
        assert(pre.token_of(j) < pre.next_token());
    }
}

/// Law: the eviction candidate is unique — whichever two frames qualify as
/// the least recently used frame of one state are the same frame.
pub proof fn lemma_lru_victim_unique(s: LruReplacer, v1: u64, v2: u64)
    requires
        is_lru_victim(s, v1),
        is_lru_victim(s, v2),
    ensures
        v1 == v2,
{
    if v1 != v2 {
        assert(s.token_of(v1) > s.token_of(v2));
        assert(s.token_of(v2) > s.token_of(v1));
    }
}

/// Law: eviction follows entry order.  When exactly the frames `a`, `b`, `c`
/// are tracked, entered in that order (so their tokens grow in that order)
/// with no intervening touches, three successive evictions return `a`, then
/// `b`, then `c`.
pub proof fn lemma_lru_eviction_order(
    s0: LruReplacer,
    s1: LruReplacer,
    s2: LruReplacer,
    a: u64,
    b: u64,
    c: u64,
    v0: u64,
    v1: u64,
    v2: u64,
)
    requires
        a != b && b != c && a != c,
        forall|j: u64| #[trigger] s0.contains(j) <==> (j == a || j == b || j == c),
        s0.token_of(a) < s0.token_of(b),
        s0.token_of(b) < s0.token_of(c),
        is_lru_victim(s0, v0),
        lru_evict_removes(s0, s1, v0),
        is_lru_victim(s1, v1),
        lru_evict_removes(s1, s2, v1),
        is_lru_victim(s2, v2),
    ensures
        v0 == a && v1 == b && v2 == c,
{
    assert(s0.contains(a));
    assert(is_lru_victim(s0, a));
    lemma_lru_victim_unique(s0, v0, a);
    assert(s1.contains(b) && s1.contains(c));
    assert(is_lru_victim(s1, b));
    lemma_lru_victim_unique(s1, v1, b);
    assert(s2.contains(c));
    assert(is_lru_victim(s2, c));
    lemma_lru_victim_unique(s2, v2, c);
}

/// Law: touching an already-present frame moves it to the most recently used
/// position — afterwards it is not the eviction candidate as long as any
/// other frame is tracked.
pub proof fn lemma_lru_touch_moves_to_back(
    pre: LruReplacer,
    post: LruReplacer,
    x: u64,
    other: u64,
)
    requires
        pre.wf(),
        lru_touch_ok(pre, post, x),
        post.contains(other),
        other != x,
    ensures
        !is_lru_victim(post, x),
{
    assert(pre.contains(other));
    assert(post.token_of(other) == pre.token_of(other));
    assert(post.token_of(other) < post.token_of(x));
}

/// A run of fresh entries: step `i` enters frame `ids[i]`, which the state
/// did not track before, moving state `states[i]` to state `states[i + 1]`.
pub open spec fn lru_fresh_entries(states: Seq<LruReplacer>, ids: Seq<u64>) -> bool
    decreases ids.len(),
{
    &&& states.len() == ids.len() + 1
    &&& ids.len() > 0 ==> {
        &&& !states[0].contains(ids[0])
        &&& lru_touch_ok(states[0], states[1], ids[0])
        &&& lru_fresh_entries(states.skip(1), ids.skip(1))
    }
}

/// Law: no entry is lost or duplicated.  Entering any number of frames, each
/// fresh when entered — as disjoint frame sets entered by concurrent callers
/// are, in whatever interleaving the lock linearizes — grows the size by
/// exactly the number of entries, and every entered frame is tracked at the
/// end, as is everything tracked at the start.
pub proof fn lemma_lru_entries_all_counted(states: Seq<LruReplacer>, ids: Seq<u64>)
    requires
        lru_fresh_entries(states, ids),
    ensures
        states.last().spec_size() == states[0].spec_size() + ids.len(),
        forall|i: int| 0 <= i < ids.len() ==> states.last().contains(ids[i]),
        forall|j: u64| states[0].contains(j) ==> states.last().contains(j),
    decreases ids.len(),
{
    if ids.len() == 0 {
        assert(states.last() == states[0]);
    } else {
        let tail_states = states.skip(1);
        let tail_ids = ids.skip(1);
        lemma_lru_entries_all_counted(tail_states, tail_ids);
        assert(tail_states.last() == states.last());
        assert(tail_states[0] == states[1]);
        assert(states[1].contains(ids[0]));
        assert forall|i: int| 0 <= i < ids.len() implies states.last().contains(ids[i]) by {
            if i > 0 {
                assert(tail_ids[i - 1] == ids[i]);
                assert(tail_states.last().contains(tail_ids[i - 1]));
            }
        }
        assert forall|j: u64| states[0].contains(j) implies states.last().contains(j) by {
            assert(states[1].contains(j));
            assert(tail_states[0].contains(j));
        }
    }
}

} // verus!

verus! {

impl crate::EvictionPolicy<u64> for LruReplacer {
    type Error = EvictError<u64>;

    open spec fn inv(&self) -> bool {
        self.wf()
    }

    fn evict(&mut self) -> (r: Option<u64>) {
        LruReplacer::evict(self)
    }

    fn peek(&mut self) -> (r: Option<u64>) {
        LruReplacer::peek(self)
    }

    fn touch(&mut self, id: u64) -> (r: Result<(), EvictError<u64>>) {
        LruReplacer::touch(self, id)
    }

    fn touch_with<T: AccessType>(&mut self, id: u64, access_type: T) -> (r: Result<
        (),
        EvictError<u64>,
    >) {
        LruReplacer::touch_with(self, id, access_type)
    }

    fn pin(&mut self, id: u64) -> (r: Result<(), EvictError<u64>>) {
        LruReplacer::pin(self, id)
    }

    fn unpin(&mut self, id: u64) -> (r: Result<(), EvictError<u64>>) {
        LruReplacer::unpin(self, id)
    }

    fn remove(&mut self, id: u64) -> (r: Result<(), EvictError<u64>>) {
        LruReplacer::remove(self, id)
    }

    fn capacity(&self) -> (r: usize) {
        LruReplacer::capacity(self)
    }

    fn size(&self) -> (r: usize) {
        LruReplacer::size(self)
    }
}

} // verus!
