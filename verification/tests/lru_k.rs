use evict::replacer::LRUK_REPLACER_REF_PERIOD;
use evict::{EvictError, LruKConfig, LruKReplacer};

#[test]
fn lru_k_basic_ops() {
    let mut replacer = LruKReplacer::with_config(LruKConfig { capacity: 7, k: 2, ref_period: 0 });
    assert_eq!(0, replacer.size());

    // Scenario: add six elements to the replacer. We have [1,2,3,4,5].
    // Frame 6 is non-evictable (but still kept for access history).
    replacer.touch(1).unwrap();
    replacer.touch(2).unwrap();
    replacer.touch(3).unwrap();
    replacer.touch(4).unwrap();
    replacer.touch(5).unwrap();
    replacer.touch(6).unwrap();
    replacer.pin(6).unwrap();
    assert_eq!(5, replacer.size());

    // Scenario: Insert access history for frame 1. Now frame 1 has two access
    // histories. All other frames have max backward k-dist. The order of
    // eviction is [2,3,4,5,1].
    replacer.touch(1).unwrap();

    // Scenario: Evict three pages from the replacer. Elements with max k-distance
    // should be popped first based on LRU.
    assert_eq!(Some(2), replacer.evict());
    assert_eq!(Some(3), replacer.evict());
    assert_eq!(Some(4), replacer.evict());
    assert_eq!(2, replacer.size());

    // Scenario: Now replacer has frames [5,1].
    // Insert new frames 3, 4, and update access history for 5. We should end with
    // [3,1,5,4]
    replacer.touch(3).unwrap();
    replacer.touch(4).unwrap();
    replacer.touch(5).unwrap();
    replacer.touch(4).unwrap();
    replacer.unpin(3).unwrap();
    replacer.unpin(4).unwrap();
    assert_eq!(4, replacer.size());

    // Scenario: continue looking for victims. We expect 3 to be evicted next.
    assert_eq!(Some(3), replacer.evict());
    assert_eq!(3, replacer.size());

    // Set 6 to be evictable. 6 Should be evicted next since it has max backward
    // k-dist.
    replacer.unpin(6).unwrap();
    assert_eq!(4, replacer.size());
    assert_eq!(Some(6), replacer.evict());
    assert_eq!(3, replacer.size());

    // Now we have [1,5,4]. Continue looking for victims.
    replacer.pin(1).unwrap();
    assert_eq!(2, replacer.size());
    assert_eq!(Some(5), replacer.evict());
    assert_eq!(1, replacer.size());

    // Update access history for 1. Now we have [4,1]. Next victim is 4.
    replacer.touch(1).unwrap();
    replacer.touch(1).unwrap();
    replacer.unpin(1).unwrap();
    assert_eq!(2, replacer.size());
    assert_eq!(Some(4), replacer.evict());

    assert_eq!(1, replacer.size());
    assert_eq!(Some(1), replacer.evict());
    assert_eq!(0, replacer.size());

    // This operation should not modify size
    assert_eq!(None, replacer.evict());
    assert_eq!(0, replacer.size());
}

#[test]
fn over_capacity() {
    let mut replacer = LruKReplacer::with_config(LruKConfig { capacity: 3, k: 2, ref_period: 0 });
    assert_eq!(0, replacer.size());

    replacer.touch(1).unwrap();
    replacer.touch(2).unwrap();
    replacer.touch(3).unwrap();
    // Next touch should fail since the replacer is full.
    assert_eq!(replacer.touch(4), Err(EvictError::FrameReplacerFull));
}

#[test]
fn pin_frame() {
    let mut replacer = LruKReplacer::with_config(LruKConfig { capacity: 7, k: 2, ref_period: 0 });
    assert_eq!(0, replacer.size());

    replacer.touch(1).unwrap();
    assert_eq!(1, replacer.size());

    replacer.pin(1).unwrap();
    assert_eq!(0, replacer.size());

    // Pinning again has no effect.
    replacer.pin(1).unwrap();
    assert_eq!(0, replacer.size());
}

#[test]
fn remove_arbitrary_frame() {
    let mut replacer = LruKReplacer::with_config(LruKConfig {
        capacity: 7,
        k: 2,
        ref_period: LRUK_REPLACER_REF_PERIOD,
    });

    // Add frames 1 and 2 to the replacer.
    replacer.touch(1).unwrap();
    replacer.touch(2).unwrap();
    replacer.touch(1).unwrap();
    replacer.touch(1).unwrap();
    replacer.touch(2).unwrap();
    replacer.touch(1).unwrap();
    assert_eq!(2, replacer.size());

    // Cannot evict since reference period hasn't elapsed.
    assert_eq!(None, replacer.peek());

    // Remove frame 1 directly.
    replacer.remove(1).unwrap();
    assert_eq!(1, replacer.size());

    // Pin frame 2 and ensure it is not evictable.
    replacer.pin(2).unwrap();
    assert_eq!(0, replacer.size());
    assert_eq!(replacer.remove(2), Err(EvictError::PinnedFrameRemoval(2)));
    assert_eq!(0, replacer.size());

    // Unpin frame 2 and evict.
    replacer.unpin(2).unwrap();
    assert_eq!(1, replacer.size());
    assert_eq!(None, replacer.peek());
    replacer.remove(2).unwrap();
    assert_eq!(0, replacer.size());
}

#[test]
fn pin_unknown_frame_is_an_error() {
    let mut replacer = LruKReplacer::new(4, 2);
    assert_eq!(replacer.pin(9), Err(EvictError::InvalidFrameId(9)));
    assert_eq!(replacer.remove(9), Err(EvictError::InvalidFrameId(9)));
    assert_eq!(0, replacer.size());
}

#[test]
fn unpin_enters_unknown_frames() {
    // An unpin of a frame the replacer has no record of is the frame's
    // entry point: it enters evictable, as a first touch would.
    let mut replacer = LruKReplacer::new(2, 2);
    replacer.unpin(5).unwrap();
    assert_eq!(1, replacer.size());
    replacer.unpin(5).unwrap(); // already evictable: no-op
    assert_eq!(1, replacer.size());
    replacer.unpin(6).unwrap();
    assert_eq!(2, replacer.size());
    // The replacer is full: a third frame cannot enter this way either.
    assert_eq!(replacer.unpin(7), Err(EvictError::FrameReplacerFull));
    // Both entered frames have short histories; the one entered first has
    // the older initial access and is evicted first.
    assert_eq!(Some(5), replacer.evict());
    assert_eq!(Some(6), replacer.evict());
    assert_eq!(None, replacer.evict());
}

#[test]
fn pin_unpin_restores_evictability() {
    let mut replacer = LruKReplacer::new(4, 2);
    replacer.touch_at(1, 100).unwrap();
    replacer.touch_at(2, 200).unwrap();
    assert_eq!(2, replacer.size());

    replacer.pin(1).unwrap();
    assert_eq!(1, replacer.size());
    replacer.unpin(1).unwrap();
    assert_eq!(2, replacer.size());

    // Repeated unpin is a no-op.
    replacer.unpin(1).unwrap();
    assert_eq!(2, replacer.size());

    // The history was kept across the pin: frame 1 still ranks by its
    // earlier oldest access and is the victim (it is the older frame).
    assert_eq!(Some(1), replacer.peek_at(300));
}

#[test]
fn short_history_has_infinite_distance() {
    // With k = 2, a frame touched once loses the contest to stay cached
    // against any frame with two uncorrelated touches, until it accumulates
    // a second touch of its own.
    let mut replacer = LruKReplacer::new(7, 2);
    replacer.touch_at(2, 10).unwrap();
    replacer.touch_at(2, 20).unwrap(); // frame 2: full history [10, 20]
    replacer.touch_at(1, 100).unwrap(); // frame 1: single access, "infinite" distance
    assert_eq!(Some(1), replacer.peek_at(101));
    assert_eq!(Some(1), replacer.evict_at(102));

    // Once the frame has a second uncorrelated touch, true distances rule:
    // frame 2's oldest access (10) is older than frame 1's (100).
    replacer.touch_at(1, 103).unwrap();
    replacer.touch_at(1, 110).unwrap(); // frame 1: full history [103, 110]
    assert_eq!(Some(2), replacer.peek_at(120));
}

#[test]
fn infinite_distances_rank_by_oldest_access() {
    // Among frames with short histories, the sentinel distance still favors
    // the one whose single access is older.
    let mut replacer = LruKReplacer::new(7, 2);
    replacer.touch_at(3, 50).unwrap();
    replacer.touch_at(1, 100).unwrap();
    assert_eq!(Some(3), replacer.evict_at(200));
    assert_eq!(Some(1), replacer.evict_at(201));
    assert_eq!(None, replacer.evict_at(202));
}

#[test]
fn correlated_touches_count_as_one_reference() {
    // Two touches within the reference period leave one history entry; two
    // touches spaced beyond it leave two.  Frame 1's two touches are
    // correlated, so its history stays short ("infinite" distance) and it is
    // preferred for eviction over frame 2, whose two touches both counted.
    let mut replacer =
        LruKReplacer::with_config(LruKConfig { capacity: 7, k: 2, ref_period: 100 });
    replacer.touch_at(1, 1000).unwrap();
    replacer.touch_at(1, 1050).unwrap(); // within 100: correlated
    replacer.touch_at(2, 1200).unwrap();
    replacer.touch_at(2, 1500).unwrap(); // beyond 100: two history entries
    assert_eq!(2, replacer.size());

    // Evaluate well past the guard period for both frames.
    assert_eq!(Some(1), replacer.peek_at(1700));

    // A third, uncorrelated touch of frame 1 completes its history: its
    // oldest counted access is still the first one (1000), since the
    // correlated touch at 1050 never entered the history.  That oldest
    // access predates frame 2's (1200), so frame 1 stays the victim — now by
    // a true distance rather than the sentinel.
    replacer.touch_at(1, 1800).unwrap();
    assert_eq!(Some(1), replacer.evict_at(2000));
    assert_eq!(Some(2), replacer.evict_at(2001));
}

#[test]
fn ref_period_guards_recent_frames() {
    // A frame accessed within the reference period of the evaluation time is
    // not an eviction candidate, and becomes one as soon as the period has
    // elapsed.
    let mut replacer =
        LruKReplacer::with_config(LruKConfig { capacity: 7, k: 2, ref_period: 100 });
    replacer.touch_at(1, 1000).unwrap();
    assert_eq!(1, replacer.size());
    assert_eq!(None, replacer.peek_at(1050));
    assert_eq!(None, replacer.evict_at(1100)); // exactly at the boundary: still guarded
    assert_eq!(1, replacer.size());
    assert_eq!(Some(1), replacer.evict_at(1101));
    assert_eq!(0, replacer.size());
}

#[test]
fn touch_at_capacity_spares_tracked_frames() {
    // The capacity bounds how many frames are tracked, pinned ones included;
    // a tracked frame may always be touched again.
    let mut replacer = LruKReplacer::new(2, 2);
    replacer.touch_at(1, 10).unwrap();
    replacer.touch_at(2, 20).unwrap();
    replacer.pin(1).unwrap();
    assert_eq!(replacer.touch_at(3, 30), Err(EvictError::FrameReplacerFull));
    replacer.touch_at(1, 40).unwrap();
    assert_eq!(1, replacer.size());
}
