use evict::{EvictError, LruReplacer};

#[test]
fn lru_basic_ops() {
    let mut replacer = LruReplacer::new(20);
    assert_eq!(replacer.capacity(), 20);

    // Scenario: unpin six elements, this updates eviction candidate list.
    replacer.unpin(1).unwrap();
    replacer.unpin(2).unwrap();
    replacer.unpin(3).unwrap();
    replacer.unpin(4).unwrap();
    replacer.unpin(5).unwrap();
    replacer.unpin(6).unwrap();
    replacer.unpin(1).unwrap(); // Unpin 1 again. It should have no effect.
    assert_eq!(6, replacer.size());

    // Scenario: get three victims from the lru.
    assert_eq!(replacer.evict(), Some(1));
    assert_eq!(replacer.evict(), Some(2));
    assert_eq!(replacer.evict(), Some(3));

    // Scenario: pin elements in the replacer.
    // Note that 3 has already been victimized, so pinning 3 should have no effect.
    replacer.pin(3).expect("cannot pin 3");
    replacer.pin(4).expect("cannot pin 4");
    assert_eq!(2, replacer.size());

    // Scenario: unpin 4. We expect that the reference bit of 4 will be set to 1.
    replacer.unpin(4).expect("cannot unpin 4");

    // Scenario: continue looking for victims. We expect these victims.
    assert_eq!(replacer.evict(), Some(5));
    assert_eq!(replacer.evict(), Some(6));
    assert_eq!(replacer.evict(), Some(4));
}

#[test]
fn touch() {
    {
        let mut replacer = LruReplacer::new(20);

        // Scenario: unpin elements, i.e. add them to the replacer.
        replacer.unpin(1).unwrap();
        replacer.unpin(2).unwrap();
        replacer.unpin(3).unwrap();
        assert_eq!(3, replacer.size());

        replacer.unpin(1).expect("cannot unpin 1"); // Unpin 1 again. It should have no effect.
        assert_eq!(3, replacer.size());
        assert_eq!(Some(1), replacer.peek());

        // However, if we access 1, it should be moved to the end of the queue.
        replacer.touch(1).unwrap();
        assert_eq!(Some(2), replacer.peek());

        assert_eq!(replacer.evict(), Some(2));
        assert_eq!(replacer.evict(), Some(3));
        assert_eq!(replacer.evict(), Some(1));
    }

    {
        // The first touch should add the frame to the list of non-pinned frames.
        let mut replacer = LruReplacer::new(20);

        // Scenario: unpin elements by touching.
        replacer.touch(1).unwrap();
        replacer.touch(2).unwrap();
        replacer.touch(3).unwrap();
        assert_eq!(3, replacer.size());

        replacer.unpin(1).expect("cannot unpin 1"); // Unpin 1 again. It should have no effect.
        assert_eq!(3, replacer.size());
        assert_eq!(Some(1), replacer.peek());

        // However, if we access 1, it should be moved to the end of the queue.
        replacer.touch(1).unwrap();
        assert_eq!(Some(2), replacer.peek());

        assert_eq!(replacer.evict(), Some(2));
        assert_eq!(replacer.evict(), Some(3));
        assert_eq!(replacer.evict(), Some(1));
    }
}

#[test]
fn remove() {
    let mut replacer = LruReplacer::new(20);

    // Scenario: unpin elements, i.e. add them to the replacer.
    replacer.unpin(1).unwrap();
    replacer.unpin(2).unwrap();
    replacer.unpin(3).unwrap();
    assert_eq!(3, replacer.size());

    // Scenario: remove 2 from the replacer.
    replacer.remove(2).unwrap();
    assert_eq!(2, replacer.size());
    assert_eq!(Some(1), replacer.peek());

    // Scenario: remove 1 from the replacer.
    replacer.remove(1).unwrap();
    assert_eq!(1, replacer.size());
    assert_eq!(Some(3), replacer.peek());

    // Scenario: pin 3 and then try removing it from the replacer.
    replacer.pin(3).unwrap();
    assert_eq!(replacer.remove(3), Err(EvictError::PinnedFrameRemoval(3)));
}

#[test]
fn lru_full_replacer_rejects_new_frames() {
    let mut replacer = LruReplacer::new(2);
    replacer.touch(1).unwrap();
    replacer.touch(2).unwrap();
    assert_eq!(replacer.touch(3), Err(EvictError::FrameReplacerFull));
    assert_eq!(replacer.unpin(3), Err(EvictError::FrameReplacerFull));
    assert_eq!(2, replacer.size());
    // A frame already present may still be touched at capacity.
    replacer.touch(1).unwrap();
    assert_eq!(2, replacer.size());
}

#[test]
fn disjoint_unpins_are_all_counted() {
    // Entering disjoint sets of frames, in whatever interleaving, loses and
    // duplicates nothing: the size ends up as the total number of frames.
    let n: u64 = 10;
    let k: u64 = 20;
    let mut replacer = LruReplacer::new((n * k) as usize);
    // Interleave the "callers": frame ids i * k + j unpinned round-robin.
    for j in 0..k {
        for i in 0..n {
            replacer.unpin(i * k + j).unwrap();
        }
    }
    assert_eq!(replacer.size(), (n * k) as usize);
}
