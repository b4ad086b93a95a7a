use evict::{AccessType, EvictionPolicy, LruKReplacer, LruReplacer};

struct ScanAccess;

impl AccessType for ScanAccess {}

fn fill<P: EvictionPolicy<u64>>(policy: &mut P, ids: &[u64])
where
    P::Error: std::fmt::Debug,
{
    for id in ids {
        policy.touch(*id).unwrap();
    }
}

#[test]
fn policies_share_the_eviction_interface() {
    let mut lru = LruReplacer::new(10);
    fill(&mut lru, &[1, 2, 3]);
    assert_eq!(3, EvictionPolicy::size(&lru));
    assert_eq!(Some(1), EvictionPolicy::evict(&mut lru));

    let mut lru_k = LruKReplacer::new(10, 2);
    fill(&mut lru_k, &[1, 2, 3]);
    assert_eq!(3, EvictionPolicy::size(&lru_k));
    assert_eq!(Some(1), EvictionPolicy::evict(&mut lru_k));
}

#[test]
fn access_type_does_not_alter_the_ranking() {
    let mut replacer = LruReplacer::new(10);
    replacer.touch_with(1, ScanAccess).unwrap();
    replacer.touch(2).unwrap();
    replacer.touch_with(1, ScanAccess).unwrap();
    assert_eq!(Some(2), replacer.peek());

    let mut lru_k = LruKReplacer::new(10, 2);
    lru_k.touch_with(7, ScanAccess).unwrap();
    assert_eq!(1, lru_k.size());
}
