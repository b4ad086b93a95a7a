use evict::UniqueTimestampGenerator;

#[test]
fn test_uniq_timestamp_nanos() {
    let mut seq = UniqueTimestampGenerator::new();
    let mut prev = 0i64;
    for _ in 0..10 {
        let timestamp = seq.generate();
        assert_ne!(prev, timestamp);
        prev = timestamp;
    }
}

#[test]
fn timestamps_strictly_increase() {
    let mut seq = UniqueTimestampGenerator::new();
    let mut prev = 0i64;
    for _ in 0..1000 {
        let timestamp = seq.generate();
        assert!(timestamp > prev);
        prev = timestamp;
    }
}
