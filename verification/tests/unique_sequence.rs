use evict::UniqueSequence;

#[test]
fn basic_inc() {
    let mut seq = UniqueSequence::new();
    let mut prev = -1i64;
    for _ in 0..1000 {
        let timestamp = seq.next().expect("Failed to get timestamp");
        assert_ne!(prev, timestamp);
        assert!(timestamp > prev);
        assert_eq!(timestamp - prev, 1);
        prev = timestamp;
    }
}

#[test]
fn interleaved_observers_see_increasing_tokens() {
    // Two observers drawing from one shared source, in any interleaving,
    // each see a strictly increasing sequence of tokens, and no token ever
    // repeats across the two.
    let mut seq = UniqueSequence::new();
    let mut first: Vec<i64> = Vec::new();
    let mut second: Vec<i64> = Vec::new();
    for round in 0..100 {
        let t = seq.next().expect("Failed to get timestamp");
        if round % 3 == 0 {
            first.push(t);
        } else {
            second.push(t);
        }
    }
    for w in first.windows(2) {
        assert!(w[0] < w[1]);
    }
    for w in second.windows(2) {
        assert!(w[0] < w[1]);
    }
    for a in &first {
        assert!(!second.contains(a));
    }
}
