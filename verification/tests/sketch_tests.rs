use berbalang::sketch::CountMinSketch;

#[test]
fn query_never_underestimates_the_insert_count() {
    let mut sk = CountMinSketch::new(64);
    for _ in 0..5 {
        sk.insert(0xdead_beef);
    }
    assert!(sk.query(0xdead_beef) >= 5);
}

#[test]
fn repeated_inserts_never_decrease_the_estimate() {
    let mut sk = CountMinSketch::new(32);
    let mut last = sk.query(42);
    for i in 0..100u64 {
        sk.insert(i % 7);
        let now = sk.query(42);
        assert!(now >= last);
        last = now;
    }
}

#[test]
fn fresh_sketch_reports_zero() {
    let sk = CountMinSketch::new(16);
    assert_eq!(sk.query(1), 0);
    assert_eq!(sk.query(0xffff_ffff_ffff_ffff), 0);
}

#[test]
fn insert_all_counts_every_address() {
    let mut sk = CountMinSketch::new(64);
    sk.insert_all(&vec![1, 2, 1, 3, 1]);
    assert!(sk.query(1) >= 3);
    assert!(sk.query(2) >= 1);
    assert!(sk.query(3) >= 1);
}
