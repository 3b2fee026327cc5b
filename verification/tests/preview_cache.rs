use frenchetv::preview::{PreviewCache, CAPACITY};

#[test]
fn a_failed_capture_records_an_attempt_and_counts_the_failure() {
    let mut cache = PreviewCache::<u32>::new();
    assert_eq!(cache.failures("tf1"), 0);
    assert!(cache.last_attempt_at("tf1").is_none());

    cache.mark_requested("tf1", 3);
    assert!(cache.in_flight("tf1"));
    // The attempt is recorded even though no frame ever arrived — that is
    // the only thing the scheduler can bench a never-captured channel on.
    assert!(cache.last_attempt_at("tf1").is_some());

    cache.mark_failed("tf1");
    assert!(!cache.in_flight("tf1"));
    assert_eq!(cache.failures("tf1"), 1);
    assert!(cache.last_attempt_at("tf1").is_some());

    cache.mark_requested("tf1", 3);
    cache.mark_failed("tf1");
    assert_eq!(cache.failures("tf1"), 2, "failures accumulate");
}

#[test]
fn in_flight_is_idempotent_and_clearable() {
    let mut cache = PreviewCache::<u32>::new();
    cache.mark_requested("tf1", 3);
    cache.mark_requested("tf1", 3);
    assert_eq!(
        cache.in_flight_count(),
        1,
        "requesting twice is one capture"
    );

    cache.clear_in_flight();
    assert_eq!(cache.in_flight_count(), 0);
    assert!(!cache.in_flight("tf1"));
}

#[test]
fn a_frame_ends_its_capture_and_forgets_failures() {
    let mut cache = PreviewCache::<u32>::new();
    cache.mark_requested("tf1", 1);
    cache.mark_failed("tf1");
    cache.mark_requested("tf1", 2);
    cache.insert("tf1", 11, 4);
    assert!(!cache.in_flight("tf1"));
    assert_eq!(cache.failures("tf1"), 0);
    assert_eq!(cache.peek("tf1"), Some(&11));
    assert_eq!(cache.captured_at("tf1"), Some(4));
    assert_eq!(cache.last_attempt_at("tf1"), Some(2));
    cache.insert("tf1", 12, 5);
    assert_eq!(cache.get("tf1"), Some(12));
    assert_eq!(cache.captured_at("tf1"), Some(5));
    assert_eq!(cache.get("m6"), None);
}

#[test]
fn the_frame_used_longest_ago_goes_first() {
    let mut cache = PreviewCache::<usize>::new();
    for i in 0..CAPACITY {
        cache.insert(&format!("c{i}"), i, i as u64);
    }
    // A look does not count as use; `get` does.
    assert!(cache.peek("c1").is_some());
    assert_eq!(cache.get("c0"), Some(0));
    cache.insert("new", 99, 99);
    assert_eq!(cache.peek("c1"), None, "used longest ago");
    assert_eq!(cache.peek("c0"), Some(&0), "used since");
    assert_eq!(cache.peek("new"), Some(&99));
    assert_eq!((0..CAPACITY).filter(|i| cache.peek(&format!("c{i}")).is_some()).count(), CAPACITY - 1);
    // A frame in place of an older one of its channel costs no other.
    cache.insert("new", 100, 100);
    assert_eq!(cache.peek("c2"), Some(&2));
}
