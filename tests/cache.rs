use iggy_core::cache::{caches_usage, clean_cache, evict_to_budget, CacheMemoryTracker, PartitionCache};

fn cache(sizes: &[u64]) -> PartitionCache {
    let mut c = PartitionCache::new();
    for s in sizes {
        c.push_batch(*s);
    }
    c
}

#[test]
fn evict_drops_oldest_batches() {
    let mut c = cache(&[10, 20, 30]);
    assert_eq!(c.current_size(), 60);
    assert_eq!(c.evict_by_size(15), 30);
    assert_eq!(c.current_size(), 30);
    assert_eq!(c.len(), 1);
    assert_eq!(c.evict_by_size(1000), 30);
    assert_eq!(c.len(), 0);
    assert_eq!(c.evict_by_size(0), 0);
}

#[test]
fn usage_within_budget_after_cycle() {
    let mut caches = vec![cache(&[100, 100, 100]), cache(&[50, 50]), cache(&[400])];
    assert_eq!(caches_usage(&caches), 800);
    let after = evict_to_budget(&mut caches, 500);
    assert!(after <= 500);
    assert_eq!(after, caches_usage(&caches));
}

#[test]
fn cycle_frees_at_least_what_is_asked() {
    let mut caches = vec![cache(&[10; 20]), cache(&[5; 4])];
    clean_cache(&mut caches, 30);
    assert!(caches_usage(&caches) <= 220 - 30);
}

#[test]
fn nothing_is_evicted_under_budget() {
    let mut caches = vec![cache(&[1, 2, 3])];
    assert_eq!(evict_to_budget(&mut caches, 6), 6);
    assert_eq!(caches[0].len(), 3);
}

#[test]
fn tracker_decides_what_fits() {
    let tracker = CacheMemoryTracker { limit_bytes: 100, usage_bytes: 90 };
    assert!(tracker.will_fit_into_cache(10));
    assert!(!tracker.will_fit_into_cache(11));
    assert_eq!(tracker.size_to_clean(30), 20);
    assert_eq!(tracker.size_to_clean(5), 0);
    assert_eq!(CacheMemoryTracker::new(7).usage_bytes, 0);
}

#[test]
fn each_cache_gives_up_its_share_times_five() {
    // usage 100, freeing 10: the first cache (size 80) is asked for
    // ceil(80 * 10 / 100) * 5 = 40 bytes, the second (size 20) for 10.
    let mut caches = vec![cache(&[30, 30, 20]), cache(&[5, 5, 10])];
    clean_cache(&mut caches, 10);
    assert_eq!(caches[0].len(), 1);
    assert_eq!(caches[0].current_size(), 20);
    assert_eq!(caches[1].len(), 1);
    assert_eq!(caches[1].current_size(), 10);
}
