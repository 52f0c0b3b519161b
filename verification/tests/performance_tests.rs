use savitri_masternode::performance::BatchProcessor;
use savitri_masternode::performance::RateLimiter;
use savitri_masternode::performance::TransactionBloomFilter;
use savitri_masternode::performance::TransactionLRUCache;

#[test]
fn the_least_recently_used_value_is_dropped() {
    let mut cache: TransactionLRUCache<u32> = TransactionLRUCache::new(2);
    cache.insert([1; 32], 10);
    cache.insert([2; 32], 20);
    assert_eq!(cache.get(&[1; 32]), Some(&10));
    cache.insert([3; 32], 30);
    assert!(cache.contains(&[1; 32]));
    assert!(!cache.contains(&[2; 32]));
    assert_eq!(cache.get(&[2; 32]), None);
    assert_eq!(cache.len(), 2);
    let stats = cache.get_stats();
    assert_eq!((stats.hits, stats.misses, stats.evictions, stats.insertions), (1, 1, 1, 3));
}

#[test]
fn a_known_key_is_replaced_without_a_loss() {
    let mut cache: TransactionLRUCache<u32> = TransactionLRUCache::new(2);
    cache.insert([1; 32], 10);
    cache.insert([2; 32], 20);
    cache.insert([1; 32], 11);
    assert_eq!(cache.len(), 2);
    assert_eq!(cache.get_stats().evictions, 0);
    assert_eq!(cache.remove(&[1; 32]), Some(11));
    assert_eq!(cache.remove(&[1; 32]), None);
    cache.clear();
    assert!(cache.is_empty());
    assert_eq!(cache.get_stats().insertions, 3);
}

#[test]
fn a_cache_without_room_holds_one_value() {
    let mut cache: TransactionLRUCache<u32> = TransactionLRUCache::new(0);
    cache.insert([1; 32], 10);
    assert_eq!(cache.len(), 1);
    cache.insert([2; 32], 20);
    assert_eq!(cache.len(), 1);
    assert_eq!(cache.get(&[2; 32]), Some(&20));
}

#[test]
fn the_filter_never_denies_what_was_put_in() {
    let mut filter = TransactionBloomFilter::with_dimensions(64, 3);
    assert!(!filter.might_contain(&[5; 32]));
    filter.insert(&[5; 32]);
    assert!(filter.might_contain(&[5; 32]));
    assert!(!filter.might_contain(&[6; 32]));
    for k in 0..40u8 {
        filter.insert(&[k; 32]);
    }
    for k in 0..40u8 {
        assert!(filter.might_contain(&[k; 32]));
    }
    assert_eq!(filter.count(), 41);
    filter.clear();
    assert_eq!(filter.count(), 0);
    assert!(!filter.might_contain(&[5; 32]));
}

#[test]
fn batches_are_mapped_and_counted() {
    let mut processor = BatchProcessor::new(10, 500);
    assert_eq!(processor.batch_size(), 10);
    let out = processor.process_batch(vec![1u32, 2, 3], |x| *x * 2);
    assert_eq!(out, vec![2, 4, 6]);
    assert_eq!(processor.get_stats().batches_processed, 1);
    assert_eq!(processor.get_stats().items_processed, 3);
}

#[test]
fn the_average_time_is_kept_in_whole_microseconds() {
    let mut processor = BatchProcessor::new(10, 500);
    processor.record_batch(1, 10);
    processor.record_batch(1, 15);
    assert_eq!(processor.get_stats().avg_batch_time_us, 12);
    assert_eq!(processor.get_stats().max_batch_time_us, 15);
    processor.record_batch(1, 0);
    assert_eq!(processor.get_stats().avg_batch_time_us, 8);
    assert_eq!(processor.get_stats().max_batch_time_us, 15);
}

#[test]
fn no_more_requests_than_allowed_in_a_window() {
    let mut limiter = RateLimiter::new(2);
    assert!(limiter.check_at(0));
    assert!(limiter.check_at(5));
    assert!(!limiter.check_at(1_000_000_000));
    assert_eq!(limiter.current_count_at(1_000_000_000), 2);
    assert_eq!(limiter.current_count_at(1_000_000_001), 1);
    assert_eq!(limiter.current_count_at(1_000_000_006), 0);
    assert!(limiter.check_at(1_000_000_001));
    assert!(!limiter.check_at(1_000_000_005));
    assert!(limiter.check_at(1_000_000_006));
}

#[test]
fn what_left_the_window_is_not_counted() {
    let mut limiter = RateLimiter::new(3);
    assert_eq!(limiter.current_count_at(0), 0);
    for t in [0u64, 400_000_000, 800_000_000] {
        assert!(limiter.check_at(t));
    }
    assert_eq!(limiter.current_count_at(900_000_000), 3);
    assert_eq!(limiter.current_count_at(1_500_000_000), 1);
    assert_eq!(limiter.current_count_at(9_000_000_000), 0);
}

#[test]
fn a_long_run_keeps_to_the_rate() {
    let mut limiter = RateLimiter::new(3);
    let mut let_in: Vec<u64> = Vec::new();
    for step in 0..200u64 {
        let now = step * 70_000_000;
        if limiter.check_at(now) {
            let_in.push(now);
        }
    }
    assert!(let_in.len() > 3);
    for w in let_in.windows(4) {
        assert!(w[3] - w[0] > 1_000_000_000);
    }
}

#[test]
fn the_latest_value_of_a_key_is_found() {
    let mut cache: TransactionLRUCache<u32> = TransactionLRUCache::new(3);
    cache.insert([1; 32], 10);
    cache.insert([2; 32], 20);
    cache.insert([1; 32], 11);
    cache.insert([3; 32], 30);
    assert_eq!(cache.get(&[1; 32]), Some(&11));
    assert_eq!(cache.get(&[2; 32]), Some(&20));
    let _ = cache.remove(&[1; 32]);
    assert_eq!(cache.get(&[1; 32]), None);
}

#[test]
fn all_batches_are_counted() {
    let mut processor = BatchProcessor::new(10, 500);
    for (items, micros) in [(4usize, 7u64), (0, 3), (9, 20)] {
        processor.record_batch(items, micros);
    }
    let stats = processor.get_stats();
    assert_eq!((stats.batches_processed, stats.items_processed), (3, 13));
    assert_eq!(stats.max_batch_time_us, 20);
}

#[test]
fn the_clock_limits_too() {
    let mut limiter = RateLimiter::new(1);
    assert!(limiter.check());
    assert_eq!(limiter.current_count(), 1);
    let mut closed = RateLimiter::new(0);
    assert!(!closed.check());
}
