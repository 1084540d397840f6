use multi_buy_service::cache::{ExpiringCounterCache, ExpiryStrategy};
use multi_buy_service::entry::CacheEntry;

const WINDOW: u128 = 1_000;

fn swept_cache() -> ExpiringCounterCache {
    ExpiringCounterCache::new(WINDOW, ExpiryStrategy::Sweep)
}

fn deferred_cache() -> ExpiringCounterCache {
    ExpiringCounterCache::new(WINDOW, ExpiryStrategy::Deferred)
}

#[test]
fn new_cache_is_empty() {
    let cache = swept_cache();
    assert_eq!(cache.size(), 0);
    assert_eq!(cache.ttl(), WINDOW);
    assert_eq!(cache.strategy(), ExpiryStrategy::Sweep);
    assert_eq!(cache.count("anything"), 0);
}

#[test]
fn three_increments_of_one_key_count_one_two_three() {
    let mut cache = swept_cache();
    assert_eq!(cache.increment("test", 10).count, 1);
    assert_eq!(cache.increment("test", 11).count, 2);
    assert_eq!(cache.increment("test", 12).count, 3);
}

#[test]
fn two_keys_count_apart() {
    let mut cache = swept_cache();
    assert_eq!(cache.increment("a", 10).count, 1);
    assert_eq!(cache.increment("b", 11).count, 1);
    assert_eq!(cache.increment("a", 12).count, 2);
    assert_eq!(cache.count("a"), 2);
    assert_eq!(cache.count("b"), 1);
}

#[test]
fn count_restarts_after_the_window() {
    let mut cache = swept_cache();
    assert_eq!(cache.increment("k", 5_000).count, 1);
    assert_eq!(cache.sweep(5_000 + WINDOW + 1), 1);
    assert_eq!(cache.increment("k", 5_000 + WINDOW + 2).count, 1);
}

#[test]
fn nth_increment_returns_n() {
    let mut cache = swept_cache();
    for n in 1..=500u32 {
        assert_eq!(cache.increment("fresh", 100 + n as u128).count, n);
    }
    assert_eq!(cache.size(), 1);
}

#[test]
fn nth_increment_returns_n_between_other_keys() {
    let mut cache = swept_cache();
    for n in 1..=50u32 {
        assert_eq!(cache.increment("mine", n as u128).count, n);
        assert_eq!(cache.increment(&format!("other{}", n), n as u128).count, 1);
    }
    assert_eq!(cache.size(), 51);
}

#[test]
fn work_on_one_key_leaves_the_other() {
    let mut cache = swept_cache();
    cache.increment("k2", 1);
    cache.increment("k2", 2);
    for now in 3..20u128 {
        cache.increment("k1", now);
        assert_eq!(cache.count("k2"), 2);
    }
    assert!(cache.expire("k1"));
    assert_eq!(cache.count("k2"), 2);
    assert_eq!(cache.increment("k2", 30).count, 3);
}

#[test]
fn increment_is_not_idempotent() {
    let mut cache = swept_cache();
    let first = cache.increment("k", 1);
    let second = cache.increment("k", 1);
    assert_ne!(first, second);
    assert!(second.count > first.count);
    assert_eq!(second.count, first.count + 1);
}

#[test]
fn get_counts_like_increment() {
    let mut cache = swept_cache();
    assert_eq!(cache.get("k", 1).count, 1);
    assert_eq!(cache.get("k", 2).count, 2);
    assert_eq!(cache.increment("k", 3).count, 3);
    assert_eq!(cache.get("k", 4).count, 4);
    let mut other = swept_cache();
    assert_eq!(other.get("k", 1), swept_cache().increment("k", 1));
}

#[test]
fn count_reads_without_touching() {
    let mut cache = swept_cache();
    cache.increment("k", 1);
    assert_eq!(cache.count("k"), 1);
    assert_eq!(cache.count("k"), 1);
    assert_eq!(cache.count("absent"), 0);
    assert_eq!(cache.size(), 1);
}

#[test]
fn first_touch_says_inserted() {
    let mut cache = swept_cache();
    assert!(cache.increment("k", 1).inserted);
    assert!(!cache.increment("k", 2).inserted);
    assert!(cache.increment("other", 3).inserted);
}

#[test]
fn swept_cache_asks_for_no_timer() {
    let mut cache = swept_cache();
    assert_eq!(cache.increment("k", 1).expire_after, None);
    assert_eq!(cache.increment("k", 2).expire_after, None);
}

#[test]
fn deferred_cache_asks_for_a_timer_once_per_entry() {
    let mut cache = deferred_cache();
    assert_eq!(cache.increment("k", 1).expire_after, Some(WINDOW));
    assert_eq!(cache.increment("k", 2).expire_after, None);
    assert_eq!(cache.get("k", 3).expire_after, None);
    assert_eq!(cache.increment("other", 4).expire_after, Some(WINDOW));
}

#[test]
fn expiry_removes_whatever_the_count() {
    let mut cache = deferred_cache();
    cache.increment("k", 1);
    cache.increment("k", 900);
    cache.increment("k", 999);
    assert!(cache.expire("k"));
    assert_eq!(cache.size(), 0);
    assert_eq!(cache.count("k"), 0);
    let again = cache.increment("k", 1_001);
    assert_eq!(again.count, 1);
    assert!(again.inserted);
    assert_eq!(again.expire_after, Some(WINDOW));
}

#[test]
fn expiry_of_an_absent_key_changes_nothing() {
    let mut cache = deferred_cache();
    cache.increment("k", 1);
    assert!(!cache.expire("other"));
    assert_eq!(cache.size(), 1);
    assert_eq!(cache.count("k"), 1);
}

#[test]
fn expiry_takes_one_key_out_of_many() {
    let mut cache = deferred_cache();
    for name in ["a", "b", "c", "d", "e"] {
        cache.increment(name, 1);
        cache.increment(name, 2);
    }
    assert!(cache.expire("c"));
    assert!(cache.expire("a"));
    assert!(cache.expire("e"));
    assert!(!cache.expire("c"));
    assert_eq!(cache.size(), 2);
    assert_eq!(cache.count("b"), 2);
    assert_eq!(cache.count("d"), 2);
    assert_eq!(cache.count("a"), 0);
    assert_eq!(cache.sweep(2 + WINDOW), 2);
    assert_eq!(cache.size(), 0);
}

#[test]
fn sweep_removes_at_the_end_of_the_window() {
    let mut cache = swept_cache();
    cache.increment("k", 5_000);
    assert_eq!(cache.sweep(5_000 + WINDOW - 1), 0);
    assert_eq!(cache.count("k"), 1);
    assert_eq!(cache.sweep(5_000 + WINDOW), 1);
    assert_eq!(cache.count("k"), 0);
    assert_eq!(cache.size(), 0);
}

#[test]
fn sweep_keeps_the_live_and_their_counts() {
    let mut cache = swept_cache();
    cache.increment("old", 100);
    cache.increment("old", 200);
    cache.increment("new", 900);
    cache.increment("new", 950);
    cache.increment("new", 1_000);
    assert_eq!(cache.sweep(1_200), 1);
    assert_eq!(cache.size(), 1);
    assert_eq!(cache.count("old"), 0);
    assert_eq!(cache.count("new"), 3);
    assert_eq!(cache.increment("new", 1_201).count, 4);
    assert_eq!(cache.increment("old", 1_202).count, 1);
}

#[test]
fn touch_moves_the_window() {
    let mut cache = swept_cache();
    cache.increment("k", 0);
    cache.increment("k", 900);
    assert_eq!(cache.sweep(1_000), 0);
    assert_eq!(cache.sweep(1_899), 0);
    assert_eq!(cache.count("k"), 2);
    assert_eq!(cache.sweep(1_900), 1);
    assert_eq!(cache.count("k"), 0);
}

#[test]
fn sweep_before_one_window_has_passed_keeps_all() {
    let mut cache = swept_cache();
    cache.increment("a", 0);
    cache.increment("b", 3);
    assert_eq!(cache.sweep(0), 0);
    assert_eq!(cache.sweep(WINDOW - 1), 0);
    assert_eq!(cache.size(), 2);
}

#[test]
fn sweep_with_the_largest_times_does_not_overflow() {
    let mut cache = ExpiringCounterCache::new(u128::MAX, ExpiryStrategy::Sweep);
    cache.increment("late", u128::MAX);
    cache.increment("early", 0);
    cache.increment("one", 1);
    assert_eq!(cache.sweep(u128::MAX), 1);
    assert_eq!(cache.count("late"), 1);
    assert_eq!(cache.count("one"), 1);
    assert_eq!(cache.count("early"), 0);
}

#[test]
fn sweep_with_no_window_removes_what_is_not_in_the_future() {
    let mut cache = ExpiringCounterCache::new(0, ExpiryStrategy::Sweep);
    cache.increment("past", 9);
    cache.increment("now", 10);
    cache.increment("ahead", 11);
    assert_eq!(cache.sweep(10), 2);
    assert_eq!(cache.count("ahead"), 1);
}

#[test]
fn sweep_of_an_empty_cache_removes_nothing() {
    let mut cache = swept_cache();
    assert_eq!(cache.sweep(123_456), 0);
    assert_eq!(cache.size(), 0);
}

#[test]
fn size_counts_distinct_keys_and_falls_to_zero() {
    let mut cache = swept_cache();
    let many = 200usize;
    for i in 0..many {
        cache.increment(&format!("key-{}", i), 7);
        assert_eq!(cache.size(), i + 1);
    }
    for i in 0..many {
        cache.increment(&format!("key-{}", i), 8);
    }
    assert_eq!(cache.size(), many);
    assert_eq!(cache.sweep(8 + WINDOW), many);
    assert_eq!(cache.size(), 0);
    assert_eq!(cache.increment("key-0", 9 + WINDOW).count, 1);
}

#[test]
fn the_empty_key_is_a_key() {
    let mut cache = swept_cache();
    assert_eq!(cache.increment("", 1).count, 1);
    assert_eq!(cache.increment("", 2).count, 2);
    assert_eq!(cache.increment(" ", 3).count, 1);
    assert_eq!(cache.size(), 2);
    assert!(cache.expire(""));
    assert_eq!(cache.size(), 1);
}

#[test]
fn keys_are_told_apart_by_every_character() {
    let mut cache = swept_cache();
    assert_eq!(cache.increment("key", 1).count, 1);
    assert_eq!(cache.increment("Key", 1).count, 1);
    assert_eq!(cache.increment("key ", 1).count, 1);
    assert_eq!(cache.increment("ke\u{301}y", 1).count, 1);
    assert_eq!(cache.increment("key", 1).count, 2);
    assert_eq!(cache.size(), 4);
}

#[test]
fn entry_is_live_until_a_window_has_passed() {
    let entry = CacheEntry { count: 1, last_touch: 5_000 };
    assert!(entry.live_at(0, 1_000));
    assert!(entry.live_at(5_000, 1_000));
    assert!(entry.live_at(5_999, 1_000));
    assert!(!entry.live_at(6_000, 1_000));
    assert!(!entry.live_at(6_001, 1_000));
    assert!(!entry.live_at(5_000, 0));
    assert!(entry.live_at(4_999, 0));
    let last = CacheEntry { count: 1, last_touch: u128::MAX };
    assert!(last.live_at(u128::MAX, 1));
    assert!(!last.live_at(u128::MAX, 0));
}

#[test]
fn interleaved_touches_lose_no_update() {
    let mut cache = swept_cache();
    let callers = 8u32;
    let rounds = 250u32;
    for round in 0..rounds {
        for caller in 0..callers {
            let got = cache.increment("shared", (round * callers + caller) as u128).count;
            assert_eq!(got, round * callers + caller + 1);
        }
    }
    assert_eq!(cache.count("shared"), callers * rounds);
}
