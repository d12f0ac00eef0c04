//! The deferred-event cache: refills, duplicate suppression, and the
//! drain-everything-due extraction.

use eggmon::cache::EventCache;
use eggmon::records::SubscribeInfo;

fn sub(id: &str, room: &str, est: i64) -> SubscribeInfo {
    SubscribeInfo {
        id: id.to_string(),
        room: room.to_string(),
        users: vec![1],
        est,
        notified: false,
    }
}

#[test]
fn drain_returns_exactly_what_is_due() {
    let mut cache: EventCache<SubscribeInfo> = EventCache::new();
    cache.insert(sub("a", "r1", 100));
    cache.insert(sub("b", "r2", 50));
    cache.insert(sub("c", "r3", 150));
    cache.insert(sub("d", "r4", 100));
    assert_eq!(cache.bucket_count(), 3);

    // Nothing is due before the first trigger time.
    let early = cache.drain_due(49);
    assert!(early.is_empty());
    assert_eq!(cache.bucket_count(), 3);

    // A drain at 100 takes the two early buckets, in time order, and never
    // an event ahead of its trigger.
    let due = cache.drain_due(100);
    let ids: Vec<&str> = due.iter().map(|s| s.id.as_str()).collect();
    assert_eq!(ids, vec!["b", "a", "d"]);
    assert_eq!(cache.bucket_count(), 1);

    // What stayed comes out once its time arrives; nothing is lost and
    // nothing comes twice.
    let rest = cache.drain_due(1000);
    assert_eq!(rest.len(), 1);
    assert_eq!(rest[0].id, "c");
    assert_eq!(cache.bucket_count(), 0);
    assert!(cache.drain_due(1000).is_empty());
}

#[test]
fn refills_do_not_duplicate_events() {
    let mut cache: EventCache<SubscribeInfo> = EventCache::new();
    // Two refills hand over the same subscription (same room, same time),
    // as happens every cache-refresh period.
    cache.refill(vec![sub("a", "r1", 100), sub("b", "r2", 100)]);
    cache.refill(vec![sub("a", "r1", 100), sub("c", "r3", 100)]);
    let due = cache.drain_due(100);
    assert_eq!(due.len(), 3);
    let ids: Vec<&str> = due.iter().map(|s| s.id.as_str()).collect();
    assert_eq!(ids, vec!["a", "b", "c"]);
}

#[test]
fn a_revised_estimate_files_under_a_new_bucket() {
    let mut cache: EventCache<SubscribeInfo> = EventCache::new();
    cache.insert(sub("a", "r1", 100));
    // The same room under a refined estimate is a different bucket.
    cache.insert(sub("a", "r1", 160));
    assert_eq!(cache.bucket_count(), 2);
    let first = cache.drain_due(100);
    assert_eq!(first.len(), 1);
    assert_eq!(first[0].est, 100);
    let second = cache.drain_due(160);
    assert_eq!(second.len(), 1);
    assert_eq!(second[0].est, 160);
}

#[test]
fn clear_empties_the_cache() {
    let mut cache: EventCache<SubscribeInfo> = EventCache::new();
    cache.insert(sub("a", "r1", 100));
    cache.clear();
    assert_eq!(cache.bucket_count(), 0);
    assert!(cache.drain_due(i64::MAX).is_empty());
}
