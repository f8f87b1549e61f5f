use taterboard::ledger::TateredMessage;
use taterboard::maps::{CountMap, MsgMap};
use taterboard::store::CommunityStore;
use taterboard::updates::{StatusKind, Updates, SAVE_EVERY_SECS, UPDATE_EVERY_SECS};

fn store_with_two_communities() -> CommunityStore {
    let mut store = CommunityStore::new();
    let a = store.get_or_create(1);
    store.communities[a].1.taters_given = CountMap { entries: vec![(10, 3), (11, 4)] };
    store.communities[a].1.tatered_messages = MsgMap {
        entries: vec![(100, TateredMessage { sender: 10, count: 6, pin_id: None })],
    };
    let b = store.get_or_create(2);
    store.communities[b].1.taters_given = CountMap { entries: vec![(12, 5)] };
    store.communities[b].1.tatered_messages = MsgMap {
        entries: vec![
            (200, TateredMessage { sender: 12, count: 9, pin_id: None }),
            (201, TateredMessage { sender: 12, count: 2, pin_id: None }),
        ],
    };
    store
}

#[test]
fn get_or_create_is_lazy_and_stable() {
    let mut store = CommunityStore::new();
    let i = store.get_or_create(42);
    assert_eq!(store.len(), 1);
    assert_eq!(store.id_at(i), 42);
    assert_eq!(store.at(i).config.threshold, 5);
    // Touching the same community again finds the same slot.
    let j = store.get_or_create(42);
    assert_eq!(i, j);
    assert_eq!(store.len(), 1);
    // A different community gets its own slot.
    let k = store.get_or_create(43);
    assert_ne!(i, k);
    assert_eq!(store.len(), 2);
}

#[test]
fn aggregate_statistics_sum_over_communities() {
    let store = store_with_two_communities();
    assert_eq!(store.total_given(), 12);
    assert_eq!(store.total_messages(), 3);
    assert_eq!(store.max_single_count(), 9);
    assert_eq!(store.len(), 2);
}

#[test]
fn saves_fire_on_the_interval() {
    let mut updates = Updates::new(1000);
    let store = CommunityStore::new();
    let r = updates.check_updates(1000 + SAVE_EVERY_SECS - 1, &store);
    assert!(!r.save_needed);
    let r = updates.check_updates(1000 + SAVE_EVERY_SECS, &store);
    assert!(r.save_needed);
    assert_eq!(updates.last_save, 1000 + SAVE_EVERY_SECS);
    // The timer was reset: the next check is quiet again.
    let r = updates.check_updates(1000 + SAVE_EVERY_SECS + 1, &store);
    assert!(!r.save_needed);
}

#[test]
fn status_rotation_cycles_through_the_statistics() {
    let store = store_with_two_communities();
    let mut updates = Updates::new(0);
    // No status was ever set, so the first check publishes one at once.
    let r = updates.check_updates(0, &store);
    let (kind, text) = r.status.unwrap();
    assert_eq!(kind, StatusKind::Playing);
    assert_eq!(text, "with the 12 potatoes given");
    // Before the interval elapses nothing rotates.
    let r = updates.check_updates(10, &store);
    assert!(r.status.is_none());
    // Each interval advances the rotation.
    let mut now = 0;
    let mut seen = Vec::new();
    for _ in 0..4 {
        now += UPDATE_EVERY_SECS;
        let r = updates.check_updates(now, &store);
        seen.push(r.status.unwrap());
    }
    assert_eq!(seen[0].0, StatusKind::Playing);
    assert_eq!(seen[0].1, "in 2 servers");
    assert_eq!(seen[1].0, StatusKind::Listening);
    assert_eq!(seen[1].1, "to 3 potatoed messages");
    assert_eq!(seen[2].0, StatusKind::Competing);
    assert_eq!(seen[2].1, "the record 9 potatoes on one message");
    // The rotation wraps back to the first statistic.
    assert_eq!(seen[3].0, StatusKind::Playing);
    assert_eq!(seen[3].1, "with the 12 potatoes given");
}
