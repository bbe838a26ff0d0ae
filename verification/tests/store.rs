use like_and_subscribe::actions::SubscriptionAction;
use like_and_subscribe::known::{KnownChannel, KnownChannels};
use like_and_subscribe::queue::SubscriptionQueue;
use like_and_subscribe::registry::ActiveSubscriptions;

fn channel(id: &str, name: &str, picture: &str) -> KnownChannel {
    KnownChannel {
        channel_id: id.to_string(),
        channel_name: name.to_string(),
        channel_profile_picture: picture.to_string(),
    }
}

#[test]
fn registry_upsert_and_get() {
    let mut subs = ActiveSubscriptions::new();
    assert!(subs.get(&"A".to_string()).is_none());
    subs.add_subscription("A".to_string(), 1_000);
    let row = subs.get(&"A".to_string()).unwrap();
    assert_eq!(row.channel_id, "A");
    assert_eq!(row.expiration, 1_000);
    // an upsert of the same key updates in place
    subs.add_subscription("A".to_string(), 2_000);
    assert_eq!(subs.get(&"A".to_string()).unwrap().expiration, 2_000);
    assert_eq!(subs.get_all_channel_ids().len(), 1);
}

#[test]
fn registry_remove_deletes_only_that_key() {
    let mut subs = ActiveSubscriptions::new();
    subs.add_subscription("A".to_string(), 1);
    subs.add_subscription("B".to_string(), 2);
    subs.remove_subscription("A".to_string());
    assert!(subs.get(&"A".to_string()).is_none());
    assert_eq!(subs.get(&"B".to_string()).unwrap().expiration, 2);
    // removing an absent key is a no-op
    subs.remove_subscription("C".to_string());
    assert_eq!(subs.get_all_channel_ids().len(), 1);
}

#[test]
fn registry_soonest_expiration_is_minimum() {
    let mut subs = ActiveSubscriptions::new();
    assert_eq!(subs.get_soonest_expiration(), None);
    subs.add_subscription("A".to_string(), 500);
    subs.add_subscription("B".to_string(), 100);
    subs.add_subscription("C".to_string(), 900);
    assert_eq!(subs.get_soonest_expiration(), Some(100));
}

#[test]
fn registry_expiring_before_filters_strictly() {
    let mut subs = ActiveSubscriptions::new();
    subs.add_subscription("A".to_string(), 100);
    subs.add_subscription("B".to_string(), 200);
    subs.add_subscription("C".to_string(), 300);
    let expiring = subs.get_expiring(200);
    assert_eq!(expiring.len(), 1);
    assert_eq!(expiring[0].channel_id, "A");
    let expiring = subs.get_expiring(301);
    assert_eq!(expiring.len(), 3);
}

#[test]
fn queue_assigns_ids_and_raises_one_wake_per_batch() {
    let mut queue = SubscriptionQueue::new();
    assert!(!queue.take_wake());
    queue.add_actions(
        vec![
            ("A".to_string(), SubscriptionAction::Subscribe),
            ("B".to_string(), SubscriptionAction::Unsubscribe),
        ],
        7,
    );
    queue.add_actions(vec![("C".to_string(), SubscriptionAction::Refresh)], 8);
    // two batches coalesce into a single wake
    assert!(queue.take_wake());
    assert!(!queue.take_wake());

    let subs = ActiveSubscriptions::new();
    let items = queue.get_pending_actions(&subs);
    assert_eq!(items.len(), 3);
    assert_eq!(items[0].queue_item.channel_id, "A");
    assert_eq!(items[0].queue_item.action, SubscriptionAction::Subscribe);
    assert_eq!(items[0].queue_item.enqueued_at, 7);
    assert_eq!(items[1].queue_item.channel_id, "B");
    assert_eq!(items[2].queue_item.channel_id, "C");
    assert_eq!(items[2].queue_item.enqueued_at, 8);
    assert!(items[0].queue_item.id != items[1].queue_item.id);
    assert!(items[1].queue_item.id != items[2].queue_item.id);
}

#[test]
fn queue_join_carries_registry_row() {
    let mut subs = ActiveSubscriptions::new();
    subs.add_subscription("A".to_string(), 42);
    let mut queue = SubscriptionQueue::new();
    queue.add_actions(
        vec![
            ("A".to_string(), SubscriptionAction::Refresh),
            ("B".to_string(), SubscriptionAction::Refresh),
        ],
        1,
    );
    let items = queue.get_pending_actions(&subs);
    assert_eq!(items.len(), 2);
    let joined = items[0].active_subscription.as_ref().unwrap();
    assert_eq!(joined.channel_id, "A");
    assert_eq!(joined.expiration, 42);
    assert!(items[1].active_subscription.is_none());
}

#[test]
fn queue_process_writes_one_result_and_clears_pending() {
    let subs = ActiveSubscriptions::new();
    let mut queue = SubscriptionQueue::new();
    queue.add_actions(vec![("A".to_string(), SubscriptionAction::Subscribe)], 1);
    let items = queue.get_pending_actions(&subs);
    let id = items[0].queue_item.id;
    assert!(queue.is_pending(id));
    items[0].clone_item().process(&mut queue, Err("boom".to_string()), 9);
    assert!(!queue.is_pending(id));
    assert_eq!(queue.result_count(), 1);
    let row = queue.get_result(id).unwrap();
    assert_eq!(row.error.as_deref(), Some("boom"));
    assert_eq!(row.completed_at, 9);
    assert!(queue.get_pending_actions(&subs).is_empty());
}

#[test]
fn known_channels_upsert_later_entry_wins() {
    let mut known = KnownChannels::new();
    known.add_channels(vec![
        channel("A", "first", "p1"),
        channel("B", "other", "p2"),
        channel("A", "second", "p3"),
    ]);
    let a = known.get(&"A".to_string()).unwrap();
    assert_eq!(a.channel_name, "second");
    assert_eq!(a.channel_profile_picture, "p3");
    let b = known.get(&"B".to_string()).unwrap();
    assert_eq!(b.channel_name, "other");
    assert!(known.get(&"C".to_string()).is_none());
}
