use like_and_subscribe::actions::SubscriptionAction;
use like_and_subscribe::confirm::{pubsub_subscription_validation, HubChallenge, HubSubscribeChallenge};
use like_and_subscribe::queue::SubscriptionQueue;
use like_and_subscribe::registry::ActiveSubscriptions;
use like_and_subscribe::scheduler::{refresh_sleep_millis, refresh_tick};
use like_and_subscribe::topic::topic;

const HOUR: i64 = 60 * 60 * 1_000;
const DAY: i64 = 24 * HOUR;

#[test]
fn scheduler_sleeps_fallback_on_empty_registry() {
    // no subscriptions: the scheduler waits exactly the fallback duration
    assert_eq!(refresh_sleep_millis(None, 123_456, DAY, HOUR, DAY), DAY);
}

#[test]
fn scheduler_sleep_reaches_window_minus_delay_before_expiry() {
    let now = 1_000_000;
    // soonest lease expires 30 hours from now; with a 24 h window and 1 h
    // delay the scheduler sleeps 7 hours, waking 23 h before expiry
    assert_eq!(refresh_sleep_millis(Some(now + 30 * HOUR), now, DAY, HOUR, DAY), 7 * HOUR);
    // already inside the window: no sleep at all
    assert_eq!(refresh_sleep_millis(Some(now + HOUR), now, DAY, HOUR, DAY), 0);
    // expired in the past: still no sleep, never a negative duration
    assert_eq!(refresh_sleep_millis(Some(now - HOUR), now, DAY, HOUR, DAY), 0);
}

#[test]
fn tick_enqueues_one_refresh_per_lease_inside_window() {
    let now = 10 * DAY;
    let mut subs = ActiveSubscriptions::new();
    subs.add_subscription("Due".to_string(), now + DAY - HOUR);
    subs.add_subscription("Fresh".to_string(), now + 2 * DAY);
    let mut queue = SubscriptionQueue::new();
    refresh_tick(&subs, &mut queue, now, DAY);
    let items = queue.get_pending_actions(&subs);
    assert_eq!(items.len(), 1);
    assert_eq!(items[0].queue_item.channel_id, "Due");
    assert_eq!(items[0].queue_item.action, SubscriptionAction::Refresh);
    assert_eq!(items[0].queue_item.enqueued_at, now);
    assert!(queue.take_wake());

    // the next tick enqueues the same refresh again only because no result
    // was written; the lease just outside the window still draws none
    refresh_tick(&subs, &mut queue, now, DAY);
    assert_eq!(queue.get_pending_actions(&subs).len(), 2);
}

#[test]
fn tick_with_boundary_lease_enqueues_nothing() {
    let now = 10 * DAY;
    let mut subs = ActiveSubscriptions::new();
    // expiring exactly at now + window is not strictly before the bound
    subs.add_subscription("Edge".to_string(), now + DAY);
    let mut queue = SubscriptionQueue::new();
    refresh_tick(&subs, &mut queue, now, DAY);
    assert!(queue.get_pending_actions(&subs).is_empty());
}

#[test]
fn confirmed_subscription_is_refreshed_at_the_threshold() {
    // end to end: an inbound subscribe confirmation for topic T with a
    // 3600 s lease puts (T, now + 3_600_000 ms) in the registry ...
    let now = 5 * DAY;
    let mut subs = ActiveSubscriptions::new();
    let challenge = HubChallenge::Subscribe(HubSubscribeChallenge {
        topic: topic("T"),
        challenge: "echo-me".to_string(),
        lease_seconds: "3600".to_string(),
    });
    let reply = pubsub_subscription_validation(&mut subs, challenge, now);
    assert_eq!(reply.unwrap(), "echo-me");
    let row = subs.get(&"T".to_string()).unwrap();
    assert_eq!(row.expiration, now + 3600 * 1_000);

    // ... and a scheduler tick with a 3700 s window (just past the lease)
    // immediately enqueues a refresh for T, while a 3600 s window does not,
    // since the lease is not strictly inside it
    let mut queue = SubscriptionQueue::new();
    refresh_tick(&subs, &mut queue, now, 3_600_000);
    assert!(queue.get_pending_actions(&subs).is_empty());
    refresh_tick(&subs, &mut queue, now, 3_700_000);
    let items = queue.get_pending_actions(&subs);
    assert_eq!(items.len(), 1);
    assert_eq!(items[0].queue_item.channel_id, "T");
    assert_eq!(items[0].queue_item.action, SubscriptionAction::Refresh);
}
