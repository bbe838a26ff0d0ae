use like_and_subscribe::actions::SubscriptionAction;
use like_and_subscribe::known::{KnownChannel, KnownChannels};
use like_and_subscribe::queue::SubscriptionQueue;
use like_and_subscribe::reconcile::{
    diff_actions, page_disposition, reconcile_tick, PageDisposition, SubscriptionCollector,
    SubscriptionPage, UpstreamListing,
};
use like_and_subscribe::registry::ActiveSubscriptions;

fn channel(id: &str, name: &str) -> KnownChannel {
    KnownChannel {
        channel_id: id.to_string(),
        channel_name: name.to_string(),
        channel_profile_picture: format!("https://img.example/{id}"),
    }
}

#[test]
fn page_status_classification() {
    assert_eq!(page_disposition(304), PageDisposition::NotModified);
    assert_eq!(page_disposition(200), PageDisposition::Proceed);
    assert_eq!(page_disposition(299), PageDisposition::Proceed);
    assert_eq!(page_disposition(300), PageDisposition::Failure);
    assert_eq!(page_disposition(404), PageDisposition::Failure);
    assert_eq!(page_disposition(500), PageDisposition::Failure);
    assert_eq!(page_disposition(199), PageDisposition::Failure);
}

#[test]
fn collector_keeps_etag_of_first_page_only() {
    let mut collector = SubscriptionCollector::new();
    assert!(collector.etag.is_none());
    collector.add_page(SubscriptionPage {
        etag: Some("etag-one".to_string()),
        items: vec![channel("A", "a")],
        next_page_token: Some("page2".to_string()),
    });
    collector.add_page(SubscriptionPage {
        etag: Some("etag-two".to_string()),
        items: vec![channel("B", "b"), channel("A", "a-renamed")],
        next_page_token: None,
    });
    assert_eq!(collector.etag.as_deref(), Some("etag-one"));
    assert!(collector.first_page_seen);
    // a later page's duplicate wins
    let a = collector.channels.get(&"A".to_string()).unwrap();
    assert_eq!(a.channel_name, "a-renamed");
    assert!(collector.channels.get(&"B".to_string()).is_some());
}

#[test]
fn diff_enqueues_subscribe_for_added_and_unsubscribe_for_removed() {
    // registry = {A, B, C}, upstream = {B, C, D}
    let previous = vec!["A".to_string(), "B".to_string(), "C".to_string()];
    let current = vec![channel("B", "b"), channel("C", "c"), channel("D", "d")];
    let pairs = diff_actions(&previous, &current);
    assert_eq!(pairs.len(), 2);
    assert!(pairs.contains(&("D".to_string(), SubscriptionAction::Subscribe)));
    assert!(pairs.contains(&("A".to_string(), SubscriptionAction::Unsubscribe)));
}

#[test]
fn diff_of_identical_sets_is_empty() {
    let previous = vec!["A".to_string(), "B".to_string()];
    let current = vec![channel("B", "b"), channel("A", "a")];
    assert!(diff_actions(&previous, &current).is_empty());
}

#[test]
fn tick_with_listing_enqueues_diff_and_updates_cache() {
    let mut subs = ActiveSubscriptions::new();
    subs.add_subscription("A".to_string(), 10);
    subs.add_subscription("B".to_string(), 20);
    subs.add_subscription("C".to_string(), 30);
    let mut queue = SubscriptionQueue::new();
    let mut known = KnownChannels::new();
    let listing = UpstreamListing::Listing {
        channels: vec![channel("B", "b"), channel("C", "c"), channel("D", "d")],
    };
    reconcile_tick(&subs, &mut queue, &mut known, listing, 77);

    let items = queue.get_pending_actions(&subs);
    assert_eq!(items.len(), 2);
    let mut seen: Vec<(String, SubscriptionAction)> = items
        .iter()
        .map(|it| (it.queue_item.channel_id.clone(), it.queue_item.action))
        .collect();
    seen.sort_by(|a, b| a.0.cmp(&b.0));
    assert_eq!(
        seen,
        vec![
            ("A".to_string(), SubscriptionAction::Unsubscribe),
            ("D".to_string(), SubscriptionAction::Subscribe),
        ]
    );
    assert!(queue.take_wake());
    // every listed channel lands in the metadata cache; unlisted ones do not
    assert!(known.get(&"B".to_string()).is_some());
    assert!(known.get(&"C".to_string()).is_some());
    assert_eq!(known.get(&"D".to_string()).unwrap().channel_name, "d");
    assert!(known.get(&"A".to_string()).is_none());
}

#[test]
fn unchanged_etag_tick_enqueues_nothing_and_writes_nothing() {
    let mut subs = ActiveSubscriptions::new();
    subs.add_subscription("A".to_string(), 10);
    let mut queue = SubscriptionQueue::new();
    let mut known = KnownChannels::new();
    reconcile_tick(&subs, &mut queue, &mut known, UpstreamListing::NotModified, 77);
    assert!(queue.get_pending_actions(&subs).is_empty());
    assert!(!queue.take_wake());
    assert_eq!(queue.result_count(), 0);
    assert!(known.get(&"A".to_string()).is_none());
}

#[test]
fn failed_listing_aborts_the_tick() {
    let subs = ActiveSubscriptions::new();
    let mut queue = SubscriptionQueue::new();
    let mut known = KnownChannels::new();
    reconcile_tick(&subs, &mut queue, &mut known, UpstreamListing::Unavailable, 77);
    assert!(queue.get_pending_actions(&subs).is_empty());
    assert!(!queue.take_wake());
}
