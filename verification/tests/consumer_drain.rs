use like_and_subscribe::actions::SubscriptionAction;
use like_and_subscribe::consumer::{drain_pending, form_body, mode_for, prepare_request, Mode};
use like_and_subscribe::queue::SubscriptionQueue;
use like_and_subscribe::registry::ActiveSubscriptions;

#[test]
fn mode_for_maps_actions_to_hub_modes() {
    assert_eq!(mode_for(SubscriptionAction::Subscribe, false), Some(Mode::Subscribe));
    assert_eq!(mode_for(SubscriptionAction::Subscribe, true), Some(Mode::Subscribe));
    assert_eq!(mode_for(SubscriptionAction::Unsubscribe, false), Some(Mode::Unsubscribe));
    assert_eq!(mode_for(SubscriptionAction::Unsubscribe, true), Some(Mode::Unsubscribe));
    // a refresh renews the lease by subscribing again
    assert_eq!(mode_for(SubscriptionAction::Refresh, true), Some(Mode::Subscribe));
    // no registry row: nothing to renew, no hub call
    assert_eq!(mode_for(SubscriptionAction::Refresh, false), None);
}

#[test]
fn refresh_without_subscription_prepares_no_request() {
    let mut subs = ActiveSubscriptions::new();
    let mut queue = SubscriptionQueue::new();
    queue.add_actions(
        vec![
            ("Gone".to_string(), SubscriptionAction::Refresh),
            ("Here".to_string(), SubscriptionAction::Refresh),
        ],
        1,
    );
    subs.add_subscription("Here".to_string(), 99);
    let items = queue.get_pending_actions(&subs);
    assert!(prepare_request(&items[0], "https://cb.example/pubsub").is_none());
    let req = prepare_request(&items[1], "https://cb.example/pubsub").unwrap();
    assert_eq!(req.mode, Mode::Subscribe);
    assert_eq!(req.topic, "https://www.youtube.com/xml/feeds/videos.xml?channel_id=Here");
    assert_eq!(req.callback, "https://cb.example/pubsub");
}

#[test]
fn form_body_percent_encodes_the_urls() {
    let mut subs = ActiveSubscriptions::new();
    subs.add_subscription("abc".to_string(), 1);
    let mut queue = SubscriptionQueue::new();
    queue.add_actions(vec![("abc".to_string(), SubscriptionAction::Subscribe)], 1);
    let items = queue.get_pending_actions(&subs);
    let req = prepare_request(&items[0], "https://example.com/cb").unwrap();
    assert_eq!(
        form_body(&req),
        "hub.topic=https%3A%2F%2Fwww.youtube.com%2Fxml%2Ffeeds%2Fvideos.xml%3Fchannel_id%3Dabc\
         &hub.callback=https%3A%2F%2Fexample.com%2Fcb&hub.mode=subscribe&hub.verify=sync"
    );
}

#[test]
fn form_body_encodes_space_and_unsubscribe_mode() {
    let mut subs = ActiveSubscriptions::new();
    subs.add_subscription("a b".to_string(), 1);
    let mut queue = SubscriptionQueue::new();
    queue.add_actions(vec![("a b".to_string(), SubscriptionAction::Unsubscribe)], 1);
    let items = queue.get_pending_actions(&subs);
    let req = prepare_request(&items[0], "cb").unwrap();
    assert_eq!(
        form_body(&req),
        "hub.topic=https%3A%2F%2Fwww.youtube.com%2Fxml%2Ffeeds%2Fvideos.xml%3Fchannel_id%3Da+b\
         &hub.callback=cb&hub.mode=unsubscribe&hub.verify=sync"
    );
}

#[test]
fn drain_writes_exactly_one_result_per_pending_action() {
    let subs = ActiveSubscriptions::new();
    let mut queue = SubscriptionQueue::new();
    queue.add_actions(
        vec![
            ("A".to_string(), SubscriptionAction::Subscribe),
            ("B".to_string(), SubscriptionAction::Subscribe),
            ("C".to_string(), SubscriptionAction::Unsubscribe),
        ],
        1,
    );
    let items = queue.get_pending_actions(&subs);
    let ids: Vec<u64> = items.iter().map(|it| it.queue_item.id).collect();
    let outcomes = vec![Ok(()), Err("429 Too Many Requests".to_string()), Ok(())];
    drain_pending(&mut queue, &subs, outcomes, 50);

    // exactly three result rows, one per action, none pending any more
    assert_eq!(queue.result_count(), 3);
    for &id in &ids {
        assert!(!queue.is_pending(id));
    }
    assert!(queue.get_pending_actions(&subs).is_empty());
    assert_eq!(queue.get_result(ids[0]).unwrap().error, None);
    assert_eq!(
        queue.get_result(ids[1]).unwrap().error.as_deref(),
        Some("429 Too Many Requests")
    );
    assert_eq!(queue.get_result(ids[2]).unwrap().error, None);
    assert_eq!(queue.get_result(ids[0]).unwrap().completed_at, 50);

    // a second drain over an empty pending set adds nothing
    drain_pending(&mut queue, &subs, Vec::new(), 60);
    assert_eq!(queue.result_count(), 3);
}

#[test]
fn refresh_without_subscription_drains_to_success() {
    // the would-be hub outcome is an error, but no call is made for a
    // refresh with no registry row, so the recorded result is a success
    let subs = ActiveSubscriptions::new();
    let mut queue = SubscriptionQueue::new();
    queue.add_actions(vec![("Gone".to_string(), SubscriptionAction::Refresh)], 1);
    let id = queue.get_pending_actions(&subs)[0].queue_item.id;
    drain_pending(&mut queue, &subs, vec![Err("network down".to_string())], 2);
    assert_eq!(queue.result_count(), 1);
    assert_eq!(queue.get_result(id).unwrap().error, None);
}

#[test]
fn drain_records_error_for_refresh_with_subscription() {
    let mut subs = ActiveSubscriptions::new();
    subs.add_subscription("Here".to_string(), 10);
    let mut queue = SubscriptionQueue::new();
    queue.add_actions(vec![("Here".to_string(), SubscriptionAction::Refresh)], 1);
    let id = queue.get_pending_actions(&subs)[0].queue_item.id;
    drain_pending(&mut queue, &subs, vec![Err("503".to_string())], 2);
    assert_eq!(queue.get_result(id).unwrap().error.as_deref(), Some("503"));
}

#[test]
fn form_body_keeps_unreserved_bytes_and_encodes_percent() {
    let mut subs = ActiveSubscriptions::new();
    subs.add_subscription("A*-._z%9".to_string(), 1);
    let mut queue = SubscriptionQueue::new();
    queue.add_actions(vec![("A*-._z%9".to_string(), SubscriptionAction::Subscribe)], 1);
    let items = queue.get_pending_actions(&subs);
    let req = prepare_request(&items[0], "cb").unwrap();
    assert_eq!(
        form_body(&req),
        "hub.topic=https%3A%2F%2Fwww.youtube.com%2Fxml%2Ffeeds%2Fvideos.xml%3Fchannel_id%3DA*-._z%259\
         &hub.callback=cb&hub.mode=subscribe&hub.verify=sync"
    );
}

#[test]
fn empty_batch_still_raises_the_wake_flag() {
    let mut queue = SubscriptionQueue::new();
    queue.add_actions(Vec::new(), 1);
    assert!(queue.take_wake());
    assert_eq!(queue.result_count(), 0);
}
