use like_and_subscribe::topic::{channel_id_from_topic, channel_id_from_topic_url, topic};

#[test]
fn topic_builds_canonical_feed_url() {
    assert_eq!(
        topic("UCabc123"),
        "https://www.youtube.com/xml/feeds/videos.xml?channel_id=UCabc123"
    );
}

#[test]
fn topic_of_empty_channel_id_is_bare_prefix() {
    assert_eq!(topic(""), "https://www.youtube.com/xml/feeds/videos.xml?channel_id=");
}

#[test]
fn channel_id_round_trips_through_topic_url() {
    let url = topic("UCxyz");
    assert_eq!(channel_id_from_topic_url(&url), "UCxyz");
    assert_eq!(channel_id_from_topic(&url), "UCxyz");
}

#[test]
fn channel_id_of_non_topic_string_is_unchanged() {
    assert_eq!(channel_id_from_topic_url("UCxyz"), "UCxyz");
    assert_eq!(channel_id_from_topic_url(""), "");
    assert_eq!(channel_id_from_topic("https://example.com/feed"), "https://example.com/feed");
}

#[test]
fn channel_id_strips_repeated_prefix() {
    let once = "https://www.youtube.com/xml/feeds/videos.xml?channel_id=";
    let doubled = format!("{once}{once}UCa");
    assert_eq!(channel_id_from_topic_url(&doubled), "UCa");
}
