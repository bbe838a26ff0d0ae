use vstd::prelude::*;

verus! {

/// The canonical feed URL prefix; a topic URL is this prefix followed by the
/// channel id.
pub open spec fn feed_url_prefix() -> Seq<char> {
    "https://www.youtube.com/xml/feeds/videos.xml?channel_id="@
}

/// Every leading copy of the feed URL prefix removed, as
/// `str::trim_start_matches` strips a pattern.
pub open spec fn strip_feed_url_prefix(s: Seq<char>) -> Seq<char>
    decreases s.len(),
{
    if s.len() >= 56 && s.subrange(0, 56) == feed_url_prefix() {
        strip_feed_url_prefix(s.skip(56))
    } else {
        s
    }
}

/// The canonical feed URL identifying a channel's topic at the hub.
pub fn topic(channel_id: &str) -> (r: String)
    ensures
        r@ == feed_url_prefix() + channel_id@,
{
    let mut url = String::from_str("https://www.youtube.com/xml/feeds/videos.xml?channel_id=");
    url.append(channel_id);
    proof {
        assert(url@ =~= feed_url_prefix() + channel_id@);
    }
    url
}

/// Whether `s` starts with the feed URL prefix.
fn starts_with_feed_url_prefix(s: &str) -> (r: bool)
    ensures
        r == (s@.len() >= 56 && s@.subrange(0, 56) == feed_url_prefix()),
{
    proof {
        reveal_strlit("https://www.youtube.com/xml/feeds/videos.xml?channel_id=");
    }
    let prefix = "https://www.youtube.com/xml/feeds/videos.xml?channel_id=";
    let n = s.unicode_len();
    if n < 56 {
        return false;
    }
    let mut i: usize = 0;
    while i < 56
        invariant
            s@.len() == n >= 56,
            i <= 56,
            prefix@ == feed_url_prefix(),
            feed_url_prefix().len() == 56,
            forall|j: int| 0 <= j < i ==> s@[j] == feed_url_prefix()[j],
        decreases 56 - i,
    {
        if s.get_char(i) != prefix.get_char(i) {
            proof {
                assert(s@.subrange(0, 56)[i as int] != feed_url_prefix()[i as int]);
            }
            return false;
        }
        i += 1;
    }
    proof {
        assert(s@.subrange(0, 56) =~= feed_url_prefix());
    }
    true
}

/// The channel id embedded in a topic URL: the feed URL prefix is stripped
/// from the front, repeatedly while it is present.
pub fn channel_id_from_topic_url<'a>(topic: &'a str) -> (r: &'a str)
    ensures
        r@ == strip_feed_url_prefix(topic@),
    decreases topic@.len(),
{
    if starts_with_feed_url_prefix(topic) {
        let n = topic.unicode_len();
        let rest = topic.substring_char(56, n);
        proof {
            assert(rest@ =~= topic@.skip(56));
        }
        channel_id_from_topic_url(rest)
    } else {
        topic
    }
}

/// The channel id embedded in a topic URL; identical to
/// [`channel_id_from_topic_url`].
pub fn channel_id_from_topic<'a>(topic: &'a str) -> (r: &'a str)
    ensures
        r@ == strip_feed_url_prefix(topic@),
{
    channel_id_from_topic_url(topic)
}

/// Building a topic URL and stripping the prefix again returns the channel
/// id, for every id that does not itself begin with the feed URL prefix.
pub proof fn lemma_topic_roundtrip(channel_id: Seq<char>)
    requires
        !(channel_id.len() >= 56 && channel_id.subrange(0, 56) == feed_url_prefix()),
    ensures
        strip_feed_url_prefix(feed_url_prefix() + channel_id) == channel_id,
{
    reveal_strlit("https://www.youtube.com/xml/feeds/videos.xml?channel_id=");
    let t = feed_url_prefix() + channel_id;
    assert(t.subrange(0, 56) =~= feed_url_prefix());
    assert(t.skip(56) =~= channel_id);
    assert(strip_feed_url_prefix(t) == strip_feed_url_prefix(t.skip(56)));
    assert(strip_feed_url_prefix(channel_id) == channel_id);
}

} // verus!
