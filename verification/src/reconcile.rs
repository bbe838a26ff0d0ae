use vstd::prelude::*;

use crate::actions::SubscriptionAction;
use crate::known::{known_has_channel, known_ids_unique, upserted, KnownChannel, KnownChannels};
use crate::queue::{has_action, is_pending, ActionRecord, SubscriptionQueue};
use crate::registry::ActiveSubscriptions;

verus! {

/// One decoded page of the upstream "list my subscriptions" response.
#[derive(Debug)]
pub struct SubscriptionPage {
    pub etag: Option<String>,
    pub items: Vec<KnownChannel>,
    pub next_page_token: Option<String>,
}

/// What to do with one page response, by its HTTP status: an unchanged
/// listing ends the tick, any other non-success aborts it, and a success is
/// collected.
#[derive(Debug, Clone, Copy, PartialEq, Eq, Structural)]
pub enum PageDisposition {
    NotModified,
    Failure,
    Proceed,
}

/// Classify one page response status: 304 means the listing is unchanged,
/// any other status outside 2xx aborts the tick.
pub fn page_disposition(status: u16) -> (r: PageDisposition)
    ensures
        r == (if status == 304 {
            PageDisposition::NotModified
        } else if 200 <= status < 300 {
            PageDisposition::Proceed
        } else {
            PageDisposition::Failure
        }),
{
    if status == 304 {
        PageDisposition::NotModified
    } else if 200 <= status && status < 300 {
        PageDisposition::Proceed
    } else {
        PageDisposition::Failure
    }
}

/// Accumulates the pages of one listing pass: channel metadata deduplicated
/// by id (a later page wins), and the ETag captured from the first page
/// only.
#[derive(Debug)]
pub struct SubscriptionCollector {
    pub first_page_seen: bool,
    pub etag: Option<String>,
    pub channels: KnownChannels,
}

impl SubscriptionCollector {
    /// An empty collector for a fresh pass.
    pub fn new() -> (r: Self)
        ensures
            !r.first_page_seen,
            r.etag is None,
            r.channels@ == Map::<Seq<char>, crate::known::ChannelMeta>::empty(),
    {
        SubscriptionCollector { first_page_seen: false, etag: None, channels: KnownChannels::new() }
    }

    /// Fold one page in: its items are upserted in order, and its ETag is
    /// kept only when this is the first page of the pass.
    pub fn add_page(&mut self, page: SubscriptionPage)
        ensures
            final(self).first_page_seen,
            final(self).etag == (if old(self).first_page_seen {
                old(self).etag
            } else {
                page.etag
            }),
            final(self).channels@ == upserted(old(self).channels@, page.items@),
    {
        let SubscriptionPage { etag, items, next_page_token: _ } = page;
        if !self.first_page_seen {
            self.etag = etag;
        }
        self.first_page_seen = true;
        self.channels.add_channels(items);
    }
}

/// Whether some element of `ids` is the id `id`.
pub open spec fn seq_has_id(ids: Seq<String>, id: Seq<char>) -> bool {
    exists|i: int| 0 <= i < ids.len() && ids[i]@ == id
}

/// A channel listed upstream but absent from the registry: to subscribe.
pub open spec fn is_added(
    ch: Seq<KnownChannel>,
    subs: Map<Seq<char>, i64>,
    id: Seq<char>,
) -> bool {
    known_has_channel(ch, id) && !subs.contains_key(id)
}

/// A channel in the registry but no longer listed upstream: to unsubscribe.
pub open spec fn is_removed(
    ch: Seq<KnownChannel>,
    subs: Map<Seq<char>, i64>,
    id: Seq<char>,
) -> bool {
    subs.contains_key(id) && !known_has_channel(ch, id)
}

/// What one enqueued diff action must be: a subscribe for an added channel
/// or an unsubscribe for a removed one.
pub open spec fn diff_action_ok(
    ch: Seq<KnownChannel>,
    subs: Map<Seq<char>, i64>,
    a: ActionRecord,
) -> bool {
    ||| (a.action == SubscriptionAction::Subscribe && is_added(ch, subs, a.channel_id))
    ||| (a.action == SubscriptionAction::Unsubscribe && is_removed(ch, subs, a.channel_id))
}

/// Whether some element of `ids` equals `id`.
fn contains_id(ids: &Vec<String>, id: &String) -> (r: bool)
    ensures
        r == seq_has_id(ids@, id@),
{
    let mut i: usize = 0;
    while i < ids.len()
        invariant
            i <= ids@.len(),
            forall|j: int| 0 <= j < i ==> ids@[j]@ != id@,
        decreases ids@.len() - i,
    {
        if ids[i] == *id {
            return true;
        }
        i += 1;
    }
    false
}

/// Whether some row of `rows` carries the id `id`.
fn listing_contains(rows: &Vec<KnownChannel>, id: &String) -> (r: bool)
    ensures
        r == known_has_channel(rows@, id@),
{
    let mut i: usize = 0;
    while i < rows.len()
        invariant
            i <= rows@.len(),
            forall|j: int| 0 <= j < i ==> rows@[j].channel_id@ != id@,
        decreases rows@.len() - i,
    {
        if rows[i].channel_id == *id {
            return true;
        }
        i += 1;
    }
    false
}

/// The actions that bring the registry in line with the upstream listing:
/// one `Subscribe` per channel listed upstream but not in `previous`, one
/// `Unsubscribe` per id of `previous` not listed upstream, nothing for a
/// channel on both sides, and no id twice.
#[verifier::spinoff_prover]
#[verifier::rlimit(100)]
pub fn diff_actions(previous: &Vec<String>, current: &Vec<KnownChannel>) -> (r: Vec<
    (String, SubscriptionAction),
>)
    requires
        forall|a: int, b: int| 0 <= a < b < previous@.len() ==> previous@[a]@ != previous@[b]@,
        known_ids_unique(current@),
    ensures
        forall|k: int|
            0 <= k < r@.len() ==> {
                let p = #[trigger] r@[k];
                ||| (p.1 == SubscriptionAction::Subscribe && known_has_channel(current@, p.0@)
                    && !seq_has_id(previous@, p.0@))
                ||| (p.1 == SubscriptionAction::Unsubscribe && seq_has_id(previous@, p.0@)
                    && !known_has_channel(current@, p.0@))
            },
        forall|id: Seq<char>|
            known_has_channel(current@, id) && !seq_has_id(previous@, id) ==> exists|k: int|
                0 <= k < r@.len() && (#[trigger] r@[k]).0@ == id,
        forall|id: Seq<char>|
            seq_has_id(previous@, id) && !known_has_channel(current@, id) ==> exists|k: int|
                0 <= k < r@.len() && (#[trigger] r@[k]).0@ == id,
        forall|k1: int, k2: int|
            0 <= k1 < k2 < r@.len() ==> (#[trigger] r@[k1]).0@ != (#[trigger] r@[k2]).0@,
{
    let mut r: Vec<(String, SubscriptionAction)> = Vec::new();
    let mut i: usize = 0;
    while i < current.len()
        invariant
            i <= current@.len(),
            known_ids_unique(current@),
            forall|k: int|
                0 <= k < r@.len() ==> {
                    let p = #[trigger] r@[k];
                    &&& p.1 == SubscriptionAction::Subscribe
                    &&& !seq_has_id(previous@, p.0@)
                    &&& exists|j: int| 0 <= j < i && current@[j].channel_id@ == p.0@
                },
            forall|j: int|
                0 <= j < i && !seq_has_id(previous@, #[trigger] current@[j].channel_id@)
                    ==> exists|k: int|
                    0 <= k < r@.len() && (#[trigger] r@[k]).0@ == current@[j].channel_id@,
            forall|k1: int, k2: int|
                0 <= k1 < k2 < r@.len() ==> (#[trigger] r@[k1]).0@ != (#[trigger] r@[k2]).0@,
        decreases current@.len() - i,
    {
        let ghost r_prev = r@;
        if !contains_id(previous, &current[i].channel_id) {
            r.push((current[i].channel_id.clone(), SubscriptionAction::Subscribe));
            proof {
                assert forall|k1: int, k2: int|
                    0 <= k1 < k2 < r@.len() implies (#[trigger] r@[k1]).0@ != (
                #[trigger] r@[k2]).0@ by {
                    if k2 == r@.len() - 1 {
                        let j = choose|j: int|
                            0 <= j < i && current@[j].channel_id@ == r_prev[k1].0@;
                        assert(current@[j].channel_id@ != current@[i as int].channel_id@);
                    }
                }
            }
        }
        proof {
            assert forall|j: int|
                0 <= j < i + 1 && !seq_has_id(previous@, #[trigger] current@[j].channel_id@)
                    implies exists|k: int|
                    0 <= k < r@.len() && (#[trigger] r@[k]).0@ == current@[j].channel_id@ by {
                if j < i {
                    let jid = current@[j].channel_id@;
                    let k = choose|k: int|
                        0 <= k < r_prev.len() && (#[trigger] r_prev[k]).0@ == jid;
                    assert((r@[k]).0@ == current@[j].channel_id@);
                } else {
                    assert((r@[r@.len() - 1]).0@ == current@[j].channel_id@);
                }
            }
        }
        i += 1;
    }
    let ghost subs_only = r@;
    let mut i: usize = 0;
    while i < previous.len()
        invariant
            i <= previous@.len(),
            known_ids_unique(current@),
            forall|a: int, b: int| 0 <= a < b < previous@.len() ==> previous@[a]@ != previous@[b]@,
            subs_only.len() <= r@.len(),
            forall|k: int| 0 <= k < subs_only.len() ==> r@[k] == subs_only[k],
            forall|k: int|
                0 <= k < subs_only.len() ==> {
                    let p = #[trigger] subs_only[k];
                    &&& p.1 == SubscriptionAction::Subscribe
                    &&& known_has_channel(current@, p.0@)
                    &&& !seq_has_id(previous@, p.0@)
                },
            forall|id: Seq<char>|
                known_has_channel(current@, id) && !seq_has_id(previous@, id) ==> exists|k: int|
                    0 <= k < subs_only.len() && (#[trigger] subs_only[k]).0@ == id,
            forall|k: int|
                subs_only.len() <= k < r@.len() ==> {
                    let p = #[trigger] r@[k];
                    &&& p.1 == SubscriptionAction::Unsubscribe
                    &&& !known_has_channel(current@, p.0@)
                    &&& exists|j: int| 0 <= j < i && previous@[j]@ == p.0@
                },
            forall|j: int|
                0 <= j < i && !known_has_channel(current@, #[trigger] previous@[j]@) ==> exists|
                    k: int,
                | 0 <= k < r@.len() && (#[trigger] r@[k]).0@ == previous@[j]@,
            forall|k1: int, k2: int|
                0 <= k1 < k2 < r@.len() ==> (#[trigger] r@[k1]).0@ != (#[trigger] r@[k2]).0@,
        decreases previous@.len() - i,
    {
        let ghost r_prev = r@;
        if !listing_contains(current, &previous[i]) {
            r.push((previous[i].clone(), SubscriptionAction::Unsubscribe));
            proof {
                assert forall|k1: int, k2: int|
                    0 <= k1 < k2 < r@.len() implies (#[trigger] r@[k1]).0@ != (
                #[trigger] r@[k2]).0@ by {
                    if k2 == r@.len() - 1 {
                        if k1 < subs_only.len() {
                            assert(r_prev[k1] == subs_only[k1]);
                            assert(known_has_channel(current@, r_prev[k1].0@));
                        } else {
                            let j = choose|j: int|
                                0 <= j < i && previous@[j]@ == r_prev[k1].0@;
                            assert(previous@[j]@ != previous@[i as int]@);
                        }
                    }
                }
            }
        }
        proof {
            assert forall|j: int|
                0 <= j < i + 1 && !known_has_channel(current@, #[trigger] previous@[j]@) implies
                exists|k: int|
                    0 <= k < r@.len() && (#[trigger] r@[k]).0@ == previous@[j]@ by {
                if j < i {
                    let k = choose|k: int|
                        0 <= k < r_prev.len() && (#[trigger] r_prev[k]).0@ == previous@[j]@;
                    assert((r@[k]).0@ == previous@[j]@);
                } else {
                    assert((r@[r@.len() - 1]).0@ == previous@[j]@);
                }
            }
        }
        i += 1;
    }
    proof {
        assert forall|k: int| 0 <= k < r@.len() implies {
            let p = #[trigger] r@[k];
            ||| (p.1 == SubscriptionAction::Subscribe && known_has_channel(current@, p.0@)
                && !seq_has_id(previous@, p.0@))
            ||| (p.1 == SubscriptionAction::Unsubscribe && seq_has_id(previous@, p.0@)
                && !known_has_channel(current@, p.0@))
        } by {
            if k < subs_only.len() {
                assert(r@[k] == subs_only[k]);
            } else {
                let j = choose|j: int| 0 <= j < previous@.len() && previous@[j]@ == r@[k].0@;
                assert(previous@[j]@ == r@[k].0@);
                assert(seq_has_id(previous@, r@[k].0@));
            }
        }
    }
    r
}

/// The upstream listing result of one tick, decoded into plain values.
#[derive(Debug)]
pub enum UpstreamListing {
    /// The conditional request matched the last-seen ETag: nothing changed.
    NotModified,
    /// The upstream could not be listed; the tick aborts and the next one
    /// retries.
    Unavailable,
    /// The collected listing, one row per channel.
    Listing { channels: Vec<KnownChannel> },
}

/// A batch appended to the action log carries the diff exactly when it
/// mirrors a pair list that does.
proof fn lemma_diff_batch(
    olds: Seq<ActionRecord>,
    news: Seq<ActionRecord>,
    pairs: Seq<(String, SubscriptionAction)>,
    ch: Seq<KnownChannel>,
    m: Map<Seq<char>, i64>,
)
    requires
        news.len() == olds.len() + pairs.len(),
        forall|j: int|
            0 <= j < pairs.len() ==> (#[trigger] news[olds.len() + j]).channel_id
                == pairs[j].0@ && news[olds.len() + j].action == pairs[j].1,
        forall|k: int|
            0 <= k < pairs.len() ==> {
                let p = #[trigger] pairs[k];
                ||| (p.1 == SubscriptionAction::Subscribe && is_added(ch, m, p.0@))
                ||| (p.1 == SubscriptionAction::Unsubscribe && is_removed(ch, m, p.0@))
            },
        forall|id: Seq<char>|
            is_added(ch, m, id) ==> exists|k: int|
                0 <= k < pairs.len() && (#[trigger] pairs[k]).0@ == id,
        forall|id: Seq<char>|
            is_removed(ch, m, id) ==> exists|k: int|
                0 <= k < pairs.len() && (#[trigger] pairs[k]).0@ == id,
        forall|k1: int, k2: int|
            0 <= k1 < k2 < pairs.len() ==> (#[trigger] pairs[k1]).0@ != (#[trigger] pairs[k2]).0@,
    ensures
        forall|k: int|
            olds.len() <= k < news.len() ==> diff_action_ok(ch, m, #[trigger] news[k]),
        forall|id: Seq<char>|
            #[trigger] is_added(ch, m, id) ==> exists|k: int|
                olds.len() <= k < news.len() && (#[trigger] news[k]).channel_id == id
                    && news[k].action == SubscriptionAction::Subscribe,
        forall|id: Seq<char>|
            #[trigger] is_removed(ch, m, id) ==> exists|k: int|
                olds.len() <= k < news.len() && (#[trigger] news[k]).channel_id == id
                    && news[k].action == SubscriptionAction::Unsubscribe,
        forall|k1: int, k2: int|
            olds.len() <= k1 < k2 < news.len() ==> (#[trigger] news[k1]).channel_id != (
            #[trigger] news[k2]).channel_id,
{
    assert forall|k: int| olds.len() <= k < news.len() implies diff_action_ok(
        ch,
        m,
        #[trigger] news[k],
    ) by {
        let j = k - olds.len();
        assert(news[olds.len() + j].channel_id == pairs[j].0@);
    }
    assert forall|id: Seq<char>| #[trigger] is_added(ch, m, id) implies exists|k: int|
        olds.len() <= k < news.len() && (#[trigger] news[k]).channel_id == id && news[k].action
            == SubscriptionAction::Subscribe by {
        let j = choose|j: int| 0 <= j < pairs.len() && (#[trigger] pairs[j]).0@ == id;
        assert(news[olds.len() + j].channel_id == id);
        assert(news[olds.len() + j].action == SubscriptionAction::Subscribe);
    }
    assert forall|id: Seq<char>| #[trigger] is_removed(ch, m, id) implies exists|k: int|
        olds.len() <= k < news.len() && (#[trigger] news[k]).channel_id == id && news[k].action
            == SubscriptionAction::Unsubscribe by {
        let j = choose|j: int| 0 <= j < pairs.len() && (#[trigger] pairs[j]).0@ == id;
        assert(news[olds.len() + j].channel_id == id);
        assert(news[olds.len() + j].action == SubscriptionAction::Unsubscribe);
    }
    assert forall|k1: int, k2: int| olds.len() <= k1 < k2 < news.len() implies (
    #[trigger] news[k1]).channel_id != (#[trigger] news[k2]).channel_id by {
        let j1 = k1 - olds.len();
        let j2 = k2 - olds.len();
        assert(news[olds.len() + j1].channel_id == pairs[j1].0@);
        assert(news[olds.len() + j2].channel_id == pairs[j2].0@);
    }
}

/// One reconciliation tick, after the upstream listing has been obtained.
/// An unchanged or unavailable upstream changes nothing: no action is
/// enqueued and no cache row is written.  A fresh listing enqueues — in one
/// batch, with one wake — exactly one `Subscribe` per channel listed
/// upstream but absent from the registry and one `Unsubscribe` per registry
/// channel no longer listed, nothing else, and upserts every listed channel
/// into the metadata cache.
#[verifier::spinoff_prover]
#[verifier::rlimit(100)]
pub fn reconcile_tick(
    subs: &ActiveSubscriptions,
    queue: &mut SubscriptionQueue,
    known: &mut KnownChannels,
    upstream: UpstreamListing,
    now: i64,
)
    requires
        (upstream matches UpstreamListing::Listing { channels } ==> known_ids_unique(
            channels@,
        )),
    ensures
        (!(upstream matches UpstreamListing::Listing { .. }) ==> final(queue)@ == old(queue)@
            && final(known)@ == old(known)@),
        (upstream matches UpstreamListing::Listing { channels } ==> {
            &&& final(known)@ == upserted(old(known)@, channels@)
            &&& final(queue)@.results == old(queue)@.results
            &&& final(queue)@.wake
            &&& old(queue)@.actions.len() <= final(queue)@.actions.len()
            &&& forall|k: int|
                0 <= k < old(queue)@.actions.len() ==> final(queue)@.actions[k] == old(
                    queue,
                )@.actions[k]
            &&& forall|id: u64| is_pending(old(queue)@, id) ==> is_pending(final(queue)@, id)
            &&& forall|k: int|
                old(queue)@.actions.len() <= k < final(queue)@.actions.len() ==> {
                    let a = #[trigger] final(queue)@.actions[k];
                    &&& diff_action_ok(channels@, subs@, a)
                    &&& a.enqueued_at == now
                    &&& !has_action(old(queue)@, a.id)
                    &&& is_pending(final(queue)@, a.id)
                }
            &&& forall|id: Seq<char>|
                #[trigger] is_added(channels@, subs@, id) ==> exists|k: int|
                    old(queue)@.actions.len() <= k < final(queue)@.actions.len() && (
                    #[trigger] final(queue)@.actions[k]).channel_id == id
                        && final(queue)@.actions[k].action == SubscriptionAction::Subscribe
            &&& forall|id: Seq<char>|
                #[trigger] is_removed(channels@, subs@, id) ==> exists|k: int|
                    old(queue)@.actions.len() <= k < final(queue)@.actions.len() && (
                    #[trigger] final(queue)@.actions[k]).channel_id == id
                        && final(queue)@.actions[k].action == SubscriptionAction::Unsubscribe
            &&& forall|k1: int, k2: int|
                old(queue)@.actions.len() <= k1 < k2 < final(queue)@.actions.len() ==> (
                #[trigger] final(queue)@.actions[k1]).channel_id != (
                #[trigger] final(queue)@.actions[k2]).channel_id
        }),
{
    match upstream {
        UpstreamListing::NotModified => (),
        UpstreamListing::Unavailable => (),
        UpstreamListing::Listing { channels } => {
            let ghost ch = channels@;
            let previous = subs.get_all_channel_ids();
            proof {
                assert forall|id: Seq<char>| seq_has_id(previous@, id) == subs@.contains_key(
                    id,
                ) by {
                    if seq_has_id(previous@, id) {
                        let k = choose|k: int|
                            0 <= k < previous@.len() && previous@[k]@ == id;
                        assert(subs@.contains_key(previous@[k]@));
                    }
                    if subs@.contains_key(id) {
                        let k = choose|k: int|
                            0 <= k < previous@.len() && previous@[k]@ == id;
                        assert(seq_has_id(previous@, id));
                    }
                }
            }
            let pairs = diff_actions(&previous, &channels);
            let ghost pairs_view = pairs@;
            let ghost base = queue@.actions.len() as int;
            queue.add_actions(pairs, now);
            proof {
                assert forall|j: int| 0 <= j < pairs_view.len() implies (
                #[trigger] queue@.actions[base + j]).channel_id == pairs_view[j].0@ && queue@
                    .actions[base + j].action == pairs_view[j].1 by {
                    assert(queue@.actions[base + j].channel_id == pairs_view[j].0@);
                }
                assert forall|k: int| base <= k < queue@.actions.len() implies {
                    let a = #[trigger] queue@.actions[k];
                    &&& a.enqueued_at == now
                    &&& !has_action(old(queue)@, a.id)
                    &&& is_pending(queue@, a.id)
                } by {
                    let j = k - base;
                    assert(queue@.actions[base + j].enqueued_at == now);
                }
                lemma_diff_batch(old(queue)@.actions, queue@.actions, pairs_view, ch, subs@);
            }
            known.add_channels(channels);
        },
    }
}

} // verus!
