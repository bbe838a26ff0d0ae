use vstd::prelude::*;

use crate::actions::SubscriptionAction;
use crate::queue::{has_action, is_pending, ActionRecord, SubscriptionQueue};
use crate::registry::{has_channel, row_ids_unique, ActiveSubscriptions, Subscription};

verus! {

/// A batch appended to the action log covers each channel of `rows` exactly
/// once when the batch mirrors `rows`, whose ids are distinct.
proof fn lemma_batch_covers_rows(
    olds: Seq<ActionRecord>,
    news: Seq<ActionRecord>,
    rows: Seq<Subscription>,
    m: Map<Seq<char>, i64>,
    bound: int,
)
    requires
        news.len() == olds.len() + rows.len(),
        forall|j: int|
            0 <= j < rows.len() ==> (#[trigger] news[olds.len() + j]).channel_id
                == rows[j].channel_id@,
        row_ids_unique(rows),
        forall|id: Seq<char>|
            #[trigger] m.contains_key(id) && m[id] < bound ==> has_channel(rows, id),
    ensures
        forall|id: Seq<char>|
            #[trigger] m.contains_key(id) && m[id] < bound ==> exists|k: int|
                olds.len() <= k < news.len() && (#[trigger] news[k]).channel_id == id,
        forall|k1: int, k2: int|
            olds.len() <= k1 < k2 < news.len() ==> (#[trigger] news[k1]).channel_id != (
            #[trigger] news[k2]).channel_id,
{
    assert forall|id: Seq<char>| #[trigger] m.contains_key(id) && m[id] < bound implies exists|
        k: int,
    | olds.len() <= k < news.len() && (#[trigger] news[k]).channel_id == id by {
        let j = choose|j: int| 0 <= j < rows.len() && rows[j].channel_id@ == id;
        assert(news[olds.len() + j].channel_id == id);
    }
    assert forall|k1: int, k2: int| olds.len() <= k1 < k2 < news.len() implies (
    #[trigger] news[k1]).channel_id != (#[trigger] news[k2]).channel_id by {
        let j1 = k1 - olds.len();
        let j2 = k2 - olds.len();
        assert(news[olds.len() + j1].channel_id == rows[j1].channel_id@);
        assert(news[olds.len() + j2].channel_id == rows[j2].channel_id@);
        assert(rows[j1].channel_id@ != rows[j2].channel_id@);
    }
}

/// `x` clamped into `0 ..= i64::MAX`.
pub open spec fn clamp_to_millis(x: int) -> int {
    if x < 0 {
        0
    } else if x > i64::MAX {
        i64::MAX as int
    } else {
        x
    }
}

/// `a + b` saturated at `i64::MAX`; defined for a non-negative `b`.
pub open spec fn spec_sat_add(a: i64, b: i64) -> int {
    if a + b > i64::MAX {
        i64::MAX as int
    } else {
        a + b
    }
}

/// How long the renewal scheduler sleeps before its next pass, in
/// milliseconds: until the soonest lease is `window - delay` from expiring,
/// zero when it is already closer, and `fallback` when no subscriptions
/// exist.
pub fn refresh_sleep_millis(
    soonest: Option<i64>,
    now: i64,
    window: i64,
    delay: i64,
    fallback: i64,
) -> (r: i64)
    requires
        0 <= delay <= window,
        0 <= fallback,
    ensures
        match soonest {
            Some(e) => r == clamp_to_millis(e - now - (window - delay)),
            None => r == fallback,
        },
{
    match soonest {
        Some(e) => {
            let d: i128 = e as i128 - now as i128 - (window as i128 - delay as i128);
            if d < 0 {
                0
            } else if d > i64::MAX as i128 {
                i64::MAX
            } else {
                d as i64
            }
        },
        None => fallback,
    }
}

/// One pass of the renewal scheduler: enqueue a `Refresh` for every
/// subscription expiring before `now + window` (saturated), exactly one per
/// channel, in a single batch that raises the consumer's wake flag once.
#[verifier::spinoff_prover]
#[verifier::rlimit(100)]
pub fn refresh_tick(
    subs: &ActiveSubscriptions,
    queue: &mut SubscriptionQueue,
    now: i64,
    window: i64,
)
    requires
        0 <= window,
    ensures
        final(queue)@.results == old(queue)@.results,
        final(queue)@.wake,
        old(queue)@.actions.len() <= final(queue)@.actions.len(),
        forall|k: int|
            0 <= k < old(queue)@.actions.len() ==> final(queue)@.actions[k] == old(
                queue,
            )@.actions[k],
        forall|id: u64| has_action(old(queue)@, id) ==> has_action(final(queue)@, id),
        forall|id: u64| is_pending(old(queue)@, id) ==> is_pending(final(queue)@, id),
        // every new action is a pending refresh of a channel expiring before the bound
        forall|k: int|
            old(queue)@.actions.len() <= k < final(queue)@.actions.len() ==> {
                let a = #[trigger] final(queue)@.actions[k];
                &&& a.action == SubscriptionAction::Refresh
                &&& a.enqueued_at == now
                &&& subs@.contains_key(a.channel_id)
                &&& subs@[a.channel_id] < spec_sat_add(now, window)
                &&& !has_action(old(queue)@, a.id)
                &&& is_pending(final(queue)@, a.id)
            },
        // each expiring channel gets exactly one new refresh
        forall|id: Seq<char>|
            #[trigger] subs@.contains_key(id) && subs@[id] < spec_sat_add(now, window)
                ==> exists|k: int|
                old(queue)@.actions.len() <= k < final(queue)@.actions.len() && (
                #[trigger] final(queue)@.actions[k]).channel_id == id,
        forall|k1: int, k2: int|
            old(queue)@.actions.len() <= k1 < k2 < final(queue)@.actions.len() ==> (
            #[trigger] final(queue)@.actions[k1]).channel_id != (
            #[trigger] final(queue)@.actions[k2]).channel_id,
{
    let bound: i64 = if now <= i64::MAX - window {
        now + window
    } else {
        i64::MAX
    };
    let expiring = subs.get_expiring(bound);
    let ghost rows = expiring@;
    let mut pairs: Vec<(String, SubscriptionAction)> = Vec::new();
    let mut i: usize = 0;
    while i < expiring.len()
        invariant
            i <= rows.len(),
            expiring@ == rows,
            pairs@.len() == i,
            forall|j: int|
                0 <= j < i ==> (#[trigger] pairs@[j]).0@ == rows[j].channel_id@ && pairs@[j].1
                    == SubscriptionAction::Refresh,
        decreases rows.len() - i,
    {
        pairs.push((expiring[i].channel_id.clone(), SubscriptionAction::Refresh));
        i += 1;
    }
    let ghost base = queue@.actions.len() as int;
    queue.add_actions(pairs, now);
    proof {
        assert forall|k: int| base <= k < queue@.actions.len() implies {
            let a = #[trigger] queue@.actions[k];
            &&& a.action == SubscriptionAction::Refresh
            &&& a.enqueued_at == now
            &&& subs@.contains_key(a.channel_id)
            &&& subs@[a.channel_id] < spec_sat_add(now, window)
            &&& !has_action(old(queue)@, a.id)
            &&& is_pending(queue@, a.id)
        } by {
            let j = k - base;
            assert(queue@.actions[base + j].channel_id == rows[j].channel_id@);
            assert(subs@.contains_key(rows[j].channel_id@));
        }
        assert(bound as int == spec_sat_add(now, window));
        lemma_batch_covers_rows(
            old(queue)@.actions,
            queue@.actions,
            rows,
            subs@,
            spec_sat_add(now, window),
        );
    }
}

/// Sleeping what `refresh_sleep_millis` computes never oversleeps: at the
/// instant the scheduler wakes, the lease it slept towards is inside the
/// renewal window, so it is refreshed at least `delay` before it truly
/// expires.
pub proof fn lemma_sleep_wakes_inside_window(expiration: i64, now: i64, window: i64, delay: i64)
    requires
        0 <= delay <= window,
        expiration - now - (window - delay) <= i64::MAX,
    ensures
        expiration - (now + clamp_to_millis(expiration - now - (window - delay))) <= window
            - delay,
{
}

/// A lease already inside the renewal window — `expiration - now` at most
/// `window - delay`, with a positive safety margin `delay` — lies strictly
/// before the bound the scheduler's next tick queries, so that tick enqueues
/// exactly one `Refresh` for its channel.
pub proof fn lemma_due_lease_is_refreshed(expiration: i64, now: i64, window: i64, delay: i64)
    requires
        0 < delay <= window,
        now + window <= i64::MAX,
        expiration - now <= window - delay,
    ensures
        expiration < spec_sat_add(now, window),
{
}

} // verus!
