use vstd::prelude::*;

use crate::actions::SubscriptionAction;
use crate::queue::{
    has_result, is_pending, pending_of, ActionRecord, ResultRecord, SubscriptionQueue,
    SubscriptionQueueItem,
};
use crate::registry::ActiveSubscriptions;
use crate::topic::{feed_url_prefix, topic};

verus! {

use vstd::utf8::encode_utf8;

/// The operation named in an outbound hub request.
#[derive(Debug, Clone, Copy, PartialEq, Eq, Structural)]
pub enum Mode {
    Subscribe,
    Unsubscribe,
}

/// How the hub should verify an outbound request.
#[derive(Debug, Clone, Copy, PartialEq, Eq, Structural)]
pub enum Verify {
    Asynchronous,
    Synchronous,
}

/// One outbound request to the hub's subscribe endpoint.  Posting it only
/// asks for the change; the hub confirms asynchronously through the
/// inbound confirmation callback.
#[derive(Debug)]
pub struct HubRequest<'s> {
    pub topic: String,
    pub callback: &'s str,
    pub mode: Mode,
    pub verify: Verify,
}

/// The hub mode a queued action translates to, given whether the registry
/// still holds the channel.  `None` means no hub call is made: a refresh of
/// a channel with no active subscription is a successful no-op, since the
/// subscription must first exist via an explicit subscribe.
pub open spec fn spec_mode_for(action: SubscriptionAction, has_active: bool) -> Option<Mode> {
    match action {
        SubscriptionAction::Subscribe => Some(Mode::Subscribe),
        SubscriptionAction::Unsubscribe => Some(Mode::Unsubscribe),
        SubscriptionAction::Refresh => if has_active {
            Some(Mode::Subscribe)
        } else {
            None
        },
    }
}

/// The hub mode for an action, given whether the registry row is present.
pub fn mode_for(action: SubscriptionAction, has_active: bool) -> (r: Option<Mode>)
    ensures
        r == spec_mode_for(action, has_active),
{
    match action {
        SubscriptionAction::Subscribe => Some(Mode::Subscribe),
        SubscriptionAction::Unsubscribe => Some(Mode::Unsubscribe),
        SubscriptionAction::Refresh => if has_active {
            Some(Mode::Subscribe)
        } else {
            None
        },
    }
}

/// The hub request for one pending item, or `None` when the item needs no
/// hub call.  A refresh renews the lease by posting a subscribe.
pub fn prepare_request<'s>(item: &SubscriptionQueueItem, callback: &'s str) -> (r: Option<
    HubRequest<'s>,
>)
    ensures
        match r {
            Some(req) => {
                &&& Some(req.mode) == spec_mode_for(
                    item.queue_item.action,
                    item.active_subscription is Some,
                )
                &&& req.topic@ == feed_url_prefix() + item.queue_item.channel_id@
                &&& req.callback@ == callback@
                &&& req.verify == Verify::Synchronous
            },
            None => spec_mode_for(item.queue_item.action, item.active_subscription is Some)
                is None,
        },
{
    match mode_for(item.queue_item.action, item.active_subscription.is_some()) {
        Some(mode) => Some(
            HubRequest {
                topic: topic(item.queue_item.channel_id.as_str()),
                callback,
                mode,
                verify: Verify::Synchronous,
            },
        ),
        None => None,
    }
}

/// A byte that x-www-form-urlencoded leaves as it is: an ASCII letter or
/// digit, or one of `*`, `-`, `.`, `_`.
pub open spec fn form_unreserved(b: u8) -> bool {
    ||| (65 <= b <= 90)
    ||| (97 <= b <= 122)
    ||| (48 <= b <= 57)
    ||| b == 42
    ||| b == 45
    ||| b == 46
    ||| b == 95
}

/// The uppercase hex digit for a value below 16.
pub open spec fn hex_digit(x: int) -> char {
    if x < 10 {
        ((x + 48) as u8) as char
    } else {
        ((x + 55) as u8) as char
    }
}

/// One byte under x-www-form-urlencoded: kept, a space as `+`, anything
/// else as `%` and two uppercase hex digits.
pub open spec fn form_encoded_byte(b: u8) -> Seq<char> {
    if form_unreserved(b) {
        seq![b as char]
    } else if b == 32 {
        seq!['+']
    } else {
        seq!['%', hex_digit(b as int / 16), hex_digit(b as int % 16)]
    }
}

/// A byte string under x-www-form-urlencoded.
pub open spec fn form_encoded(s: Seq<u8>) -> Seq<char>
    decreases s.len(),
{
    if s.len() == 0 {
        Seq::empty()
    } else {
        form_encoded(s.drop_last()) + form_encoded_byte(s.last())
    }
}

/// The form name of a hub mode.
pub open spec fn mode_name(m: Mode) -> Seq<char> {
    match m {
        Mode::Subscribe => "subscribe"@,
        Mode::Unsubscribe => "unsubscribe"@,
    }
}

/// The form name of a verification style.
pub open spec fn verify_name(v: Verify) -> Seq<char> {
    match v {
        Verify::Asynchronous => "async"@,
        Verify::Synchronous => "sync"@,
    }
}

/// The form-encoded body of a hub request, the four fields in order, the
/// URL values percent-encoded.
pub open spec fn spec_form_body(
    topic: Seq<u8>,
    callback: Seq<u8>,
    mode: Mode,
    verify: Verify,
) -> Seq<char> {
    "hub.topic="@ + form_encoded(topic) + "&hub.callback="@ + form_encoded(callback)
        + "&hub.mode="@ + mode_name(mode) + "&hub.verify="@ + verify_name(verify)
}

/// Relies on `String::push`: appends exactly the given character.
#[verifier::external_body]
fn push_char(s: &mut String, c: char)
    ensures
        final(s)@ == old(s)@ + seq![c],
{
    s.push(c);
}

/// Append `bytes` form-encoded.
fn append_form_encoded(out: &mut String, bytes: &[u8])
    ensures
        final(out)@ == old(out)@ + form_encoded(bytes@),
{
    let n = bytes.len();
    let mut i: usize = 0;
    while i < n
        invariant
            i <= n,
            n == bytes@.len(),
            out@ == old(out)@ + form_encoded(bytes@.take(i as int)),
        decreases n - i,
    {
        let b = bytes[i];
        let ghost prefix = bytes@.take(i as int);
        proof {
            assert(bytes@.take(i + 1).drop_last() =~= prefix);
            assert(bytes@.take(i + 1).last() == bytes@[i as int]);
        }
        if (65 <= b && b <= 90) || (97 <= b && b <= 122) || (48 <= b && b <= 57) || b == 42
            || b == 45 || b == 46 || b == 95 {
            push_char(out, b as char);
            proof {
                assert(form_encoded_byte(b) =~= seq![b as char]);
            }
        } else if b == 32 {
            push_char(out, '+');
            proof {
                assert(form_encoded_byte(b) =~= seq!['+']);
            }
        } else {
            let hi = b / 16;
            let lo = b % 16;
            let hi_c: char = if hi < 10 {
                (hi + 48) as char
            } else {
                (hi + 55) as char
            };
            let lo_c: char = if lo < 10 {
                (lo + 48) as char
            } else {
                (lo + 55) as char
            };
            push_char(out, '%');
            push_char(out, hi_c);
            push_char(out, lo_c);
            proof {
                assert(hi_c == hex_digit(b as int / 16));
                assert(lo_c == hex_digit(b as int % 16));
                assert(form_encoded_byte(b) =~= seq!['%', hi_c, lo_c]);
            }
        }
        proof {
            assert(out@ =~= old(out)@ + form_encoded(bytes@.take(i + 1)));
        }
        i += 1;
    }
    proof {
        assert(bytes@.take(n as int) =~= bytes@);
    }
}

/// The x-www-form-urlencoded body posted to the hub's subscribe endpoint
/// for this request.
pub fn form_body(req: &HubRequest) -> (r: String)
    ensures
        r@ == spec_form_body(encode_utf8(req.topic@), encode_utf8(req.callback@), req.mode, req.verify),
{
    let mut out = String::from_str("hub.topic=");
    append_form_encoded(&mut out, req.topic.as_str().as_bytes());
    out.append("&hub.callback=");
    append_form_encoded(&mut out, req.callback.as_bytes());
    out.append("&hub.mode=");
    match req.mode {
        Mode::Subscribe => out.append("subscribe"),
        Mode::Unsubscribe => out.append("unsubscribe"),
    }
    out.append("&hub.verify=");
    match req.verify {
        Verify::Asynchronous => out.append("async"),
        Verify::Synchronous => out.append("sync"),
    }
    proof {
        assert(out@ =~= spec_form_body(
            encode_utf8(req.topic@),
            encode_utf8(req.callback@),
            req.mode,
            req.verify,
        ));
    }
    out
}

/// The result row one drain pass writes for the pending action `a`: the hub
/// call's error text where a call is made, and a successful no-op where none
/// is.
pub open spec fn drained_result(
    a: ActionRecord,
    subs: Map<Seq<char>, i64>,
    outcome: Result<(), Seq<char>>,
    now: i64,
) -> ResultRecord {
    ResultRecord {
        queue_id: a.id,
        error: if spec_mode_for(a.action, subs.contains_key(a.channel_id)) is Some {
            match outcome {
                Ok(_) => None,
                Err(e) => Some(e),
            }
        } else {
            None
        },
        completed_at: now,
    }
}

/// The error text of a hub call outcome.
pub open spec fn outcome_view(o: Result<(), String>) -> Result<(), Seq<char>> {
    match o {
        Ok(_) => Ok(()),
        Err(e) => Err(e@),
    }
}

/// A refresh of a channel the registry no longer holds drains to a
/// successful result, whatever outcome the (never issued) hub call would
/// have had.
pub proof fn lemma_refresh_without_subscription_is_noop(
    a: ActionRecord,
    subs: Map<Seq<char>, i64>,
    outcome: Result<(), Seq<char>>,
    now: i64,
)
    requires
        a.action == SubscriptionAction::Refresh,
        !subs.contains_key(a.channel_id),
    ensures
        (spec_mode_for(a.action, subs.contains_key(a.channel_id)) is None),
        drained_result(a, subs, outcome, now) == (ResultRecord {
            queue_id: a.id,
            error: None::<Seq<char>>,
            completed_at: now,
        }),
{
}

/// One full drain of the pending set, with `outcomes[k]` the outcome of the
/// hub call for the `k`-th pending action (ignored where no call is made).
/// Exactly one result row is appended per pending action, none twice, and
/// every action that was pending is pending no longer.  The bounded
/// concurrency of the hub calls only schedules them; the rows written do
/// not depend on completion order, since each is keyed by its action id.
pub fn drain_pending(
    queue: &mut SubscriptionQueue,
    subs: &ActiveSubscriptions,
    outcomes: Vec<Result<(), String>>,
    now: i64,
)
    requires
        outcomes@.len() == pending_of(old(queue)@).len(),
    ensures
        final(queue)@.actions == old(queue)@.actions,
        final(queue)@.wake == old(queue)@.wake,
        final(queue)@.results.len() == old(queue)@.results.len() + pending_of(
            old(queue)@,
        ).len(),
        forall|j: int|
            0 <= j < old(queue)@.results.len() ==> final(queue)@.results[j] == old(
                queue,
            )@.results[j],
        forall|k: int|
            0 <= k < pending_of(old(queue)@).len() ==> final(queue)@.results[old(
                queue,
            )@.results.len() + k] == drained_result(
                #[trigger] pending_of(old(queue)@)[k],
                subs@,
                outcome_view(outcomes@[k]),
                now,
            ),
        forall|id: u64| is_pending(old(queue)@, id) ==> !is_pending(final(queue)@, id),
        // no action is recorded twice in one drain
        forall|k1: int, k2: int|
            0 <= k1 < k2 < pending_of(old(queue)@).len()
                ==> (#[trigger] final(queue)@.results[old(queue)@.results.len() + k1]).queue_id
                != (#[trigger] final(queue)@.results[old(queue)@.results.len() + k2]).queue_id,
{
    let ghost orig = old(queue)@;
    let ghost pending = pending_of(orig);
    let ghost all_outcomes = outcomes@;
    let items = queue.get_pending_actions(subs);
    let ghost n = pending.len() as int;
    proof {
        assert(items@.map_values(|it: SubscriptionQueueItem| it.queue_item@) =~= pending);
        assert(items@.len() == n);
    }
    let mut k: usize = 0;
    while k < items.len()
        invariant
            0 <= k <= n,
            items@.len() == n,
            outcomes@.len() == n,
            outcomes@ == all_outcomes,
            n == pending.len(),
            pending == pending_of(orig),
            forall|j: int|
                0 <= j < n ==> (#[trigger] items@[j]).queue_item@ == pending[j],
            forall|j: int|
                0 <= j < n ==> {
                    let it = #[trigger] items@[j];
                    (it.active_subscription is Some) == subs@.contains_key(
                        it.queue_item@.channel_id,
                    )
                },
            forall|j1: int, j2: int|
                0 <= j1 < j2 < n ==> (#[trigger] items@[j1]).queue_item@.id != (
                #[trigger] items@[j2]).queue_item@.id,
            queue@.actions == orig.actions,
            queue@.wake == orig.wake,
            queue@.results.len() == orig.results.len() + k,
            forall|j: int| 0 <= j < orig.results.len() ==> queue@.results[j] == orig.results[j],
            forall|j: int|
                0 <= j < k ==> queue@.results[orig.results.len() + j] == drained_result(
                    #[trigger] pending[j],
                    subs@,
                    outcome_view(all_outcomes[j]),
                    now,
                ),
            forall|j: int| k <= j < n ==> is_pending(queue@, (#[trigger] items@[j]).queue_item@.id),
        decreases n - k,
    {
        let item = items[k].clone_item();
        let chosen: Result<(), String> = match mode_for(
            item.queue_item.action,
            item.active_subscription.is_some(),
        ) {
            Some(_) => match &outcomes[k] {
                Ok(_) => Ok(()),
                Err(e) => Err(e.clone()),
            },
            None => Ok(()),
        };
        let ghost results_before = queue@.results;
        let ghost id = item.queue_item@.id;
        proof {
            assert(item.queue_item@ == pending[k as int]);
        }
        item.process(queue, chosen, now);
        proof {
            assert(queue@.results == results_before.push(
                drained_result(pending[k as int], subs@, outcome_view(all_outcomes[k as int]), now),
            ));
            assert forall|j: int| k + 1 <= j < n implies is_pending(
                queue@,
                (#[trigger] items@[j]).queue_item@.id,
            ) by {
                let jid = items@[j].queue_item@.id;
                assert(jid != id);
                if has_result(queue@, jid) {
                    let x = choose|x: int|
                        0 <= x < queue@.results.len() && queue@.results[x].queue_id == jid;
                    assert(x < queue@.results.len() - 1);
                    assert(results_before[x].queue_id == jid);
                }
            }
        }
        k += 1;
    }
    proof {
        assert forall|k1: int, k2: int|
            0 <= k1 < k2 < n implies (#[trigger] queue@.results[orig.results.len()
            + k1]).queue_id != (#[trigger] queue@.results[orig.results.len() + k2]).queue_id by {
            assert(items@[k1].queue_item@ == pending[k1]);
            assert(items@[k2].queue_item@ == pending[k2]);
            assert(queue@.results[orig.results.len() + k1] == drained_result(
                pending[k1],
                subs@,
                outcome_view(all_outcomes[k1]),
                now,
            ));
            assert(queue@.results[orig.results.len() + k2] == drained_result(
                pending[k2],
                subs@,
                outcome_view(all_outcomes[k2]),
                now,
            ));
        }
        assert forall|id: u64| is_pending(orig, id) implies !is_pending(queue@, id) by {
            broadcast use vstd::seq_lib::group_filter_ensures;

            let i = choose|i: int| 0 <= i < orig.actions.len() && orig.actions[i].id == id;
            let a = orig.actions[i];
            let pred = crate::queue::pending_pred(orig);
            assert(pred(a));
            assert(orig.actions.filter(pred).contains(a));
            let j = choose|j: int| 0 <= j < pending.len() && pending[j] == a;
            assert(queue@.results[orig.results.len() + j] == drained_result(
                pending[j],
                subs@,
                outcome_view(all_outcomes[j]),
                now,
            ));
            assert(has_result(queue@, id));
        }
    }
}

} // verus!
