use vstd::prelude::*;

use crate::actions::SubscriptionAction;
use crate::registry::{ActiveSubscriptions, Subscription};

verus! {

/// One queued action: immutable once written, identified by `id`, which the
/// queue assigns on insert.
#[derive(Debug, Clone)]
pub struct QueuedAction {
    pub id: u64,
    pub channel_id: String,
    pub action: SubscriptionAction,
    pub enqueued_at: i64,
}

/// The mathematical image of a queued action.
pub ghost struct ActionRecord {
    pub id: u64,
    pub channel_id: Seq<char>,
    pub action: SubscriptionAction,
    pub enqueued_at: i64,
}

impl View for QueuedAction {
    type V = ActionRecord;

    open spec fn view(&self) -> ActionRecord {
        ActionRecord {
            id: self.id,
            channel_id: self.channel_id@,
            action: self.action,
            enqueued_at: self.enqueued_at,
        }
    }
}

/// The recorded outcome of one action.  Its presence marks the action as
/// processed; `error` carries the failure text of the hub call, or `None`
/// on success.
#[derive(Debug, Clone)]
pub struct ActionResult {
    pub queue_id: u64,
    pub error: Option<String>,
    pub completed_at: i64,
}

/// The mathematical image of a recorded outcome.
pub ghost struct ResultRecord {
    pub queue_id: u64,
    pub error: Option<Seq<char>>,
    pub completed_at: i64,
}

impl View for ActionResult {
    type V = ResultRecord;

    open spec fn view(&self) -> ResultRecord {
        ResultRecord {
            queue_id: self.queue_id,
            error: match self.error {
                Some(ref e) => Some(e@),
                None => None,
            },
            completed_at: self.completed_at,
        }
    }
}

/// The mathematical image of the whole queue: the append-only action log,
/// the result rows written so far, and the coalescing wake flag handed to
/// the consumer.
pub ghost struct QueueState {
    pub actions: Seq<ActionRecord>,
    pub results: Seq<ResultRecord>,
    pub wake: bool,
}

/// Whether an action with this id has been enqueued.
pub open spec fn has_action(s: QueueState, id: u64) -> bool {
    exists|i: int| 0 <= i < s.actions.len() && s.actions[i].id == id
}

/// Whether a result row has been written for this id.
pub open spec fn has_result(s: QueueState, id: u64) -> bool {
    exists|i: int| 0 <= i < s.results.len() && s.results[i].queue_id == id
}

/// An action is pending when it exists and no result has been written.
pub open spec fn is_pending(s: QueueState, id: u64) -> bool {
    has_action(s, id) && !has_result(s, id)
}

/// The test a pending action satisfies: no result row yet.
pub open spec fn pending_pred(s: QueueState) -> spec_fn(ActionRecord) -> bool {
    |a: ActionRecord| !has_result(s, a.id)
}

/// The pending actions, in enqueue order.
pub open spec fn pending_of(s: QueueState) -> Seq<ActionRecord> {
    s.actions.filter(pending_pred(s))
}

/// The durable queue of subscription-management actions, with the result
/// row of each processed action.  Producers enqueue and raise the wake
/// flag; the consumer drains every pending action and records exactly one
/// result per action.
#[derive(Debug)]
pub struct SubscriptionQueue {
    actions: Vec<QueuedAction>,
    results: Vec<ActionResult>,
    wake: bool,
}

/// A pending action joined with the registry row for its channel, if any.
#[derive(Debug, Clone)]
pub struct SubscriptionQueueItem {
    pub queue_item: QueuedAction,
    pub active_subscription: Option<Subscription>,
}

impl View for SubscriptionQueue {
    type V = QueueState;

    closed spec fn view(&self) -> QueueState {
        QueueState {
            actions: self.actions@.map_values(|a: QueuedAction| a@),
            results: self.results@.map_values(|r: ActionResult| r@),
            wake: self.wake,
        }
    }
}

impl SubscriptionQueue {
    #[verifier::type_invariant]
    spec fn wf(self) -> bool {
        &&& forall|i: int|
            0 <= i < self.actions@.len() ==> (#[trigger] self.actions@[i].id) == i as u64
        &&& forall|i: int, j: int|
            0 <= i < j < self.results@.len() ==> self.results@[i].queue_id
                != self.results@[j].queue_id
        &&& forall|i: int|
            0 <= i < self.results@.len() ==> ((#[trigger] self.results@[i].queue_id) as int)
                < self.actions@.len()
    }

    /// An empty queue with the wake flag lowered.
    pub fn new() -> (r: Self)
        ensures
            r@.actions == Seq::<ActionRecord>::empty(),
            r@.results == Seq::<ResultRecord>::empty(),
            !r@.wake,
    {
        let r = SubscriptionQueue { actions: Vec::new(), results: Vec::new(), wake: false };
        proof {
            assert(r@.actions =~= Seq::<ActionRecord>::empty());
            assert(r@.results =~= Seq::<ResultRecord>::empty());
        }
        r
    }

    /// Enqueue one action per `(channel_id, action)` pair, in order, then
    /// raise the wake flag once for the whole batch.  Every new action gets
    /// a fresh id and is pending; existing rows are untouched.
    pub fn add_actions(&mut self, pairs: Vec<(String, SubscriptionAction)>, now: i64)
        ensures
            final(self)@.results == old(self)@.results,
            final(self)@.wake,
            final(self)@.actions.len() == old(self)@.actions.len() + pairs@.len(),
            forall|k: int|
                0 <= k < old(self)@.actions.len() ==> final(self)@.actions[k] == old(
                    self,
                )@.actions[k],
            forall|k: int|
                0 <= k < pairs@.len() ==> {
                    let a = #[trigger] final(self)@.actions[old(self)@.actions.len() + k];
                    &&& a.channel_id == pairs@[k].0@
                    &&& a.action == pairs@[k].1
                    &&& a.enqueued_at == now
                    &&& !has_action(old(self)@, a.id)
                    &&& is_pending(final(self)@, a.id)
                },
            forall|k1: int, k2: int|
                0 <= k1 < k2 < pairs@.len() ==> (#[trigger] final(self)@.actions[old(
                    self,
                )@.actions.len() + k1]).id != (#[trigger] final(self)@.actions[old(
                    self,
                )@.actions.len() + k2]).id,
            forall|id: u64| has_action(old(self)@, id) ==> has_action(final(self)@, id),
            forall|id: u64| is_pending(old(self)@, id) ==> is_pending(final(self)@, id),
    {
        proof {
            use_type_invariant(&*self);
        }
        let mut taken = SubscriptionQueue::new();
        core::mem::swap(&mut taken, self);
        let SubscriptionQueue { mut actions, results, wake: _ } = taken;
        let ghost base = actions@.len() as int;
        let mut k: usize = 0;
        while k < pairs.len()
            invariant
                k <= pairs@.len(),
                base == old(self)@.actions.len(),
                actions@.len() == base + k,
                forall|i: int|
                    0 <= i < actions@.len() ==> (#[trigger] actions@[i].id) == i as u64,
                forall|i: int| 0 <= i < base ==> actions@[i]@ == old(self)@.actions[i],
                forall|j: int|
                    0 <= j < k ==> {
                        let a = #[trigger] actions@[base + j]@;
                        &&& a.channel_id == pairs@[j].0@
                        &&& a.action == pairs@[j].1
                        &&& a.enqueued_at == now
                    },
            decreases pairs@.len() - k,
        {
            let ghost prev = actions@;
            let id = actions.len() as u64;
            let channel_id = pairs[k].0.clone();
            let action = pairs[k].1;
            let row = QueuedAction { id, channel_id, action, enqueued_at: now };
            actions.push(row);
            proof {
                assert forall|j: int| 0 <= j < k + 1 implies {
                    let a = #[trigger] actions@[base + j]@;
                    &&& a.channel_id == pairs@[j].0@
                    &&& a.action == pairs@[j].1
                    &&& a.enqueued_at == now
                } by {
                    if j < k as int {
                        assert(actions@[base + j] == prev[base + j]);
                        assert(prev[base + j]@.channel_id == pairs@[j].0@);
                    } else {
                        assert(actions@[base + j] == row);
                    }
                }
            }
            k += 1;
        }
        let total = actions.len();
        proof {
            assert(total <= usize::MAX);
            assert(base + pairs@.len() <= u64::MAX);
        }
        *self = SubscriptionQueue { actions, results, wake: true };
        proof {
            use_type_invariant(&*self);
            assert(self@.results =~= old(self)@.results);
            assert forall|k1: int, k2: int| 0 <= k1 < k2 < pairs@.len() implies (#[trigger] self@
                .actions[base + k1]).id != (#[trigger] self@.actions[base + k2]).id by {
                assert(self@.actions[base + k1] == self.actions@[base + k1]@);
                assert(self@.actions[base + k2] == self.actions@[base + k2]@);
                assert(self.actions@[base + k1].id == (base + k1) as u64);
                assert(self.actions@[base + k2].id == (base + k2) as u64);
            }
            assert forall|k: int| 0 <= k < old(self)@.actions.len() implies self@.actions[k]
                == old(self)@.actions[k] by {
                assert(self@.actions[k] == self.actions@[k]@);
            }
            assert forall|k: int| 0 <= k < pairs@.len() implies {
                let a = #[trigger] self@.actions[old(self)@.actions.len() + k];
                &&& a.channel_id == pairs@[k].0@
                &&& a.action == pairs@[k].1
                &&& a.enqueued_at == now
                &&& !has_action(old(self)@, a.id)
                &&& is_pending(self@, a.id)
            } by {
                let a = self@.actions[base + k];
                assert(a == self.actions@[base + k]@);
                assert(a.id == (base + k) as u64);
                if has_action(old(self)@, a.id) {
                    let i = choose|i: int|
                        0 <= i < old(self)@.actions.len() && old(self)@.actions[i].id == a.id;
                    assert(self.actions@[i]@ == old(self)@.actions[i]);
                    assert(self.actions@[i].id == i as u64);
                }
                assert(has_action(self@, a.id));
                if has_result(self@, a.id) {
                    let i = choose|i: int|
                        0 <= i < self@.results.len() && self@.results[i].queue_id == a.id;
                    assert(self@.results[i] == self.results@[i]@);
                    assert((self.results@[i].queue_id as int) < base);
                }
            }
            assert forall|id: u64| has_action(old(self)@, id) implies has_action(
                self@,
                id,
            ) by {
                let i = choose|i: int|
                    0 <= i < old(self)@.actions.len() && old(self)@.actions[i].id == id;
                assert(self@.actions[i].id == id);
            }
            assert forall|id: u64| is_pending(old(self)@, id) implies is_pending(
                self@,
                id,
            ) by {
                let i = choose|i: int|
                    0 <= i < old(self)@.actions.len() && old(self)@.actions[i].id == id;
                assert(self@.actions[i].id == id);
                if has_result(self@, id) {
                    let j = choose|j: int|
                        0 <= j < self@.results.len() && self@.results[j].queue_id == id;
                    assert(old(self)@.results[j].queue_id == id);
                }
            }
        }
    }

    /// Lower the wake flag and report whether it was raised: the coalescing
    /// "something changed" signal the consumer blocks on.  Any number of
    /// batches between two calls collapse into one `true`.
    pub fn take_wake(&mut self) -> (r: bool)
        ensures
            r == old(self)@.wake,
            !final(self)@.wake,
            final(self)@.actions == old(self)@.actions,
            final(self)@.results == old(self)@.results,
    {
        proof {
            use_type_invariant(&*self);
        }
        let r = self.wake;
        let mut taken = SubscriptionQueue::new();
        core::mem::swap(&mut taken, self);
        let SubscriptionQueue { actions, results, wake: _ } = taken;
        *self = SubscriptionQueue { actions, results, wake: false };
        r
    }

    /// Whether the action `id` is still awaiting its result row.
    pub fn is_pending(&self, id: u64) -> (r: bool)
        ensures
            r == is_pending(self@, id),
    {
        proof {
            use_type_invariant(&*self);
        }
        if !(id < self.actions.len() as u64) {
            proof {
                if has_action(self@, id) {
                    let i = choose|i: int|
                        0 <= i < self@.actions.len() && self@.actions[i].id == id;
                    assert(self.actions@[i].id == i as u64);
                }
            }
            return false;
        }
        proof {
            assert(self@.actions[id as int] == self.actions@[id as int]@);
            assert(self@.actions[id as int].id == id);
        }
        let mut i: usize = 0;
        while i < self.results.len()
            invariant
                i <= self.results@.len(),
                forall|j: int| 0 <= j < i ==> (#[trigger] self.results@[j]).queue_id != id,
            decreases self.results@.len() - i,
        {
            if self.results[i].queue_id == id {
                proof {
                    assert(self@.results[i as int].queue_id == id);
                }
                return false;
            }
            i += 1;
        }
        proof {
            if has_result(self@, id) {
                let j = choose|j: int|
                    0 <= j < self@.results.len() && self@.results[j].queue_id == id;
                assert(self.results@[j]@.queue_id == id);
            }
        }
        true
    }

    /// How many result rows have been written.
    pub fn result_count(&self) -> (n: usize)
        ensures
            n == self@.results.len(),
    {
        self.results.len()
    }

    /// The result row written for action `id`, if any.  At most one row per
    /// action ever exists.
    pub fn get_result(&self, id: u64) -> (r: Option<ActionResult>)
        ensures
            match r {
                Some(res) => res@.queue_id == id && exists|i: int|
                    0 <= i < self@.results.len() && #[trigger] self@.results[i] == res@,
                None => !has_result(self@, id),
            },
    {
        proof {
            use_type_invariant(&*self);
        }
        let mut i: usize = 0;
        while i < self.results.len()
            invariant
                i <= self.results@.len(),
                forall|j: int| 0 <= j < i ==> (#[trigger] self.results@[j]).queue_id != id,
            decreases self.results@.len() - i,
        {
            if self.results[i].queue_id == id {
                let row = ActionResult {
                    queue_id: self.results[i].queue_id,
                    error: match &self.results[i].error {
                        Some(e) => Some(e.clone()),
                        None => None,
                    },
                    completed_at: self.results[i].completed_at,
                };
                proof {
                    assert(row@ == self@.results[i as int]);
                }
                return Some(row);
            }
            i += 1;
        }
        proof {
            if has_result(self@, id) {
                let j = choose|j: int|
                    0 <= j < self@.results.len() && self@.results[j].queue_id == id;
                assert(self.results@[j]@.queue_id == id);
            }
        }
        None
    }

    /// Every pending action, in enqueue order, each joined with the current
    /// registry row for its channel (present or absent).
    pub fn get_pending_actions(&self, subs: &ActiveSubscriptions) -> (r: Vec<
        SubscriptionQueueItem,
    >)
        ensures
            r@.map_values(|it: SubscriptionQueueItem| it.queue_item@) == pending_of(self@),
            forall|k: int|
                0 <= k < r@.len() ==> {
                    let it = #[trigger] r@[k];
                    match it.active_subscription {
                        Some(sub) => subs@.contains_key(it.queue_item@.channel_id)
                            && sub.channel_id@ == it.queue_item@.channel_id
                            && sub.expiration == subs@[it.queue_item@.channel_id],
                        None => !subs@.contains_key(it.queue_item@.channel_id),
                    }
                },
            forall|k: int|
                0 <= k < r@.len() ==> is_pending(self@, (#[trigger] r@[k]).queue_item@.id),
            forall|k1: int, k2: int|
                0 <= k1 < k2 < r@.len() ==> (#[trigger] r@[k1]).queue_item@.id != (
                #[trigger] r@[k2]).queue_item@.id,
    {
        proof {
            use_type_invariant(&*self);
        }
        let mut r: Vec<SubscriptionQueueItem> = Vec::new();
        let mut i: usize = 0;
        while i < self.actions.len()
            invariant
                i <= self.actions@.len(),
                self@.actions.len() == self.actions@.len(),
                forall|j: int|
                    0 <= j < self.actions@.len() ==> (#[trigger] self.actions@[j].id) == j as u64,
                r@.map_values(|it: SubscriptionQueueItem| it.queue_item@)
                    == self@.actions.take(i as int).filter(pending_pred(self@)),
                forall|k: int|
                    0 <= k < r@.len() ==> {
                        let it = #[trigger] r@[k];
                        match it.active_subscription {
                            Some(sub) => subs@.contains_key(it.queue_item@.channel_id)
                                && sub.channel_id@ == it.queue_item@.channel_id
                                && sub.expiration == subs@[it.queue_item@.channel_id],
                            None => !subs@.contains_key(it.queue_item@.channel_id),
                        }
                    },
                forall|k: int|
                    0 <= k < r@.len() ==> is_pending(self@, (#[trigger] r@[k]).queue_item@.id),
                forall|k: int|
                    0 <= k < r@.len() ==> ((#[trigger] r@[k]).queue_item@.id as int) < i,
                forall|k1: int, k2: int|
                    0 <= k1 < k2 < r@.len() ==> (#[trigger] r@[k1]).queue_item@.id != (
                    #[trigger] r@[k2]).queue_item@.id,
            decreases self.actions@.len() - i,
        {
            let ghost prefix = self@.actions.take(i as int);
            let ghost mapped = r@.map_values(|it: SubscriptionQueueItem| it.queue_item@);
            let pending = self.is_pending(self.actions[i].id);
            proof {
                reveal(Seq::filter);
                assert(self@.actions[i as int] == self.actions@[i as int]@);
                assert(has_action(self@, self.actions@[i as int].id));
                assert(self@.actions.take(i + 1).drop_last() =~= prefix);
                assert(self@.actions.take(i + 1).last() == self@.actions[i as int]);
                assert(pending_pred(self@)(self@.actions[i as int]) == !has_result(
                    self@,
                    self@.actions[i as int].id,
                ));
            }
            if pending {
                let queue_item = self.actions[i].clone_row();
                let active_subscription = subs.get(&queue_item.channel_id);
                let item = SubscriptionQueueItem { queue_item, active_subscription };
                proof {
                    assert(item.queue_item@ == self@.actions[i as int]);
                }
                r.push(item);
                proof {
                    reveal(Seq::filter);
                    assert(r@.map_values(|it: SubscriptionQueueItem| it.queue_item@)
                        =~= mapped.push(self@.actions[i as int]));
                    assert(self@.actions.take(i + 1).filter(pending_pred(self@))
                        == prefix.filter(pending_pred(self@)).push(self@.actions[i as int]));
                }
            } else {
                proof {
                    reveal(Seq::filter);
                    assert(self@.actions.take(i + 1).filter(pending_pred(self@))
                        == prefix.filter(pending_pred(self@)));
                }
            }
            i += 1;
        }
        proof {
            assert(self@.actions.take(self.actions@.len() as int) =~= self@.actions);
        }
        r
    }
}

impl QueuedAction {
    /// A field-for-field copy of the row.
    fn clone_row(&self) -> (r: Self)
        ensures
            r@ == self@,
    {
        QueuedAction {
            id: self.id,
            channel_id: self.channel_id.clone(),
            action: self.action,
            enqueued_at: self.enqueued_at,
        }
    }
}

impl SubscriptionQueueItem {
    /// A field-for-field copy of the item.
    pub fn clone_item(&self) -> (r: Self)
        ensures
            r.queue_item@ == self.queue_item@,
            r.active_subscription is Some <==> self.active_subscription is Some,
    {
        SubscriptionQueueItem {
            queue_item: self.queue_item.clone_row(),
            active_subscription: match &self.active_subscription {
                Some(s) => Some(
                    Subscription { channel_id: s.channel_id.clone(), expiration: s.expiration },
                ),
                None => None,
            },
        }
    }

    /// Record the outcome of processing this item: exactly one result row
    /// is appended for the action, `error` carrying the failure text of the
    /// hub call, or `None` on success.
    pub fn process(self, queue: &mut SubscriptionQueue, outcome: Result<(), String>, now: i64)
        requires
            is_pending(old(queue)@, self.queue_item.id),
        ensures
            final(queue)@.actions == old(queue)@.actions,
            final(queue)@.wake == old(queue)@.wake,
            final(queue)@.results == old(queue)@.results.push(
                ResultRecord {
                    queue_id: self.queue_item.id,
                    error: match outcome {
                        Ok(_) => None,
                        Err(e) => Some(e@),
                    },
                    completed_at: now,
                },
            ),
    {
        queue.record_result(self.queue_item.id, outcome, now)
    }
}

impl SubscriptionQueue {
    /// Append the result row for action `id`.
    fn record_result(&mut self, id: u64, outcome: Result<(), String>, now: i64)
        requires
            is_pending(old(self)@, id),
        ensures
            final(self)@.actions == old(self)@.actions,
            final(self)@.wake == old(self)@.wake,
            final(self)@.results == old(self)@.results.push(
                ResultRecord {
                    queue_id: id,
                    error: match outcome {
                        Ok(_) => None,
                        Err(e) => Some(e@),
                    },
                    completed_at: now,
                },
            ),
    {
        proof {
            use_type_invariant(&*self);
        }
        let error = match outcome {
            Ok(()) => None,
            Err(e) => Some(e),
        };
        let row = ActionResult { queue_id: id, error, completed_at: now };
        let ghost record = row@;
        let mut taken = SubscriptionQueue::new();
        core::mem::swap(&mut taken, self);
        let SubscriptionQueue { actions, mut results, wake } = taken;
        proof {
            assert forall|j: int| 0 <= j < results@.len() implies (#[trigger] results@[j]).queue_id
                != id by {
                if results@[j].queue_id == id {
                    assert(old(self)@.results[j].queue_id == id);
                }
            }
            let i = choose|i: int|
                0 <= i < old(self)@.actions.len() && old(self)@.actions[i].id == id;
            assert(actions@[i]@ == old(self)@.actions[i]);
            assert(actions@[i].id == i as u64);
        }
        results.push(row);
        *self = SubscriptionQueue { actions, results, wake };
        proof {
            assert(self@.results =~= old(self)@.results.push(record));
            assert(self@.actions =~= old(self)@.actions);
        }
    }
}

} // verus!
