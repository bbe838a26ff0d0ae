use vstd::prelude::*;

verus! {

/// One registry row: a channel believed subscribed at the hub, with the
/// instant its lease expires (milliseconds since the Unix epoch).
#[derive(Debug, Clone)]
pub struct Subscription {
    pub channel_id: String,
    pub expiration: i64,
}

/// Whether some row of `rows` carries the channel id `id`.
pub open spec fn has_channel(rows: Seq<Subscription>, id: Seq<char>) -> bool {
    exists|i: int| 0 <= i < rows.len() && rows[i].channel_id@ == id
}

/// The index of the row carrying `id`; meaningful only when `has_channel`
/// holds and the ids are distinct.
pub open spec fn channel_index(rows: Seq<Subscription>, id: Seq<char>) -> int {
    choose|i: int| 0 <= i < rows.len() && rows[i].channel_id@ == id
}

/// No two rows share a channel id.
pub open spec fn row_ids_unique(rows: Seq<Subscription>) -> bool {
    forall|i: int, j: int|
        0 <= i < j < rows.len() ==> rows[i].channel_id@ != rows[j].channel_id@
}

/// With distinct ids, `channel_index` is the one index carrying `id`.
proof fn lemma_channel_index(rows: Seq<Subscription>, id: Seq<char>, i: int)
    requires
        row_ids_unique(rows),
        0 <= i < rows.len(),
        rows[i].channel_id@ == id,
    ensures
        channel_index(rows, id) == i,
{
    let j = channel_index(rows, id);
    assert(0 <= j < rows.len() && rows[j].channel_id@ == id);
    if i < j {
        assert(rows[i].channel_id@ != rows[j].channel_id@);
    } else if j < i {
        assert(rows[j].channel_id@ != rows[i].channel_id@);
    }
}

/// The set of subscriptions believed currently active at the hub, keyed by
/// channel id.  It is the single source of truth for "currently subscribed";
/// only the confirmation handler writes it, never the scheduler or the
/// reconciliation loop.
///
/// Its view is the map from channel id to lease expiration.
#[derive(Debug)]
pub struct ActiveSubscriptions {
    rows: Vec<Subscription>,
}

impl View for ActiveSubscriptions {
    type V = Map<Seq<char>, i64>;

    closed spec fn view(&self) -> Map<Seq<char>, i64> {
        Map::new(
            |id: Seq<char>| has_channel(self.rows@, id),
            |id: Seq<char>| self.rows@[channel_index(self.rows@, id)].expiration,
        )
    }
}

impl ActiveSubscriptions {
    #[verifier::type_invariant]
    spec fn wf(self) -> bool {
        row_ids_unique(self.rows@)
    }

    /// An empty registry.
    pub fn new() -> (r: Self)
        ensures
            r@ == Map::<Seq<char>, i64>::empty(),
    {
        let r = ActiveSubscriptions { rows: Vec::new() };
        proof {
            assert(r@ =~= Map::<Seq<char>, i64>::empty());
        }
        r
    }

    /// The index of the row for `channel_id`, if one exists.
    fn position_of(&self, channel_id: &String) -> (r: Option<usize>)
        ensures
            match r {
                Some(i) => i < self.rows@.len() && self.rows@[i as int].channel_id@
                    == channel_id@,
                None => !has_channel(self.rows@, channel_id@),
            },
    {
        let mut i: usize = 0;
        while i < self.rows.len()
            invariant
                i <= self.rows@.len(),
                forall|j: int| 0 <= j < i ==> self.rows@[j].channel_id@ != channel_id@,
            decreases self.rows@.len() - i,
        {
            if self.rows[i].channel_id == *channel_id {
                return Some(i);
            }
            i += 1;
        }
        None
    }

    /// The registry row for `channel_id`, if one exists.
    pub fn get(&self, channel_id: &String) -> (r: Option<Subscription>)
        ensures
            match r {
                Some(sub) => self@.contains_key(channel_id@) && sub.channel_id@ == channel_id@
                    && sub.expiration == self@[channel_id@],
                None => !self@.contains_key(channel_id@),
            },
    {
        proof {
            use_type_invariant(&*self);
        }
        match self.position_of(channel_id) {
            Some(i) => {
                proof {
                    lemma_channel_index(self.rows@, channel_id@, i as int);
                }
                Some(
                    Subscription {
                        channel_id: self.rows[i].channel_id.clone(),
                        expiration: self.rows[i].expiration,
                    },
                )
            },
            None => None,
        }
    }

    /// Insert-or-update by channel id: after the call the registry maps
    /// `channel_id` to `expiration` and no other entry has changed.
    pub fn add_subscription(&mut self, channel_id: String, expiration: i64)
        ensures
            final(self)@ == old(self)@.insert(channel_id@, expiration),
    {
        proof {
            use_type_invariant(&*self);
        }
        let ghost old_rows = self.rows@;
        let pos = self.position_of(&channel_id);
        let mut rows: Vec<Subscription> = Vec::new();
        core::mem::swap(&mut rows, &mut self.rows);
        if let Some(i) = pos {
            rows.remove(i);
            proof {
                assert forall|a: int, b: int|
                    0 <= a < b < rows@.len() implies rows@[a].channel_id@
                    != rows@[b].channel_id@ by {
                    let a0 = if a < i { a } else { a + 1 };
                    let b0 = if b < i { b } else { b + 1 };
                    assert(old_rows[a0].channel_id@ != old_rows[b0].channel_id@);
                }
                assert forall|k: int| 0 <= k < rows@.len() implies rows@[k].channel_id@
                    != channel_id@ by {
                    let k0 = if k < i { k } else { k + 1 };
                    assert(rows@[k] == old_rows[k0]);
                    lemma_channel_index(old_rows, channel_id@, i as int);
                    if old_rows[k0].channel_id@ == channel_id@ {
                        lemma_channel_index(old_rows, channel_id@, k0);
                    }
                }
            }
        }
        let ghost kept = rows@;
        rows.push(Subscription { channel_id, expiration });
        proof {
            // kept: the old rows with any row for `channel_id` removed
            assert(row_ids_unique(rows@));
            assert forall|x: Seq<char>| #[trigger] has_channel(rows@, x)
                == (x == channel_id@ || has_channel(old_rows, x)) by {
                if has_channel(rows@, x) && x != channel_id@ {
                    let k = channel_index(rows@, x);
                    assert(kept[k].channel_id@ == x);
                    if pos is Some {
                        let i = pos->0 as int;
                        let k0 = if k < i { k } else { k + 1 };
                        assert(old_rows[k0].channel_id@ == x);
                    }
                }
                if x == channel_id@ {
                    assert(rows@[rows@.len() - 1].channel_id@ == x);
                }
                if has_channel(old_rows, x) && x != channel_id@ {
                    let k0 = channel_index(old_rows, x);
                    if pos is Some {
                        let i = pos->0 as int;
                        let k = if k0 < i { k0 } else { k0 - 1 };
                        assert(old_rows[k0].channel_id@ != channel_id@);
                        assert(k0 != i);
                        assert(rows@[k].channel_id@ == x);
                    } else {
                        assert(rows@[k0].channel_id@ == x);
                    }
                }
            }
            assert forall|x: Seq<char>| has_channel(rows@, x) implies
                rows@[channel_index(rows@, x)].expiration == old(self)@.insert(
                channel_id@,
                expiration,
            )[x] by {
                if x == channel_id@ {
                    lemma_channel_index(rows@, x, rows@.len() - 1);
                } else {
                    let k = channel_index(rows@, x);
                    assert(kept[k].channel_id@ == x);
                    let k0 = if pos is Some {
                        let i = pos->0 as int;
                        if k < i {
                            k
                        } else {
                            k + 1
                        }
                    } else {
                        k
                    };
                    assert(old_rows[k0].channel_id@ == x);
                    assert(old_rows[k0].expiration == rows@[k].expiration);
                    lemma_channel_index(old_rows, x, k0);
                    lemma_channel_index(rows@, x, k);
                }
            }
            assert(Map::new(
                |id: Seq<char>| has_channel(rows@, id),
                |id: Seq<char>| rows@[channel_index(rows@, id)].expiration,
            ) =~= old(self)@.insert(channel_id@, expiration));
        }
        self.rows = rows;
    }

    /// Delete by channel id: after the call the registry no longer maps
    /// `channel_id` and no other entry has changed.
    pub fn remove_subscription(&mut self, channel_id: String)
        ensures
            final(self)@ == old(self)@.remove(channel_id@),
    {
        proof {
            use_type_invariant(&*self);
        }
        let ghost old_rows = self.rows@;
        let pos = self.position_of(&channel_id);
        match pos {
            None => {
                proof {
                    assert(final(self)@ =~= old(self)@.remove(channel_id@));
                }
            },
            Some(i) => {
                let mut rows: Vec<Subscription> = Vec::new();
                core::mem::swap(&mut rows, &mut self.rows);
                rows.remove(i);
                proof {
                    assert forall|a: int, b: int|
                        0 <= a < b < rows@.len() implies rows@[a].channel_id@
                        != rows@[b].channel_id@ by {
                        let a0 = if a < i { a } else { a + 1 };
                        let b0 = if b < i { b } else { b + 1 };
                        assert(old_rows[a0].channel_id@ != old_rows[b0].channel_id@);
                    }
                    assert forall|x: Seq<char>| #[trigger] has_channel(rows@, x)
                        == (x != channel_id@ && has_channel(old_rows, x)) by {
                        if has_channel(rows@, x) {
                            let k = channel_index(rows@, x);
                            let k0 = if k < i { k } else { k + 1 };
                            assert(old_rows[k0].channel_id@ == x);
                            if x == channel_id@ {
                                lemma_channel_index(old_rows, channel_id@, i as int);
                                lemma_channel_index(old_rows, channel_id@, k0);
                            }
                        }
                        if x != channel_id@ && has_channel(old_rows, x) {
                            let k0 = channel_index(old_rows, x);
                            assert(old_rows[k0].channel_id@ == x);
                            assert(k0 != i);
                            let k = if k0 < i { k0 } else { k0 - 1 };
                            assert(rows@[k].channel_id@ == x);
                        }
                    }
                    assert forall|x: Seq<char>| has_channel(rows@, x) implies
                        rows@[channel_index(rows@, x)].expiration == old(self)@[x] by {
                        let k = channel_index(rows@, x);
                        lemma_channel_index(rows@, x, k);
                        let k0 = if k < i { k } else { k + 1 };
                        assert(old_rows[k0].channel_id@ == x);
                        lemma_channel_index(old_rows, x, k0);
                    }
                    assert(Map::new(
                        |id: Seq<char>| has_channel(rows@, id),
                        |id: Seq<char>| rows@[channel_index(rows@, id)].expiration,
                    ) =~= old(self)@.remove(channel_id@));
                }
                self.rows = rows;
            },
        }
    }

    /// The minimum expiration over all rows; `None` exactly when the
    /// registry is empty.
    pub fn get_soonest_expiration(&self) -> (r: Option<i64>)
        ensures
            match r {
                None => self@ == Map::<Seq<char>, i64>::empty(),
                Some(e) => {
                    &&& exists|id: Seq<char>|
                        #[trigger] self@.contains_key(id) && self@[id] == e
                    &&& forall|id: Seq<char>|
                        #[trigger] self@.contains_key(id) ==> e <= self@[id]
                },
            },
    {
        proof {
            use_type_invariant(&*self);
        }
        if self.rows.len() == 0 {
            proof {
                assert(self@ =~= Map::<Seq<char>, i64>::empty());
            }
            return None;
        }
        let mut best: i64 = self.rows[0].expiration;
        let ghost mut best_at: int = 0;
        let mut i: usize = 1;
        while i < self.rows.len()
            invariant
                row_ids_unique(self.rows@),
                1 <= i <= self.rows@.len(),
                0 <= best_at < i,
                self.rows@[best_at].expiration == best,
                forall|j: int| 0 <= j < i ==> best <= self.rows@[j].expiration,
            decreases self.rows@.len() - i,
        {
            if self.rows[i].expiration < best {
                best = self.rows[i].expiration;
                proof {
                    best_at = i as int;
                }
            }
            i += 1;
        }
        proof {
            let bid = self.rows@[best_at].channel_id@;
            lemma_channel_index(self.rows@, bid, best_at);
            assert(self@.contains_key(bid) && self@[bid] == best);
            assert forall|id: Seq<char>| #[trigger] self@.contains_key(id) implies best
                <= self@[id] by {
                let k = channel_index(self.rows@, id);
                assert(best <= self.rows@[k].expiration);
            }
        }
        Some(best)
    }

    /// All rows whose expiration lies strictly before `expires_before`, each
    /// channel exactly once.
    pub fn get_expiring(&self, expires_before: i64) -> (r: Vec<Subscription>)
        ensures
            row_ids_unique(r@),
            forall|k: int| 0 <= k < r@.len() ==> #[trigger] self@.contains_key(
                r@[k].channel_id@,
            ) && self@[r@[k].channel_id@] == r@[k].expiration && r@[k].expiration
                < expires_before,
            forall|id: Seq<char>|
                #[trigger] self@.contains_key(id) && self@[id] < expires_before
                    ==> has_channel(r@, id),
    {
        proof {
            use_type_invariant(&*self);
        }
        let mut r: Vec<Subscription> = Vec::new();
        let mut i: usize = 0;
        while i < self.rows.len()
            invariant
                row_ids_unique(self.rows@),
                i <= self.rows@.len(),
                row_ids_unique(r@),
                forall|k: int| 0 <= k < r@.len() ==> exists|j: int|
                    0 <= j < i && #[trigger] r@[k] == self.rows@[j],
                forall|k: int| 0 <= k < r@.len() ==> #[trigger] r@[k].expiration
                    < expires_before,
                forall|j: int|
                    0 <= j < i && self.rows@[j].expiration < expires_before
                        ==> has_channel(r@, #[trigger] self.rows@[j].channel_id@),
            decreases self.rows@.len() - i,
        {
            let ghost r_prev = r@;
            if self.rows[i].expiration < expires_before {
                let row = Subscription {
                    channel_id: self.rows[i].channel_id.clone(),
                    expiration: self.rows[i].expiration,
                };
                proof {
                    assert(row == self.rows@[i as int]);
                    assert forall|k: int| 0 <= k < r@.len() implies r@[k].channel_id@
                        != row.channel_id@ by {
                        let j = choose|j: int|
                            0 <= j < i && #[trigger] r@[k] == self.rows@[j];
                        assert(self.rows@[j].channel_id@ != self.rows@[i as int].channel_id@);
                    }
                }
                r.push(row);
            }
            proof {
                assert forall|j: int|
                    0 <= j < i + 1 && self.rows@[j].expiration < expires_before implies
                    has_channel(r@, #[trigger] self.rows@[j].channel_id@) by {
                    if j < i {
                        let k = choose|k: int|
                            0 <= k < r_prev.len() && r_prev[k].channel_id@
                                == self.rows@[j].channel_id@;
                        assert(r@[k].channel_id@ == self.rows@[j].channel_id@);
                    } else {
                        assert(r@[r@.len() - 1] == self.rows@[j]);
                    }
                }
            }
            i += 1;
        }
        proof {
            assert forall|k: int| 0 <= k < r@.len() implies #[trigger] self@.contains_key(
                r@[k].channel_id@,
            ) && self@[r@[k].channel_id@] == r@[k].expiration by {
                let j = choose|j: int|
                    0 <= j < self.rows@.len() && #[trigger] r@[k] == self.rows@[j];
                lemma_channel_index(self.rows@, r@[k].channel_id@, j);
            }
            assert forall|id: Seq<char>|
                #[trigger] self@.contains_key(id) && self@[id] < expires_before implies
                has_channel(r@, id) by {
                let j = channel_index(self.rows@, id);
                assert(self.rows@[j].expiration < expires_before);
            }
        }
        r
    }

    /// Every channel id in the registry, each exactly once.
    pub fn get_all_channel_ids(&self) -> (r: Vec<String>)
        ensures
            forall|a: int, b: int| 0 <= a < b < r@.len() ==> r@[a]@ != r@[b]@,
            forall|k: int| 0 <= k < r@.len() ==> #[trigger] self@.contains_key(r@[k]@),
            forall|id: Seq<char>| #[trigger] self@.contains_key(id) ==> exists|k: int|
                0 <= k < r@.len() && r@[k]@ == id,
    {
        proof {
            use_type_invariant(&*self);
        }
        let mut r: Vec<String> = Vec::new();
        let mut i: usize = 0;
        while i < self.rows.len()
            invariant
                row_ids_unique(self.rows@),
                i <= self.rows@.len(),
                r@.len() == i,
                forall|k: int| 0 <= k < i ==> r@[k]@ == #[trigger] self.rows@[k].channel_id@,
            decreases self.rows@.len() - i,
        {
            r.push(self.rows[i].channel_id.clone());
            i += 1;
        }
        proof {
            assert forall|a: int, b: int| 0 <= a < b < r@.len() implies r@[a]@ != r@[b]@ by {
                assert(self.rows@[a].channel_id@ != self.rows@[b].channel_id@);
            }
            assert forall|k: int| 0 <= k < r@.len() implies #[trigger] self@.contains_key(
                r@[k]@,
            ) by {
                assert(self.rows@[k].channel_id@ == r@[k]@);
            }
            assert forall|id: Seq<char>| #[trigger] self@.contains_key(id) implies exists|
                k: int,
            |
                0 <= k < r@.len() && r@[k]@ == id by {
                let j = channel_index(self.rows@, id);
                assert(r@[j]@ == id);
            }
        }
        r
    }
}

} // verus!
