use vstd::prelude::*;

verus! {

/// One cached row of channel metadata, read by the dashboard and written
/// only by the reconciliation loop.
#[derive(Debug, Clone)]
pub struct KnownChannel {
    pub channel_id: String,
    pub channel_name: String,
    pub channel_profile_picture: String,
}

/// The mathematical image of a channel's metadata.
pub ghost struct ChannelMeta {
    pub name: Seq<char>,
    pub picture: Seq<char>,
}

/// The metadata carried by a row.
pub open spec fn meta_of(row: KnownChannel) -> ChannelMeta {
    ChannelMeta { name: row.channel_name@, picture: row.channel_profile_picture@ }
}

/// Whether some row of `rows` carries the channel id `id`.
pub open spec fn known_has_channel(rows: Seq<KnownChannel>, id: Seq<char>) -> bool {
    exists|i: int| 0 <= i < rows.len() && rows[i].channel_id@ == id
}

/// The index of the row carrying `id`; meaningful only when
/// `known_has_channel` holds and the ids are distinct.
pub open spec fn known_channel_index(rows: Seq<KnownChannel>, id: Seq<char>) -> int {
    choose|i: int| 0 <= i < rows.len() && rows[i].channel_id@ == id
}

/// No two rows share a channel id.
pub open spec fn known_ids_unique(rows: Seq<KnownChannel>) -> bool {
    forall|i: int, j: int|
        0 <= i < j < rows.len() ==> rows[i].channel_id@ != rows[j].channel_id@
}

/// `m` with every row of `rows` upserted in order, so that for a repeated
/// id the later row wins.
pub open spec fn upserted(
    m: Map<Seq<char>, ChannelMeta>,
    rows: Seq<KnownChannel>,
) -> Map<Seq<char>, ChannelMeta>
    decreases rows.len(),
{
    if rows.len() == 0 {
        m
    } else {
        upserted(m, rows.drop_last()).insert(rows.last().channel_id@, meta_of(rows.last()))
    }
}

/// With distinct ids, `known_channel_index` is the one index carrying `id`.
proof fn lemma_known_index(rows: Seq<KnownChannel>, id: Seq<char>, i: int)
    requires
        known_ids_unique(rows),
        0 <= i < rows.len(),
        rows[i].channel_id@ == id,
    ensures
        known_channel_index(rows, id) == i,
{
    let j = known_channel_index(rows, id);
    assert(0 <= j < rows.len() && rows[j].channel_id@ == id);
    if i < j {
        assert(rows[i].channel_id@ != rows[j].channel_id@);
    } else if j < i {
        assert(rows[j].channel_id@ != rows[i].channel_id@);
    }
}

/// The cache of channel metadata learned from the upstream listing, keyed
/// by channel id.  This core only upserts it; the dashboard reads it.
///
/// Its view is the map from channel id to metadata.
#[derive(Debug)]
pub struct KnownChannels {
    rows: Vec<KnownChannel>,
}

impl View for KnownChannels {
    type V = Map<Seq<char>, ChannelMeta>;

    closed spec fn view(&self) -> Map<Seq<char>, ChannelMeta> {
        Map::new(
            |id: Seq<char>| known_has_channel(self.rows@, id),
            |id: Seq<char>| meta_of(self.rows@[known_channel_index(self.rows@, id)]),
        )
    }
}

impl KnownChannels {
    #[verifier::type_invariant]
    spec fn wf(self) -> bool {
        known_ids_unique(self.rows@)
    }

    /// An empty cache.
    pub fn new() -> (r: Self)
        ensures
            r@ == Map::<Seq<char>, ChannelMeta>::empty(),
    {
        let r = KnownChannels { rows: Vec::new() };
        proof {
            assert(r@ =~= Map::<Seq<char>, ChannelMeta>::empty());
        }
        r
    }

    /// The cached row for `channel_id`, if one exists.
    pub fn get(&self, channel_id: &String) -> (r: Option<KnownChannel>)
        ensures
            match r {
                Some(row) => self@.contains_key(channel_id@) && row.channel_id@ == channel_id@
                    && meta_of(row) == self@[channel_id@],
                None => !self@.contains_key(channel_id@),
            },
    {
        proof {
            use_type_invariant(&*self);
        }
        match self.position_of(channel_id) {
            Some(i) => {
                proof {
                    lemma_known_index(self.rows@, channel_id@, i as int);
                }
                Some(
                    KnownChannel {
                        channel_id: self.rows[i].channel_id.clone(),
                        channel_name: self.rows[i].channel_name.clone(),
                        channel_profile_picture: self.rows[i].channel_profile_picture.clone(),
                    },
                )
            },
            None => None,
        }
    }

    /// Every cached row, each channel exactly once.
    pub fn rows(&self) -> (r: Vec<KnownChannel>)
        ensures
            known_ids_unique(r@),
            forall|k: int|
                0 <= k < r@.len() ==> self@.contains_key((#[trigger] r@[k]).channel_id@)
                    && meta_of(r@[k]) == self@[r@[k].channel_id@],
            forall|id: Seq<char>| #[trigger] self@.contains_key(id) ==> known_has_channel(r@, id),
    {
        proof {
            use_type_invariant(&*self);
        }
        let mut r: Vec<KnownChannel> = Vec::new();
        let mut i: usize = 0;
        while i < self.rows.len()
            invariant
                known_ids_unique(self.rows@),
                i <= self.rows@.len(),
                r@.len() == i,
                forall|k: int| 0 <= k < i ==> r@[k] == #[trigger] self.rows@[k],
            decreases self.rows@.len() - i,
        {
            r.push(
                KnownChannel {
                    channel_id: self.rows[i].channel_id.clone(),
                    channel_name: self.rows[i].channel_name.clone(),
                    channel_profile_picture: self.rows[i].channel_profile_picture.clone(),
                },
            );
            i += 1;
        }
        proof {
            assert forall|a: int, b: int|
                0 <= a < b < r@.len() implies r@[a].channel_id@ != r@[b].channel_id@ by {
                assert(r@[a] == self.rows@[a]);
                assert(r@[b] == self.rows@[b]);
            }
            assert forall|k: int| 0 <= k < r@.len() implies self@.contains_key(
                (#[trigger] r@[k]).channel_id@,
            ) && meta_of(r@[k]) == self@[r@[k].channel_id@] by {
                assert(r@[k] == self.rows@[k]);
                lemma_known_index(self.rows@, r@[k].channel_id@, k);
            }
            assert forall|id: Seq<char>| #[trigger] self@.contains_key(id) implies
                known_has_channel(r@, id) by {
                let j = known_channel_index(self.rows@, id);
                assert(r@[j].channel_id@ == id);
            }
        }
        r
    }

    /// The index of the row for `channel_id`, if one exists.
    fn position_of(&self, channel_id: &String) -> (r: Option<usize>)
        ensures
            match r {
                Some(i) => i < self.rows@.len() && self.rows@[i as int].channel_id@
                    == channel_id@,
                None => !known_has_channel(self.rows@, channel_id@),
            },
    {
        let mut i: usize = 0;
        while i < self.rows.len()
            invariant
                i <= self.rows@.len(),
                forall|j: int| 0 <= j < i ==> self.rows@[j].channel_id@ != channel_id@,
            decreases self.rows@.len() - i,
        {
            if self.rows[i].channel_id == *channel_id {
                return Some(i);
            }
            i += 1;
        }
        None
    }

    /// Insert-or-update one row by channel id.
    fn upsert(&mut self, row: KnownChannel)
        ensures
            final(self)@ == old(self)@.insert(row.channel_id@, meta_of(row)),
    {
        proof {
            use_type_invariant(&*self);
        }
        let ghost old_rows = self.rows@;
        let ghost key = row.channel_id@;
        let pos = self.position_of(&row.channel_id);
        let mut rows: Vec<KnownChannel> = Vec::new();
        core::mem::swap(&mut rows, &mut self.rows);
        if let Some(i) = pos {
            rows.remove(i);
            proof {
                assert forall|a: int, b: int|
                    0 <= a < b < rows@.len() implies rows@[a].channel_id@
                    != rows@[b].channel_id@ by {
                    let a0 = if a < i { a } else { a + 1 };
                    let b0 = if b < i { b } else { b + 1 };
                    assert(old_rows[a0].channel_id@ != old_rows[b0].channel_id@);
                }
                assert forall|k: int| 0 <= k < rows@.len() implies rows@[k].channel_id@
                    != key by {
                    let k0 = if k < i { k } else { k + 1 };
                    assert(rows@[k] == old_rows[k0]);
                    lemma_known_index(old_rows, key, i as int);
                    if old_rows[k0].channel_id@ == key {
                        lemma_known_index(old_rows, key, k0);
                    }
                }
            }
        }
        let ghost kept = rows@;
        rows.push(row);
        proof {
            assert(known_ids_unique(rows@));
            assert forall|x: Seq<char>| #[trigger] known_has_channel(rows@, x)
                == (x == key || known_has_channel(old_rows, x)) by {
                if known_has_channel(rows@, x) && x != key {
                    let k = known_channel_index(rows@, x);
                    assert(kept[k].channel_id@ == x);
                    if pos is Some {
                        let i = pos->0 as int;
                        let k0 = if k < i { k } else { k + 1 };
                        assert(old_rows[k0].channel_id@ == x);
                    }
                }
                if x == key {
                    assert(rows@[rows@.len() - 1].channel_id@ == x);
                }
                if known_has_channel(old_rows, x) && x != key {
                    let k0 = known_channel_index(old_rows, x);
                    if pos is Some {
                        let i = pos->0 as int;
                        let k = if k0 < i { k0 } else { k0 - 1 };
                        assert(old_rows[k0].channel_id@ != key);
                        assert(k0 != i);
                        assert(rows@[k].channel_id@ == x);
                    } else {
                        assert(rows@[k0].channel_id@ == x);
                    }
                }
            }
            assert forall|x: Seq<char>| known_has_channel(rows@, x) implies meta_of(
                rows@[known_channel_index(rows@, x)],
            ) == old(self)@.insert(key, meta_of(row))[x] by {
                if x == key {
                    lemma_known_index(rows@, x, rows@.len() - 1);
                } else {
                    let k = known_channel_index(rows@, x);
                    assert(kept[k].channel_id@ == x);
                    let k0 = if pos is Some {
                        let i = pos->0 as int;
                        if k < i {
                            k
                        } else {
                            k + 1
                        }
                    } else {
                        k
                    };
                    assert(old_rows[k0].channel_id@ == x);
                    assert(old_rows[k0] == rows@[k]);
                    lemma_known_index(old_rows, x, k0);
                    lemma_known_index(rows@, x, k);
                }
            }
            assert(Map::new(
                |id: Seq<char>| known_has_channel(rows@, id),
                |id: Seq<char>| meta_of(rows@[known_channel_index(rows@, id)]),
            ) =~= old(self)@.insert(key, meta_of(row)));
        }
        self.rows = rows;
    }

    /// Insert-or-update every entry of `channels`, in order: for a repeated
    /// id the later entry wins, and no other entry changes.
    pub fn add_channels(&mut self, channels: Vec<KnownChannel>)
        ensures
            final(self)@ == upserted(old(self)@, channels@),
    {
        let ghost all = channels@;
        let mut channels = channels;
        let ghost n = all.len() as int;
        let mut i: usize = 0;
        while i < channels.len()
            invariant
                0 <= i <= n,
                channels@ == all,
                n == all.len(),
                self@ == upserted(old(self)@, all.take(i as int)),
            decreases n - i,
        {
            let row = KnownChannel {
                channel_id: channels[i].channel_id.clone(),
                channel_name: channels[i].channel_name.clone(),
                channel_profile_picture: channels[i].channel_profile_picture.clone(),
            };
            proof {
                assert(row == all[i as int]);
                assert(all.take(i + 1).drop_last() =~= all.take(i as int));
                assert(all.take(i + 1).last() == all[i as int]);
            }
            self.upsert(row);
            i += 1;
        }
        proof {
            assert(all.take(n) =~= all);
        }
    }
}

} // verus!
