use vstd::prelude::*;

use crate::error::StoreError;
use crate::seq_facts::lemma_contains_concat;
use crate::seq_facts::lemma_contains_first;
use crate::seq_facts::lemma_contains_last;
use crate::seq_facts::lemma_filter_push;

verus! {

broadcast use vstd::seq_lib::group_filter_ensures;

/// A typed reaction a user attached to a message.
///
/// A reaction is *live* while `deleted_at` is `None`; removal soft-deletes
/// it and is terminal. Timestamps are seconds since the Unix epoch.
#[derive(Clone, Copy, Debug)]
pub struct Reaction {
    pub id: i32,
    pub user_id: i32,
    pub message_id: i32,
    pub reaction_type_id: i32,
    pub created_at: i64,
    pub updated_at: i64,
    pub deleted_at: Option<i64>,
}

/// A catalog entry describing one reaction type. The catalog is reference
/// data: seeded by deployment tooling and read-only to the stores.
pub struct ReactionType {
    pub id: i32,
    pub name: String,
    pub emoji: String,
    pub created_at: i64,
    pub updated_at: i64,
}

impl Clone for ReactionType {
    fn clone(&self) -> (r: Self)
        ensures
            r == *self,
    {
        ReactionType {
            id: self.id,
            name: self.name.clone(),
            emoji: self.emoji.clone(),
            created_at: self.created_at,
            updated_at: self.updated_at,
        }
    }
}

/// The shared liveness predicate for reactions.
pub open spec fn live(r: Reaction) -> bool {
    r.deleted_at is None
}

/// Whether two reactions claim the same (user, message, type) slot.
pub open spec fn same_triple(a: Reaction, b: Reaction) -> bool {
    a.user_id == b.user_id && a.message_id == b.message_id && a.reaction_type_id
        == b.reaction_type_id
}

/// Whether a reaction is the live holder of the given slot.
pub open spec fn triple_matches(
    r: Reaction,
    user_id: i32,
    message_id: i32,
    reaction_type_id: i32,
) -> bool {
    live(r) && r.user_id == user_id && r.message_id == message_id && r.reaction_type_id
        == reaction_type_id
}

/// Whether some live reaction already holds the given slot.
pub open spec fn has_live_triple(
    rs: Seq<Reaction>,
    user_id: i32,
    message_id: i32,
    reaction_type_id: i32,
) -> bool {
    exists|i: int|
        0 <= i < rs.len() && triple_matches(
            #[trigger] rs[i],
            user_id,
            message_id,
            reaction_type_id,
        )
}

/// Whether the catalog holds an entry with the given identifier.
pub open spec fn has_type(ts: Seq<ReactionType>, id: i32) -> bool {
    exists|i: int| 0 <= i < ts.len() && (#[trigger] ts[i]).id == id
}

/// The first catalog entry carrying `id`, if any.
pub open spec fn find_type(ts: Seq<ReactionType>, id: i32) -> Option<ReactionType>
    decreases ts.len(),
{
    if ts.len() == 0 {
        None
    } else if ts[0].id == id {
        Some(ts[0])
    } else {
        find_type(ts.drop_first(), id)
    }
}

/// Inserts a catalog entry in front of the first entry with a larger
/// identifier, keeping the catalog sorted.
pub open spec fn insert_type(ts: Seq<ReactionType>, t: ReactionType) -> Seq<ReactionType>
    decreases ts.len(),
{
    if ts.len() == 0 {
        seq![t]
    } else if t.id < ts[0].id {
        seq![t] + ts
    } else {
        seq![ts[0]] + insert_type(ts.drop_first(), t)
    }
}

/// `insert_type` places its entry exactly at the first position whose
/// occupant has a larger identifier.
proof fn lemma_insert_type_at(ts: Seq<ReactionType>, t: ReactionType, j: int)
    requires
        0 <= j <= ts.len(),
        forall|k: int| 0 <= k < j ==> !(t.id < (#[trigger] ts[k]).id),
        j < ts.len() ==> t.id < ts[j].id,
    ensures
        insert_type(ts, t) == ts.insert(j, t),
    decreases ts.len(),
{
    if ts.len() == 0 {
        assert(insert_type(ts, t) =~= ts.insert(0, t));
    } else if j == 0 {
        assert(insert_type(ts, t) =~= ts.insert(0, t));
    } else {
        lemma_insert_type_at(ts.drop_first(), t, j - 1);
        assert(seq![ts[0]] + ts.drop_first().insert(j - 1, t) =~= ts.insert(j, t));
    }
}

/// Whether a reaction is a live reaction on the given message.
pub open spec fn on_message(r: Reaction, message_id: i32) -> bool {
    live(r) && r.message_id == message_id
}

/// The per-message predicate as a filter function.
pub open spec fn message_filter(message_id: i32) -> spec_fn(Reaction) -> bool {
    |r: Reaction| on_message(r, message_id)
}

/// The live reactions on a message, in table order.
pub open spec fn reactions_on(rs: Seq<Reaction>, message_id: i32) -> Seq<Reaction> {
    rs.filter(message_filter(message_id))
}

/// The display order of reactions on a message: `a` comes no later than
/// `b` when it was created earlier, ties broken by the lower identifier.
pub open spec fn older_first(a: Reaction, b: Reaction) -> bool {
    a.created_at < b.created_at || (a.created_at == b.created_at && a.id <= b.id)
}

/// Inserts `r` in front of the first element it precedes under
/// `older_first`.
pub open spec fn insert_older(s: Seq<Reaction>, r: Reaction) -> Seq<Reaction>
    decreases s.len(),
{
    if s.len() == 0 {
        seq![r]
    } else if older_first(r, s[0]) {
        seq![r] + s
    } else {
        seq![s[0]] + insert_older(s.drop_first(), r)
    }
}

/// Insertion sort under `older_first`: oldest reaction first, ties broken
/// by ascending identifier.
pub open spec fn sort_oldest_first(s: Seq<Reaction>) -> Seq<Reaction>
    decreases s.len(),
{
    if s.len() == 0 {
        Seq::empty()
    } else {
        insert_older(sort_oldest_first(s.drop_last()), s.last())
    }
}

/// `insert_older` places its element exactly at the first position whose
/// occupant it precedes.
proof fn lemma_insert_older_at(s: Seq<Reaction>, r: Reaction, j: int)
    requires
        0 <= j <= s.len(),
        forall|k: int| 0 <= k < j ==> !older_first(r, #[trigger] s[k]),
        j < s.len() ==> older_first(r, s[j]),
    ensures
        insert_older(s, r) == s.insert(j, r),
    decreases s.len(),
{
    if s.len() == 0 {
        assert(insert_older(s, r) =~= s.insert(0, r));
    } else if j == 0 {
        assert(insert_older(s, r) =~= s.insert(0, r));
    } else {
        lemma_insert_older_at(s.drop_first(), r, j - 1);
        assert(seq![s[0]] + s.drop_first().insert(j - 1, r) =~= s.insert(j, r));
    }
}

/// A reaction after soft deletion.
pub open spec fn soft_delete_reaction(r: Reaction, now: i64) -> Reaction {
    Reaction { updated_at: now, deleted_at: Some(now), ..r }
}

/// Whether a live reaction is targeted by a removal: it belongs to the
/// user and message, and to the given type when one is supplied.
pub open spec fn removal_match(
    r: Reaction,
    user_id: i32,
    message_id: i32,
    reaction_type_id: Option<i32>,
) -> bool {
    live(r) && r.user_id == user_id && r.message_id == message_id && (reaction_type_id is Some
        ==> r.reaction_type_id == reaction_type_id->0)
}

/// The removal predicate as a filter function.
pub open spec fn removal_filter(
    user_id: i32,
    message_id: i32,
    reaction_type_id: Option<i32>,
) -> spec_fn(Reaction) -> bool {
    |r: Reaction| removal_match(r, user_id, message_id, reaction_type_id)
}

/// The per-row effect of `ReactionStore::remove_reaction` as a map
/// function.
pub open spec fn remove_map(
    user_id: i32,
    message_id: i32,
    reaction_type_id: Option<i32>,
    now: i64,
) -> spec_fn(Reaction) -> Reaction {
    |r: Reaction|
        if removal_match(r, user_id, message_id, reaction_type_id) {
            soft_delete_reaction(r, now)
        } else {
            r
        }
}

/// The whole reaction table after a removal.
pub open spec fn removed_table(
    rs: Seq<Reaction>,
    user_id: i32,
    message_id: i32,
    reaction_type_id: Option<i32>,
    now: i64,
) -> Seq<Reaction> {
    rs.map_values(remove_map(user_id, message_id, reaction_type_id, now))
}

/// Whether a live reaction on a message carries the given type.
pub open spec fn typed_on(r: Reaction, message_id: i32, type_id: i32) -> bool {
    live(r) && r.message_id == message_id && r.reaction_type_id == type_id
}

/// The per-type predicate as a filter function.
pub open spec fn typed_filter(message_id: i32, type_id: i32) -> spec_fn(Reaction) -> bool {
    |r: Reaction| typed_on(r, message_id, type_id)
}

/// How many live reactions of one type a message carries.
pub open spec fn type_count(rs: Seq<Reaction>, message_id: i32, type_id: i32) -> int {
    rs.filter(typed_filter(message_id, type_id)).len() as int
}

/// Whether a catalog entry has at least one live reaction on the message.
pub open spec fn counted_filter(rs: Seq<Reaction>, message_id: i32) -> spec_fn(
    ReactionType,
) -> bool {
    |t: ReactionType| type_count(rs, message_id, t.id) > 0
}

/// A catalog entry paired with its live-reaction count on the message.
pub open spec fn count_entry(rs: Seq<Reaction>, message_id: i32) -> spec_fn(ReactionType) -> (
    ReactionType,
    i64,
) {
    |t: ReactionType| (t, type_count(rs, message_id, t.id) as i64)
}

/// The per-message aggregation: one entry per catalog type with at least
/// one live reaction, in catalog (ascending identifier) order.
pub open spec fn counts_for(
    ts: Seq<ReactionType>,
    rs: Seq<Reaction>,
    message_id: i32,
) -> Seq<(ReactionType, i64)> {
    ts.filter(counted_filter(rs, message_id)).map_values(count_entry(rs, message_id))
}

/// The table of reactions together with the reaction-type catalog.
///
/// Reaction rows are kept in insertion order with identifiers assigned
/// from `next_id`; catalog entries are kept sorted by ascending
/// identifier.
pub struct ReactionStore {
    reactions: Vec<Reaction>,
    types: Vec<ReactionType>,
    next_id: i32,
}

impl ReactionStore {
    /// The stored reaction rows, oldest insertion first.
    pub closed spec fn spec_reactions(self) -> Seq<Reaction> {
        self.reactions@
    }

    /// The catalog entries, ascending by identifier.
    pub closed spec fn spec_types(self) -> Seq<ReactionType> {
        self.types@
    }

    /// The identifier the next inserted reaction will receive.
    pub closed spec fn spec_next_id(self) -> int {
        self.next_id as int
    }

    /// Well-formedness: reaction identifiers are positive, below
    /// `next_id`, and strictly increasing in row order; live reactions
    /// never share a (user, message, type) slot; the catalog is strictly
    /// sorted by identifier; and every reaction references a catalog
    /// entry.
    pub open spec fn wf(self) -> bool {
        &&& 1 <= self.spec_next_id()
        &&& self.spec_reactions().len() < self.spec_next_id()
        &&& forall|i: int|
            0 <= i < self.spec_reactions().len() ==> 1 <= (#[trigger] self.spec_reactions()[i]).id
                < self.spec_next_id()
        &&& forall|i: int, j: int|
            0 <= i < j < self.spec_reactions().len() ==> self.spec_reactions()[i].id
                < self.spec_reactions()[j].id
        &&& forall|i: int, j: int|
            0 <= i < j < self.spec_reactions().len() && live(#[trigger] self.spec_reactions()[i])
                && live(#[trigger] self.spec_reactions()[j]) ==> !same_triple(
                self.spec_reactions()[i],
                self.spec_reactions()[j],
            )
        &&& forall|i: int, j: int|
            0 <= i < j < self.spec_types().len() ==> (#[trigger] self.spec_types()[i]).id < (
            #[trigger] self.spec_types()[j]).id
        &&& forall|i: int|
            0 <= i < self.spec_reactions().len() ==> has_type(
                self.spec_types(),
                (#[trigger] self.spec_reactions()[i]).reaction_type_id,
            )
    }

    /// An empty store with an empty catalog.
    pub fn new() -> (s: Self)
        ensures
            s.wf(),
            s.spec_reactions() == Seq::<Reaction>::empty(),
            s.spec_types() == Seq::<ReactionType>::empty(),
            s.spec_next_id() == 1,
    {
        ReactionStore { reactions: Vec::new(), types: Vec::new(), next_id: 1 }
    }

    /// Adds a catalog entry, keeping the catalog sorted by identifier.
    /// This is the seam for deployment tooling that seeds the catalog;
    /// the stores themselves never write it.
    pub fn register_type(&mut self, id: i32, name: String, emoji: String, now: i64) -> (r: Result<
        (),
        StoreError,
    >)
        requires
            old(self).wf(),
        ensures
            final(self).wf(),
            register_post(*old(self), *final(self), id, name, emoji, now, r),
    {
        if self.contains_type(id) {
            return Err(StoreError::AlreadyExists);
        }
        let t = ReactionType { id, name, emoji, created_at: now, updated_at: now };
        let j = type_insert_pos(&self.types, id);
        let ghost prev = self.types@;
        self.types.insert(j, t);
        proof {
            lemma_insert_type_at(prev, t, j as int);
            prev.insert_ensures(j as int, t);
            assert forall|a: int, b: int| 0 <= a < b < self.types@.len() implies (
            #[trigger] self.types@[a]).id < (#[trigger] self.types@[b]).id by {
                if b < j {
                    assert(self.types@[a] == prev[a] && self.types@[b] == prev[b]);
                } else if a > j {
                    assert(self.types@[a] == prev[a - 1] && self.types@[b] == prev[b - 1]);
                } else if a < j && b > j {
                    assert(self.types@[a] == prev[a] && self.types@[b] == prev[b - 1]);
                } else if a == j {
                    assert(self.types@[b] == prev[b - 1]);
                } else {
                    assert(a < j && b == j);
                    assert(self.types@[a] == prev[a]);
                    assert(!(id < prev[a].id) && prev[a].id != id);
                }
            }
            assert forall|i: int| 0 <= i < self.reactions@.len() implies has_type(
                self.types@,
                (#[trigger] self.reactions@[i]).reaction_type_id,
            ) by {
                let tid = self.reactions@[i].reaction_type_id;
                let k = choose|k: int| 0 <= k < prev.len() && (#[trigger] prev[k]).id == tid;
                if k < j {
                    assert(self.types@[k].id == tid);
                } else {
                    assert(self.types@[k + 1].id == tid);
                }
            }
        }
        Ok(())
    }

    /// Attaches a reaction of `reaction_type_id` by `user_id` to
    /// `message_id`: refused with `AlreadyExists` while a live reaction
    /// already holds that slot, and with `NotFound` for a type the catalog
    /// does not hold; otherwise the stored row is returned. Whether the
    /// message exists is the concern of the message table's owner, outside
    /// this store.
    pub fn add_reaction(
        &mut self,
        user_id: i32,
        message_id: i32,
        reaction_type_id: i32,
        now: i64,
    ) -> (r: Result<Reaction, StoreError>)
        requires
            old(self).wf(),
        ensures
            final(self).wf(),
            add_post(*old(self), *final(self), user_id, message_id, reaction_type_id, now, r),
    {
        if self.holds_live_triple(user_id, message_id, reaction_type_id) {
            return Err(StoreError::AlreadyExists);
        }
        if !self.contains_type(reaction_type_id) {
            return Err(StoreError::NotFound);
        }
        if self.next_id == i32::MAX {
            return Err(StoreError::Internal);
        }
        let x = Reaction {
            id: self.next_id,
            user_id,
            message_id,
            reaction_type_id,
            created_at: now,
            updated_at: now,
            deleted_at: None,
        };
        self.reactions.push(x);
        self.next_id = self.next_id + 1;
        proof {
            assert forall|i: int|
                0 <= i < old(self).reactions@.len() && live(
                    #[trigger] old(self).reactions@[i],
                ) implies !same_triple(old(self).reactions@[i], x) by {
                if same_triple(old(self).reactions@[i], x) {
                    assert(triple_matches(
                        old(self).reactions@[i],
                        user_id,
                        message_id,
                        reaction_type_id,
                    ));
                }
            }
        }
        Ok(x)
    }

    /// Soft-deletes the user's live reactions on a message — all of them,
    /// or only those of the supplied type — and returns how many rows
    /// changed; zero is a normal outcome.
    pub fn remove_reaction(
        &mut self,
        user_id: i32,
        message_id: i32,
        reaction_type_id: Option<i32>,
        now: i64,
    ) -> (count: i32)
        requires
            old(self).wf(),
        ensures
            final(self).wf(),
            final(self).spec_reactions() == removed_table(
                old(self).spec_reactions(),
                user_id,
                message_id,
                reaction_type_id,
                now,
            ),
            final(self).spec_types() == old(self).spec_types(),
            final(self).spec_next_id() == old(self).spec_next_id(),
            count == old(self).spec_reactions().filter(
                removal_filter(user_id, message_id, reaction_type_id),
            ).len(),
    {
        let n = self.reactions.len();
        let mut i: usize = 0;
        let mut cnt: usize = 0;
        while i < n
            invariant
                i <= n,
                n == self.reactions.len(),
                self.next_id == old(self).next_id,
                self.types@ == old(self).types@,
                self.reactions@.len() == old(self).reactions@.len(),
                forall|k: int| i <= k < n ==> self.reactions@[k] == old(self).reactions@[k],
                forall|k: int|
                    0 <= k < i ==> self.reactions@[k] == remove_map(
                        user_id,
                        message_id,
                        reaction_type_id,
                        now,
                    )(#[trigger] old(self).reactions@[k]),
                cnt <= i,
                cnt == old(self).reactions@.take(i as int).filter(
                    removal_filter(user_id, message_id, reaction_type_id),
                ).len(),
            decreases n - i,
        {
            proof {
                assert(old(self).reactions@.take(i as int + 1) =~= old(self).reactions@.take(
                    i as int,
                ).push(old(self).reactions@[i as int]));
                lemma_filter_push(
                    old(self).reactions@.take(i as int),
                    removal_filter(user_id, message_id, reaction_type_id),
                    old(self).reactions@[i as int],
                );
            }
            let orig = self.reactions[i];
            let type_ok = match reaction_type_id {
                Some(tid) => orig.reaction_type_id == tid,
                None => true,
            };
            if orig.deleted_at.is_none() && orig.user_id == user_id && orig.message_id
                == message_id && type_ok {
                let updated = Reaction {
                    id: orig.id,
                    user_id: orig.user_id,
                    message_id: orig.message_id,
                    reaction_type_id: orig.reaction_type_id,
                    created_at: orig.created_at,
                    updated_at: now,
                    deleted_at: Some(now),
                };
                self.reactions[i] = updated;
                cnt += 1;
            }
            i += 1;
        }
        proof {
            assert(old(self).reactions@.take(n as int) =~= old(self).reactions@);
            assert(self.reactions@ =~= removed_table(
                old(self).reactions@,
                user_id,
                message_id,
                reaction_type_id,
                now,
            ));
            assert forall|k: int| 0 <= k < n implies (#[trigger] self.reactions@[k]).id == old(
                self,
            ).reactions@[k].id by {
                assert(self.reactions@[k] == remove_map(
                    user_id,
                    message_id,
                    reaction_type_id,
                    now,
                )(old(self).reactions@[k]));
            }
            assert forall|k: int| 0 <= k < n implies has_type(
                self.types@,
                (#[trigger] self.reactions@[k]).reaction_type_id,
            ) by {
                assert(self.reactions@[k] == remove_map(
                    user_id,
                    message_id,
                    reaction_type_id,
                    now,
                )(old(self).reactions@[k]));
                assert(has_type(self.types@, old(self).reactions@[k].reaction_type_id));
            }
            let ghost ots = old(self).spec_types();
            assert forall|a: int, b: int| 0 <= a < b < self.types@.len() implies (
            #[trigger] self.types@[a]).id < (#[trigger] self.types@[b]).id by {
                assert(ots[a].id < ots[b].id);
            }
            assert forall|a: int, b: int|
                0 <= a < b < n && live(#[trigger] self.reactions@[a]) && live(
                    #[trigger] self.reactions@[b],
                ) implies !same_triple(self.reactions@[a], self.reactions@[b]) by {
                assert(self.reactions@[a] == remove_map(
                    user_id,
                    message_id,
                    reaction_type_id,
                    now,
                )(old(self).reactions@[a]));
                assert(self.reactions@[b] == remove_map(
                    user_id,
                    message_id,
                    reaction_type_id,
                    now,
                )(old(self).reactions@[b]));
                assert(live(old(self).reactions@[a]) && live(old(self).reactions@[b]));
            }
        }
        cnt as i32
    }

    /// All live reactions on a message, oldest creation first.
    pub fn get_reactions_for_message(&self, message_id: i32) -> (r: Vec<Reaction>)
        ensures
            r@ == sort_oldest_first(reactions_on(self.spec_reactions(), message_id)),
    {
        let scoped = self.filter_on_message(message_id);
        sort_by_age(scoped)
    }

    /// The live reactions on a message, in table order.
    fn filter_on_message(&self, message_id: i32) -> (r: Vec<Reaction>)
        ensures
            r@ == reactions_on(self.spec_reactions(), message_id),
    {
        let mut out: Vec<Reaction> = Vec::new();
        let n = self.reactions.len();
        let mut i: usize = 0;
        while i < n
            invariant
                i <= n,
                n == self.reactions.len(),
                out@ == reactions_on(self.reactions@.take(i as int), message_id),
            decreases n - i,
        {
            proof {
                assert(self.reactions@.take(i as int + 1) =~= self.reactions@.take(i as int).push(
                    self.reactions@[i as int],
                ));
                lemma_filter_push(
                    self.reactions@.take(i as int),
                    message_filter(message_id),
                    self.reactions@[i as int],
                );
            }
            let x = self.reactions[i];
            if x.deleted_at.is_none() && x.message_id == message_id {
                out.push(x);
            }
            i += 1;
        }
        proof {
            assert(self.reactions@.take(n as int) =~= self.reactions@);
        }
        out
    }

    /// Groups the live reactions on a message by type: one entry per
    /// catalog type carrying at least one live reaction, in ascending
    /// type-identifier order. Types with no live reaction are omitted.
    pub fn count_reactions_by_type(&self, message_id: i32) -> (r: Vec<(ReactionType, i64)>)
        requires
            self.wf(),
        ensures
            r@ == counts_for(self.spec_types(), self.spec_reactions(), message_id),
    {
        let mut out: Vec<(ReactionType, i64)> = Vec::new();
        let n = self.types.len();
        let mut ti: usize = 0;
        while ti < n
            invariant
                ti <= n,
                n == self.types@.len(),
                self.wf(),
                out@ == counts_for(self.types@.take(ti as int), self.reactions@, message_id),
            decreases n - ti,
        {
            let ghost t = self.types@[ti as int];
            proof {
                assert(self.types@.take(ti as int + 1) =~= self.types@.take(ti as int).push(t));
                lemma_filter_push(
                    self.types@.take(ti as int),
                    counted_filter(self.reactions@, message_id),
                    t,
                );
            }
            let c = self.count_typed(message_id, self.types[ti].id);
            if c > 0 {
                out.push((self.types[ti].clone(), c as i64));
                proof {
                    assert(out@ =~= counts_for(
                        self.types@.take(ti as int),
                        self.reactions@,
                        message_id,
                    ).push(count_entry(self.reactions@, message_id)(t)));
                    assert(counts_for(self.types@.take(ti as int + 1), self.reactions@, message_id)
                        =~= counts_for(self.types@.take(ti as int), self.reactions@,
                    message_id).push(count_entry(self.reactions@, message_id)(t)));
                }
            } else {
                proof {
                    assert(counts_for(self.types@.take(ti as int + 1), self.reactions@, message_id)
                        =~= counts_for(self.types@.take(ti as int), self.reactions@, message_id));
                }
            }
            ti += 1;
        }
        proof {
            assert(self.types@.take(n as int) =~= self.types@);
        }
        out
    }

    /// How many live reactions of one type a message carries.
    fn count_typed(&self, message_id: i32, type_id: i32) -> (c: usize)
        requires
            self.wf(),
        ensures
            c == type_count(self.spec_reactions(), message_id, type_id),
            c < i32::MAX,
    {
        let n = self.reactions.len();
        let mut i: usize = 0;
        let mut cnt: usize = 0;
        while i < n
            invariant
                i <= n,
                n == self.reactions.len(),
                cnt <= i,
                cnt == self.reactions@.take(i as int).filter(
                    typed_filter(message_id, type_id),
                ).len(),
            decreases n - i,
        {
            proof {
                assert(self.reactions@.take(i as int + 1) =~= self.reactions@.take(i as int).push(
                    self.reactions@[i as int],
                ));
                lemma_filter_push(
                    self.reactions@.take(i as int),
                    typed_filter(message_id, type_id),
                    self.reactions@[i as int],
                );
            }
            let x = self.reactions[i];
            if x.deleted_at.is_none() && x.message_id == message_id && x.reaction_type_id
                == type_id {
                cnt += 1;
            }
            i += 1;
        }
        proof {
            assert(self.reactions@.take(n as int) =~= self.reactions@);
        }
        cnt
    }

    /// Whether some live reaction already holds the given slot.
    fn holds_live_triple(&self, user_id: i32, message_id: i32, reaction_type_id: i32) -> (b: bool)
        ensures
            b == has_live_triple(self.spec_reactions(), user_id, message_id, reaction_type_id),
    {
        let n = self.reactions.len();
        let mut i: usize = 0;
        while i < n
            invariant
                i <= n,
                n == self.reactions.len(),
                forall|k: int|
                    0 <= k < i ==> !triple_matches(
                        #[trigger] self.reactions@[k],
                        user_id,
                        message_id,
                        reaction_type_id,
                    ),
            decreases n - i,
        {
            let x = self.reactions[i];
            if x.deleted_at.is_none() && x.user_id == user_id && x.message_id == message_id
                && x.reaction_type_id == reaction_type_id {
                return true;
            }
            i += 1;
        }
        false
    }

    /// Whether the catalog holds an entry with the given identifier.
    fn contains_type(&self, id: i32) -> (b: bool)
        ensures
            b == has_type(self.spec_types(), id),
    {
        let n = self.types.len();
        let mut i: usize = 0;
        while i < n
            invariant
                i <= n,
                n == self.types@.len(),
                forall|k: int| 0 <= k < i ==> (#[trigger] self.types@[k]).id != id,
            decreases n - i,
        {
            if self.types[i].id == id {
                return true;
            }
            i += 1;
        }
        false
    }

    /// All catalog entries, ascending by identifier.
    pub fn list_reaction_types(&self) -> (r: Vec<ReactionType>)
        ensures
            r@ == self.spec_types(),
    {
        let mut out: Vec<ReactionType> = Vec::new();
        let n = self.types.len();
        let mut i: usize = 0;
        while i < n
            invariant
                i <= n,
                n == self.types@.len(),
                out@ == self.types@.take(i as int),
            decreases n - i,
        {
            proof {
                assert(self.types@.take(i as int + 1) =~= self.types@.take(i as int).push(
                    self.types@[i as int],
                ));
            }
            out.push(self.types[i].clone());
            i += 1;
        }
        proof {
            assert(self.types@.take(n as int) =~= self.types@);
        }
        out
    }

    /// Looks a reaction type up by identifier; absence is a normal `None`,
    /// not an error.
    pub fn get_reaction_type(&self, id: i32) -> (r: Option<ReactionType>)
        ensures
            r == find_type(self.spec_types(), id),
    {
        let n = self.types.len();
        let mut i: usize = 0;
        proof {
            assert(self.types@.skip(0) =~= self.types@);
        }
        while i < n
            invariant
                i <= n,
                n == self.types@.len(),
                find_type(self.types@, id) == find_type(self.types@.skip(i as int), id),
            decreases n - i,
        {
            proof {
                assert(self.types@.skip(i as int)[0] == self.types@[i as int]);
                assert(self.types@.skip(i as int).drop_first() =~= self.types@.skip(i as int + 1));
            }
            if self.types[i].id == id {
                return Some(self.types[i].clone());
            }
            i += 1;
        }
        proof {
            assert(self.types@.skip(n as int) =~= Seq::<ReactionType>::empty());
        }
        None
    }
}

/// The first position in `within` whose occupant `r` precedes under
/// `older_first`, or the length when there is none.
fn find_age_pos(within: &Vec<Reaction>, r: &Reaction) -> (j: usize)
    ensures
        j <= within@.len(),
        forall|k: int| 0 <= k < j ==> !older_first(*r, #[trigger] within@[k]),
        j < within@.len() ==> older_first(*r, within@[j as int]),
{
    let mut j: usize = 0;
    while j < within.len()
        invariant
            j <= within@.len(),
            forall|k: int| 0 <= k < j ==> !older_first(*r, #[trigger] within@[k]),
        decreases within@.len() - j,
    {
        let c = &within[j];
        if r.created_at < c.created_at || (r.created_at == c.created_at && r.id <= c.id) {
            return j;
        }
        j += 1;
    }
    j
}

/// Sorts a scoped sequence of reactions into display order.
fn sort_by_age(src: Vec<Reaction>) -> (r: Vec<Reaction>)
    ensures
        r@ == sort_oldest_first(src@),
{
    let mut out: Vec<Reaction> = Vec::new();
    let n = src.len();
    let mut i: usize = 0;
    while i < n
        invariant
            i <= n,
            n == src.len(),
            out@ == sort_oldest_first(src@.take(i as int)),
        decreases n - i,
    {
        let x = src[i];
        let j = find_age_pos(&out, &x);
        let ghost prev = out@;
        out.insert(j, x);
        proof {
            lemma_insert_older_at(prev, x, j as int);
            assert(src@.take(i as int + 1).drop_last() =~= src@.take(i as int));
            assert(src@.take(i as int + 1).last() == src@[i as int]);
        }
        i += 1;
    }
    proof {
        assert(src@.take(n as int) =~= src@);
    }
    out
}

/// What `ReactionStore::add_reaction` guarantees: refusal reasons in
/// order — an occupied slot, an unknown type, identifier exhaustion —
/// and otherwise the fully populated row appended to the table.
pub open spec fn add_post(
    pre: ReactionStore,
    post: ReactionStore,
    user_id: i32,
    message_id: i32,
    reaction_type_id: i32,
    now: i64,
    r: Result<Reaction, StoreError>,
) -> bool {
    match r {
        Ok(x) => {
            &&& !has_live_triple(pre.spec_reactions(), user_id, message_id, reaction_type_id)
            &&& has_type(pre.spec_types(), reaction_type_id)
            &&& pre.spec_next_id() < i32::MAX
            &&& x == (Reaction {
                id: pre.spec_next_id() as i32,
                user_id,
                message_id,
                reaction_type_id,
                created_at: now,
                updated_at: now,
                deleted_at: None,
            })
            &&& post.spec_reactions() == pre.spec_reactions().push(x)
            &&& post.spec_types() == pre.spec_types()
            &&& post.spec_next_id() == pre.spec_next_id() + 1
        },
        Err(e) => {
            &&& post == pre
            &&& if has_live_triple(pre.spec_reactions(), user_id, message_id, reaction_type_id) {
                e == StoreError::AlreadyExists
            } else if !has_type(pre.spec_types(), reaction_type_id) {
                e == StoreError::NotFound
            } else {
                e == StoreError::Internal && pre.spec_next_id() == i32::MAX
            }
        },
    }
}

/// The first catalog position whose entry has an identifier above `id`,
/// or the catalog length when there is none.
fn type_insert_pos(types: &Vec<ReactionType>, id: i32) -> (j: usize)
    ensures
        j <= types@.len(),
        forall|k: int| 0 <= k < j ==> !(id < (#[trigger] types@[k]).id),
        j < types@.len() ==> id < types@[j as int].id,
{
    let mut j: usize = 0;
    while j < types.len()
        invariant
            j <= types@.len(),
            forall|k: int| 0 <= k < j ==> !(id < (#[trigger] types@[k]).id),
        decreases types@.len() - j,
    {
        if id < types[j].id {
            return j;
        }
        j += 1;
    }
    j
}

/// What `ReactionStore::register_type` guarantees: a fresh identifier is
/// inserted at its sorted position; a duplicate is refused and changes
/// nothing.
pub open spec fn register_post(
    pre: ReactionStore,
    post: ReactionStore,
    id: i32,
    name: String,
    emoji: String,
    now: i64,
    r: Result<(), StoreError>,
) -> bool {
    match r {
        Ok(_) => {
            &&& !has_type(pre.spec_types(), id)
            &&& post.spec_types() == insert_type(
                pre.spec_types(),
                (ReactionType { id, name, emoji, created_at: now, updated_at: now }),
            )
            &&& post.spec_reactions() == pre.spec_reactions()
            &&& post.spec_next_id() == pre.spec_next_id()
        },
        Err(e) => {
            &&& e == StoreError::AlreadyExists
            &&& has_type(pre.spec_types(), id)
            &&& post == pre
        },
    }
}

/// A live reaction just appended to the table occupies its slot: a second
/// identical `add_reaction` is refused with `AlreadyExists`.
pub proof fn lemma_add_occupies_slot(rs: Seq<Reaction>, x: Reaction)
    requires
        live(x),
    ensures
        has_live_triple(rs.push(x), x.user_id, x.message_id, x.reaction_type_id),
{
    assert(triple_matches(
        rs.push(x)[rs.len() as int],
        x.user_id,
        x.message_id,
        x.reaction_type_id,
    ));
}

/// Removal frees the slot: after soft-deleting the user's reactions on a
/// message — all of them, or exactly the given type — no live reaction of
/// that type remains, so a subsequent identical `add_reaction` succeeds.
pub proof fn lemma_remove_frees_slot(
    rs: Seq<Reaction>,
    user_id: i32,
    message_id: i32,
    reaction_type_id: i32,
    selector: Option<i32>,
    now: i64,
)
    requires
        selector is Some ==> selector->0 == reaction_type_id,
    ensures
        !has_live_triple(
            removed_table(rs, user_id, message_id, selector, now),
            user_id,
            message_id,
            reaction_type_id,
        ),
{
    let d = removed_table(rs, user_id, message_id, selector, now);
    assert forall|i: int| 0 <= i < d.len() implies !triple_matches(
        #[trigger] d[i],
        user_id,
        message_id,
        reaction_type_id,
    ) by {
        assert(d[i] == remove_map(user_id, message_id, selector, now)(rs[i]));
    }
}

/// The sum of the counts in an aggregation result.
pub open spec fn sum_counts(entries: Seq<(ReactionType, i64)>) -> int
    decreases entries.len(),
{
    if entries.len() == 0 {
        0
    } else {
        sum_counts(entries.drop_last()) + entries.last().1
    }
}

/// The per-type counts of `message_id` summed over a catalog prefix.
spec fn total_over(ts: Seq<ReactionType>, rs: Seq<Reaction>, message_id: i32) -> int
    decreases ts.len(),
{
    if ts.len() == 0 {
        0
    } else {
        total_over(ts.drop_last(), rs, message_id) + type_count(rs, message_id, ts.last().id)
    }
}

/// How many catalog entries carry `id`.
spec fn id_occurrences(ts: Seq<ReactionType>, id: i32) -> int
    decreases ts.len(),
{
    if ts.len() == 0 {
        0
    } else {
        id_occurrences(ts.drop_last(), id) + if ts.last().id == id {
            1int
        } else {
            0int
        }
    }
}

/// Summing mapped count entries is summing the per-type counts. The
/// bound on the reaction table keeps each count within its entry type.
proof fn lemma_sum_of_entries(ts: Seq<ReactionType>, rs: Seq<Reaction>, message_id: i32)
    requires
        rs.len() < 0x8000_0000,
    ensures
        sum_counts(ts.map_values(count_entry(rs, message_id))) == total_over(ts, rs, message_id),
    decreases ts.len(),
{
    if ts.len() > 0 {
        lemma_sum_of_entries(ts.drop_last(), rs, message_id);
        assert(ts.map_values(count_entry(rs, message_id)).drop_last() =~= ts.drop_last().map_values(
            count_entry(rs, message_id),
        ));
        assert(ts.map_values(count_entry(rs, message_id)).last() == count_entry(rs, message_id)(
            ts.last(),
        ));
        let c = type_count(rs, message_id, ts.last().id);
        assert(rs.filter(typed_filter(message_id, ts.last().id)).len() <= rs.len());
        assert(c as i64 == c);
    }
}

/// Omitting the zero-count catalog entries does not change the total.
proof fn lemma_total_over_filter(ts: Seq<ReactionType>, rs: Seq<Reaction>, message_id: i32)
    ensures
        total_over(ts.filter(counted_filter(rs, message_id)), rs, message_id) == total_over(
            ts,
            rs,
            message_id,
        ),
    decreases ts.len(),
{
    reveal(Seq::filter);
    if ts.len() > 0 {
        let pre = ts.drop_last();
        let t = ts.last();
        lemma_total_over_filter(pre, rs, message_id);
        if counted_filter(rs, message_id)(t) {
            let f = pre.filter(counted_filter(rs, message_id));
            assert(f.push(t).drop_last() =~= f);
            assert(f.push(t).last() == t);
        }
    }
}

/// Appending one reaction raises the catalog-wide total by one occurrence
/// of its type when it is live on the message, and otherwise not at all.
proof fn lemma_total_over_push(
    ts: Seq<ReactionType>,
    rs: Seq<Reaction>,
    x: Reaction,
    message_id: i32,
)
    ensures
        total_over(ts, rs.push(x), message_id) == total_over(ts, rs, message_id) + (if on_message(
            x,
            message_id,
        ) {
            id_occurrences(ts, x.reaction_type_id)
        } else {
            0int
        }),
    decreases ts.len(),
{
    if ts.len() > 0 {
        lemma_total_over_push(ts.drop_last(), rs, x, message_id);
        lemma_filter_push(rs, typed_filter(message_id, ts.last().id), x);
    }
}

/// In a catalog strictly sorted by identifier, an identifier occurs once
/// when present and never otherwise.
proof fn lemma_id_occurrences_sorted(ts: Seq<ReactionType>, id: i32)
    requires
        forall|i: int, j: int|
            0 <= i < j < ts.len() ==> (#[trigger] ts[i]).id < (#[trigger] ts[j]).id,
    ensures
        id_occurrences(ts, id) == if has_type(ts, id) {
            1int
        } else {
            0int
        },
    decreases ts.len(),
{
    if ts.len() > 0 {
        let pre = ts.drop_last();
        let t = ts.last();
        lemma_id_occurrences_sorted(pre, id);
        if has_type(pre, id) {
            let k = choose|k: int| 0 <= k < pre.len() && (#[trigger] pre[k]).id == id;
            assert(ts[k].id == id);
            assert(ts[k].id < t.id);
            assert(has_type(ts, id));
        } else if t.id == id {
            assert(ts[ts.len() - 1].id == id);
            assert(has_type(ts, id));
        } else {
            if has_type(ts, id) {
                let k = choose|k: int| 0 <= k < ts.len() && (#[trigger] ts[k]).id == id;
                assert(k < ts.len() - 1);
                assert(pre[k].id == id);
            }
        }
    }
}

/// With every reaction's type in the strictly sorted catalog, the
/// catalog-wide total is exactly the number of live reactions on the
/// message.
proof fn lemma_total_over_is_scope_len(
    ts: Seq<ReactionType>,
    rs: Seq<Reaction>,
    message_id: i32,
)
    requires
        forall|i: int, j: int|
            0 <= i < j < ts.len() ==> (#[trigger] ts[i]).id < (#[trigger] ts[j]).id,
        forall|i: int|
            0 <= i < rs.len() ==> has_type(ts, (#[trigger] rs[i]).reaction_type_id),
    ensures
        total_over(ts, rs, message_id) == reactions_on(rs, message_id).len(),
    decreases rs.len(),
{
    if rs.len() == 0 {
        lemma_total_over_empty(ts, rs, message_id);
        assert(reactions_on(rs, message_id) =~= Seq::<Reaction>::empty()) by {
            reveal(Seq::filter);
        }
    } else {
        let pre = rs.drop_last();
        let x = rs.last();
        assert(pre.push(x) =~= rs);
        assert forall|i: int|
            0 <= i < pre.len() implies has_type(ts, (#[trigger] pre[i]).reaction_type_id) by {
            assert(rs[i] == pre[i]);
        }
        lemma_total_over_is_scope_len(ts, pre, message_id);
        lemma_total_over_push(ts, pre, x, message_id);
        lemma_filter_push(pre, message_filter(message_id), x);
        if on_message(x, message_id) {
            lemma_id_occurrences_sorted(ts, x.reaction_type_id);
            assert(has_type(ts, rs[rs.len() - 1].reaction_type_id));
        }
    }
}

/// An empty reaction table totals zero over any catalog.
proof fn lemma_total_over_empty(ts: Seq<ReactionType>, rs: Seq<Reaction>, message_id: i32)
    requires
        rs.len() == 0,
    ensures
        total_over(ts, rs, message_id) == 0,
    decreases ts.len(),
{
    reveal(Seq::filter);
    if ts.len() > 0 {
        lemma_total_over_empty(ts.drop_last(), rs, message_id);
    }
}

/// Insertion under `older_first` neither loses nor invents elements.
proof fn lemma_insert_older_contains(s: Seq<Reaction>, r: Reaction, x: Reaction)
    ensures
        insert_older(s, r).contains(x) <==> (s.contains(x) || x == r),
    decreases s.len(),
{
    if s.len() == 0 {
        assert(insert_older(s, r) == seq![r]);
        assert(seq![r][0] == r);
        if insert_older(s, r).contains(x) {
            let i = choose|i: int| 0 <= i < seq![r].len() && seq![r][i] == x;
            assert(x == r);
        }
    } else if older_first(r, s[0]) {
        lemma_contains_concat(seq![r], s, x);
        assert(seq![r].contains(x) <==> x == r) by {
            assert(seq![r][0] == r);
            if seq![r].contains(x) {
                let i = choose|i: int| 0 <= i < seq![r].len() && seq![r][i] == x;
            }
        }
    } else {
        lemma_insert_older_contains(s.drop_first(), r, x);
        lemma_contains_concat(seq![s[0]], insert_older(s.drop_first(), r), x);
        lemma_contains_first(s, x);
        assert(seq![s[0]].contains(x) <==> x == s[0]) by {
            assert(seq![s[0]][0] == s[0]);
            if seq![s[0]].contains(x) {
                let i = choose|i: int| 0 <= i < seq![s[0]].len() && seq![s[0]][i] == x;
            }
        }
    }
}

/// Sorting into display order neither loses nor invents elements.
pub proof fn lemma_sort_oldest_contains(s: Seq<Reaction>, x: Reaction)
    ensures
        sort_oldest_first(s).contains(x) <==> s.contains(x),
    decreases s.len(),
{
    if s.len() > 0 {
        lemma_sort_oldest_contains(s.drop_last(), x);
        lemma_insert_older_contains(sort_oldest_first(s.drop_last()), s.last(), x);
        lemma_contains_last(s, x);
    }
}

/// A sequence arranged oldest creation first.
pub open spec fn sorted_oldest_first(s: Seq<Reaction>) -> bool {
    forall|i: int, j: int| 0 <= i < j < s.len() ==> older_first(#[trigger] s[i], #[trigger] s[j])
}

/// Insertion under `older_first` keeps a sequence sorted.
proof fn lemma_insert_older_sorted(s: Seq<Reaction>, r: Reaction)
    requires
        sorted_oldest_first(s),
    ensures
        sorted_oldest_first(insert_older(s, r)),
    decreases s.len(),
{
    if s.len() == 0 {
    } else if older_first(r, s[0]) {
        let out = seq![r] + s;
        assert forall|i: int, j: int| 0 <= i < j < out.len() implies older_first(
            #[trigger] out[i],
            #[trigger] out[j],
        ) by {
            if i == 0 {
                if j > 1 {
                    assert(older_first(s[0], s[j - 1]));
                }
            } else {
                assert(older_first(s[i - 1], s[j - 1]));
            }
        }
    } else {
        assert forall|i: int, j: int|
            0 <= i < j < s.drop_first().len() implies older_first(
            #[trigger] s.drop_first()[i],
            #[trigger] s.drop_first()[j],
        ) by {
            assert(older_first(s[i + 1], s[j + 1]));
        }
        lemma_insert_older_sorted(s.drop_first(), r);
        let rest = insert_older(s.drop_first(), r);
        let out = seq![s[0]] + rest;
        assert forall|i: int, j: int| 0 <= i < j < out.len() implies older_first(
            #[trigger] out[i],
            #[trigger] out[j],
        ) by {
            if i == 0 {
                let rk = rest[j - 1];
                assert(rest.contains(rk)) by {
                    assert(rest[j - 1] == rk);
                }
                lemma_insert_older_contains(s.drop_first(), r, rk);
                if rk == r {
                } else {
                    let idx = choose|idx: int|
                        0 <= idx < s.drop_first().len() && s.drop_first()[idx] == rk;
                    assert(older_first(s[0], s[idx + 1]));
                }
            } else {
                assert(older_first(rest[i - 1], rest[j - 1]));
            }
        }
    }
}

/// `sort_oldest_first` arranges a message's reactions oldest first, ties
/// broken by ascending identifier.
pub proof fn lemma_sort_oldest_first_sorted(s: Seq<Reaction>)
    ensures
        sorted_oldest_first(sort_oldest_first(s)),
    decreases s.len(),
{
    if s.len() > 0 {
        lemma_sort_oldest_first_sorted(s.drop_last());
        lemma_insert_older_sorted(sort_oldest_first(s.drop_last()), s.last());
    }
}

/// Length is preserved by insertion under `older_first`.
proof fn lemma_insert_older_len(s: Seq<Reaction>, r: Reaction)
    ensures
        insert_older(s, r).len() == s.len() + 1,
    decreases s.len(),
{
    if s.len() > 0 && !older_first(r, s[0]) {
        lemma_insert_older_len(s.drop_first(), r);
    }
}

/// Sorting into display order preserves length.
pub proof fn lemma_sort_oldest_len(s: Seq<Reaction>)
    ensures
        sort_oldest_first(s).len() == s.len(),
    decreases s.len(),
{
    if s.len() > 0 {
        lemma_sort_oldest_len(s.drop_last());
        lemma_insert_older_len(sort_oldest_first(s.drop_last()), s.last());
    }
}

/// The aggregation accounts for every live reaction exactly once: no
/// returned entry has count zero, and the counts sum to the number of
/// rows `get_reactions_for_message` returns.
pub proof fn lemma_counts_cover_reactions(s: ReactionStore, message_id: i32)
    requires
        s.wf(),
    ensures
        forall|i: int|
            0 <= i < counts_for(s.spec_types(), s.spec_reactions(), message_id).len() ==> (
            #[trigger] counts_for(s.spec_types(), s.spec_reactions(), message_id)[i]).1 > 0,
        sum_counts(counts_for(s.spec_types(), s.spec_reactions(), message_id)) == reactions_on(
            s.spec_reactions(),
            message_id,
        ).len(),
        sum_counts(counts_for(s.spec_types(), s.spec_reactions(), message_id))
            == sort_oldest_first(reactions_on(s.spec_reactions(), message_id)).len(),
{
    let ts = s.spec_types();
    let rs = s.spec_reactions();
    let kept = ts.filter(counted_filter(rs, message_id));
    let entries = counts_for(ts, rs, message_id);
    assert forall|i: int| 0 <= i < entries.len() implies (#[trigger] entries[i]).1 > 0 by {
        assert(counted_filter(rs, message_id)(kept[i]));
        assert(entries[i] == count_entry(rs, message_id)(kept[i]));
        assert(rs.filter(typed_filter(message_id, kept[i].id)).len() <= rs.len());
    }
    lemma_sum_of_entries(kept, rs, message_id);
    lemma_total_over_filter(ts, rs, message_id);
    lemma_total_over_is_scope_len(ts, rs, message_id);
    lemma_sort_oldest_len(reactions_on(rs, message_id));
}

} // verus!
