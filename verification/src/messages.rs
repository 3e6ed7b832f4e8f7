use vstd::prelude::*;

use crate::error::StoreError;
use crate::seq_facts::lemma_contains_concat;
use crate::seq_facts::lemma_contains_first;
use crate::seq_facts::lemma_contains_last;
use crate::seq_facts::lemma_filter_congruent;
use crate::seq_facts::lemma_filter_in_original;
use crate::seq_facts::lemma_filter_push;

verus! {

broadcast use vstd::seq_lib::group_filter_ensures;

/// A direct message between two users.
///
/// A message is *live* while `deleted_at` is `None`; soft deletion stamps
/// `deleted_at` and is terminal. Timestamps are seconds since the Unix
/// epoch.
pub struct Message {
    pub id: i32,
    pub sender_id: i32,
    pub receiver_id: i32,
    pub content: String,
    pub is_read: bool,
    pub created_at: i64,
    pub updated_at: i64,
    pub deleted_at: Option<i64>,
}

impl Clone for Message {
    fn clone(&self) -> (r: Self)
        ensures
            r == *self,
    {
        Message {
            id: self.id,
            sender_id: self.sender_id,
            receiver_id: self.receiver_id,
            content: self.content.clone(),
            is_read: self.is_read,
            created_at: self.created_at,
            updated_at: self.updated_at,
            deleted_at: self.deleted_at,
        }
    }
}

/// The shared liveness predicate: a row is visible to queries only while its
/// soft-deletion timestamp is unset.
pub open spec fn live(m: Message) -> bool {
    m.deleted_at is None
}

/// Whether a message belongs to a user's inbox listing: the user is the
/// receiver, the row is live, and, when only unread messages are wanted,
/// the read flag is unset.
pub open spec fn inbox_pred(m: Message, user_id: i32, unread_only: bool) -> bool {
    live(m) && m.receiver_id == user_id && (unread_only ==> !m.is_read)
}

/// The inbox predicate as a filter function.
pub open spec fn inbox_filter(user_id: i32, unread_only: bool) -> spec_fn(Message) -> bool {
    |m: Message| inbox_pred(m, user_id, unread_only)
}

/// A user's inbox scope in stable ascending-identifier order.
pub open spec fn inbox_of(msgs: Seq<Message>, user_id: i32, unread_only: bool) -> Seq<Message> {
    msgs.filter(inbox_filter(user_id, unread_only))
}

/// The 1-based page `page` of `s`, holding at most `per_page` elements:
/// the window `[(page - 1) * per_page, page * per_page)`, clipped to `s`.
pub open spec fn page_of(s: Seq<Message>, page: int, per_page: int) -> Seq<Message>
    recommends
        1 <= page,
        1 <= per_page,
{
    let lo = (page - 1) * per_page;
    if lo >= s.len() {
        Seq::empty()
    } else if lo + per_page <= s.len() {
        s.subrange(lo, lo + per_page)
    } else {
        s.subrange(lo, s.len() as int)
    }
}

/// Whether a message belongs to the conversation between two users: it is
/// live and was exchanged between exactly those users, in either direction.
pub open spec fn in_conversation(m: Message, user_id: i32, peer_id: i32) -> bool {
    live(m) && ((m.sender_id == user_id && m.receiver_id == peer_id) || (m.sender_id == peer_id
        && m.receiver_id == user_id))
}

/// The conversation predicate as a filter function.
pub open spec fn conversation_filter(user_id: i32, peer_id: i32) -> spec_fn(Message) -> bool {
    |m: Message| in_conversation(m, user_id, peer_id)
}

/// The conversation scope between two users, in table order.
pub open spec fn conversation_of(msgs: Seq<Message>, user_id: i32, peer_id: i32) -> Seq<Message> {
    msgs.filter(conversation_filter(user_id, peer_id))
}

/// The display order of a conversation: `a` comes no later than `b` when it
/// was created more recently, ties broken by the higher identifier.
pub open spec fn newer_first(a: Message, b: Message) -> bool {
    a.created_at > b.created_at || (a.created_at == b.created_at && a.id >= b.id)
}

/// Inserts `m` in front of the first element it precedes under
/// `newer_first`.
pub open spec fn insert_newer(s: Seq<Message>, m: Message) -> Seq<Message>
    decreases s.len(),
{
    if s.len() == 0 {
        seq![m]
    } else if newer_first(m, s[0]) {
        seq![m] + s
    } else {
        seq![s[0]] + insert_newer(s.drop_first(), m)
    }
}

/// Insertion sort under `newer_first`: most recently created first, ties
/// broken by descending identifier.
pub open spec fn sort_newest_first(s: Seq<Message>) -> Seq<Message>
    decreases s.len(),
{
    if s.len() == 0 {
        Seq::empty()
    } else {
        insert_newer(sort_newest_first(s.drop_last()), s.last())
    }
}

/// `insert_newer` places its element exactly at the first position whose
/// occupant it precedes.
proof fn lemma_insert_newer_at(s: Seq<Message>, m: Message, j: int)
    requires
        0 <= j <= s.len(),
        forall|k: int| 0 <= k < j ==> !newer_first(m, #[trigger] s[k]),
        j < s.len() ==> newer_first(m, s[j]),
    ensures
        insert_newer(s, m) == s.insert(j, m),
    decreases s.len(),
{
    if s.len() == 0 {
        assert(insert_newer(s, m) =~= s.insert(0, m));
    } else if j == 0 {
        assert(insert_newer(s, m) =~= s.insert(0, m));
    } else {
        lemma_insert_newer_at(s.drop_first(), m, j - 1);
        assert(seq![s[0]] + s.drop_first().insert(j - 1, m) =~= s.insert(j, m));
    }
}

/// The table of direct messages.
///
/// Rows are kept in order of insertion; identifiers are assigned from
/// `next_id`, so row order and ascending-identifier order coincide.
pub struct MessageStore {
    msgs: Vec<Message>,
    next_id: i32,
}

impl MessageStore {
    /// The stored rows, oldest insertion first.
    pub closed spec fn spec_messages(self) -> Seq<Message> {
        self.msgs@
    }

    /// The identifier the next inserted row will receive.
    pub closed spec fn spec_next_id(self) -> int {
        self.next_id as int
    }

    /// Well-formedness: identifiers are positive, below `next_id`, and
    /// strictly increasing in row order, and the table never holds more
    /// rows than identifiers already assigned.
    pub open spec fn wf(self) -> bool {
        &&& 1 <= self.spec_next_id()
        &&& self.spec_messages().len() < self.spec_next_id()
        &&& forall|i: int|
            0 <= i < self.spec_messages().len() ==> 1 <= (#[trigger] self.spec_messages()[i]).id
                < self.spec_next_id()
        &&& forall|i: int, j: int|
            0 <= i < j < self.spec_messages().len() ==> self.spec_messages()[i].id
                < self.spec_messages()[j].id
    }

    /// An empty table.
    pub fn new() -> (s: Self)
        ensures
            s.wf(),
            s.spec_messages() == Seq::<Message>::empty(),
            s.spec_next_id() == 1,
    {
        MessageStore { msgs: Vec::new(), next_id: 1 }
    }

    /// Creates a message addressed to `receiver_id` with the read flag
    /// unset and both timestamps at `now`, and returns the stored row.
    /// Fails only when the identifier space is exhausted; whether the two
    /// users exist is the concern of the user table's owner, outside this
    /// store.
    pub fn send(
        &mut self,
        sender_id: i32,
        receiver_id: i32,
        content: String,
        now: i64,
    ) -> (r: Result<Message, StoreError>)
        requires
            old(self).wf(),
        ensures
            final(self).wf(),
            send_post(*old(self), *final(self), sender_id, receiver_id, content, now, r),
    {
        if self.next_id == i32::MAX {
            return Err(StoreError::Internal);
        }
        let m = Message {
            id: self.next_id,
            sender_id,
            receiver_id,
            content,
            is_read: false,
            created_at: now,
            updated_at: now,
            deleted_at: None,
        };
        let stored = m.clone();
        self.msgs.push(m);
        self.next_id = self.next_id + 1;
        Ok(stored)
    }

    /// Lists the live messages addressed to `user_id` (only the unread ones
    /// when `unread_only`), returning the requested page together with the
    /// unpaged scope count and the user's unread count.
    pub fn list(&self, user_id: i32, unread_only: bool, page: i32, per_page: i32) -> (r: Result<
        (Vec<Message>, i32, i32),
        StoreError,
    >)
        requires
            self.wf(),
        ensures
            list_post(*self, user_id, unread_only, page, per_page, r),
    {
        if page < 1 || per_page < 1 {
            return Err(StoreError::InvalidArgument);
        }
        let scoped = self.filter_inbox(user_id, unread_only);
        let unread = self.filter_inbox(user_id, true);
        let total = scoped.len();
        let unread_total = unread.len();
        proof {
            assert(inbox_of(self.spec_messages(), user_id, unread_only).len()
                <= self.spec_messages().len());
            assert(inbox_of(self.spec_messages(), user_id, true).len()
                <= self.spec_messages().len());
        }
        let page_items = page_slice(scoped, page, per_page);
        Ok((page_items, total as i32, unread_total as i32))
    }

    /// Returns one page of the conversation between `user_id` and
    /// `peer_id` — the live messages between them in either direction,
    /// most recently created first — and the unpaged conversation size.
    pub fn get_conversation(&self, user_id: i32, peer_id: i32, page: i32, per_page: i32) -> (r:
        Result<(Vec<Message>, i32), StoreError>)
        requires
            self.wf(),
        ensures
            conversation_post(*self, user_id, peer_id, page, per_page, r),
    {
        if page < 1 || per_page < 1 {
            return Err(StoreError::InvalidArgument);
        }
        let scoped = self.filter_conversation(user_id, peer_id);
        let total = scoped.len();
        proof {
            assert(conversation_of(self.spec_messages(), user_id, peer_id).len()
                <= self.spec_messages().len());
        }
        let sorted = sort_by_recency(scoped);
        let page_items = page_slice(sorted, page, per_page);
        Ok((page_items, total as i32))
    }

    /// The rows of the conversation scope, cloned in table order.
    fn filter_conversation(&self, user_id: i32, peer_id: i32) -> (r: Vec<Message>)
        ensures
            r@ == conversation_of(self.spec_messages(), user_id, peer_id),
    {
        let mut out: Vec<Message> = Vec::new();
        let n = self.msgs.len();
        let mut i: usize = 0;
        while i < n
            invariant
                i <= n,
                n == self.msgs.len(),
                out@ == conversation_of(self.msgs@.take(i as int), user_id, peer_id),
            decreases n - i,
        {
            let m = &self.msgs[i];
            proof {
                assert(self.msgs@.take(i as int + 1) =~= self.msgs@.take(i as int).push(
                    self.msgs@[i as int],
                ));
                lemma_filter_push(
                    self.msgs@.take(i as int),
                    conversation_filter(user_id, peer_id),
                    self.msgs@[i as int],
                );
            }
            if m.deleted_at.is_none() && ((m.sender_id == user_id && m.receiver_id == peer_id) || (
            m.sender_id == peer_id && m.receiver_id == user_id)) {
                out.push(m.clone());
            }
            i += 1;
        }
        proof {
            assert(self.msgs@.take(n as int) =~= self.msgs@);
        }
        out
    }

    /// Marks every live message targeted by `selector` as read and stamps
    /// its update time, unconditionally, and returns how many rows were
    /// targeted — rows already read count too.
    pub fn mark_as_read(&mut self, selector: &ReadSelector, now: i64) -> (count: i32)
        requires
            old(self).wf(),
        ensures
            final(self).wf(),
            final(self).spec_messages() == marked_table(
                old(self).spec_messages(),
                *selector,
                now,
            ),
            final(self).spec_next_id() == old(self).spec_next_id(),
            count == old(self).spec_messages().filter(selected_filter(*selector)).len(),
    {
        let n = self.msgs.len();
        let mut i: usize = 0;
        let mut cnt: usize = 0;
        while i < n
            invariant
                i <= n,
                n == self.msgs.len(),
                self.next_id == old(self).next_id,
                self.msgs@.len() == old(self).msgs@.len(),
                forall|k: int| i <= k < n ==> self.msgs@[k] == old(self).msgs@[k],
                forall|k: int|
                    0 <= k < i ==> self.msgs@[k] == mark_map(*selector, now)(
                        #[trigger] old(self).msgs@[k],
                    ),
                cnt <= i,
                cnt == old(self).msgs@.take(i as int).filter(selected_filter(*selector)).len(),
            decreases n - i,
        {
            proof {
                assert(old(self).msgs@.take(i as int + 1) =~= old(self).msgs@.take(i as int).push(
                    old(self).msgs@[i as int],
                ));
                lemma_filter_push(
                    old(self).msgs@.take(i as int),
                    selected_filter(*selector),
                    old(self).msgs@[i as int],
                );
            }
            let orig = self.msgs[i].clone();
            if is_selected(&orig, selector) {
                let updated = Message {
                    id: orig.id,
                    sender_id: orig.sender_id,
                    receiver_id: orig.receiver_id,
                    content: orig.content,
                    is_read: true,
                    created_at: orig.created_at,
                    updated_at: now,
                    deleted_at: orig.deleted_at,
                };
                self.msgs[i] = updated;
                cnt += 1;
            }
            i += 1;
        }
        proof {
            assert(old(self).msgs@.take(n as int) =~= old(self).msgs@);
            assert(self.msgs@ =~= marked_table(old(self).msgs@, *selector, now));
            assert forall|k: int| 0 <= k < n implies self.msgs@[k].id == old(self).msgs@[k].id by {
                assert(self.msgs@[k] == mark_map(*selector, now)(old(self).msgs@[k]));
            }
        }
        cnt as i32
    }

    /// Resolves the four request parameters into a selector and performs
    /// the bulk read-state update; with no selector supplied, fails with a
    /// caller error and writes nothing.
    pub fn mark_as_read_request(
        &mut self,
        message_id: Option<i32>,
        message_ids: Vec<i32>,
        from_user_id: Option<i32>,
        to_user_id: Option<i32>,
        now: i64,
    ) -> (r: Result<i32, StoreError>)
        requires
            old(self).wf(),
        ensures
            final(self).wf(),
            final(self).spec_next_id() == old(self).spec_next_id(),
            mark_request_post(
                *old(self),
                *final(self),
                message_id,
                message_ids@,
                from_user_id,
                to_user_id,
                now,
                r,
            ),
    {
        let ghost requested = message_ids@;
        let selector = match resolve_selector(message_id, message_ids, from_user_id, to_user_id) {
            Ok(sel) => sel,
            Err(e) => {
                return Err(e);
            },
        };
        let count = self.mark_as_read(&selector, now);
        proof {
            assert forall|m: Message| #[trigger]
                selected(m, selector) == request_selected(
                    m,
                    message_id,
                    requested,
                    from_user_id,
                    to_user_id,
                ) by {}
            assert(final(self).spec_messages() =~= old(self).spec_messages().map_values(
                request_mark_map(message_id, requested, from_user_id, to_user_id, now),
            ));
            lemma_filter_congruent(
                old(self).spec_messages(),
                selected_filter(selector),
                request_filter(message_id, requested, from_user_id, to_user_id),
            );
        }
        Ok(count)
    }

    /// Idempotent soft delete: stamps the live message carrying
    /// `message_id`, if any, and reports whether a row changed. A missing
    /// or already deleted message is a normal `false`, not an error.
    pub fn delete_message(&mut self, message_id: i32, now: i64) -> (r: bool)
        requires
            old(self).wf(),
        ensures
            final(self).wf(),
            final(self).spec_next_id() == old(self).spec_next_id(),
            final(self).spec_messages() == deleted_table(
                old(self).spec_messages(),
                message_id,
                now,
            ),
            r == has_live(old(self).spec_messages(), message_id),
    {
        let n = self.msgs.len();
        let mut i: usize = 0;
        let mut changed = false;
        while i < n
            invariant
                i <= n,
                n == self.msgs.len(),
                self.next_id == old(self).next_id,
                self.msgs@.len() == old(self).msgs@.len(),
                forall|k: int| i <= k < n ==> self.msgs@[k] == old(self).msgs@[k],
                forall|k: int|
                    0 <= k < i ==> self.msgs@[k] == delete_map(message_id, now)(
                        #[trigger] old(self).msgs@[k],
                    ),
                changed == has_live(old(self).msgs@.take(i as int), message_id),
            decreases n - i,
        {
            proof {
                assert(old(self).msgs@.take(i as int + 1) =~= old(self).msgs@.take(i as int).push(
                    old(self).msgs@[i as int],
                ));
                lemma_has_live_push(
                    old(self).msgs@.take(i as int),
                    old(self).msgs@[i as int],
                    message_id,
                );
            }
            let orig = self.msgs[i].clone();
            if orig.id == message_id && orig.deleted_at.is_none() {
                let updated = Message {
                    id: orig.id,
                    sender_id: orig.sender_id,
                    receiver_id: orig.receiver_id,
                    content: orig.content,
                    is_read: orig.is_read,
                    created_at: orig.created_at,
                    updated_at: now,
                    deleted_at: Some(now),
                };
                self.msgs[i] = updated;
                changed = true;
            }
            i += 1;
        }
        proof {
            assert(old(self).msgs@.take(n as int) =~= old(self).msgs@);
            assert(self.msgs@ =~= deleted_table(old(self).msgs@, message_id, now));
            assert forall|k: int| 0 <= k < n implies self.msgs@[k].id == old(self).msgs@[k].id by {
                assert(self.msgs@[k] == delete_map(message_id, now)(old(self).msgs@[k]));
            }
        }
        changed
    }

    /// The rows of the inbox scope, cloned in table order.
    fn filter_inbox(&self, user_id: i32, unread_only: bool) -> (r: Vec<Message>)
        ensures
            r@ == inbox_of(self.spec_messages(), user_id, unread_only),
    {
        let mut out: Vec<Message> = Vec::new();
        let n = self.msgs.len();
        let mut i: usize = 0;
        while i < n
            invariant
                i <= n,
                n == self.msgs.len(),
                out@ == inbox_of(self.msgs@.take(i as int), user_id, unread_only),
            decreases n - i,
        {
            let m = &self.msgs[i];
            proof {
                assert(self.msgs@.take(i as int + 1) =~= self.msgs@.take(i as int).push(
                    self.msgs@[i as int],
                ));
                lemma_filter_push(
                    self.msgs@.take(i as int),
                    inbox_filter(user_id, unread_only),
                    self.msgs@[i as int],
                );
            }
            if m.deleted_at.is_none() && m.receiver_id == user_id && (!unread_only || !m.is_read) {
                out.push(m.clone());
            }
            i += 1;
        }
        proof {
            assert(self.msgs@.take(n as int) =~= self.msgs@);
        }
        out
    }
}

/// The first position in `within` whose occupant `m` precedes under
/// `newer_first`, or the length when there is none.
fn find_recency_pos(within: &Vec<Message>, m: &Message) -> (j: usize)
    ensures
        j <= within@.len(),
        forall|k: int| 0 <= k < j ==> !newer_first(*m, #[trigger] within@[k]),
        j < within@.len() ==> newer_first(*m, within@[j as int]),
{
    let mut j: usize = 0;
    while j < within.len()
        invariant
            j <= within@.len(),
            forall|k: int| 0 <= k < j ==> !newer_first(*m, #[trigger] within@[k]),
        decreases within@.len() - j,
    {
        let c = &within[j];
        if m.created_at > c.created_at || (m.created_at == c.created_at && m.id >= c.id) {
            return j;
        }
        j += 1;
    }
    j
}

/// Sorts a scoped sequence of rows into conversation display order.
fn sort_by_recency(src: Vec<Message>) -> (r: Vec<Message>)
    ensures
        r@ == sort_newest_first(src@),
{
    let mut out: Vec<Message> = Vec::new();
    let n = src.len();
    let mut i: usize = 0;
    while i < n
        invariant
            i <= n,
            n == src.len(),
            out@ == sort_newest_first(src@.take(i as int)),
        decreases n - i,
    {
        let m = src[i].clone();
        let j = find_recency_pos(&out, &m);
        let ghost prev = out@;
        out.insert(j, m);
        proof {
            lemma_insert_newer_at(prev, m, j as int);
            assert(src@.take(i as int + 1).drop_last() =~= src@.take(i as int));
            assert(src@.take(i as int + 1).last() == src@[i as int]);
        }
        i += 1;
    }
    proof {
        assert(src@.take(n as int) =~= src@);
    }
    out
}

/// What `MessageStore::get_conversation` guarantees: a caller error on
/// non-positive pagination parameters; otherwise the requested page of the
/// conversation scope in display order, and its unpaged size.
pub open spec fn conversation_post(
    s: MessageStore,
    user_id: i32,
    peer_id: i32,
    page: i32,
    per_page: i32,
    r: Result<(Vec<Message>, i32), StoreError>,
) -> bool {
    match r {
        Ok(out) => {
            &&& 1 <= page && 1 <= per_page
            &&& out.0@ == page_of(
                sort_newest_first(conversation_of(s.spec_messages(), user_id, peer_id)),
                page as int,
                per_page as int,
            )
            &&& out.1 == conversation_of(s.spec_messages(), user_id, peer_id).len()
        },
        Err(e) => {
            &&& e == StoreError::InvalidArgument
            &&& (page < 1 || per_page < 1)
        },
    }
}

/// The requested window of an already scoped and ordered sequence of rows.
fn page_slice(src: Vec<Message>, page: i32, per_page: i32) -> (r: Vec<Message>)
    requires
        1 <= page,
        1 <= per_page,
    ensures
        r@ == page_of(src@, page as int, per_page as int),
{
    let pm1: u64 = (page - 1) as u64;
    let pp: u64 = per_page as u64;
    proof {
        assert(pm1 * pp < 0x4000_0000_0000_0000) by (nonlinear_arith)
            requires
                pm1 < 0x8000_0000,
                pp < 0x8000_0000,
        ;
    }
    let lo64: u64 = pm1 * pp;
    if lo64 >= src.len() as u64 {
        let empty: Vec<Message> = Vec::new();
        return empty;
    }
    let lo: usize = lo64 as usize;
    let remaining: usize = src.len() - lo;
    let take: usize = if (per_page as u64) < (remaining as u64) {
        per_page as usize
    } else {
        remaining
    };
    let mut out: Vec<Message> = Vec::new();
    let mut k: usize = 0;
    while k < take
        invariant
            k <= take,
            lo + take <= src.len(),
            out@ == src@.subrange(lo as int, lo as int + k as int),
        decreases take - k,
    {
        proof {
            assert(src@.subrange(lo as int, lo as int + k as int + 1) =~= src@.subrange(
                lo as int,
                lo as int + k as int,
            ).push(src@[lo as int + k as int]));
        }
        out.push(src[lo + k].clone());
        k += 1;
    }
    proof {
        let lo_spec = (page - 1) as int * per_page as int;
        assert(lo as int == lo_spec);
        if lo_spec + per_page as int <= src@.len() {
            assert(out@ =~= src@.subrange(lo_spec, lo_spec + per_page as int));
        } else {
            assert(out@ =~= src@.subrange(lo_spec, src@.len() as int));
        }
    }
    out
}

/// What `MessageStore::list` guarantees: a caller error on non-positive
/// pagination parameters; otherwise the requested page of the inbox scope,
/// its unpaged size, and the unread count, which ignores `unread_only`.
pub open spec fn list_post(
    s: MessageStore,
    user_id: i32,
    unread_only: bool,
    page: i32,
    per_page: i32,
    r: Result<(Vec<Message>, i32, i32), StoreError>,
) -> bool {
    match r {
        Ok(out) => {
            &&& 1 <= page && 1 <= per_page
            &&& out.0@ == page_of(
                inbox_of(s.spec_messages(), user_id, unread_only),
                page as int,
                per_page as int,
            )
            &&& out.1 == inbox_of(s.spec_messages(), user_id, unread_only).len()
            &&& out.2 == inbox_of(s.spec_messages(), user_id, true).len()
        },
        Err(e) => {
            &&& e == StoreError::InvalidArgument
            &&& (page < 1 || per_page < 1)
        },
    }
}

/// Which live messages a bulk read-state update targets, decided by the
/// caller-facing layer: either an explicit identifier set, or every message
/// from one user to another.
pub enum ReadSelector {
    ById(Vec<i32>),
    ByUserPair(i32, i32),
}

/// Whether a live message is targeted by a selector.
pub open spec fn selected(m: Message, selector: ReadSelector) -> bool {
    live(m) && (match selector {
        ReadSelector::ById(ids) => ids@.contains(m.id),
        ReadSelector::ByUserPair(from_id, to_id) => m.sender_id == from_id && m.receiver_id
            == to_id,
    })
}

/// The selector predicate as a filter function.
pub open spec fn selected_filter(selector: ReadSelector) -> spec_fn(Message) -> bool {
    |m: Message| selected(m, selector)
}

/// A message after an unconditional read-state update.
pub open spec fn mark_read(m: Message, now: i64) -> Message {
    Message { is_read: true, updated_at: now, ..m }
}

/// The per-row effect of `MessageStore::mark_as_read` as a map function.
pub open spec fn mark_map(selector: ReadSelector, now: i64) -> spec_fn(Message) -> Message {
    |m: Message|
        if selected(m, selector) {
            mark_read(m, now)
        } else {
            m
        }
}

/// The whole table after a bulk read-state update.
pub open spec fn marked_table(msgs: Seq<Message>, selector: ReadSelector, now: i64) -> Seq<
    Message,
> {
    msgs.map_values(mark_map(selector, now))
}

/// Whether `ids` holds `x`.
fn contains_id(ids: &Vec<i32>, x: i32) -> (b: bool)
    ensures
        b == ids@.contains(x),
{
    let mut i: usize = 0;
    while i < ids.len()
        invariant
            i <= ids@.len(),
            forall|k: int| 0 <= k < i ==> ids@[k] != x,
        decreases ids@.len() - i,
    {
        if ids[i] == x {
            return true;
        }
        i += 1;
    }
    false
}

/// Whether a message is targeted by a selector.
fn is_selected(m: &Message, selector: &ReadSelector) -> (b: bool)
    ensures
        b == selected(*m, *selector),
{
    if m.deleted_at.is_some() {
        return false;
    }
    match selector {
        ReadSelector::ById(ids) => contains_id(ids, m.id),
        ReadSelector::ByUserPair(from_id, to_id) => m.sender_id == *from_id && m.receiver_id
            == *to_id,
    }
}

/// A message after soft deletion.
pub open spec fn soft_delete(m: Message, now: i64) -> Message {
    Message { updated_at: now, deleted_at: Some(now), ..m }
}

/// Whether the table holds a live message carrying `id`.
pub open spec fn has_live(msgs: Seq<Message>, id: i32) -> bool {
    exists|i: int| 0 <= i < msgs.len() && (#[trigger] msgs[i]).id == id && live(msgs[i])
}

/// The per-row effect of `MessageStore::delete_message` as a map function.
pub open spec fn delete_map(id: i32, now: i64) -> spec_fn(Message) -> Message {
    |m: Message|
        if m.id == id && live(m) {
            soft_delete(m, now)
        } else {
            m
        }
}

/// The whole table after a soft delete.
pub open spec fn deleted_table(msgs: Seq<Message>, id: i32, now: i64) -> Seq<Message> {
    msgs.map_values(delete_map(id, now))
}

/// Appending a row to a table adds a live carrier of `id` exactly when the
/// row is one.
proof fn lemma_has_live_push(s: Seq<Message>, x: Message, id: i32)
    ensures
        has_live(s.push(x), id) == (has_live(s, id) || (x.id == id && live(x))),
{
    if has_live(s.push(x), id) {
        let k = choose|k: int|
            0 <= k < s.push(x).len() && (#[trigger] s.push(x)[k]).id == id && live(s.push(x)[k]);
        if k < s.len() {
            assert(s[k].id == id && live(s[k]));
        }
    }
    if has_live(s, id) {
        let k = choose|k: int| 0 <= k < s.len() && (#[trigger] s[k]).id == id && live(s[k]);
        assert(s.push(x)[k].id == id && live(s.push(x)[k]));
    }
    if x.id == id && live(x) {
        assert(s.push(x)[s.len() as int] == x);
    }
}

/// Whether a request supplies an explicit identifier selection.
pub open spec fn by_ids_requested(message_id: Option<i32>, message_ids: Seq<i32>) -> bool {
    message_id is Some || message_ids.len() > 0
}

/// The identifier set a request selects: the single identifier, the listed
/// ones, or their union when both are supplied.
pub open spec fn requested_ids(message_id: Option<i32>, message_ids: Seq<i32>) -> Seq<i32> {
    match message_id {
        Some(mid) => seq![mid] + message_ids,
        None => message_ids,
    }
}

/// Whether a live message is targeted by the four loosely-related request
/// parameters, honouring selector precedence: an explicit identifier
/// selection wins over a sender/receiver pair.
pub open spec fn request_selected(
    m: Message,
    message_id: Option<i32>,
    message_ids: Seq<i32>,
    from_user_id: Option<i32>,
    to_user_id: Option<i32>,
) -> bool {
    if by_ids_requested(message_id, message_ids) {
        live(m) && requested_ids(message_id, message_ids).contains(m.id)
    } else if from_user_id is Some && to_user_id is Some {
        live(m) && m.sender_id == from_user_id->0 && m.receiver_id == to_user_id->0
    } else {
        false
    }
}

/// The request-level target predicate as a filter function.
pub open spec fn request_filter(
    message_id: Option<i32>,
    message_ids: Seq<i32>,
    from_user_id: Option<i32>,
    to_user_id: Option<i32>,
) -> spec_fn(Message) -> bool {
    |m: Message| request_selected(m, message_id, message_ids, from_user_id, to_user_id)
}

/// The per-row effect of a request-level bulk read-state update.
pub open spec fn request_mark_map(
    message_id: Option<i32>,
    message_ids: Seq<i32>,
    from_user_id: Option<i32>,
    to_user_id: Option<i32>,
    now: i64,
) -> spec_fn(Message) -> Message {
    |m: Message|
        if request_selected(m, message_id, message_ids, from_user_id, to_user_id) {
            mark_read(m, now)
        } else {
            m
        }
}

/// What `resolve_selector` guarantees: the precedence rule made a tagged
/// variant — identifiers first, then the user pair, otherwise a caller
/// error.
pub open spec fn resolve_post(
    message_id: Option<i32>,
    message_ids: Seq<i32>,
    from_user_id: Option<i32>,
    to_user_id: Option<i32>,
    r: Result<ReadSelector, StoreError>,
) -> bool {
    match r {
        Ok(sel) => match sel {
            ReadSelector::ById(ids) => by_ids_requested(message_id, message_ids) && ids@
                == requested_ids(message_id, message_ids),
            ReadSelector::ByUserPair(f, t) => !by_ids_requested(message_id, message_ids)
                && from_user_id == Some(f) && to_user_id == Some(t),
        },
        Err(e) => {
            &&& e == StoreError::InvalidArgument
            &&& !by_ids_requested(message_id, message_ids)
            &&& !(from_user_id is Some && to_user_id is Some)
        },
    }
}

/// Builds the read-state selector from the four request parameters,
/// honouring selector precedence; with no selector supplied the request is
/// a caller error.
pub fn resolve_selector(
    message_id: Option<i32>,
    message_ids: Vec<i32>,
    from_user_id: Option<i32>,
    to_user_id: Option<i32>,
) -> (r: Result<ReadSelector, StoreError>)
    ensures
        resolve_post(message_id, message_ids@, from_user_id, to_user_id, r),
{
    if message_id.is_some() || message_ids.len() > 0 {
        let ghost requested = message_ids@;
        let mut ids: Vec<i32> = Vec::new();
        if let Some(mid) = message_id {
            ids.push(mid);
        }
        let mut rest = message_ids;
        ids.append(&mut rest);
        proof {
            if message_id is Some {
                assert(ids@ =~= seq![message_id->0] + requested);
            }
        }
        Ok(ReadSelector::ById(ids))
    } else if from_user_id.is_some() && to_user_id.is_some() {
        Ok(ReadSelector::ByUserPair(from_user_id.unwrap(), to_user_id.unwrap()))
    } else {
        Err(StoreError::InvalidArgument)
    }
}

/// What `MessageStore::mark_as_read_request` guarantees: with no selector
/// supplied, a caller error and no write; otherwise the bulk update under
/// the resolved selector and the count of targeted rows.
pub open spec fn mark_request_post(
    pre: MessageStore,
    post: MessageStore,
    message_id: Option<i32>,
    message_ids: Seq<i32>,
    from_user_id: Option<i32>,
    to_user_id: Option<i32>,
    now: i64,
    r: Result<i32, StoreError>,
) -> bool {
    match r {
        Ok(count) => {
            &&& by_ids_requested(message_id, message_ids) || (from_user_id is Some
                && to_user_id is Some)
            &&& post.spec_messages() == pre.spec_messages().map_values(
                request_mark_map(message_id, message_ids, from_user_id, to_user_id, now),
            )
            &&& count == pre.spec_messages().filter(
                request_filter(message_id, message_ids, from_user_id, to_user_id),
            ).len()
        },
        Err(e) => {
            &&& e == StoreError::InvalidArgument
            &&& !by_ids_requested(message_id, message_ids)
            &&& !(from_user_id is Some && to_user_id is Some)
            &&& post == pre
        },
    }
}

/// What `MessageStore::send` guarantees: success exactly while identifiers
/// remain, the returned row fully populated and appended to the table.
pub open spec fn send_post(
    pre: MessageStore,
    post: MessageStore,
    sender_id: i32,
    receiver_id: i32,
    content: String,
    now: i64,
    r: Result<Message, StoreError>,
) -> bool {
    match r {
        Ok(m) => {
            &&& pre.spec_next_id() < i32::MAX
            &&& m == (Message {
                id: pre.spec_next_id() as i32,
                sender_id,
                receiver_id,
                content,
                is_read: false,
                created_at: now,
                updated_at: now,
                deleted_at: None,
            })
            &&& post.spec_messages() == pre.spec_messages().push(m)
            &&& post.spec_next_id() == pre.spec_next_id() + 1
        },
        Err(e) => {
            &&& e == StoreError::Internal
            &&& pre.spec_next_id() == i32::MAX
            &&& post == pre
        },
    }
}

/// Insertion under `newer_first` neither loses nor invents elements.
proof fn lemma_insert_newer_contains(s: Seq<Message>, m: Message, x: Message)
    ensures
        insert_newer(s, m).contains(x) <==> (s.contains(x) || x == m),
    decreases s.len(),
{
    if s.len() == 0 {
        assert(insert_newer(s, m) == seq![m]);
        assert(seq![m][0] == m);
        if insert_newer(s, m).contains(x) {
            let i = choose|i: int| 0 <= i < seq![m].len() && seq![m][i] == x;
            assert(x == m);
        }
    } else if newer_first(m, s[0]) {
        lemma_contains_concat(seq![m], s, x);
        assert(seq![m].contains(x) <==> x == m) by {
            assert(seq![m][0] == m);
            if seq![m].contains(x) {
                let i = choose|i: int| 0 <= i < seq![m].len() && seq![m][i] == x;
            }
        }
    } else {
        lemma_insert_newer_contains(s.drop_first(), m, x);
        lemma_contains_concat(seq![s[0]], insert_newer(s.drop_first(), m), x);
        lemma_contains_first(s, x);
        assert(seq![s[0]].contains(x) <==> x == s[0]) by {
            assert(seq![s[0]][0] == s[0]);
            if seq![s[0]].contains(x) {
                let i = choose|i: int| 0 <= i < seq![s[0]].len() && seq![s[0]][i] == x;
            }
        }
    }
}

/// Sorting into display order neither loses nor invents elements.
pub proof fn lemma_sort_newest_contains(s: Seq<Message>, x: Message)
    ensures
        sort_newest_first(s).contains(x) <==> s.contains(x),
    decreases s.len(),
{
    if s.len() > 0 {
        lemma_sort_newest_contains(s.drop_last(), x);
        lemma_insert_newer_contains(sort_newest_first(s.drop_last()), s.last(), x);
        lemma_contains_last(s, x);
    }
}

/// A sequence arranged most recently created first.
pub open spec fn sorted_newest_first(s: Seq<Message>) -> bool {
    forall|i: int, j: int| 0 <= i < j < s.len() ==> newer_first(#[trigger] s[i], #[trigger] s[j])
}

/// Insertion under `newer_first` keeps a sequence sorted.
proof fn lemma_insert_newer_sorted(s: Seq<Message>, m: Message)
    requires
        sorted_newest_first(s),
    ensures
        sorted_newest_first(insert_newer(s, m)),
    decreases s.len(),
{
    if s.len() == 0 {
    } else if newer_first(m, s[0]) {
        let out = seq![m] + s;
        assert forall|i: int, j: int| 0 <= i < j < out.len() implies newer_first(
            #[trigger] out[i],
            #[trigger] out[j],
        ) by {
            if i == 0 {
                if j > 1 {
                    assert(newer_first(s[0], s[j - 1]));
                }
            } else {
                assert(newer_first(s[i - 1], s[j - 1]));
            }
        }
    } else {
        assert forall|i: int, j: int|
            0 <= i < j < s.drop_first().len() implies newer_first(
            #[trigger] s.drop_first()[i],
            #[trigger] s.drop_first()[j],
        ) by {
            assert(newer_first(s[i + 1], s[j + 1]));
        }
        lemma_insert_newer_sorted(s.drop_first(), m);
        let rest = insert_newer(s.drop_first(), m);
        let out = seq![s[0]] + rest;
        assert forall|i: int, j: int| 0 <= i < j < out.len() implies newer_first(
            #[trigger] out[i],
            #[trigger] out[j],
        ) by {
            if i == 0 {
                let rk = rest[j - 1];
                assert(rest.contains(rk)) by {
                    assert(rest[j - 1] == rk);
                }
                lemma_insert_newer_contains(s.drop_first(), m, rk);
                if rk == m {
                } else {
                    let idx = choose|idx: int|
                        0 <= idx < s.drop_first().len() && s.drop_first()[idx] == rk;
                    assert(newer_first(s[0], s[idx + 1]));
                }
            } else {
                assert(newer_first(rest[i - 1], rest[j - 1]));
            }
        }
    }
}

/// `sort_newest_first` arranges a conversation most recently created
/// first, ties broken by descending identifier.
pub proof fn lemma_sort_newest_first_sorted(s: Seq<Message>)
    ensures
        sorted_newest_first(sort_newest_first(s)),
    decreases s.len(),
{
    if s.len() > 0 {
        lemma_sort_newest_first_sorted(s.drop_last());
        lemma_insert_newer_sorted(sort_newest_first(s.drop_last()), s.last());
    }
}

/// Length is preserved by insertion under `newer_first`.
proof fn lemma_insert_newer_len(s: Seq<Message>, m: Message)
    ensures
        insert_newer(s, m).len() == s.len() + 1,
    decreases s.len(),
{
    if s.len() > 0 && !newer_first(m, s[0]) {
        lemma_insert_newer_len(s.drop_first(), m);
    }
}

/// Sorting into display order preserves length.
pub proof fn lemma_sort_newest_len(s: Seq<Message>)
    ensures
        sort_newest_first(s).len() == s.len(),
    decreases s.len(),
{
    if s.len() > 0 {
        lemma_sort_newest_len(s.drop_last());
        lemma_insert_newer_len(sort_newest_first(s.drop_last()), s.last());
    }
}

/// Direction symmetry: the conversation between two users is the same
/// scope whichever of them is named first.
pub proof fn lemma_conversation_symmetric(msgs: Seq<Message>, user_id: i32, peer_id: i32)
    ensures
        conversation_of(msgs, user_id, peer_id) == conversation_of(msgs, peer_id, user_id),
{
    lemma_filter_congruent(
        msgs,
        conversation_filter(user_id, peer_id),
        conversation_filter(peer_id, user_id),
    );
}

/// A message just appended to the table belongs to the conversation
/// between its sender and its receiver — under both directions, and also
/// after sorting into display order.
pub proof fn lemma_sent_in_conversation(msgs: Seq<Message>, m: Message)
    requires
        live(m),
    ensures
        conversation_of(msgs.push(m), m.sender_id, m.receiver_id).contains(m),
        conversation_of(msgs.push(m), m.receiver_id, m.sender_id).contains(m),
        sort_newest_first(conversation_of(msgs.push(m), m.sender_id, m.receiver_id)).contains(m),
        sort_newest_first(conversation_of(msgs.push(m), m.receiver_id, m.sender_id)).contains(m),
{
    lemma_filter_push(msgs, conversation_filter(m.sender_id, m.receiver_id), m);
    lemma_filter_push(msgs, conversation_filter(m.receiver_id, m.sender_id), m);
    let fwd = conversation_of(msgs.push(m), m.sender_id, m.receiver_id);
    let bwd = conversation_of(msgs.push(m), m.receiver_id, m.sender_id);
    assert(fwd[fwd.len() - 1] == m);
    assert(bwd[bwd.len() - 1] == m);
    lemma_sort_newest_contains(fwd, m);
    lemma_sort_newest_contains(bwd, m);
}

/// Soft deletion is terminal: after a delete no live row carries the
/// identifier, so a second delete reports `false` and changes nothing.
pub proof fn lemma_delete_is_terminal(msgs: Seq<Message>, id: i32, now: i64, later: i64)
    ensures
        !has_live(deleted_table(msgs, id, now), id),
        deleted_table(deleted_table(msgs, id, now), id, later) == deleted_table(msgs, id, now),
{
    let d = deleted_table(msgs, id, now);
    assert forall|i: int| 0 <= i < d.len() implies !((#[trigger] d[i]).id == id && live(d[i])) by {
        assert(d[i] == delete_map(id, now)(msgs[i]));
    }
    assert forall|i: int| 0 <= i < d.len() implies delete_map(id, later)(#[trigger] d[i]) == d[i] by {
        assert(!(d[i].id == id && live(d[i])));
    }
    assert(deleted_table(d, id, later) =~= d);
}

/// A message identifier with no live carrier is invisible to listing,
/// threading, and unread counting.
pub proof fn lemma_deleted_invisible(msgs: Seq<Message>, id: i32)
    requires
        !has_live(msgs, id),
    ensures
        forall|user_id: i32, unread_only: bool, m: Message|
            #[trigger] inbox_of(msgs, user_id, unread_only).contains(m) ==> m.id != id,
        forall|user_id: i32, peer_id: i32, m: Message|
            #[trigger] conversation_of(msgs, user_id, peer_id).contains(m) ==> m.id != id,
{
    assert forall|user_id: i32, unread_only: bool, m: Message| #[trigger]
        inbox_of(msgs, user_id, unread_only).contains(m) implies m.id != id by {
        lemma_filter_in_original(msgs, inbox_filter(user_id, unread_only), m);
        let i = choose|i: int| 0 <= i < msgs.len() && msgs[i] == m;
        assert(inbox_pred(m, user_id, unread_only));
        if m.id == id {
            assert(msgs[i].id == id && live(msgs[i]));
        }
    }
    assert forall|user_id: i32, peer_id: i32, m: Message| #[trigger]
        conversation_of(msgs, user_id, peer_id).contains(m) implies m.id != id by {
        lemma_filter_in_original(msgs, conversation_filter(user_id, peer_id), m);
        let i = choose|i: int| 0 <= i < msgs.len() && msgs[i] == m;
        assert(in_conversation(m, user_id, peer_id));
        if m.id == id {
            assert(msgs[i].id == id && live(msgs[i]));
        }
    }
}

} // verus!
