use vstd::prelude::*;

use crate::error::StoreError;
use crate::messages::Message;
use crate::messages::MessageStore;
use crate::messages::conversation_post;
use crate::messages::list_post;
use crate::messages::mark_request_post;
use crate::messages::send_post;
use crate::messages::deleted_table;
use crate::messages::has_live;
use crate::reactions::Reaction;
use crate::reactions::ReactionStore;
use crate::reactions::ReactionType;
use crate::reactions::add_post;
use crate::reactions::counts_for;
use crate::reactions::find_type;
use crate::reactions::reactions_on;
use crate::reactions::removal_filter;
use crate::reactions::removed_table;
use crate::reactions::sort_oldest_first;

verus! {

/// The message operations an application exposes, bound to a repository.
pub struct MessageUseCaseImpl<R> {
    repository: R,
}

impl<R> MessageUseCaseImpl<R> {
    /// The wrapped repository.
    pub closed spec fn spec_repository(self) -> R {
        self.repository
    }

    pub fn new(repository: R) -> (u: Self)
        ensures
            u.spec_repository() == repository,
    {
        MessageUseCaseImpl { repository }
    }
}

impl MessageUseCaseImpl<MessageStore> {
    /// Sends a new message; see `MessageStore::send`.
    pub fn send_message(
        &mut self,
        sender_id: i32,
        receiver_id: i32,
        content: String,
        now: i64,
    ) -> (r: Result<Message, StoreError>)
        requires
            old(self).spec_repository().wf(),
        ensures
            final(self).spec_repository().wf(),
            send_post(
                old(self).spec_repository(),
                final(self).spec_repository(),
                sender_id,
                receiver_id,
                content,
                now,
                r,
            ),
    {
        self.repository.send(sender_id, receiver_id, content, now)
    }

    /// Lists a user's messages with counts; see `MessageStore::list`.
    pub fn list_messages(&self, user_id: i32, unread_only: bool, page: i32, per_page: i32) -> (r:
        Result<(Vec<Message>, i32, i32), StoreError>)
        requires
            self.spec_repository().wf(),
        ensures
            list_post(self.spec_repository(), user_id, unread_only, page, per_page, r),
    {
        self.repository.list(user_id, unread_only, page, per_page)
    }

    /// Pages through a conversation; see `MessageStore::get_conversation`.
    pub fn get_conversation(&self, user_id: i32, peer_id: i32, page: i32, per_page: i32) -> (r:
        Result<(Vec<Message>, i32), StoreError>)
        requires
            self.spec_repository().wf(),
        ensures
            conversation_post(self.spec_repository(), user_id, peer_id, page, per_page, r),
    {
        self.repository.get_conversation(user_id, peer_id, page, per_page)
    }

    /// Marks the selected messages read; see
    /// `MessageStore::mark_as_read_request`.
    pub fn mark_as_read(
        &mut self,
        message_id: Option<i32>,
        message_ids: Vec<i32>,
        from_user_id: Option<i32>,
        to_user_id: Option<i32>,
        now: i64,
    ) -> (r: Result<i32, StoreError>)
        requires
            old(self).spec_repository().wf(),
        ensures
            final(self).spec_repository().wf(),
            mark_request_post(
                old(self).spec_repository(),
                final(self).spec_repository(),
                message_id,
                message_ids@,
                from_user_id,
                to_user_id,
                now,
                r,
            ),
    {
        self.repository.mark_as_read_request(message_id, message_ids, from_user_id, to_user_id, now)
    }

    /// Soft-deletes a message; see `MessageStore::delete_message`.
    pub fn delete_message(&mut self, message_id: i32, now: i64) -> (r: bool)
        requires
            old(self).spec_repository().wf(),
        ensures
            final(self).spec_repository().wf(),
            final(self).spec_repository().spec_messages() == deleted_table(
                old(self).spec_repository().spec_messages(),
                message_id,
                now,
            ),
            r == has_live(old(self).spec_repository().spec_messages(), message_id),
    {
        self.repository.delete_message(message_id, now)
    }
}

/// The reaction operations an application exposes, bound to a repository.
pub struct ReactionUseCaseImpl<R> {
    repository: R,
}

impl<R> ReactionUseCaseImpl<R> {
    /// The wrapped repository.
    pub closed spec fn spec_repository(self) -> R {
        self.repository
    }

    pub fn new(repository: R) -> (u: Self)
        ensures
            u.spec_repository() == repository,
    {
        ReactionUseCaseImpl { repository }
    }
}

impl ReactionUseCaseImpl<ReactionStore> {
    /// Adds a reaction; see `ReactionStore::add_reaction`.
    pub fn add_reaction(
        &mut self,
        user_id: i32,
        message_id: i32,
        reaction_type_id: i32,
        now: i64,
    ) -> (r: Result<Reaction, StoreError>)
        requires
            old(self).spec_repository().wf(),
        ensures
            final(self).spec_repository().wf(),
            add_post(
                old(self).spec_repository(),
                final(self).spec_repository(),
                user_id,
                message_id,
                reaction_type_id,
                now,
                r,
            ),
    {
        self.repository.add_reaction(user_id, message_id, reaction_type_id, now)
    }

    /// Removes reactions; see `ReactionStore::remove_reaction`.
    pub fn remove_reaction(
        &mut self,
        user_id: i32,
        message_id: i32,
        reaction_type_id: Option<i32>,
        now: i64,
    ) -> (count: i32)
        requires
            old(self).spec_repository().wf(),
        ensures
            final(self).spec_repository().wf(),
            final(self).spec_repository().spec_reactions() == removed_table(
                old(self).spec_repository().spec_reactions(),
                user_id,
                message_id,
                reaction_type_id,
                now,
            ),
            final(self).spec_repository().spec_types() == old(self).spec_repository().spec_types(),
            count == old(self).spec_repository().spec_reactions().filter(
                removal_filter(user_id, message_id, reaction_type_id),
            ).len(),
    {
        self.repository.remove_reaction(user_id, message_id, reaction_type_id, now)
    }

    /// All live reactions on a message, oldest first; see
    /// `ReactionStore::get_reactions_for_message`.
    pub fn get_reactions_for_message(&self, message_id: i32) -> (r: Vec<Reaction>)
        ensures
            r@ == sort_oldest_first(
                reactions_on(self.spec_repository().spec_reactions(), message_id),
            ),
    {
        self.repository.get_reactions_for_message(message_id)
    }

    /// Per-type aggregation; see `ReactionStore::count_reactions_by_type`.
    pub fn count_reactions_by_type(&self, message_id: i32) -> (r: Vec<(ReactionType, i64)>)
        requires
            self.spec_repository().wf(),
        ensures
            r@ == counts_for(
                self.spec_repository().spec_types(),
                self.spec_repository().spec_reactions(),
                message_id,
            ),
    {
        self.repository.count_reactions_by_type(message_id)
    }

    /// The whole catalog; see `ReactionStore::list_reaction_types`.
    pub fn list_reaction_types(&self) -> (r: Vec<ReactionType>)
        ensures
            r@ == self.spec_repository().spec_types(),
    {
        self.repository.list_reaction_types()
    }

    /// One catalog entry; see `ReactionStore::get_reaction_type`.
    pub fn get_reaction_type(&self, id: i32) -> (r: Option<ReactionType>)
        ensures
            r == find_type(self.spec_repository().spec_types(), id),
    {
        self.repository.get_reaction_type(id)
    }
}

} // verus!
