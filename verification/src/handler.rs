use vstd::prelude::*;

use crate::messages;
use crate::proto;
use crate::reactions;

verus! {

/// The wire text of a timestamp, as the date-time formatter renders it.
pub uninterp spec fn datetime_text(secs: i64) -> Seq<char>;

/// Relies on chrono: `DateTime::from_timestamp(secs, 0)` is a pure
/// function of `secs` (out-of-range seconds fall back to the epoch via
/// `NaiveDateTime::default`), and formatting its naive UTC value with the
/// fixed pattern `%Y-%m-%d %H:%M:%S` depends on that value alone.
#[verifier::external_body]
fn format_timestamp(secs: i64) -> (r: String)
    ensures
        r@ == datetime_text(secs),
{
    let dt = chrono::DateTime::from_timestamp(secs, 0).map(|d| d.naive_utc()).unwrap_or_default();
    dt.format("%Y-%m-%d %H:%M:%S").to_string()
}

/// Translates message results to their wire shape. The transport methods
/// that wrap these conversions live at the process's RPC edge.
pub struct MessageHandler<U> {
    usecase: U,
}

impl<U> MessageHandler<U> {
    /// The wrapped application layer.
    pub closed spec fn spec_usecase(self) -> U {
        self.usecase
    }

    pub fn new(usecase: U) -> (h: Self)
        ensures
            h.spec_usecase() == usecase,
    {
        MessageHandler { usecase }
    }

    /// Renders a stored message for the wire: identifiers widened,
    /// timestamps formatted as text.
    pub fn to_proto_message(message: &messages::Message) -> (p: proto::Message)
        requires
            0 <= message.id,
            0 <= message.sender_id,
            0 <= message.receiver_id,
        ensures
            p.id == message.id as u64,
            p.sender_id == message.sender_id as u64,
            p.receiver_id == message.receiver_id as u64,
            p.content@ == message.content@,
            p.is_read == message.is_read,
            p.created_at@ == datetime_text(message.created_at),
            p.updated_at@ == datetime_text(message.updated_at),
    {
        proto::Message {
            id: message.id as u64,
            sender_id: message.sender_id as u64,
            receiver_id: message.receiver_id as u64,
            content: message.content.clone(),
            is_read: message.is_read,
            created_at: format_timestamp(message.created_at),
            updated_at: format_timestamp(message.updated_at),
        }
    }
}

/// Translates reaction results to their wire shape. The transport methods
/// that wrap these conversions live at the process's RPC edge.
pub struct ReactionHandler<U> {
    usecase: U,
}

impl<U> ReactionHandler<U> {
    /// The wrapped application layer.
    pub closed spec fn spec_usecase(self) -> U {
        self.usecase
    }

    pub fn new(usecase: U) -> (h: Self)
        ensures
            h.spec_usecase() == usecase,
    {
        ReactionHandler { usecase }
    }

    /// Renders a stored reaction for the wire.
    pub fn to_proto_reaction(reaction: &reactions::Reaction) -> (p: proto::Reaction)
        requires
            0 <= reaction.id,
            0 <= reaction.user_id,
            0 <= reaction.message_id,
            0 <= reaction.reaction_type_id,
        ensures
            p.id == reaction.id as u64,
            p.user_id == reaction.user_id as u64,
            p.message_id == reaction.message_id as u64,
            p.reaction_type_id == reaction.reaction_type_id as u64,
            p.created_at@ == datetime_text(reaction.created_at),
            p.updated_at@ == datetime_text(reaction.updated_at),
    {
        proto::Reaction {
            id: reaction.id as u64,
            user_id: reaction.user_id as u64,
            message_id: reaction.message_id as u64,
            reaction_type_id: reaction.reaction_type_id as u64,
            created_at: format_timestamp(reaction.created_at),
            updated_at: format_timestamp(reaction.updated_at),
        }
    }

    /// Renders a catalog entry for the wire; its timestamps are not part
    /// of the wire shape.
    pub fn to_proto_reaction_type(reaction_type: &reactions::ReactionType) -> (p:
        proto::ReactionType)
        requires
            0 <= reaction_type.id,
        ensures
            p.id == reaction_type.id as u64,
            p.name@ == reaction_type.name@,
            p.emoji@ == reaction_type.emoji@,
    {
        proto::ReactionType {
            id: reaction_type.id as u64,
            name: reaction_type.name.clone(),
            emoji: reaction_type.emoji.clone(),
        }
    }
}

} // verus!
