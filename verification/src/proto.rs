use vstd::prelude::*;

verus! {

/// The wire shape of a message: identifiers widened to `u64` and
/// timestamps rendered as text.
pub struct Message {
    pub id: u64,
    pub sender_id: u64,
    pub receiver_id: u64,
    pub content: String,
    pub is_read: bool,
    pub created_at: String,
    pub updated_at: String,
}

/// The wire shape of a reaction.
pub struct Reaction {
    pub id: u64,
    pub user_id: u64,
    pub message_id: u64,
    pub reaction_type_id: u64,
    pub created_at: String,
    pub updated_at: String,
}

/// The wire shape of a reaction type.
pub struct ReactionType {
    pub id: u64,
    pub name: String,
    pub emoji: String,
}

} // verus!
