//! An in-memory model of a direct-messaging service with typed message
//! reactions.
//!
//! Two stores share a soft-delete lifecycle: [`messages::MessageStore`] owns
//! direct messages between users (creation, paginated listing and threading,
//! bulk read-state transitions, soft deletion), and
//! [`reactions::ReactionStore`] owns typed reactions on messages together
//! with the reaction-type catalog (uniqueness of live reaction triples,
//! per-message aggregation by type).

pub mod error;
pub mod handler;
pub mod messages;
pub mod proto;
pub mod reactions;
pub mod seq_facts;
pub mod usecase;
