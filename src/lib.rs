//! Moderated message deletion for group chats: polls, a vote ledger, per-chat
//! settings and a queue of deferred deletions, with the rules that tie them
//! together proved correct.

pub mod types;
pub mod render;
pub mod mention;
pub mod store;
pub mod engine;
pub mod settings;
pub mod laws;
