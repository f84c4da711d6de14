//! A branching conversation history for a terminal chat assistant.
//!
//! The conversation is held as a tree of turn pairs (a user message and the
//! assistant's reply), with a shared system message at the root. Each turn is
//! kept in an editable line buffer. The tree can be navigated, forked, and
//! linearised into the ordered message list that is sent to a model.

pub mod completion;
pub mod config;
pub mod error;
pub mod message;
pub mod pagetree;
pub mod query;
pub mod session;
pub mod state;
pub mod textarea;
