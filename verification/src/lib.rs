//! A node of a Byzantine reliable broadcast group: its identities and messages, its
//! peer routing, its console commands and the replicated state it drives.

pub mod actor;
pub mod laws;
pub mod message;
pub mod node;
pub mod repl;
pub mod router;
pub mod text;
