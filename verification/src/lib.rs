//! The core of a client for XMPP: what it does with what happens to it.
//!
//! The core does no input or output of its own. What it wants done stands in plain queues (events
//! to handle next, stanzas to send, connections to open, tasks to wake), and a runtime around it
//! works them off and hands back what came.
pub mod account;
pub mod aparte;
pub mod async_iq;
pub mod client;
pub mod config;
pub mod connections;
pub mod crypto;
pub mod disco;
pub mod dispatch;
pub mod event;
pub mod laws;
pub mod laws_client;
pub mod laws_events;
pub mod laws_shared;
pub mod laws_values;
pub mod message;
pub mod mods;
pub mod modules;
pub mod payload;
pub mod presence;
pub mod proxy;
pub mod run;
pub mod shared;
pub mod stanza;
pub mod table;
