//! The decision core of a node daemon for a game-server panel.

pub mod acks;
pub mod backups;
pub mod client;
pub mod config;
pub mod content;
pub mod db;
pub mod dispatcher;
pub mod envelope;
pub mod envelope_type;
pub mod heartbeat;
pub mod nonce_cache;
pub mod outbox;
pub mod outcomes;
pub mod paths;
pub mod payloads;
pub mod runtime;
pub mod search;
pub mod session;
pub mod sign;
pub mod steps;
pub mod table;
pub mod tail;
pub mod text;
