//! Compact binary messaging: packets and frames, authentication, the gateway,
//! its cluster and its journal, the client, and end-to-end encryption.

pub mod auth;
pub mod client;
pub mod cluster;
pub mod codec;
pub mod digest;
pub mod dispatch;
pub mod discovery;
pub mod effects;
pub mod e2ee;
pub mod error;
pub mod fanout;
pub mod groups;
pub mod guarantees;
pub mod inbox;
pub mod inbox_storage;
pub mod journal;
pub mod key_store;
pub mod limits;
pub mod login;
pub mod media;
pub mod metrics;
pub mod observability;
pub mod olm;
pub mod presence;
pub mod receipts;
pub mod server;
pub mod sessions;
pub mod sharing;
pub mod transfer;
pub mod wire;
pub mod ws;
