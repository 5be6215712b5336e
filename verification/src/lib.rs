//! Consistent messaging between actors, services and chat clients.
pub mod actor;
pub mod collections;
pub mod config;
pub mod consistency;
pub mod distributed;
pub mod error;
pub mod ffi;
pub mod hash_ring;
pub mod mesh;
pub mod mesh_registry;
pub mod messenger;
pub mod monitor;
pub mod paxos;
pub mod quorum;
pub mod registry;
pub mod text;
pub mod time;
