//! What hosts written in other languages see of a client session.

pub mod error;
pub mod events;
pub mod host;
pub mod json;
pub mod session;

use vstd::prelude::*;

verus! {

/// Library version.
pub const VERSION: &'static str = "0.1.0";

/// Wire protocol version, which has to be that of the server.
pub const PROTOCOL_VERSION: u8 = 1;

/// Default maximum frame size: 256 KiB.
pub const DEFAULT_MAX_FRAME: u32 = 262_144;

/// Media chunk size: 64 KiB.
pub const MEDIA_CHUNK_SIZE: u32 = 65_536;

/// Default maximum blob size: 64 MiB.
pub const DEFAULT_MAX_MEDIA: u64 = 67_108_864;

/// Suggested seconds between pings.
pub const PING_INTERVAL_SECS: u64 = 30;

/// Library version.
pub fn version() -> (s: &'static str)
    ensures
        s@ == VERSION@,
{
    VERSION
}

/// Wire protocol version.
pub fn protocol_version() -> (v: u8)
    ensures
        v == PROTOCOL_VERSION,
{
    PROTOCOL_VERSION
}

} // verus!
