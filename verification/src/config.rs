//! Runtime tuning: mailbox capacities and load limits.

use crate::time::Duration;
use vstd::prelude::*;

verus! {

/// Actor mailbox sizing and deadlock / slow-handle limits.
#[derive(Debug, Clone, Copy, PartialEq, Eq, Structural)]
pub struct ActorConfig {
    /// Messages that a mailbox holds.
    pub mailbox_capacity: usize,
    /// Longest time for handling one message; `None` disables the limit.
    pub handle_timeout: Option<Duration>,
    /// Successful handles beyond this are counted as slow; `None` falls back
    /// to `handle_timeout`.
    pub slow_handle_threshold: Option<Duration>,
}

impl Default for ActorConfig {
    fn default() -> (c: Self)
        ensures
            c == (ActorConfig {
                mailbox_capacity: 64,
                handle_timeout: None,
                slow_handle_threshold: None,
            }),
    {
        ActorConfig { mailbox_capacity: 64, handle_timeout: None, slow_handle_threshold: None }
    }
}

impl ActorConfig {
    /// Threshold used when recording slow successful handles.
    pub fn effective_slow_threshold(&self) -> (t: Option<Duration>)
        ensures
            t == (match self.slow_handle_threshold {
                Some(d) => Some(d),
                None => self.handle_timeout,
            }),
    {
        match self.slow_handle_threshold {
            Some(d) => Some(d),
            None => self.handle_timeout,
        }
    }
}

/// Distributed bridge sizing and per-node load limits.
#[derive(Debug, Clone, Copy, PartialEq, Eq, Structural)]
pub struct DistributedConfig {
    /// Messages that the bridge holds.
    pub bridge_capacity: usize,
    /// Most in-flight frame dispatches per node.
    pub max_in_flight: usize,
    /// Inbound frames larger than this are rejected.
    pub max_frame_bytes: u32,
    /// Longest wait for one read on an inbound connection.
    pub read_timeout: Duration,
    /// Outbound queue depth per remote reference.
    pub remote_send_capacity: usize,
}

impl Default for DistributedConfig {
    fn default() -> (c: Self)
        ensures
            c == (DistributedConfig {
                bridge_capacity: 32,
                max_in_flight: 32,
                max_frame_bytes: 4194304,
                read_timeout: Duration { secs: 30, nanos: 0 },
                remote_send_capacity: 32,
            }),
    {
        DistributedConfig {
            bridge_capacity: 32,
            max_in_flight: 32,
            max_frame_bytes: 4 * 1024 * 1024,
            read_timeout: Duration::from_secs(30),
            remote_send_capacity: 32,
        }
    }
}

/// Options for a dedicated runtime for actors and nodes.
#[derive(Debug, Clone, Copy, PartialEq, Eq, Structural)]
pub struct RuntimeOptions {
    /// Worker threads; `None` leaves the choice to the runtime.
    pub worker_threads: Option<usize>,
}

impl Default for RuntimeOptions {
    fn default() -> (o: Self)
        ensures
            o == (RuntimeOptions { worker_threads: None }),
    {
        RuntimeOptions { worker_threads: None }
    }
}

} // verus!
