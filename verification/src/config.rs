use vstd::prelude::*;

verus! {

/// Immutable transport tunables, supplied once at construction.
#[derive(Clone, Copy, Debug, PartialEq, Eq, Structural)]
pub struct TransportConfig {
    /// Heartbeat interval in milliseconds; a session is stale once the gap
    /// since its last heartbeat exceeds twice this interval.
    pub heartbeat_ms: u64,
    /// Upper bound on the number of open channels.
    pub max_channels: u64,
    /// Upper bound on the number of payloads queued per channel.
    pub max_queue_depth: usize,
    /// Upper bound on the size of a single payload, in bytes.
    pub max_payload_bytes: usize,
}

impl TransportConfig {
    /// Builds a configuration, filling each unsupplied option with its default.
    pub fn new(
        heartbeat_ms: Option<u64>,
        max_channels: Option<u64>,
        max_queue_depth: Option<usize>,
        max_payload_bytes: Option<usize>,
    ) -> (r: TransportConfig)
        ensures
            r.heartbeat_ms == heartbeat_ms.unwrap_or(5000u64),
            r.max_channels == max_channels.unwrap_or(64u64),
            r.max_queue_depth == max_queue_depth.unwrap_or(1024usize),
            r.max_payload_bytes == max_payload_bytes.unwrap_or(262144usize),
    {
        TransportConfig {
            heartbeat_ms: heartbeat_ms.unwrap_or(5_000),
            max_channels: max_channels.unwrap_or(64),
            max_queue_depth: max_queue_depth.unwrap_or(1_024),
            max_payload_bytes: max_payload_bytes.unwrap_or(256 * 1024),
        }
    }
}

} // verus!
