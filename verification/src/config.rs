//! Process-wide constants and the run-time configuration.
use vstd::prelude::*;

verus! {

/// Number of DSCP bands available to unscheduled datagrams.
pub const UNSCHEDULED_PRIORITY_LEVELS: usize = 6;

/// Number of boundaries that separate the unscheduled bands.
pub const UNSCHEDULED_PRIORITY_PARTITIONS: usize = 5;

/// Number of scheduled slots, one per usable scheduled DSCP band.
pub const SCHEDULED_PRIORITY_LEVELS: usize = 2;

/// DSCP stride between neighbouring priority bands.
pub const PRIORITY_LEVEL_WIDTH: usize = 8;

/// Below this many observed message lengths the partition is uniform.
pub const MINIMUM_WORKLOAD_SAMPLE_SIZE: usize = 100;

/// Largest datagram payload that avoids fragmentation.
pub const MAXIMUM_DATAGRAM_PAYLOAD_LENGTH: u16 = 1400;

/// Run-time options of the transport.
#[allow(non_snake_case)]
pub struct Config {
    /// Path of the local stream socket that applications connect to.
    pub SOCKET_PATH: String,
    /// Application messages longer than this are rejected.
    pub MESSAGE_MAX_LENGTH: u64,
    /// Payload ceiling of a single datagram, at most 1400.
    pub DATAGRAM_PAYLOAD_LENGTH: u16,
    /// Number of datagrams a sender may emit before the first grant.
    pub UNSCHEDULED_DATAGRAM_LIMIT: usize,
    /// Base of the fuzzed retransmit timer, in milliseconds.
    pub TIMEOUT: u64,
    /// Bound on the wait for a control datagram during scheduled service.
    pub LARGE_TIMEOUT: u64,
    /// Timeouts tolerated while unscheduled datagrams are outstanding.
    pub RESENDS: usize,
    /// Timeouts tolerated while a granted datagram is outstanding.
    pub LARGE_RESENDS: usize,
}

impl Config {
    /// The options a transport can run with: a non-empty payload under the
    /// fragmentation ceiling, and an unscheduled window whose size in bytes
    /// is representable.
    pub open spec fn wf(&self) -> bool {
        &&& 0 < self.DATAGRAM_PAYLOAD_LENGTH <= MAXIMUM_DATAGRAM_PAYLOAD_LENGTH
        &&& self.spec_rtt_bytes() <= u64::MAX
    }

    /// Bytes a sender may have in flight before the first grant.
    pub open spec fn spec_rtt_bytes(&self) -> int {
        self.UNSCHEDULED_DATAGRAM_LIMIT * self.DATAGRAM_PAYLOAD_LENGTH
    }

    /// Whether the options are usable, decided at run time.
    pub fn is_valid(&self) -> (ok: bool)
        ensures
            ok == self.wf(),
    {
        let limit: u128 = self.UNSCHEDULED_DATAGRAM_LIMIT as u128;
        let payload: u128 = self.DATAGRAM_PAYLOAD_LENGTH as u128;
        assert(limit * payload <= 0xffff_ffff_ffff_ffff * 0xffff) by (nonlinear_arith)
            requires
                limit <= 0xffff_ffff_ffff_ffff,
                payload <= 0xffff,
        ;
        0 < self.DATAGRAM_PAYLOAD_LENGTH && self.DATAGRAM_PAYLOAD_LENGTH
            <= MAXIMUM_DATAGRAM_PAYLOAD_LENGTH && limit * payload <= u64::MAX as u128
    }

    /// Bytes a sender may have in flight before the first grant.
    pub fn rtt_bytes(&self) -> (bytes: u64)
        requires
            self.wf(),
        ensures
            bytes == self.spec_rtt_bytes(),
    {
        (self.UNSCHEDULED_DATAGRAM_LIMIT as u64) * (self.DATAGRAM_PAYLOAD_LENGTH as u64)
    }
}

impl Default for Config {
    fn default() -> (config: Config)
        ensures
            config.wf(),
            config.SOCKET_PATH@ == "/tmp/homa.sock"@,
            config.MESSAGE_MAX_LENGTH == 524_288_000,
            config.DATAGRAM_PAYLOAD_LENGTH == 1400,
            config.UNSCHEDULED_DATAGRAM_LIMIT == 6,
            config.TIMEOUT == 15,
            config.LARGE_TIMEOUT == 10000,
            config.RESENDS == 5,
            config.LARGE_RESENDS == 20,
    {
        Config {
            SOCKET_PATH: "/tmp/homa.sock".to_owned(),
            MESSAGE_MAX_LENGTH: 524_288_000,
            DATAGRAM_PAYLOAD_LENGTH: 1400,
            UNSCHEDULED_DATAGRAM_LIMIT: 6,
            TIMEOUT: 15,
            LARGE_TIMEOUT: 10000,
            RESENDS: 5,
            LARGE_RESENDS: 20,
        }
    }
}

} // verus!
