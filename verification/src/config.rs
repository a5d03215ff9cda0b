//! Timing and sizing parameters of a node. Durations are in milliseconds.

use vstd::prelude::*;

verus! {

/// Parameters of a node.
#[derive(Debug, Clone, Copy, PartialEq, Eq)]
pub struct Config {
    /// Base election timeout, in milliseconds.
    pub election_timeout: u64,
    /// Interval between two leader heartbeats, in milliseconds.
    pub heartbeat_interval: u64,
    pub max_log_entries: usize,
    /// Transfer all read requests to the leader
    pub allow_stale_reads: bool,
}

impl Config {
    /// The default parameters.
    pub fn new() -> (r: Config)
        ensures
            r == Config::spec_default(),
    {
        Self::default()
    }

    /// Election timeout of one second, heartbeats every half second, at most
    /// a thousand log entries, no stale reads.
    pub open spec fn spec_default() -> Config {
        Config {
            election_timeout: 1000,
            heartbeat_interval: 500,
            max_log_entries: 1000,
            allow_stale_reads: false,
        }
    }

    /// The default parameters.
    pub fn default() -> (r: Config)
        ensures
            r == Config::spec_default(),
    {
        Config {
            election_timeout: 1000,
            heartbeat_interval: 500,
            max_log_entries: 1000,
            allow_stale_reads: false,
        }
    }

    /// The same parameters with another election timeout (milliseconds).
    pub fn with_election_timeout(self, election_timeout: u64) -> (r: Config)
        ensures
            r == (Config { election_timeout, ..self }),
    {
        let mut c = self;
        c.election_timeout = election_timeout;
        c
    }

    /// The same parameters with another heartbeat interval (milliseconds).
    pub fn with_heartbeat_interval(self, heartbeat_interval: u64) -> (r: Config)
        ensures
            r == (Config { heartbeat_interval, ..self }),
    {
        let mut c = self;
        c.heartbeat_interval = heartbeat_interval;
        c
    }

    /// The same parameters with another bound on the number of log entries.
    pub fn with_max_log_entries(self, max_log_entries: usize) -> (r: Config)
        ensures
            r == (Config { max_log_entries, ..self }),
    {
        let mut c = self;
        c.max_log_entries = max_log_entries;
        c
    }
}

} // verus!
