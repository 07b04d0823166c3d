//! The settings of an exchange.

use vstd::prelude::*;

verus! {

/// What a caller may set differently from the protocol's defaults.
#[derive(Debug, Clone, Copy, PartialEq, Eq)]
pub struct Config {
    /// The UDP port that devices listen on. Default: 54321.
    pub port: u16,
    /// How many milliseconds a discovery listens for answers. Default: 2000.
    pub discovery_timeout_ms: u64,
    /// How many milliseconds a command waits for its reply. Default: 5000.
    pub status_timeout_ms: u64,
}

impl Default for Config {
    fn default() -> (config: Config)
        ensures
            config.port == crate::discovery::MI_DISCOVER_UDP_PORT,
            config.discovery_timeout_ms == crate::discovery::LISTEN_TIMEOUT_MS,
            config.status_timeout_ms == crate::deviceinfo::LISTEN_TIMEOUT_MS,
    {
        Config {
            port: crate::discovery::MI_DISCOVER_UDP_PORT,
            discovery_timeout_ms: crate::discovery::LISTEN_TIMEOUT_MS,
            status_timeout_ms: crate::deviceinfo::LISTEN_TIMEOUT_MS,
        }
    }
}

} // verus!
