//! What can be configured: the request timeout, the largest frame and the
//! lifetime of an idle connection.

use crate::p2p::MAX_SIZE;
use vstd::prelude::*;

verus! {

/// Default time a request waits for its response, in milliseconds.
pub const DEFAULT_REQUEST_TIMEOUT_MS: u64 = 10_000;

/// Default time a connection may stay idle, in milliseconds.
pub const DEFAULT_IDLE_CONNECTION_TIMEOUT_MS: u64 = 60_000;

/// The settings of an engine. Times are in milliseconds.
#[derive(Debug, Clone, Copy, PartialEq, Eq, Structural)]
pub struct Config {
    /// How long a request waits for its response.
    pub request_timeout_ms: u64,
    /// The largest payload of one frame, in bytes.
    pub max_frame_size: usize,
    /// How long the transport keeps a connection without streams.
    pub idle_connection_timeout_ms: u64,
}

impl Config {
    /// The default settings: 10 s for a request, 1 MiB for a frame, 60 s for
    /// an idle connection.
    pub open spec fn standard() -> Config {
        Config {
            request_timeout_ms: DEFAULT_REQUEST_TIMEOUT_MS,
            max_frame_size: MAX_SIZE,
            idle_connection_timeout_ms: DEFAULT_IDLE_CONNECTION_TIMEOUT_MS,
        }
    }

    /// The default settings.
    pub fn new() -> (config: Config)
        ensures
            config == Config::standard(),
    {
        Config {
            request_timeout_ms: DEFAULT_REQUEST_TIMEOUT_MS,
            max_frame_size: MAX_SIZE,
            idle_connection_timeout_ms: DEFAULT_IDLE_CONNECTION_TIMEOUT_MS,
        }
    }

    /// These settings with another request timeout.
    pub fn with_request_timeout(self, millis: u64) -> (config: Config)
        ensures
            config == (Config { request_timeout_ms: millis, ..self }),
    {
        Config { request_timeout_ms: millis, ..self }
    }

    /// These settings with another limit on the payload of a frame.
    pub fn with_max_frame_size(self, bytes: usize) -> (config: Config)
        ensures
            config == (Config { max_frame_size: bytes, ..self }),
    {
        Config { max_frame_size: bytes, ..self }
    }

    /// These settings with another lifetime for idle connections.
    pub fn with_idle_connection_timeout(self, millis: u64) -> (config: Config)
        ensures
            config == (Config { idle_connection_timeout_ms: millis, ..self }),
    {
        Config { idle_connection_timeout_ms: millis, ..self }
    }
}

impl Default for Config {
    fn default() -> (config: Config)
        ensures
            config == Config::standard(),
    {
        Config::new()
    }
}

} // verus!
