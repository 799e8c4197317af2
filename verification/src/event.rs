//! What the engine reports: the fate of outbound requests, inbound requests
//! with the channel for their response, and failures.

use crate::p2p::{CodecError, MyRequest, MyResponse};
use crate::engine::ResponseChannel;
use vstd::prelude::*;

verus! {

/// The token by which an outbound request and its resolution are matched.
#[derive(Debug, Clone, Copy, PartialEq, Eq, Hash, Structural)]
pub struct RequestId(pub u64);

/// The peer a request goes to, as the bytes of its identity.
#[derive(Debug, Clone, PartialEq, Eq, Hash)]
pub struct Peer(pub Vec<u8>);

/// Why the transport could not carry a request.
#[derive(Debug, Clone, Copy, PartialEq, Eq, Structural)]
pub enum TransportFailure {
    /// The peer could not be reached.
    DialFailure,
    /// The peer does not speak the protocol.
    UnsupportedProtocol,
    /// The connection was closed before the exchange was complete.
    ConnectionClosed,
}

/// Why an outbound request ended without a response.
#[derive(Debug, Clone, Copy, PartialEq, Eq, Structural)]
pub enum OutboundFailure {
    /// The stream could not be opened or written.
    Transport(TransportFailure),
    /// What came back was no valid frame.
    Codec(CodecError),
    /// No complete response arrived before the deadline.
    Timeout,
    /// The engine was shut down while the request was pending.
    Cancelled,
}

/// Why an inbound exchange ended without a response.
#[derive(Debug, Clone, Copy, PartialEq, Eq, Structural)]
pub enum InboundFailure {
    /// The request could not be read, or the response could not be framed.
    Codec(CodecError),
    /// The channel was given up without a response.
    ResponseOmission,
    /// No identifier is left for another exchange.
    Exhausted,
}

/// What the engine reports to its driver.
#[derive(Debug, PartialEq, Eq)]
pub enum Event {
    /// A request arrived; the channel takes its response.
    RequestReceived { request: MyRequest, channel: ResponseChannel },
    /// The response to an outbound request arrived.
    ResponseReceived { request_id: RequestId, response: MyResponse },
    /// An outbound request ended without a response.
    OutboundFailure { request_id: RequestId, failure: OutboundFailure },
    /// An inbound exchange ended without a response.
    InboundFailure { reason: InboundFailure },
}

/// The final state of an outbound request.
pub enum Terminal {
    /// The response arrived in time; holds its payload.
    Completed(Seq<u8>),
    /// The transport or the codec failed.
    Failed(OutboundFailure),
    /// The deadline passed first.
    TimedOut,
    /// The engine was shut down first.
    Cancelled,
}

/// The final state that an outbound failure stands for.
pub open spec fn terminal_of_failure(failure: OutboundFailure) -> Terminal {
    match failure {
        OutboundFailure::Timeout => Terminal::TimedOut,
        OutboundFailure::Cancelled => Terminal::Cancelled,
        _ => Terminal::Failed(failure),
    }
}

impl Event {
    /// The outbound request that this event resolves, with its final state;
    /// `None` for an event of the inbound side.
    pub open spec fn terminal(self) -> Option<(u64, Terminal)> {
        match self {
            Event::ResponseReceived { request_id, response } => Some(
                (request_id.0, Terminal::Completed(response.0@)),
            ),
            Event::OutboundFailure { request_id, failure } => Some(
                (request_id.0, terminal_of_failure(failure)),
            ),
            _ => None,
        }
    }
}

/// Whether `events` reports the resolutions `resolved` and nothing else: one
/// event for each request, by growing identifier.
pub open spec fn reports(events: Seq<Event>, resolved: Map<u64, Terminal>) -> bool {
    &&& forall|k: int|
        0 <= k < events.len() ==> ((#[trigger] events[k].terminal()) matches Some((id, state))
            && resolved.contains_key(id) && resolved[id] == state)
    &&& forall|j: int, k: int|
        0 <= j < k < events.len() ==> (#[trigger] events[j].terminal())->Some_0.0 < (
        #[trigger] events[k].terminal())->Some_0.0
    &&& forall|id: u64| #[trigger]
        resolved.contains_key(id) ==> exists|k: int|
            0 <= k < events.len() && #[trigger] events[k].terminal() == Some((id, resolved[id]))
}

} // verus!
