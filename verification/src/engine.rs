//! The request/response engine: it gives out request identifiers, keeps the
//! pending requests with their deadlines, matches what comes back, and hands
//! inbound requests out with the channel for their response. The driver
//! around it does the transport's work and tells the engine what happened.
//! Time is a count of milliseconds that the driver reads from its clock.

use crate::config::Config;
use crate::event::{
    reports, terminal_of_failure, Event, InboundFailure, OutboundFailure, Peer, RequestId,
    Terminal, TransportFailure,
};
use crate::exchanges::OpenExchanges;
use crate::frame::{fits, frame, parse};
use crate::model::{deadline_after, step, EngineView, Input};
use crate::p2p::{unread_after_read, CodecError, MyCodec, MyProtocol, MyRequest, MyResponse};
use crate::pending::{increasing, PendingOutbound};
use crate::service::{Admission, Readiness, Service, ServiceError};
use crate::stream::ByteStream;
use vstd::prelude::*;

verus! {

/// Why a request was not taken on.
#[derive(Debug, Clone, Copy, PartialEq, Eq, Structural)]
pub enum SendError {
    /// The payload exceeds the limit. Holds its length.
    FrameTooLarge(usize),
    /// No identifier is left for another request.
    Exhausted,
}

/// What the transport is to do for a request that was taken on: open a
/// stream to the peer and write the frame.
#[derive(Debug, PartialEq, Eq)]
pub struct Dispatch {
    /// The identifier under which the resolution will be reported.
    pub request_id: RequestId,
    /// The peer to open the stream to.
    pub peer: Peer,
    /// The protocol to open the stream for.
    pub protocol: MyProtocol,
    /// The bytes to write on the stream: the frame of the request.
    pub frame: Vec<u8>,
    /// The moment from which the request counts as timed out.
    pub deadline: u64,
}

/// The handle for the one response of an accepted request. It owns the
/// stream of the exchange and is used up by the response.
#[derive(Debug, PartialEq, Eq)]
pub struct ResponseChannel {
    id: u64,
    stream: ByteStream,
}

impl ResponseChannel {
    /// The identifier of the exchange this channel belongs to.
    pub closed spec fn exchange(&self) -> u64 {
        self.id
    }

    /// The stream of the exchange.
    pub closed spec fn stream(&self) -> ByteStream {
        self.stream
    }

    /// The identifier of the exchange this channel belongs to.
    pub fn inbound_id(&self) -> (id: u64)
        ensures
            id == self.exchange(),
    {
        self.id
    }
}

/// Why a response was not delivered.
#[derive(Debug, Clone, Copy, PartialEq, Eq, Structural)]
pub enum ResponseError {
    /// The channel does not belong to an open exchange: it was used before,
    /// or the engine has closed the exchange.
    ChannelMisuse,
    /// The exchange ended without a response.
    Failed(InboundFailure),
}

/// What became of an inbound request that was offered to the service.
#[derive(Debug, PartialEq, Eq)]
pub enum Served {
    /// The service did not take the request: it comes back with its channel,
    /// to be offered again.
    Deferred { request: MyRequest, channel: ResponseChannel },
    /// The exchange is over: with the bytes sent to the peer, or with the
    /// reason why none were.
    Settled(Result<Vec<u8>, ResponseError>),
}

/// The event that reports the request `id` as ended by `failure`.
spec fn failure_event(id: u64, failure: OutboundFailure) -> Event {
    Event::OutboundFailure { request_id: RequestId(id), failure }
}

/// Events that report the requests `ids`, one by one and in growing order,
/// as ended by `failure` report exactly those resolutions.
proof fn lemma_reports(
    events: Seq<Event>,
    ids: Seq<u64>,
    failure: OutboundFailure,
    resolved: Map<u64, Terminal>,
)
    requires
        increasing(ids),
        events.len() == ids.len(),
        forall|k: int| 0 <= k < ids.len() ==> #[trigger] events[k] == failure_event(ids[k], failure),
        resolved.dom() == ids.to_set(),
        forall|id: u64|
            resolved.contains_key(id) ==> #[trigger] resolved[id] == terminal_of_failure(failure),
    ensures
        reports(events, resolved),
        events.len() == resolved.dom().len(),
{
    assert forall|k: int| 0 <= k < events.len() implies (#[trigger] events[k].terminal()) == Some(
        (ids[k], terminal_of_failure(failure)),
    ) && resolved.contains_key(ids[k]) by {
        assert(events[k] == failure_event(ids[k], failure));
        assert(ids.contains(ids[k]));
        assert(ids.to_set().contains(ids[k]));
    }
    assert forall|id: u64| #[trigger] resolved.contains_key(id) implies exists|k: int|
        0 <= k < events.len() && #[trigger] events[k].terminal() == Some((id, resolved[id])) by {
        assert(ids.to_set().contains(id));
        let k = choose|k: int| 0 <= k < ids.len() && ids[k] == id;
        assert(events[k].terminal() == Some((id, terminal_of_failure(failure))));
    }
    ids.unique_seq_to_set();
}

/// The events that report the requests `ids`, one by one, as ended by
/// `failure`.
fn failure_events(ids: &Vec<u64>, failure: OutboundFailure) -> (events: Vec<Event>)
    ensures
        events@.len() == ids@.len(),
        forall|k: int|
            0 <= k < ids@.len() ==> #[trigger] events@[k] == failure_event(ids@[k], failure),
{
    let mut events: Vec<Event> = Vec::new();
    let mut i: usize = 0;
    while i < ids.len()
        invariant
            i <= ids@.len(),
            events@.len() == i,
            forall|k: int| 0 <= k < i ==> #[trigger] events@[k] == failure_event(ids@[k], failure),
        decreases ids@.len() - i,
    {
        events.push(Event::OutboundFailure { request_id: RequestId(ids[i]), failure });
        i += 1;
    }
    events
}

/// The request/response engine.
#[derive(Debug)]
pub struct Engine {
    config: Config,
    codec: MyCodec,
    protocol: MyProtocol,
    pending: PendingOutbound,
    inbound: OpenExchanges,
}

impl View for Engine {
    type V = EngineView;

    closed spec fn view(&self) -> EngineView {
        EngineView {
            request_timeout: self.config.request_timeout_ms,
            max_frame_size: self.config.max_frame_size as nat,
            next_request_id: self.pending@.next_id,
            pending: self.pending@.entries,
            next_inbound_id: self.inbound@.next_id,
            inbound: self.inbound@.open,
        }
    }
}

impl Engine {
    /// What holds of every engine between calls.
    pub closed spec fn wf(&self) -> bool {
        &&& self.codec.limit() == self.config.max_frame_size
        &&& self.pending.wf()
        &&& self.inbound.wf()
    }

    /// The settings this engine was made with.
    pub closed spec fn settings(&self) -> Config {
        self.config
    }

    /// The state of a well-formed engine is a well-formed state.
    pub proof fn lemma_view_wf(&self)
        requires
            self.wf(),
        ensures
            self@.wf(),
    {
        self.pending.lemma_view_wf();
        self.inbound.lemma_view_wf();
    }

    /// A new engine with the given settings: nothing is pending and no
    /// exchange is open.
    pub fn new(config: Config) -> (engine: Engine)
        ensures
            engine.wf(),
            engine.settings() == config,
            engine@ == EngineView::initial(config),
    {
        Engine {
            config,
            codec: MyCodec::with_max_size(config.max_frame_size),
            protocol: MyProtocol(),
            pending: PendingOutbound::new(),
            inbound: OpenExchanges::new(),
        }
    }

    /// A new engine with the given settings that continues the numbering of
    /// an earlier one: its first request and its first inbound exchange get
    /// the given identifiers.
    pub fn resuming(config: Config, next_request_id: u64, next_inbound_id: u64) -> (engine: Engine)
        ensures
            engine.wf(),
            engine.settings() == config,
            engine@ == EngineView::resuming(config, next_request_id, next_inbound_id),
    {
        Engine {
            config,
            codec: MyCodec::with_max_size(config.max_frame_size),
            protocol: MyProtocol(),
            pending: PendingOutbound::starting_at(next_request_id),
            inbound: OpenExchanges::starting_at(next_inbound_id),
        }
    }

    /// The settings this engine was made with.
    pub fn config(&self) -> (config: Config)
        ensures
            config == self.settings(),
            config.request_timeout_ms == self@.request_timeout,
            config.max_frame_size == self@.max_frame_size,
    {
        self.config
    }

    /// The number of outbound requests that are pending.
    pub fn pending_count(&self) -> (n: usize)
        requires
            self.wf(),
        ensures
            n == self@.pending.len(),
    {
        self.pending.len()
    }

    /// Whether the request `request_id` is pending.
    pub fn is_pending(&self, request_id: RequestId) -> (b: bool)
        requires
            self.wf(),
        ensures
            b == self@.pending.contains_key(request_id.0),
    {
        self.pending.contains(request_id.0)
    }

    /// The earliest deadline among the pending requests: the moment at which
    /// the driver is to have the deadlines enforced next.
    pub fn next_deadline(&self) -> (r: Option<u64>)
        requires
            self.wf(),
        ensures
            r is None <==> self@.pending.dom() =~= Set::<u64>::empty(),
            r is Some ==> exists|id: u64|
                self@.pending.contains_key(id) && #[trigger] self@.pending[id] == r->Some_0,
            r is Some ==> forall|id: u64|
                self@.pending.contains_key(id) ==> r->Some_0 <= #[trigger] self@.pending[id],
    {
        let r = self.pending.earliest_deadline();
        proof {
            if r is Some {
                let id = choose|id: u64|
                    self.pending@.entries.contains_key(id) && #[trigger] self.pending@.entries[id]
                        == r->Some_0;
                assert(self@.pending.contains_key(id) && self@.pending[id] == r->Some_0);
            }
        }
        r
    }

    /// Takes a request on: gives it the next identifier, records it as
    /// pending with a deadline one timeout after `now`, and says what the
    /// transport is to do. A payload over the limit is refused before
    /// anything is recorded.
    pub fn send_request(&mut self, peer: Peer, request: MyRequest, now: u64) -> (r: Result<
        Dispatch,
        SendError,
    >)
        requires
            old(self).wf(),
        ensures
            final(self).wf(),
            final(self)@ == step(old(self)@, Input::Send { len: request.0@.len(), now }).next,
            final(self)@ == old(self)@.after_send(request.0@.len(), now),
            !fits(request.0@.len(), old(self)@.max_frame_size) ==> r == Err::<Dispatch, SendError>(
                SendError::FrameTooLarge(request.0.len()),
            ),
            fits(request.0@.len(), old(self)@.max_frame_size) && old(self)@.next_request_id
                == u64::MAX ==> r == Err::<Dispatch, SendError>(SendError::Exhausted),
            old(self)@.can_send(request.0@.len()) ==> r is Ok && r->Ok_0.request_id == RequestId(
                old(self)@.next_request_id as u64,
            ) && r->Ok_0.peer == peer && r->Ok_0.protocol == MyProtocol() && r->Ok_0.frame@
                == frame(request.0@) && r->Ok_0.deadline == deadline_after(
                now,
                old(self)@.request_timeout,
            ),
    {
        let len: usize = request.0.len();
        let mut wire = ByteStream::new(Vec::new());
        match self.codec.write_request(&self.protocol, &mut wire, request) {
            Ok(()) => {},
            Err(_) => {
                return Err(SendError::FrameTooLarge(len));
            },
        }
        let timeout: u64 = self.config.request_timeout_ms;
        let deadline: u64 = if now > u64::MAX - timeout {
            u64::MAX
        } else {
            now + timeout
        };
        match self.pending.allocate(deadline) {
            Some(id) => {
                let bytes: Vec<u8> = wire.close();
                assert(bytes@ =~= frame(request.0@));
                Ok(
                    Dispatch {
                        request_id: RequestId(id),
                        peer,
                        protocol: MyProtocol(),
                        frame: bytes,
                        deadline,
                    },
                )
            },
            None => Err(SendError::Exhausted),
        }
    }

    /// Takes what the stream of a request has delivered. A request that is
    /// not pending is left alone; a pending one is resolved: as timed out
    /// where its deadline has come, else by the frame that was delivered.
    pub fn on_response(&mut self, request_id: RequestId, stream: ByteStream, now: u64) -> (r:
        Option<Event>)
        requires
            old(self).wf(),
        ensures
            final(self).wf(),
            final(self)@ == step(
                old(self)@,
                Input::Response { id: request_id.0, bytes: stream@.unread, now },
            ).next,
            !old(self)@.pending.contains_key(request_id.0) ==> r is None && final(self)@ == old(
                self,
            )@,
            old(self)@.pending.contains_key(request_id.0) ==> final(self)@ == old(
                self,
            )@.after_resolve(request_id.0) && r is Some && r->Some_0.terminal() == Some(
                (request_id.0, old(self)@.response_outcome(request_id.0, stream@.unread, now)),
            ),
    {
        let deadline: u64 = match self.pending.resolve(request_id.0) {
            Some(deadline) => deadline,
            None => {
                return None;
            },
        };
        if now >= deadline {
            return Some(Event::OutboundFailure { request_id, failure: OutboundFailure::Timeout });
        }
        let mut io = stream;
        match self.codec.read_response(&self.protocol, &mut io) {
            Ok(response) => Some(Event::ResponseReceived { request_id, response }),
            Err(e) => Some(
                Event::OutboundFailure { request_id, failure: OutboundFailure::Codec(e) },
            ),
        }
    }

    /// Takes a failure of the transport for a request. A request that is not
    /// pending is left alone; a pending one is resolved as failed.
    pub fn on_outbound_failure(&mut self, request_id: RequestId, failure: TransportFailure) -> (r:
        Option<Event>)
        requires
            old(self).wf(),
        ensures
            final(self).wf(),
            final(self)@ == step(old(self)@, Input::Failure { id: request_id.0, failure }).next,
            !old(self)@.pending.contains_key(request_id.0) ==> r is None && final(self)@ == old(
                self,
            )@,
            old(self)@.pending.contains_key(request_id.0) ==> final(self)@ == old(
                self,
            )@.after_resolve(request_id.0) && r == Some(
                Event::OutboundFailure { request_id, failure: OutboundFailure::Transport(failure) },
            ),
    {
        match self.pending.resolve(request_id.0) {
            Some(_) => Some(
                Event::OutboundFailure { request_id, failure: OutboundFailure::Transport(failure) },
            ),
            None => None,
        }
    }

    /// Enforces the deadlines at `now`: every pending request whose deadline
    /// has come is resolved as timed out, by growing identifier, and the
    /// others stay pending.
    pub fn poll_timeouts(&mut self, now: u64) -> (events: Vec<Event>)
        requires
            old(self).wf(),
        ensures
            final(self).wf(),
            final(self)@ == step(old(self)@, Input::Tick { now }).next,
            final(self)@ == old(self)@.after_tick(now),
            reports(events@, step(old(self)@, Input::Tick { now }).resolved),
            events@.len() == old(self)@.expired(now).len(),
            forall|k: int|
                0 <= k < events@.len() ==> (#[trigger] events@[k]) matches Event::OutboundFailure {
                    failure: OutboundFailure::Timeout,
                    ..
                },
    {
        let ids: Vec<u64> = self.pending.expire(now);
        let events: Vec<Event> = failure_events(&ids, OutboundFailure::Timeout);
        proof {
            let resolved = step(old(self)@, Input::Tick { now }).resolved;
            assert(resolved.dom() =~= ids@.to_set());
            lemma_reports(events@, ids@, OutboundFailure::Timeout, resolved);
        }
        events
    }

    /// Shuts the engine down: every pending request is resolved as
    /// cancelled, by growing identifier, and every open inbound exchange is
    /// closed, so that its channel is of no use any more.
    pub fn shutdown(&mut self) -> (events: Vec<Event>)
        requires
            old(self).wf(),
        ensures
            final(self).wf(),
            final(self)@ == step(old(self)@, Input::Shutdown).next,
            final(self)@ == old(self)@.after_shutdown(),
            reports(events@, step(old(self)@, Input::Shutdown).resolved),
            events@.len() == old(self)@.pending.len(),
    {
        let ids: Vec<u64> = self.pending.drain();
        self.inbound.close_all();
        let events: Vec<Event> = failure_events(&ids, OutboundFailure::Cancelled);
        proof {
            let resolved = step(old(self)@, Input::Shutdown).resolved;
            assert(resolved.dom() =~= ids@.to_set());
            lemma_reports(events@, ids@, OutboundFailure::Cancelled, resolved);
        }
        events
    }

    /// Whether the inbound exchange of `channel` is open, so that the
    /// channel can still take its response.
    pub fn is_open(&self, channel: &ResponseChannel) -> (b: bool)
        requires
            self.wf(),
        ensures
            b == self@.inbound.contains(channel.exchange()),
    {
        self.inbound.is_open(channel.id)
    }

    /// Ends the inbound exchange `id` if it is open, and says whether it
    /// was.
    fn close_exchange(&mut self, id: u64) -> (was_open: bool)
        requires
            old(self).wf(),
        ensures
            final(self).wf(),
            was_open == old(self)@.inbound.contains(id),
            final(self)@ == step(old(self)@, Input::Close { id }).next,
            was_open ==> final(self)@ == old(self)@.after_close(id),
            !was_open ==> final(self)@ == old(self)@,
            final(self).codec == old(self).codec,
            final(self).config == old(self).config,
    {
        let was_open: bool = self.inbound.close(id);
        proof {
            if !was_open {
                assert(self@.inbound =~= old(self)@.inbound);
            }
        }
        was_open
    }

    /// Accepts a stream that carries an inbound request: reads the one
    /// request frame and hands the request out with the channel for its
    /// response. A stream that holds no valid frame is reported as an
    /// inbound failure and given up without a response.
    pub fn accept_inbound(&mut self, stream: ByteStream) -> (event: Event)
        requires
            old(self).wf(),
        ensures
            final(self).wf(),
            final(self)@ == step(old(self)@, Input::Accept { bytes: stream@.unread }).next,
            final(self)@ == old(self)@.after_accept(stream@.unread),
            match parse(stream@.unread, old(self)@.max_frame_size) {
                Err(e) => event == (Event::InboundFailure { reason: InboundFailure::Codec(e) }),
                Ok(payload) => if old(self)@.next_inbound_id == u64::MAX {
                    event == (Event::InboundFailure { reason: InboundFailure::Exhausted })
                } else {
                    &&& event is RequestReceived
                    &&& event->request.0@ == payload
                    &&& event->channel.exchange() == old(self)@.next_inbound_id
                    &&& event->channel.stream()@.unread == unread_after_read(
                        stream@.unread,
                        old(self)@.max_frame_size,
                    )
                    &&& event->channel.stream()@.written == stream@.written
                    &&& event->channel.stream()@.flushed == stream@.flushed
                },
            },
    {
        let mut io = stream;
        let request: MyRequest = match self.codec.read_request(&self.protocol, &mut io) {
            Ok(request) => request,
            Err(e) => {
                return Event::InboundFailure { reason: InboundFailure::Codec(e) };
            },
        };
        match self.inbound.open() {
            Some(id) => {
                Event::RequestReceived { request, channel: ResponseChannel { id, stream: io } }
            },
            None => Event::InboundFailure { reason: InboundFailure::Exhausted },
        }
    }

    /// Delivers the response of an inbound exchange: uses the channel up,
    /// writes the one response frame on its stream and closes the stream.
    /// Gives the bytes that the peer receives. A channel whose exchange is
    /// not open is refused and nothing changes.
    pub fn send_response(&mut self, channel: ResponseChannel, response: MyResponse) -> (r: Result<
        Vec<u8>,
        ResponseError,
    >)
        requires
            old(self).wf(),
        ensures
            final(self).wf(),
            final(self)@ == step(old(self)@, Input::Close { id: channel.exchange() }).next,
            !old(self)@.inbound.contains(channel.exchange()) ==> final(self)@ == old(self)@ && r
                == Err::<Vec<u8>, ResponseError>(ResponseError::ChannelMisuse),
            old(self)@.inbound.contains(channel.exchange()) ==> final(self)@ == old(
                self,
            )@.after_close(channel.exchange()),
            old(self)@.inbound.contains(channel.exchange()) && fits(
                response.0@.len(),
                old(self)@.max_frame_size,
            ) ==> r is Ok && r->Ok_0@ == channel.stream()@.written + frame(response.0@),
            old(self)@.inbound.contains(channel.exchange()) && !fits(
                response.0@.len(),
                old(self)@.max_frame_size,
            ) ==> r == Err::<Vec<u8>, ResponseError>(
                ResponseError::Failed(
                    InboundFailure::Codec(CodecError::FrameTooLarge(response.0.len())),
                ),
            ),
    {
        if !self.close_exchange(channel.id) {
            return Err(ResponseError::ChannelMisuse);
        }
        let mut io = channel.stream;
        match self.codec.write_response(&self.protocol, &mut io, response) {
            Ok(()) => {
                let sent: Vec<u8> = io.close();
                assert(sent@ =~= channel.stream()@.written + frame(response.0@));
                Ok(sent)
            },
            Err(e) => Err(ResponseError::Failed(InboundFailure::Codec(e))),
        }
    }

    /// Gives an inbound exchange up without a response: uses the channel up
    /// and closes its stream with nothing written. Reports the omission,
    /// unless the exchange was not open.
    pub fn drop_channel(&mut self, channel: ResponseChannel) -> (r: Option<Event>)
        requires
            old(self).wf(),
        ensures
            final(self).wf(),
            final(self)@ == step(old(self)@, Input::Close { id: channel.exchange() }).next,
            !old(self)@.inbound.contains(channel.exchange()) ==> final(self)@ == old(self)@ && r
                is None,
            old(self)@.inbound.contains(channel.exchange()) ==> final(self)@ == old(
                self,
            )@.after_close(channel.exchange()) && r == Some(
                Event::InboundFailure { reason: InboundFailure::ResponseOmission },
            ),
    {
        if self.close_exchange(channel.id) {
            Some(Event::InboundFailure { reason: InboundFailure::ResponseOmission })
        } else {
            None
        }
    }

    /// Ends an inbound exchange with what the service made of its request:
    /// a payload is delivered as the response, an error closes the exchange
    /// without one.
    pub fn settle(&mut self, channel: ResponseChannel, outcome: Result<Vec<u8>, ServiceError>) -> (r:
        Result<Vec<u8>, ResponseError>)
        requires
            old(self).wf(),
        ensures
            final(self).wf(),
            final(self)@ == step(old(self)@, Input::Close { id: channel.exchange() }).next,
            !old(self)@.inbound.contains(channel.exchange()) ==> final(self)@ == old(self)@ && r
                == Err::<Vec<u8>, ResponseError>(ResponseError::ChannelMisuse),
            old(self)@.inbound.contains(channel.exchange()) ==> final(self)@ == old(
                self,
            )@.after_close(channel.exchange()) && match outcome {
                Ok(payload) => if fits(payload@.len(), old(self)@.max_frame_size) {
                    r is Ok && r->Ok_0@ == channel.stream()@.written + frame(payload@)
                } else {
                    r == Err::<Vec<u8>, ResponseError>(
                        ResponseError::Failed(
                            InboundFailure::Codec(CodecError::FrameTooLarge(payload.len())),
                        ),
                    )
                },
                Err(_) => r == Err::<Vec<u8>, ResponseError>(
                    ResponseError::Failed(InboundFailure::ResponseOmission),
                ),
            },
    {
        match outcome {
            Ok(payload) => self.send_response(channel, MyResponse(payload)),
            Err(_) => {
                if self.close_exchange(channel.id) {
                    Err(ResponseError::Failed(InboundFailure::ResponseOmission))
                } else {
                    Err(ResponseError::ChannelMisuse)
                }
            },
        }
    }

    /// Offers an inbound request to the service. The service is asked for
    /// its readiness once and gets the request only where it reported
    /// `Ready`. Where it reported `NotReady`, the request comes back with its
    /// channel and nothing has changed; where it has failed, the exchange is
    /// closed without a response. A channel whose exchange is not open is
    /// refused before the service is asked.
    pub fn serve<S: Service>(
        &mut self,
        service: &mut Admission<S>,
        request: MyRequest,
        channel: ResponseChannel,
    ) -> (r: Served)
        requires
            old(self).wf(),
            old(service).wf(),
        ensures
            final(self).wf(),
            final(service).wf(),
            !old(self)@.inbound.contains(channel.exchange()) ==> {
                &&& r == Served::Settled(Err(ResponseError::ChannelMisuse))
                &&& final(self)@ == old(self)@
                &&& final(service).reported() == old(service).reported()
                &&& final(service).handed() == old(service).handed()
                &&& final(service).admitted() == old(service).admitted()
            },
            old(self)@.inbound.contains(channel.exchange()) ==> {
                &&& !final(service).admitted()
                &&& final(service).reported().len() == old(service).reported().len() + 1
                &&& final(service).reported().drop_last() == old(service).reported()
                &&& match final(service).reported().last() {
                    Readiness::NotReady => {
                        &&& r == (Served::Deferred { request, channel })
                        &&& final(self)@ == old(self)@
                        &&& final(service).handed() == old(service).handed()
                    },
                    Readiness::Ready => {
                        &&& r is Settled
                        &&& r->Settled_0 != Err::<Vec<u8>, ResponseError>(
                            ResponseError::ChannelMisuse,
                        )
                        &&& final(self)@ == old(self)@.after_close(channel.exchange())
                        &&& final(service).handed() == old(service).handed().push(request.0@)
                    },
                    Readiness::Failed(_) => {
                        &&& r == Served::Settled(
                            Err(ResponseError::Failed(InboundFailure::ResponseOmission)),
                        )
                        &&& final(self)@ == old(self)@.after_close(channel.exchange())
                        &&& final(service).handed() == old(service).handed()
                    },
                }
            },
    {
        if !self.is_open(&channel) {
            return Served::Settled(Err(ResponseError::ChannelMisuse));
        }
        let report = service.poll_ready();
        proof {
            assert(service.reported().drop_last() =~= old(service).reported());
        }
        match report {
            Readiness::Ready => {
                let outcome = service.call(request.0);
                Served::Settled(self.settle(channel, outcome))
            },
            Readiness::NotReady => Served::Deferred { request, channel },
            Readiness::Failed(e) => Served::Settled(self.settle(channel, Err(e))),
        }
    }
}

} // verus!
