use peer_rpc::config::Config;
use peer_rpc::engine::{Engine, ResponseError, SendError, Served};
use peer_rpc::event::{
    Event, InboundFailure, OutboundFailure, Peer, RequestId, TransportFailure,
};
use peer_rpc::frame::encode_frame;
use peer_rpc::p2p::{CodecError, MyRequest, MyResponse, MAX_SIZE};
use peer_rpc::service::{Admission, Readiness, Service, ServiceError, TowerService};
use peer_rpc::stream::ByteStream;
use peer_rpc::tower_service::TimeService;

fn peer() -> Peer {
    Peer(vec![0x12, 0x20, 0xAA])
}

fn framed(payload: &[u8]) -> ByteStream {
    ByteStream::new(encode_frame(payload, MAX_SIZE).unwrap())
}

fn timeout(id: u64) -> Event {
    Event::OutboundFailure { request_id: RequestId(id), failure: OutboundFailure::Timeout }
}

#[test]
fn default_settings() {
    let c = Config::new();
    assert_eq!(c.request_timeout_ms, 10_000);
    assert_eq!(c.max_frame_size, 1_048_576);
    assert_eq!(c.idle_connection_timeout_ms, 60_000);
    assert_eq!(Config::default(), c);
}

#[test]
fn settings_can_be_changed_one_by_one() {
    let c = Config::new()
        .with_request_timeout(100)
        .with_max_frame_size(64)
        .with_idle_connection_timeout(5);
    assert_eq!(
        c,
        Config { request_timeout_ms: 100, max_frame_size: 64, idle_connection_timeout_ms: 5 }
    );
}

#[test]
fn a_new_engine_is_idle() {
    let engine = Engine::new(Config::new());
    assert_eq!(engine.pending_count(), 0);
    assert_eq!(engine.next_deadline(), None);
    assert_eq!(engine.config(), Config::new());
    assert!(!engine.is_pending(RequestId(0)));
}

#[test]
fn send_request_says_what_to_put_on_the_wire() {
    let mut engine = Engine::new(Config::new());
    let d = engine.send_request(peer(), MyRequest(b"ping".to_vec()), 1_000).unwrap();
    assert_eq!(d.request_id, RequestId(0));
    assert_eq!(d.peer, peer());
    assert_eq!(d.protocol.as_ref(), "/my-custom-protocol/1.0.0");
    assert_eq!(d.frame, vec![0, 0, 0, 4, b'p', b'i', b'n', b'g']);
    assert_eq!(d.deadline, 11_000);
    assert!(engine.is_pending(RequestId(0)));
    assert_eq!(engine.pending_count(), 1);
}

#[test]
fn request_ids_grow_and_are_not_reused() {
    let mut engine = Engine::new(Config::new());
    let a = engine.send_request(peer(), MyRequest(vec![1]), 0).unwrap().request_id;
    let b = engine.send_request(peer(), MyRequest(vec![2]), 0).unwrap().request_id;
    assert_eq!((a, b), (RequestId(0), RequestId(1)));
    assert!(engine.on_response(a, framed(b"x"), 1).is_some());
    assert!(engine.on_outbound_failure(b, TransportFailure::DialFailure).is_some());
    let c = engine.send_request(peer(), MyRequest(vec![3]), 2).unwrap().request_id;
    assert_eq!(c, RequestId(2));
    assert_eq!(engine.pending_count(), 1);
}

#[test]
fn deadline_stops_at_the_last_moment() {
    let mut engine = Engine::new(Config::new().with_request_timeout(10));
    let d = engine.send_request(peer(), MyRequest(vec![]), u64::MAX - 3).unwrap();
    assert_eq!(d.deadline, u64::MAX);
    let d = engine.send_request(peer(), MyRequest(vec![]), u64::MAX - 10).unwrap();
    assert_eq!(d.deadline, u64::MAX);
    let d = engine.send_request(peer(), MyRequest(vec![]), u64::MAX - 11).unwrap();
    assert_eq!(d.deadline, u64::MAX - 1);
}

#[test]
fn scenario_oversize_rejection() {
    let mut engine = Engine::new(Config::new());
    let r = engine.send_request(peer(), MyRequest(vec![0; MAX_SIZE + 1]), 0);
    assert_eq!(r, Err(SendError::FrameTooLarge(MAX_SIZE + 1)));
    assert_eq!(engine.pending_count(), 0);
    assert_eq!(engine.next_deadline(), None);
    assert_eq!(engine.poll_timeouts(u64::MAX), vec![]);
    let d = engine.send_request(peer(), MyRequest(vec![0; MAX_SIZE]), 0).unwrap();
    assert_eq!(d.request_id, RequestId(0));
    assert_eq!(d.frame.len(), MAX_SIZE + 4);
}

#[test]
fn the_configured_limit_decides() {
    let mut engine = Engine::new(Config::new().with_max_frame_size(3));
    assert!(engine.send_request(peer(), MyRequest(b"abc".to_vec()), 0).is_ok());
    assert_eq!(
        engine.send_request(peer(), MyRequest(b"abcd".to_vec()), 0),
        Err(SendError::FrameTooLarge(4))
    );
    assert_eq!(
        engine.accept_inbound(framed(b"abcd")),
        Event::InboundFailure {
            reason: InboundFailure::Codec(CodecError::FrameTooLarge(4))
        }
    );
}

#[test]
fn scenario_timeout() {
    let mut engine = Engine::new(Config::new().with_request_timeout(100));
    let d = engine.send_request(peer(), MyRequest(b"ping".to_vec()), 0).unwrap();
    assert_eq!(d.deadline, 100);
    assert_eq!(engine.next_deadline(), Some(100));
    assert_eq!(engine.poll_timeouts(0), vec![]);
    assert_eq!(engine.poll_timeouts(99), vec![]);
    assert!(engine.is_pending(d.request_id));
    assert_eq!(engine.poll_timeouts(100), vec![timeout(0)]);
    assert!(!engine.is_pending(d.request_id));
    assert_eq!(engine.poll_timeouts(101), vec![]);
    assert_eq!(engine.poll_timeouts(u64::MAX), vec![]);
    assert_eq!(engine.on_response(d.request_id, framed(b"pong"), 150), None);
}

#[test]
fn scenario_echo_round_trip() {
    let mut client = Engine::new(Config::new());
    let mut server = Engine::new(Config::new());
    let dispatch = client.send_request(peer(), MyRequest(b"ping".to_vec()), 0).unwrap();

    let event = server.accept_inbound(ByteStream::new(dispatch.frame));
    let (request, channel) = match event {
        Event::RequestReceived { request, channel } => (request, channel),
        other => panic!("unexpected event {:?}", other),
    };
    assert_eq!(request, MyRequest(b"ping".to_vec()));

    let sent = server.send_response(channel, MyResponse(b"pong".to_vec())).unwrap();
    assert_eq!(sent, vec![0, 0, 0, 4, b'p', b'o', b'n', b'g']);

    let resolved = client.on_response(dispatch.request_id, ByteStream::new(sent), 50);
    assert_eq!(
        resolved,
        Some(Event::ResponseReceived {
            request_id: dispatch.request_id,
            response: MyResponse(b"pong".to_vec()),
        })
    );
    assert_eq!(client.pending_count(), 0);
}

#[test]
fn echo_through_the_service() {
    let mut client = Engine::new(Config::new());
    let mut server = Engine::new(Config::new());
    let mut service = Admission::new(TowerService);
    let dispatch = client
        .send_request(peer(), MyRequest(b"Hello from client".to_vec()), 0)
        .unwrap();
    let (request, channel) = match server.accept_inbound(ByteStream::new(dispatch.frame)) {
        Event::RequestReceived { request, channel } => (request, channel),
        other => panic!("unexpected event {:?}", other),
    };
    let sent = match server.serve(&mut service, request, channel) {
        Served::Settled(Ok(sent)) => sent,
        other => panic!("unexpected outcome {:?}", other),
    };
    assert_eq!(
        client.on_response(dispatch.request_id, ByteStream::new(sent), 1),
        Some(Event::ResponseReceived {
            request_id: RequestId(0),
            response: MyResponse(b"Hello from client".to_vec()),
        })
    );
}

#[test]
fn the_marking_service_answers_with_its_mark() {
    let mut server = Engine::new(Config::new());
    let mut service = Admission::new(TimeService);
    let (request, channel) = match server.accept_inbound(framed(b"now")) {
        Event::RequestReceived { request, channel } => (request, channel),
        other => panic!("unexpected event {:?}", other),
    };
    assert_eq!(
        server.serve(&mut service, request, channel),
        Served::Settled(Ok(encode_frame(b"Echo: now", MAX_SIZE).unwrap()))
    );
}

#[test]
fn a_request_is_resolved_once() {
    let mut engine = Engine::new(Config::new().with_request_timeout(10));
    let id = engine.send_request(peer(), MyRequest(vec![1]), 0).unwrap().request_id;
    assert_eq!(
        engine.on_response(id, framed(b"ok"), 5),
        Some(Event::ResponseReceived { request_id: id, response: MyResponse(b"ok".to_vec()) })
    );
    assert_eq!(engine.on_response(id, framed(b"again"), 6), None);
    assert_eq!(engine.on_outbound_failure(id, TransportFailure::ConnectionClosed), None);
    assert_eq!(engine.poll_timeouts(1_000), vec![]);
    assert_eq!(engine.shutdown(), vec![]);
}

#[test]
fn a_failed_request_is_not_resolved_again() {
    let mut engine = Engine::new(Config::new().with_request_timeout(10));
    let id = engine.send_request(peer(), MyRequest(vec![1]), 0).unwrap().request_id;
    assert_eq!(
        engine.on_outbound_failure(id, TransportFailure::DialFailure),
        Some(Event::OutboundFailure {
            request_id: id,
            failure: OutboundFailure::Transport(TransportFailure::DialFailure),
        })
    );
    assert_eq!(engine.on_response(id, framed(b"late"), 1), None);
    assert_eq!(engine.poll_timeouts(10), vec![]);
}

#[test]
fn transport_failures_are_reported_as_they_are() {
    for failure in [
        TransportFailure::DialFailure,
        TransportFailure::UnsupportedProtocol,
        TransportFailure::ConnectionClosed,
    ] {
        let mut engine = Engine::new(Config::new());
        let id = engine.send_request(peer(), MyRequest(vec![]), 0).unwrap().request_id;
        assert_eq!(
            engine.on_outbound_failure(id, failure),
            Some(Event::OutboundFailure {
                request_id: id,
                failure: OutboundFailure::Transport(failure),
            })
        );
        assert_eq!(engine.next_deadline(), None);
    }
}

#[test]
fn a_failure_for_an_unknown_request_changes_nothing() {
    let mut engine = Engine::new(Config::new());
    let id = engine.send_request(peer(), MyRequest(vec![]), 0).unwrap().request_id;
    assert_eq!(engine.on_outbound_failure(RequestId(7), TransportFailure::DialFailure), None);
    assert_eq!(engine.on_response(RequestId(7), framed(b"x"), 0), None);
    assert!(engine.is_pending(id));
    assert_eq!(engine.pending_count(), 1);
}

#[test]
fn a_response_at_the_deadline_is_too_late() {
    let mut engine = Engine::new(Config::new().with_request_timeout(100));
    let a = engine.send_request(peer(), MyRequest(vec![]), 0).unwrap().request_id;
    let b = engine.send_request(peer(), MyRequest(vec![]), 0).unwrap().request_id;
    assert_eq!(
        engine.on_response(a, framed(b"pong"), 99),
        Some(Event::ResponseReceived { request_id: a, response: MyResponse(b"pong".to_vec()) })
    );
    assert_eq!(engine.on_response(b, framed(b"pong"), 100), Some(timeout(1)));
    assert_eq!(engine.poll_timeouts(200), vec![]);
}

#[test]
fn a_malformed_response_fails_the_request() {
    let mut engine = Engine::new(Config::new());
    let a = engine.send_request(peer(), MyRequest(vec![]), 0).unwrap().request_id;
    let b = engine.send_request(peer(), MyRequest(vec![]), 0).unwrap().request_id;
    let c = engine.send_request(peer(), MyRequest(vec![]), 0).unwrap().request_id;
    assert_eq!(
        engine.on_response(a, ByteStream::new(vec![0, 0, 0, 5, 1]), 1),
        Some(Event::OutboundFailure {
            request_id: a,
            failure: OutboundFailure::Codec(CodecError::TruncatedStream),
        })
    );
    assert_eq!(
        engine.on_response(b, ByteStream::new(vec![0, 0x10, 0, 1]), 1),
        Some(Event::OutboundFailure {
            request_id: b,
            failure: OutboundFailure::Codec(CodecError::FrameTooLarge(MAX_SIZE + 1)),
        })
    );
    assert_eq!(
        engine.on_response(c, ByteStream::new(vec![]), 1),
        Some(Event::OutboundFailure {
            request_id: c,
            failure: OutboundFailure::Codec(CodecError::TruncatedStream),
        })
    );
    assert_eq!(engine.pending_count(), 0);
}

#[test]
fn timeouts_fire_by_deadline_and_in_order_of_identifier() {
    let mut engine = Engine::new(Config::new().with_request_timeout(100));
    engine.send_request(peer(), MyRequest(vec![]), 50).unwrap();
    engine.send_request(peer(), MyRequest(vec![]), 0).unwrap();
    engine.send_request(peer(), MyRequest(vec![]), 50).unwrap();
    engine.send_request(peer(), MyRequest(vec![]), 10).unwrap();
    assert_eq!(engine.next_deadline(), Some(100));
    assert_eq!(engine.poll_timeouts(100), vec![timeout(1)]);
    assert_eq!(engine.next_deadline(), Some(110));
    assert_eq!(engine.poll_timeouts(150), vec![timeout(0), timeout(2), timeout(3)]);
    assert_eq!(engine.next_deadline(), None);
    assert_eq!(engine.pending_count(), 0);
}

#[test]
fn responses_match_by_identifier_not_by_arrival() {
    let mut engine = Engine::new(Config::new());
    let a = engine.send_request(peer(), MyRequest(b"a".to_vec()), 0).unwrap().request_id;
    let b = engine.send_request(peer(), MyRequest(b"b".to_vec()), 0).unwrap().request_id;
    assert_eq!(
        engine.on_response(b, framed(b"for b"), 1),
        Some(Event::ResponseReceived { request_id: b, response: MyResponse(b"for b".to_vec()) })
    );
    assert!(engine.is_pending(a));
    assert_eq!(
        engine.on_response(a, framed(b"for a"), 2),
        Some(Event::ResponseReceived { request_id: a, response: MyResponse(b"for a".to_vec()) })
    );
}

#[test]
fn shutdown_cancels_what_is_pending() {
    let mut engine = Engine::new(Config::new());
    let a = engine.send_request(peer(), MyRequest(vec![]), 0).unwrap().request_id;
    let b = engine.send_request(peer(), MyRequest(vec![]), 0).unwrap().request_id;
    let c = engine.send_request(peer(), MyRequest(vec![]), 0).unwrap().request_id;
    engine.on_response(b, framed(b""), 1).unwrap();
    assert_eq!(
        engine.shutdown(),
        vec![
            Event::OutboundFailure { request_id: a, failure: OutboundFailure::Cancelled },
            Event::OutboundFailure { request_id: c, failure: OutboundFailure::Cancelled },
        ]
    );
    assert_eq!(engine.pending_count(), 0);
    assert_eq!(engine.shutdown(), vec![]);
    assert_eq!(engine.on_response(a, framed(b""), 2), None);
    let d = engine.send_request(peer(), MyRequest(vec![]), 3).unwrap().request_id;
    assert_eq!(d, RequestId(3));
}

#[test]
fn shutdown_closes_open_exchanges() {
    let mut engine = Engine::new(Config::new());
    let channel = match engine.accept_inbound(framed(b"q")) {
        Event::RequestReceived { channel, .. } => channel,
        other => panic!("unexpected event {:?}", other),
    };
    assert!(engine.is_open(&channel));
    engine.shutdown();
    assert!(!engine.is_open(&channel));
    assert_eq!(
        engine.send_response(channel, MyResponse(vec![])),
        Err(ResponseError::ChannelMisuse)
    );
}

#[test]
fn accept_inbound_hands_out_request_and_channel() {
    let mut engine = Engine::new(Config::new());
    let mut input = encode_frame(b"first", MAX_SIZE).unwrap();
    input.extend_from_slice(b"rest");
    match engine.accept_inbound(ByteStream::new(input)) {
        Event::RequestReceived { request, channel } => {
            assert_eq!(request, MyRequest(b"first".to_vec()));
            assert_eq!(channel.inbound_id(), 0);
            assert!(engine.is_open(&channel));
        },
        other => panic!("unexpected event {:?}", other),
    }
    match engine.accept_inbound(framed(b"second")) {
        Event::RequestReceived { channel, .. } => assert_eq!(channel.inbound_id(), 1),
        other => panic!("unexpected event {:?}", other),
    }
}

#[test]
fn a_malformed_inbound_frame_is_an_inbound_failure() {
    let mut engine = Engine::new(Config::new());
    assert_eq!(
        engine.accept_inbound(ByteStream::new(vec![0, 0x10, 0, 1, 9, 9])),
        Event::InboundFailure {
            reason: InboundFailure::Codec(CodecError::FrameTooLarge(MAX_SIZE + 1))
        }
    );
    assert_eq!(
        engine.accept_inbound(ByteStream::new(vec![0, 0, 0, 3, 1, 2])),
        Event::InboundFailure { reason: InboundFailure::Codec(CodecError::TruncatedStream) }
    );
    assert_eq!(
        engine.accept_inbound(ByteStream::new(vec![])),
        Event::InboundFailure { reason: InboundFailure::Codec(CodecError::TruncatedStream) }
    );
    match engine.accept_inbound(framed(b"ok")) {
        Event::RequestReceived { channel, .. } => assert_eq!(channel.inbound_id(), 0),
        other => panic!("unexpected event {:?}", other),
    }
}

#[test]
fn a_channel_of_a_closed_exchange_is_refused() {
    let mut first = Engine::new(Config::new());
    let mut second = Engine::new(Config::new());
    let own = match first.accept_inbound(framed(b"q")) {
        Event::RequestReceived { channel, .. } => channel,
        other => panic!("unexpected event {:?}", other),
    };
    let foreign = match second.accept_inbound(framed(b"q")) {
        Event::RequestReceived { channel, .. } => channel,
        other => panic!("unexpected event {:?}", other),
    };
    assert_eq!(own.inbound_id(), foreign.inbound_id());
    let pending = first.send_request(peer(), MyRequest(vec![]), 0).unwrap().request_id;

    assert!(first.send_response(own, MyResponse(b"a".to_vec())).is_ok());
    assert_eq!(
        first.send_response(foreign, MyResponse(b"b".to_vec())),
        Err(ResponseError::ChannelMisuse)
    );

    assert!(first.is_pending(pending));
    assert_eq!(first.pending_count(), 1);
    match first.accept_inbound(framed(b"next")) {
        Event::RequestReceived { channel, .. } => {
            assert_eq!(channel.inbound_id(), 1);
            assert_eq!(
                first.send_response(channel, MyResponse(b"c".to_vec())),
                Ok(encode_frame(b"c", MAX_SIZE).unwrap())
            );
        },
        other => panic!("unexpected event {:?}", other),
    }
}

#[test]
fn a_dropped_channel_is_reported_once() {
    let mut first = Engine::new(Config::new());
    let mut second = Engine::new(Config::new());
    let own = match first.accept_inbound(framed(b"q")) {
        Event::RequestReceived { channel, .. } => channel,
        other => panic!("unexpected event {:?}", other),
    };
    let foreign = match second.accept_inbound(framed(b"q")) {
        Event::RequestReceived { channel, .. } => channel,
        other => panic!("unexpected event {:?}", other),
    };
    assert_eq!(
        first.drop_channel(own),
        Some(Event::InboundFailure { reason: InboundFailure::ResponseOmission })
    );
    assert_eq!(first.drop_channel(foreign), None);
}

#[test]
fn a_response_over_the_limit_is_not_delivered() {
    let mut engine = Engine::new(Config::new().with_max_frame_size(8));
    let channel = match engine.accept_inbound(ByteStream::new(vec![0, 0, 0, 1, 1])) {
        Event::RequestReceived { channel, .. } => channel,
        other => panic!("unexpected event {:?}", other),
    };
    assert_eq!(
        engine.send_response(channel, MyResponse(vec![0; 9])),
        Err(ResponseError::Failed(InboundFailure::Codec(CodecError::FrameTooLarge(9))))
    );
}

#[test]
fn settle_delivers_a_payload_and_drops_on_an_error() {
    let mut engine = Engine::new(Config::new().with_max_frame_size(8));
    let mut channels = Vec::new();
    for _ in 0..3 {
        match engine.accept_inbound(ByteStream::new(vec![0, 0, 0, 1, 1])) {
            Event::RequestReceived { channel, .. } => channels.push(channel),
            other => panic!("unexpected event {:?}", other),
        }
    }
    let third = channels.pop().unwrap();
    let second = channels.pop().unwrap();
    let first = channels.pop().unwrap();
    assert_eq!(
        engine.settle(first, Ok(b"pong".to_vec())),
        Ok(vec![0, 0, 0, 4, b'p', b'o', b'n', b'g'])
    );
    assert_eq!(
        engine.settle(second, Err(ServiceError { message: "no".to_string() })),
        Err(ResponseError::Failed(InboundFailure::ResponseOmission))
    );
    assert_eq!(
        engine.settle(third, Ok(vec![0; 9])),
        Err(ResponseError::Failed(InboundFailure::Codec(CodecError::FrameTooLarge(9))))
    );
}

#[test]
fn settle_refuses_a_channel_of_a_closed_exchange() {
    let mut engine = Engine::new(Config::new());
    let mut other = Engine::new(Config::new());
    let a = match other.accept_inbound(framed(b"q")) {
        Event::RequestReceived { channel, .. } => channel,
        other => panic!("unexpected event {:?}", other),
    };
    let b = match other.accept_inbound(framed(b"q")) {
        Event::RequestReceived { channel, .. } => channel,
        other => panic!("unexpected event {:?}", other),
    };
    assert_eq!(engine.settle(a, Ok(vec![])), Err(ResponseError::ChannelMisuse));
    assert_eq!(
        engine.settle(b, Err(ServiceError { message: String::new() })),
        Err(ResponseError::ChannelMisuse)
    );
}

struct Toggling {
    ready: bool,
    clock: u64,
    calls: Vec<u64>,
    polls: Vec<(u64, bool)>,
}

impl Service for Toggling {
    fn poll_ready(&mut self) -> Readiness {
        self.clock += 1;
        self.ready = !self.ready;
        self.polls.push((self.clock, self.ready));
        if self.ready {
            Readiness::Ready
        } else {
            Readiness::NotReady
        }
    }

    fn call(&mut self, req: Vec<u8>) -> Result<Vec<u8>, ServiceError> {
        self.clock += 1;
        self.calls.push(self.clock);
        Ok(req)
    }
}

#[test]
fn backpressure_is_respected() {
    let mut engine = Engine::new(Config::new());
    let mut service = Admission::new(Toggling {
        ready: true,
        clock: 0,
        calls: Vec::new(),
        polls: Vec::new(),
    });
    let mut answered = 0;
    for round in 0..4u8 {
        let (mut request, mut channel) = match engine.accept_inbound(framed(&[round])) {
            Event::RequestReceived { request, channel } => (request, channel),
            other => panic!("unexpected event {:?}", other),
        };
        loop {
            match engine.serve(&mut service, request, channel) {
                Served::Deferred { request: back, channel: unused } => {
                    assert_eq!(back, MyRequest(vec![round]));
                    assert!(engine.is_open(&unused));
                    request = back;
                    channel = unused;
                },
                Served::Settled(result) => {
                    assert_eq!(result, Ok(vec![0, 0, 0, 1, round]));
                    answered += 1;
                    break;
                },
            }
        }
    }
    assert_eq!(answered, 4);
    let service = service.into_inner();
    assert_eq!(service.calls.len(), 4);
    assert_eq!(service.polls.len(), 8);
    for at in &service.calls {
        let last_poll = service.polls.iter().filter(|(t, _)| t < at).last().unwrap();
        assert_eq!(*last_poll, (at - 1, true));
    }
}

struct Refusing {
    calls: usize,
}

impl Service for Refusing {
    fn poll_ready(&mut self) -> Readiness {
        Readiness::NotReady
    }

    fn call(&mut self, req: Vec<u8>) -> Result<Vec<u8>, ServiceError> {
        self.calls += 1;
        Ok(req)
    }
}

#[test]
fn a_service_that_is_not_ready_is_never_called() {
    let mut engine = Engine::new(Config::new());
    let mut service = Admission::new(Refusing { calls: 0 });
    let (mut request, mut channel) = match engine.accept_inbound(framed(b"q")) {
        Event::RequestReceived { request, channel } => (request, channel),
        other => panic!("unexpected event {:?}", other),
    };
    for _ in 0..5 {
        match engine.serve(&mut service, request, channel) {
            Served::Deferred { request: back, channel: unused } => {
                request = back;
                channel = unused;
            },
            other => panic!("unexpected outcome {:?}", other),
        }
    }
    assert!(engine.is_open(&channel));
    assert_eq!(service.into_inner().calls, 0);
}

struct Broken {
    calls: usize,
}

impl Service for Broken {
    fn poll_ready(&mut self) -> Readiness {
        Readiness::Failed(ServiceError { message: "broken".to_string() })
    }

    fn call(&mut self, req: Vec<u8>) -> Result<Vec<u8>, ServiceError> {
        self.calls += 1;
        Ok(req)
    }
}

#[test]
fn a_failed_service_closes_the_exchange_without_a_response() {
    let mut engine = Engine::new(Config::new());
    let mut service = Admission::new(Broken { calls: 0 });
    let (request, channel) = match engine.accept_inbound(framed(b"q")) {
        Event::RequestReceived { request, channel } => (request, channel),
        other => panic!("unexpected event {:?}", other),
    };
    assert_eq!(
        engine.serve(&mut service, request, channel),
        Served::Settled(Err(ResponseError::Failed(InboundFailure::ResponseOmission)))
    );
    assert_eq!(service.into_inner().calls, 0);
}

struct Failing;

impl Service for Failing {
    fn poll_ready(&mut self) -> Readiness {
        Readiness::Ready
    }

    fn call(&mut self, _req: Vec<u8>) -> Result<Vec<u8>, ServiceError> {
        Err(ServiceError { message: "no answer".to_string() })
    }
}

#[test]
fn an_application_error_closes_the_exchange_without_a_response() {
    let mut engine = Engine::new(Config::new());
    let mut service = Admission::new(Failing);
    let (request, channel) = match engine.accept_inbound(framed(b"q")) {
        Event::RequestReceived { request, channel } => (request, channel),
        other => panic!("unexpected event {:?}", other),
    };
    assert_eq!(
        engine.serve(&mut service, request, channel),
        Served::Settled(Err(ResponseError::Failed(InboundFailure::ResponseOmission)))
    );
}

#[test]
fn serve_refuses_a_channel_of_a_closed_exchange() {
    let mut engine = Engine::new(Config::new());
    let mut other = Engine::new(Config::new());
    let mut service = Admission::new(Refusing { calls: 0 });
    let (request, channel) = match other.accept_inbound(framed(b"q")) {
        Event::RequestReceived { request, channel } => (request, channel),
        other => panic!("unexpected event {:?}", other),
    };
    assert_eq!(
        engine.serve(&mut service, request, channel),
        Served::Settled(Err(ResponseError::ChannelMisuse))
    );
}

#[test]
fn an_engine_can_continue_an_earlier_numbering() {
    let mut engine = Engine::resuming(Config::new(), 40, 7);
    assert_eq!(engine.pending_count(), 0);
    let d = engine.send_request(peer(), MyRequest(vec![]), 0).unwrap();
    assert_eq!(d.request_id, RequestId(40));
    match engine.accept_inbound(framed(b"q")) {
        Event::RequestReceived { channel, .. } => assert_eq!(channel.inbound_id(), 7),
        other => panic!("unexpected event {:?}", other),
    }
}

#[test]
fn no_request_is_taken_on_when_identifiers_run_out() {
    let mut engine = Engine::resuming(Config::new(), u64::MAX - 1, 0);
    let d = engine.send_request(peer(), MyRequest(vec![1]), 0).unwrap();
    assert_eq!(d.request_id, RequestId(u64::MAX - 1));
    assert_eq!(
        engine.send_request(peer(), MyRequest(vec![2]), 0),
        Err(SendError::Exhausted)
    );
    assert_eq!(engine.pending_count(), 1);
    assert_eq!(
        engine.send_request(peer(), MyRequest(vec![0; MAX_SIZE + 1]), 0),
        Err(SendError::FrameTooLarge(MAX_SIZE + 1))
    );
}

#[test]
fn no_exchange_is_opened_when_identifiers_run_out() {
    let mut engine = Engine::resuming(Config::new(), 0, u64::MAX);
    assert_eq!(
        engine.accept_inbound(framed(b"q")),
        Event::InboundFailure { reason: InboundFailure::Exhausted }
    );
    assert_eq!(
        engine.accept_inbound(ByteStream::new(vec![0, 0])),
        Event::InboundFailure { reason: InboundFailure::Codec(CodecError::TruncatedStream) }
    );
}
