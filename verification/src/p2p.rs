//! The request/response protocol: its identity, its message types and the
//! codec that frames them on a stream.

use crate::frame::{
    decode_header, encode_frame, fits, frame, lemma_parse_frame, lemma_parse_oversize, parse,
    HEADER_LEN,
};
use crate::stream::ByteStream;
use vstd::prelude::*;

verus! {

/// Upper bound on the payload of one message, in bytes (1 MiB).
pub const MAX_SIZE: usize = 1_048_576;

/// The identity under which the transport routes a stream to this protocol.
#[derive(Clone, Debug, PartialEq, Eq, Hash)]
pub struct MyProtocol();

impl AsRef<str> for MyProtocol {
    fn as_ref(&self) -> (name: &str)
        ensures
            name@ == "/my-custom-protocol/1.0.0"@,
    {
        "/my-custom-protocol/1.0.0"
    }
}

/// A request: an opaque payload.
#[derive(Debug, Clone, PartialEq, Eq)]
pub struct MyRequest(pub Vec<u8>);

/// A response: an opaque payload.
#[derive(Debug, Clone, PartialEq, Eq)]
pub struct MyResponse(pub Vec<u8>);

/// Why a frame could not be written or read.
#[derive(Debug, Clone, Copy, PartialEq, Eq, Structural)]
pub enum CodecError {
    /// The payload, or the length a frame declares, exceeds the limit. Holds
    /// that length.
    FrameTooLarge(usize),
    /// The stream ended before a complete frame was available.
    TruncatedStream,
}

/// Framing round trip: every payload of up to `MAX_SIZE` bytes is read back
/// unchanged from its frame.
pub proof fn lemma_framing_round_trip(payload: Seq<u8>)
    requires
        payload.len() <= MAX_SIZE,
    ensures
        fits(payload.len(), MAX_SIZE as nat),
        parse(frame(payload), MAX_SIZE as nat) == Ok::<Seq<u8>, CodecError>(payload),
{
    lemma_parse_frame(payload, Seq::empty(), MAX_SIZE as nat);
}

/// Size bound: a payload of more than `MAX_SIZE` bytes does not fit a frame,
/// so that writing it is refused; and where a frame can declare its length at
/// all, that frame is refused on reading, with the length it declares.
pub proof fn lemma_size_bound(payload: Seq<u8>)
    requires
        payload.len() > MAX_SIZE,
    ensures
        !fits(payload.len(), MAX_SIZE as nat),
        payload.len() <= u32::MAX ==> parse(frame(payload), MAX_SIZE as nat) == Err::<
            Seq<u8>,
            CodecError,
        >(CodecError::FrameTooLarge(payload.len() as usize)),
{
    if payload.len() <= u32::MAX {
        lemma_parse_oversize(payload, Seq::empty(), MAX_SIZE as nat);
        assert(frame(payload) + Seq::<u8>::empty() =~= frame(payload));
    }
}

/// Reads and writes requests and responses as length-prefixed frames, one per
/// call, keeping nothing between calls.
#[derive(Debug, Clone)]
pub struct MyCodec {
    max_size: usize,
}

/// What reading one frame leaves unread of the bytes `unread`, under the limit
/// `max_size`: a frame that is accepted is consumed and nothing more, a prefix
/// that declares too much is consumed alone, and a stream that ends early is
/// consumed to its end.
pub open spec fn unread_after_read(unread: Seq<u8>, max_size: nat) -> Seq<u8> {
    match parse(unread, max_size) {
        Ok(payload) => unread.skip(4 + payload.len() as int),
        Err(CodecError::FrameTooLarge(_)) => unread.skip(4),
        Err(CodecError::TruncatedStream) => Seq::<u8>::empty(),
    }
}

impl MyCodec {
    /// The largest payload this codec accepts, in bytes.
    pub closed spec fn limit(&self) -> nat {
        self.max_size as nat
    }

    /// A codec with the default limit of `MAX_SIZE` bytes.
    pub fn new() -> (codec: MyCodec)
        ensures
            codec.limit() == MAX_SIZE,
    {
        MyCodec { max_size: MAX_SIZE }
    }

    /// A codec that accepts payloads of up to `max_size` bytes.
    pub fn with_max_size(max_size: usize) -> (codec: MyCodec)
        ensures
            codec.limit() == max_size,
    {
        MyCodec { max_size }
    }

    /// The largest payload this codec accepts, in bytes.
    pub fn max_size(&self) -> (n: usize)
        ensures
            n == self.limit(),
    {
        self.max_size
    }

    /// Reads one frame from `io` and gives its payload.
    fn read_frame(&self, io: &mut ByteStream) -> (r: Result<Vec<u8>, CodecError>)
        ensures
            match parse(old(io)@.unread, self.limit()) {
                Ok(payload) => r is Ok && r->Ok_0@ == payload,
                Err(e) => r == Err::<Vec<u8>, CodecError>(e),
            },
            final(io)@.unread == unread_after_read(old(io)@.unread, self.limit()),
            final(io)@.written == old(io)@.written,
            final(io)@.flushed == old(io)@.flushed,
    {
        let header: Vec<u8> = match io.read_exact(HEADER_LEN) {
            Ok(bytes) => bytes,
            Err(e) => {
                return Err(e);
            },
        };
        let declared: usize = match decode_header(header.as_slice(), self.max_size) {
            Ok(n) => n,
            Err(e) => {
                return Err(e);
            },
        };
        let body: Vec<u8> = match io.read_exact(declared) {
            Ok(bytes) => bytes,
            Err(e) => {
                return Err(e);
            },
        };
        assert(body@ =~= old(io)@.unread.subrange(4, 4 + declared as int));
        assert(io@.unread =~= old(io)@.unread.skip(4 + declared as int));
        Ok(body)
    }

    /// Writes the frame of `payload` to `io` and flushes, or refuses a payload
    /// over the limit and leaves `io` as it was.
    fn write_frame(&self, io: &mut ByteStream, payload: &[u8]) -> (r: Result<(), CodecError>)
        ensures
            final(io)@.unread == old(io)@.unread,
            fits(payload@.len(), self.limit()) ==> r is Ok && final(io)@.written == old(io)@.written
                + frame(payload@) && final(io)@.flushed == final(io)@.written.len(),
            !fits(payload@.len(), self.limit()) ==> r == Err::<(), CodecError>(
                CodecError::FrameTooLarge(payload.len()),
            ) && final(io)@ == old(io)@,
    {
        let bytes: Vec<u8> = match encode_frame(payload, self.max_size) {
            Ok(bytes) => bytes,
            Err(e) => {
                return Err(e);
            },
        };
        io.write_all(bytes.as_slice());
        io.flush();
        Ok(())
    }

    /// Reads one request from `io`: four bytes of length, checked against the
    /// limit, then exactly that many bytes of payload.
    pub fn read_request(&mut self, _protocol: &MyProtocol, io: &mut ByteStream) -> (r: Result<
        MyRequest,
        CodecError,
    >)
        ensures
            final(self).limit() == old(self).limit(),
            match parse(old(io)@.unread, old(self).limit()) {
                Ok(payload) => r is Ok && r->Ok_0.0@ == payload,
                Err(e) => r is Err && r->Err_0 == e,
            },
            final(io)@.unread == unread_after_read(old(io)@.unread, old(self).limit()),
            final(io)@.written == old(io)@.written,
            final(io)@.flushed == old(io)@.flushed,
    {
        match self.read_frame(io) {
            Ok(payload) => Ok(MyRequest(payload)),
            Err(e) => Err(e),
        }
    }

    /// Reads one response from `io`: four bytes of length, checked against
    /// the limit, then exactly that many bytes of payload.
    pub fn read_response(&mut self, _protocol: &MyProtocol, io: &mut ByteStream) -> (r: Result<
        MyResponse,
        CodecError,
    >)
        ensures
            final(self).limit() == old(self).limit(),
            match parse(old(io)@.unread, old(self).limit()) {
                Ok(payload) => r is Ok && r->Ok_0.0@ == payload,
                Err(e) => r is Err && r->Err_0 == e,
            },
            final(io)@.unread == unread_after_read(old(io)@.unread, old(self).limit()),
            final(io)@.written == old(io)@.written,
            final(io)@.flushed == old(io)@.flushed,
    {
        match self.read_frame(io) {
            Ok(payload) => Ok(MyResponse(payload)),
            Err(e) => Err(e),
        }
    }

    /// Writes one request to `io` as a frame and flushes. A payload over the
    /// limit is refused before anything is written.
    pub fn write_request(&mut self, _protocol: &MyProtocol, io: &mut ByteStream, req: MyRequest) -> (r:
        Result<(), CodecError>)
        ensures
            final(self).limit() == old(self).limit(),
            final(io)@.unread == old(io)@.unread,
            fits(req.0@.len(), old(self).limit()) ==> r is Ok && final(io)@.written == old(
                io,
            )@.written + frame(req.0@) && final(io)@.flushed == final(io)@.written.len(),
            !fits(req.0@.len(), old(self).limit()) ==> r == Err::<(), CodecError>(
                CodecError::FrameTooLarge(req.0.len()),
            ) && final(io)@ == old(io)@,
    {
        self.write_frame(io, req.0.as_slice())
    }

    /// Writes one response to `io` as a frame and flushes. A payload over the
    /// limit is refused before anything is written.
    pub fn write_response(
        &mut self,
        _protocol: &MyProtocol,
        io: &mut ByteStream,
        res: MyResponse,
    ) -> (r: Result<(), CodecError>)
        ensures
            final(self).limit() == old(self).limit(),
            final(io)@.unread == old(io)@.unread,
            fits(res.0@.len(), old(self).limit()) ==> r is Ok && final(io)@.written == old(
                io,
            )@.written + frame(res.0@) && final(io)@.flushed == final(io)@.written.len(),
            !fits(res.0@.len(), old(self).limit()) ==> r == Err::<(), CodecError>(
                CodecError::FrameTooLarge(res.0.len()),
            ) && final(io)@ == old(io)@,
    {
        self.write_frame(io, res.0.as_slice())
    }
}

} // verus!
