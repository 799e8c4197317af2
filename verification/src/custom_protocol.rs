//! A second protocol, whose messages are not framed: a message is everything
//! that its stream carries.

use crate::p2p::CodecError;
use crate::stream::ByteStream;
use vstd::prelude::*;
use vstd::string::*;

verus! {

/// The identity under which the transport routes a stream to the unframed
/// protocol.
#[derive(Clone)]
pub struct TimeProtocol;

impl TimeProtocol {
    /// The name of the protocol, as the bytes of an ASCII string.
    pub fn protocol_name(&self) -> (name: &[u8])
        ensures
            name@ == "/time/reqrep/1.0.0"@.map_values(|c: char| c as u8),
    {
        let text: &str = "/time/reqrep/1.0.0";
        proof {
            reveal_strlit("/time/reqrep/1.0.0");
            is_ascii_spec_bytes(text);
        }
        let name: &[u8] = text.as_bytes();
        assert(name@ =~= "/time/reqrep/1.0.0"@.map_values(|c: char| c as u8));
        name
    }
}

/// Reads and writes unframed messages: the whole stream is one message.
#[derive(Clone)]
pub struct TimeCodec;

impl Default for TimeCodec {
    fn default() -> (codec: TimeCodec)
        ensures
            codec == TimeCodec,
    {
        TimeCodec
    }
}

impl TimeCodec {
    /// Reads a request: every byte up to the end of the stream.
    pub fn read_request(&mut self, _protocol: &TimeProtocol, io: &mut ByteStream) -> (r: Result<
        Vec<u8>,
        CodecError,
    >)
        ensures
            r is Ok,
            r->Ok_0@ == old(io)@.unread,
            final(io)@.unread == Seq::<u8>::empty(),
            final(io)@.written == old(io)@.written,
            final(io)@.flushed == old(io)@.flushed,
    {
        Ok(io.read_to_end())
    }

    /// Reads a response: every byte up to the end of the stream.
    pub fn read_response(&mut self, _protocol: &TimeProtocol, io: &mut ByteStream) -> (r: Result<
        Vec<u8>,
        CodecError,
    >)
        ensures
            r is Ok,
            r->Ok_0@ == old(io)@.unread,
            final(io)@.unread == Seq::<u8>::empty(),
            final(io)@.written == old(io)@.written,
            final(io)@.flushed == old(io)@.flushed,
    {
        Ok(io.read_to_end())
    }

    /// Writes a request as it is and flushes.
    pub fn write_request(&mut self, _protocol: &TimeProtocol, io: &mut ByteStream, req: Vec<u8>) -> (r:
        Result<(), CodecError>)
        ensures
            r is Ok,
            final(io)@.written == old(io)@.written + req@,
            final(io)@.flushed == final(io)@.written.len(),
            final(io)@.unread == old(io)@.unread,
    {
        io.write_all(req.as_slice());
        io.flush();
        Ok(())
    }

    /// Writes a response as it is and flushes.
    pub fn write_response(&mut self, _protocol: &TimeProtocol, io: &mut ByteStream, res: Vec<u8>) -> (r:
        Result<(), CodecError>)
        ensures
            r is Ok,
            final(io)@.written == old(io)@.written + res@,
            final(io)@.flushed == final(io)@.written.len(),
            final(io)@.unread == old(io)@.unread,
    {
        io.write_all(res.as_slice());
        io.flush();
        Ok(())
    }
}

} // verus!
