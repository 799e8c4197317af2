//! An in-memory duplex byte stream: what the peer sent, read front to back,
//! and what was written toward the peer. One stream serves one exchange.

use crate::frame::append_bytes;
use crate::p2p::CodecError;
use vstd::prelude::*;

verus! {

/// What a stream is, as plain values.
pub struct StreamView {
    /// The bytes from the peer that have not been read yet.
    pub unread: Seq<u8>,
    /// Every byte written toward the peer so far.
    pub written: Seq<u8>,
    /// How many of the written bytes have been flushed.
    pub flushed: nat,
}

impl StreamView {
    /// The written bytes that the transport has received: the flushed prefix.
    pub open spec fn sent(self) -> Seq<u8> {
        self.written.subrange(0, self.flushed as int)
    }
}

/// No more is flushed than was written.
pub proof fn lemma_flushed_within_written(s: ByteStream)
    ensures
        s@.flushed <= s@.written.len(),
{
}

/// A duplex byte stream held in memory.
#[derive(Debug, PartialEq, Eq)]
pub struct ByteStream {
    unread: Vec<u8>,
    sent: Vec<u8>,
    buffered: Vec<u8>,
}

impl View for ByteStream {
    type V = StreamView;

    closed spec fn view(&self) -> StreamView {
        StreamView {
            unread: self.unread@,
            written: self.sent@ + self.buffered@,
            flushed: self.sent@.len(),
        }
    }
}

impl ByteStream {
    /// A stream on which the peer has sent `incoming` and then closed its
    /// side, and on which nothing has been written.
    pub fn new(incoming: Vec<u8>) -> (s: ByteStream)
        ensures
            s@.unread == incoming@,
            s@.written == Seq::<u8>::empty(),
            s@.flushed == 0,
    {
        let s = ByteStream { unread: incoming, sent: Vec::new(), buffered: Vec::new() };
        assert(s@.written =~= Seq::<u8>::empty());
        s
    }

    /// The number of bytes still to be read.
    pub fn remaining(&self) -> (n: usize)
        ensures
            n == self@.unread.len(),
    {
        self.unread.len()
    }

    /// Reads exactly `n` bytes. Where fewer are left, the stream has ended
    /// early: what was left is consumed and the read fails.
    pub fn read_exact(&mut self, n: usize) -> (r: Result<Vec<u8>, CodecError>)
        ensures
            final(self)@.written == old(self)@.written,
            final(self)@.flushed == old(self)@.flushed,
            n <= old(self)@.unread.len() ==> r is Ok && r->Ok_0@ == old(self)@.unread.subrange(
                0,
                n as int,
            ) && final(self)@.unread == old(self)@.unread.skip(n as int),
            n > old(self)@.unread.len() ==> r == Err::<Vec<u8>, CodecError>(
                CodecError::TruncatedStream,
            ) && final(self)@.unread == Seq::<u8>::empty(),
    {
        if n > self.unread.len() {
            self.unread.clear();
            return Err(CodecError::TruncatedStream);
        }
        let mut head: Vec<u8> = self.unread.split_off(n);
        std::mem::swap(&mut head, &mut self.unread);
        assert(self@.unread =~= old(self)@.unread.skip(n as int));
        Ok(head)
    }

    /// Reads every byte that is left.
    pub fn read_to_end(&mut self) -> (bytes: Vec<u8>)
        ensures
            bytes@ == old(self)@.unread,
            final(self)@.unread == Seq::<u8>::empty(),
            final(self)@.written == old(self)@.written,
            final(self)@.flushed == old(self)@.flushed,
    {
        let mut bytes: Vec<u8> = Vec::new();
        std::mem::swap(&mut bytes, &mut self.unread);
        bytes
    }

    /// Writes all of `bytes` behind what was written before.
    pub fn write_all(&mut self, bytes: &[u8])
        ensures
            final(self)@.written == old(self)@.written + bytes@,
            final(self)@.flushed == old(self)@.flushed,
            final(self)@.unread == old(self)@.unread,
    {
        append_bytes(&mut self.buffered, bytes);
        assert(self@.written =~= old(self)@.written + bytes@);
    }

    /// Flushes: everything written so far has reached the transport.
    pub fn flush(&mut self)
        ensures
            final(self)@.written == old(self)@.written,
            final(self)@.flushed == old(self)@.written.len(),
            final(self)@.unread == old(self)@.unread,
    {
        self.sent.append(&mut self.buffered);
        assert(self@.written =~= old(self)@.written);
    }

    /// Closes the stream and gives what the transport received of it: the
    /// bytes written and flushed. Bytes written and never flushed are lost.
    pub fn close(self) -> (sent: Vec<u8>)
        ensures
            sent@ == self@.sent(),
    {
        assert(self@.sent() =~= self.sent@);
        self.sent
    }
}

} // verus!
