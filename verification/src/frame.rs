//! The wire format: a 4-byte big-endian length followed by exactly that many
//! payload bytes. One frame carries one request or one response.

use crate::p2p::CodecError;
use vstd::prelude::*;

verus! {

/// Number of bytes in the length prefix of a frame.
pub const HEADER_LEN: usize = 4;

/// The big-endian encoding of `n` in four bytes.
pub open spec fn be32(n: nat) -> Seq<u8>
    recommends
        n <= u32::MAX,
{
    seq![
        ((n / 0x100_0000) % 0x100) as u8,
        ((n / 0x1_0000) % 0x100) as u8,
        ((n / 0x100) % 0x100) as u8,
        (n % 0x100) as u8,
    ]
}

/// The number that the first four bytes of `b` stand for, read big-endian.
pub open spec fn be32_value(b: Seq<u8>) -> nat
    recommends
        b.len() >= 4,
{
    (b[0] as nat) * 0x100_0000 + (b[1] as nat) * 0x1_0000 + (b[2] as nat) * 0x100 + (b[3] as nat)
}

/// Whether a payload of `len` bytes may travel in one frame under the limit
/// `max_size`: it respects the limit and its length fits the prefix.
pub open spec fn fits(len: nat, max_size: nat) -> bool {
    len <= max_size && len <= u32::MAX
}

/// The frame that carries `payload`.
pub open spec fn frame(payload: Seq<u8>) -> Seq<u8>
    recommends
        payload.len() <= u32::MAX,
{
    be32(payload.len()) + payload
}

/// What reading one frame from the front of `input` yields under the limit
/// `max_size`. A declared length over the limit is rejected before the body
/// is looked at; a missing byte, in the prefix or the body, is a truncation.
pub open spec fn parse(input: Seq<u8>, max_size: nat) -> Result<Seq<u8>, CodecError> {
    if input.len() < 4 {
        Err(CodecError::TruncatedStream)
    } else if be32_value(input) > max_size {
        Err(CodecError::FrameTooLarge(be32_value(input) as usize))
    } else if input.len() < 4 + be32_value(input) {
        Err(CodecError::TruncatedStream)
    } else {
        Ok(input.subrange(4, 4 + be32_value(input) as int))
    }
}

/// Reading back the big-endian bytes of a 32-bit number gives the number.
pub proof fn lemma_be32_roundtrip(n: nat)
    requires
        n <= u32::MAX,
    ensures
        be32(n).len() == 4,
        be32_value(be32(n)) == n,
{
}

/// Framing round trip: a payload that fits the limit is read back unchanged
/// from its frame, whatever bytes follow the frame on the stream.
pub proof fn lemma_parse_frame(payload: Seq<u8>, rest: Seq<u8>, max_size: nat)
    requires
        fits(payload.len(), max_size),
    ensures
        parse(frame(payload) + rest, max_size) == Ok::<Seq<u8>, CodecError>(payload),
        parse(frame(payload), max_size) == Ok::<Seq<u8>, CodecError>(payload),
{
    lemma_be32_roundtrip(payload.len());
    let f = frame(payload);
    let g = f + rest;
    assert(be32_value(f) == payload.len());
    assert(be32_value(g) == payload.len());
    assert(f.subrange(4, 4 + payload.len() as int) =~= payload);
    assert(g.subrange(4, 4 + payload.len() as int) =~= payload);
}

/// Size bound on reading: the frame of a payload over the limit is rejected
/// with the length it declares.
pub proof fn lemma_parse_oversize(payload: Seq<u8>, rest: Seq<u8>, max_size: nat)
    requires
        max_size < payload.len() <= u32::MAX,
    ensures
        parse(frame(payload) + rest, max_size) == Err::<Seq<u8>, CodecError>(
            CodecError::FrameTooLarge(payload.len() as usize),
        ),
{
    lemma_be32_roundtrip(payload.len());
    assert(be32_value(frame(payload) + rest) == payload.len());
}

/// A frame cut short anywhere is a truncation, never another payload.
pub proof fn lemma_parse_truncated(payload: Seq<u8>, cut: int, max_size: nat)
    requires
        fits(payload.len(), max_size),
        0 <= cut < 4 + payload.len(),
    ensures
        parse(frame(payload).subrange(0, cut), max_size) == Err::<Seq<u8>, CodecError>(
            CodecError::TruncatedStream,
        ),
{
    lemma_be32_roundtrip(payload.len());
    let f = frame(payload);
    if cut >= 4 {
        assert(be32_value(f.subrange(0, cut)) == payload.len());
    }
}

/// The four big-endian bytes of `n`.
pub fn length_prefix(n: u32) -> (bytes: [u8; 4])
    ensures
        bytes@ == be32(n as nat),
{
    let bytes: [u8; 4] = [
        (n / 0x100_0000) as u8,
        ((n / 0x1_0000) % 0x100) as u8,
        ((n / 0x100) % 0x100) as u8,
        (n % 0x100) as u8,
    ];
    assert(bytes@ =~= be32(n as nat));
    bytes
}

/// The number that the first four bytes of `bytes` stand for, read
/// big-endian.
fn read_length(bytes: &[u8]) -> (n: u32)
    requires
        bytes@.len() >= 4,
    ensures
        n == be32_value(bytes@),
{
    let b0: u32 = bytes[0] as u32;
    let b1: u32 = bytes[1] as u32;
    let b2: u32 = bytes[2] as u32;
    let b3: u32 = bytes[3] as u32;
    b0 * 0x100_0000 + b1 * 0x1_0000 + b2 * 0x100 + b3
}

/// Appends the bytes of `src` to `dst`.
pub fn append_bytes(dst: &mut Vec<u8>, src: &[u8])
    ensures
        final(dst)@ == old(dst)@ + src@,
{
    let mut i: usize = 0;
    while i < src.len()
        invariant
            i <= src@.len(),
            dst@ == old(dst)@ + src@.subrange(0, i as int),
        decreases src@.len() - i,
    {
        dst.push(src[i]);
        i += 1;
        assert(dst@ =~= old(dst)@ + src@.subrange(0, i as int));
    }
    assert(src@.subrange(0, i as int) =~= src@);
}

/// Builds the frame that carries `payload`, or refuses a payload over the
/// limit with its length.
pub fn encode_frame(payload: &[u8], max_size: usize) -> (r: Result<Vec<u8>, CodecError>)
    ensures
        fits(payload@.len(), max_size as nat) ==> r is Ok && r->Ok_0@ == frame(payload@),
        !fits(payload@.len(), max_size as nat) ==> r == Err::<Vec<u8>, CodecError>(
            CodecError::FrameTooLarge(payload.len()),
        ),
{
    let len: usize = payload.len();
    if len > max_size || len > 0xFFFF_FFFF {
        return Err(CodecError::FrameTooLarge(len));
    }
    let prefix: [u8; 4] = length_prefix(len as u32);
    let mut out: Vec<u8> = Vec::new();
    append_bytes(&mut out, prefix.as_slice());
    append_bytes(&mut out, payload);
    assert(out@ =~= frame(payload@));
    Ok(out)
}

/// Checks the length prefix of a frame: gives the number of payload bytes
/// that follow it, or the reason why the frame is refused.
pub fn decode_header(header: &[u8], max_size: usize) -> (r: Result<usize, CodecError>)
    ensures
        header@.len() < 4 ==> r == Err::<usize, CodecError>(CodecError::TruncatedStream),
        header@.len() >= 4 && be32_value(header@) > max_size ==> r == Err::<usize, CodecError>(
            CodecError::FrameTooLarge(be32_value(header@) as usize),
        ),
        header@.len() >= 4 && be32_value(header@) <= max_size ==> r == Ok::<usize, CodecError>(
            be32_value(header@) as usize,
        ),
{
    if header.len() < HEADER_LEN {
        return Err(CodecError::TruncatedStream);
    }
    let declared: usize = read_length(header) as usize;
    if declared > max_size {
        return Err(CodecError::FrameTooLarge(declared));
    }
    Ok(declared)
}

/// Reads one frame from the front of `input` and gives its payload.
pub fn decode_frame(input: &[u8], max_size: usize) -> (r: Result<Vec<u8>, CodecError>)
    ensures
        match parse(input@, max_size as nat) {
            Ok(payload) => r is Ok && r->Ok_0@ == payload,
            Err(e) => r == Err::<Vec<u8>, CodecError>(e),
        },
{
    let declared: usize = match decode_header(input, max_size) {
        Ok(n) => n,
        Err(e) => {
            return Err(e);
        },
    };
    if input.len() - HEADER_LEN < declared {
        return Err(CodecError::TruncatedStream);
    }
    let mut payload: Vec<u8> = Vec::new();
    let body = vstd::slice::slice_subrange(input, HEADER_LEN, HEADER_LEN + declared);
    append_bytes(&mut payload, body);
    assert(payload@ =~= input@.subrange(4, 4 + declared as int));
    Ok(payload)
}

} // verus!
