use peer_rpc::p2p::CodecError;
use peer_rpc::stream::ByteStream;

#[test]
fn a_new_stream_holds_what_the_peer_sent() {
    let s = ByteStream::new(vec![1, 2, 3]);
    assert_eq!(s.remaining(), 3);
    assert_eq!(s.close(), Vec::<u8>::new());
}

#[test]
fn read_exact_takes_bytes_from_the_front() {
    let mut s = ByteStream::new(vec![1, 2, 3, 4, 5]);
    assert_eq!(s.read_exact(2), Ok(vec![1, 2]));
    assert_eq!(s.remaining(), 3);
    assert_eq!(s.read_exact(0), Ok(vec![]));
    assert_eq!(s.read_exact(3), Ok(vec![3, 4, 5]));
    assert_eq!(s.remaining(), 0);
}

#[test]
fn read_exact_past_the_end_fails_and_drains() {
    let mut s = ByteStream::new(vec![1, 2, 3]);
    assert_eq!(s.read_exact(4), Err(CodecError::TruncatedStream));
    assert_eq!(s.remaining(), 0);
    assert_eq!(s.read_exact(1), Err(CodecError::TruncatedStream));
}

#[test]
fn read_to_end_takes_all_that_is_left() {
    let mut s = ByteStream::new(vec![9, 8, 7]);
    assert_eq!(s.read_exact(1), Ok(vec![9]));
    assert_eq!(s.read_to_end(), vec![8, 7]);
    assert_eq!(s.read_to_end(), Vec::<u8>::new());
}

#[test]
fn only_flushed_bytes_reach_the_transport() {
    let mut s = ByteStream::new(Vec::new());
    s.write_all(b"ab");
    s.flush();
    s.write_all(b"cd");
    assert_eq!(s.close(), b"ab".to_vec());
}

#[test]
fn writes_keep_their_order() {
    let mut s = ByteStream::new(vec![1]);
    s.write_all(b"ab");
    s.write_all(b"");
    s.write_all(b"cd");
    s.flush();
    s.flush();
    assert_eq!(s.remaining(), 1);
    assert_eq!(s.close(), b"abcd".to_vec());
}
