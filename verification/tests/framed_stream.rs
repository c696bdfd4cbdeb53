use mesh_msg::drain::{read_end, ReadEnd};
use mesh_msg::framed_stream::{read_growth, StreamState};
use mesh_msg::{FrameError, FramedStream, Ready, Stream};
use std::io::{Error, ErrorKind};

/// A socket that takes what its script says.
struct Script {
    accept: Vec<Result<usize, ErrorKind>>,
    written: Vec<u8>,
    offered: Vec<usize>,
}

impl Script {
    fn new(accept: Vec<Result<usize, ErrorKind>>) -> Self {
        Script { accept, written: vec![], offered: vec![] }
    }
}

impl Stream for Script {
    fn read(&mut self, _buf: &mut [u8]) -> Result<usize, Error> {
        Err(Error::from(ErrorKind::WouldBlock))
    }

    fn write(&mut self, buf: &[u8]) -> Result<usize, Error> {
        self.offered.push(buf.len());
        if self.accept.is_empty() {
            return Err(Error::from(ErrorKind::WouldBlock));
        }
        match self.accept.remove(0) {
            Ok(n) => {
                let n = n.min(buf.len());
                self.written.extend_from_slice(&buf[..n]);
                Ok(n)
            }
            Err(kind) => Err(Error::from(kind)),
        }
    }
}

fn both() -> Ready {
    Ready { readable: true, writable: true }
}

#[test]
fn new_stream_wants_to_read_only() {
    let s = FramedStream::new();
    assert_eq!(s.interest(), Ready::readable());
    assert_eq!(s.pending(), 0);
    assert_eq!(s.state(), StreamState::Open);
}

#[test]
fn read_end_classifies_each_result() {
    assert!(read_end(Ok(Some(5))).is_none());
    assert!(matches!(read_end(Ok(Some(0))), Some(ReadEnd::Closed)));
    assert!(matches!(read_end(Ok(None)), Some(ReadEnd::Drained)));
    match read_end(Err(Error::from(ErrorKind::ConnectionReset))) {
        Some(ReadEnd::Failed(e)) => assert_eq!(e.kind(), ErrorKind::ConnectionReset),
        _ => panic!("a failed read ends the drain"),
    }
}

#[test]
fn read_growth_follows_the_policy() {
    // Plenty of room and no header: nothing to do.
    assert_eq!(read_growth(&[], 8192), 0);
    // Less than the low-water mark free: the fixed step.
    assert_eq!(read_growth(&[], 1023), 4096);
    assert_eq!(read_growth(&[], 1024), 0);
    assert_eq!(read_growth(&[1u8; 100], 1000), 4096);
    // An announced frame that does not fit: what it still lacks.
    let mut head = vec![0x10u8, 0x27]; // 10000
    head.extend_from_slice(&[0u8; 98]);
    assert_eq!(read_growth(&head, 8192), 10000 + 2 - 100);
    // The announced frame fits: nothing to do.
    let small = [0x10u8, 0x00, 1, 2, 3];
    assert_eq!(read_growth(&small, 8192), 0);
    // Both rules apply: the larger amount.
    assert_eq!(read_growth(&[0xFFu8, 0xFF], 2), 65535);
    assert_eq!(read_growth(&[0x00u8, 0x08, 0], 3), 4096);
    // A capacity below the length counts as no room.
    assert_eq!(read_growth(&[1u8], 0), 4096);
}

#[test]
fn read_frames_hello() {
    let mut s = FramedStream::new();
    let (frames, end) =
        s.read_frames(&[0x05, 0x00, 0x48, 0x65, 0x6C, 0x6C, 0x6F], ReadEnd::Drained);
    assert!(end.is_none());
    assert_eq!(frames.len(), 1);
    assert_eq!(&frames[0][..], b"Hello");
    assert_eq!(s.interest(), Ready::readable());
    assert_eq!(s.state(), StreamState::Open);
}

#[test]
fn read_frames_batches_back_to_back_frames() {
    let mut s = FramedStream::new();
    let mut wire = Vec::new();
    for i in 0..50u8 {
        wire.extend_from_slice(&[3, 0, i, i, i]);
    }
    let (frames, end) = s.read_frames(&wire, ReadEnd::Drained);
    assert!(end.is_none());
    assert_eq!(frames.len(), 50);
    for (i, frame) in frames.iter().enumerate() {
        assert_eq!(&frame[..], &[i as u8; 3][..]);
    }
}

#[test]
fn read_frames_reassembles_a_split_frame() {
    let mut s = FramedStream::new();
    let wire = [0x05u8, 0x00, b'H', b'e', b'l', b'l', b'o'];
    for byte in &wire[..6] {
        let (frames, end) = s.read_frames(&[*byte], ReadEnd::Drained);
        assert!(frames.is_empty());
        assert!(end.is_none());
    }
    let (frames, end) = s.read_frames(&wire[6..], ReadEnd::Drained);
    assert!(end.is_none());
    assert_eq!(frames.len(), 1);
    assert_eq!(&frames[0][..], b"Hello");
}

#[test]
fn read_frames_takes_a_split_header() {
    let mut s = FramedStream::new();
    let (frames, end) = s.read_frames(&[0x02], ReadEnd::Drained);
    assert!(frames.is_empty() && end.is_none());
    let (frames, end) = s.read_frames(&[0x00], ReadEnd::Drained);
    assert!(frames.is_empty() && end.is_none());
    let (frames, end) = s.read_frames(b"ok", ReadEnd::Drained);
    assert!(end.is_none());
    assert_eq!(frames.len(), 1);
    assert_eq!(&frames[0][..], b"ok");
}

#[test]
fn read_frames_across_tcp_boundaries() {
    let wire = [2u8, 0, b'a', b'b', 3, 0, b'x', b'y', b'z'];
    let mut s = FramedStream::new();
    let (first, end) = s.read_frames(&wire[..3], ReadEnd::Drained);
    assert!(first.is_empty() && end.is_none());
    let (second, end) = s.read_frames(&wire[3..7], ReadEnd::Drained);
    assert!(end.is_none());
    assert_eq!(second.len(), 1);
    assert_eq!(&second[0][..], b"ab");
    let (third, end) = s.read_frames(&wire[7..], ReadEnd::Drained);
    assert!(end.is_none());
    assert_eq!(third.len(), 1);
    assert_eq!(&third[0][..], b"xyz");
}

#[test]
fn read_frames_in_pieces_equals_in_one() {
    let wire: Vec<u8> = vec![2, 0, b'a', b'b', 0, 0, 3, 0, b'x', b'y', b'z', 1, 0, b'q'];
    let mut whole = FramedStream::new();
    let (expected, _) = whole.read_frames(&wire, ReadEnd::Drained);
    for cut in 0..=wire.len() {
        let mut s = FramedStream::new();
        let (mut got, _) = s.read_frames(&wire[..cut], ReadEnd::Drained);
        let (rest, _) = s.read_frames(&wire[cut..], ReadEnd::Drained);
        got.extend(rest);
        assert_eq!(got, expected);
    }
}

#[test]
fn read_frames_large_frame_grows_the_buffer() {
    let mut s = FramedStream::new();
    let payload = vec![0x5Au8; 65535];
    let mut wire = vec![0xFF, 0xFF];
    wire.extend_from_slice(&payload);
    let (frames, _) = s.read_frames(&wire[..10], ReadEnd::Drained);
    assert!(frames.is_empty());
    let (frames, _) = s.read_frames(&wire[10..40000], ReadEnd::Drained);
    assert!(frames.is_empty());
    let (frames, end) = s.read_frames(&wire[40000..], ReadEnd::Drained);
    assert!(end.is_none());
    assert_eq!(frames.len(), 1);
    assert_eq!(&frames[0][..], &payload[..]);
}

#[test]
fn read_frames_peer_close_after_bye() {
    let mut s = FramedStream::new();
    let (frames, end) = s.read_frames(&[3, 0, b'b', b'y', b'e'], ReadEnd::Closed);
    assert_eq!(frames.len(), 1);
    assert_eq!(&frames[0][..], b"bye");
    assert!(matches!(end, Some(FrameError::PeerClosed)));
    assert_eq!(s.state(), StreamState::Closing);
}

#[test]
fn read_frames_returns_frames_beside_an_error() {
    let mut s = FramedStream::new();
    let end = ReadEnd::Failed(Error::from(ErrorKind::ConnectionReset));
    let (frames, end) = s.read_frames(&[1, 0, b'x', 9], end);
    assert_eq!(frames.len(), 1);
    assert_eq!(&frames[0][..], b"x");
    match end {
        Some(FrameError::Read(e)) => assert_eq!(e.kind(), ErrorKind::ConnectionReset),
        other => panic!("unexpected end: {:?}", other),
    }
    assert_eq!(s.state(), StreamState::Closing);
}

#[test]
fn queue_write_sets_writable_once() {
    let mut s = FramedStream::new();
    assert!(matches!(s.queue_write(b"Hello"), Ok(true)));
    assert_eq!(s.interest(), both());
    assert_eq!(s.pending(), 7);
    assert!(matches!(s.queue_write(b"World"), Ok(false)));
    assert_eq!(s.interest(), both());
    assert_eq!(s.pending(), 14);
}

#[test]
fn queue_write_empty_payload_queues_its_header() {
    let mut s = FramedStream::new();
    assert!(matches!(s.queue_write(b""), Ok(true)));
    assert_eq!(s.pending(), 2);
    assert!(s.interest().is_writable());
    let mut io = Script::new(vec![Ok(10)]);
    assert!(matches!(s.handle_write(&mut io), Ok(2)));
    assert_eq!(io.written, vec![0, 0]);
}

#[test]
fn queue_write_rejects_oversize() {
    let mut s = FramedStream::new();
    s.queue_write(b"kept").unwrap();
    let before = s.pending();
    let payload = vec![0u8; 70000];
    assert!(matches!(s.queue_write(&payload), Err(FrameError::MessageTooLarge)));
    assert_eq!(s.pending(), before);
    let mut io = Script::new(vec![Ok(100)]);
    s.handle_write(&mut io).unwrap();
    assert_eq!(io.written, vec![4, 0, b'k', b'e', b'p', b't']);
}

#[test]
fn queue_write_oversize_on_idle_stream_changes_nothing() {
    let mut s = FramedStream::new();
    let payload = vec![0u8; 65536];
    assert!(matches!(s.queue_write(&payload), Err(FrameError::MessageTooLarge)));
    assert_eq!(s.pending(), 0);
    assert_eq!(s.interest(), Ready::readable());
}

#[test]
fn queue_write_takes_the_largest_payload() {
    let mut s = FramedStream::new();
    let payload = vec![0x11u8; 65535];
    assert!(matches!(s.queue_write(&payload), Ok(true)));
    assert_eq!(s.pending(), 65537);
    let mut io = Script::new(vec![Ok(65537)]);
    assert!(matches!(s.handle_write(&mut io), Ok(65537)));
    assert_eq!(&io.written[..2], &[0xFF, 0xFF]);
    assert_eq!(&io.written[2..], &payload[..]);
}

#[test]
fn can_queue_holds_for_ordinary_payloads() {
    let mut s = FramedStream::new();
    assert!(s.can_queue(0));
    assert!(s.can_queue(65535));
    assert!(!s.can_queue(usize::MAX));
    assert!(s.can_queue(isize::MAX as usize - 2));
    assert!(!s.can_queue(isize::MAX as usize - 1));
    s.queue_write(b"abc").unwrap();
    assert!(s.can_queue(70000));
    assert!(!s.can_queue(isize::MAX as usize - 6));
    assert!(s.can_queue(isize::MAX as usize - 7));
}

#[test]
fn handle_write_drains_and_drops_writable() {
    let mut s = FramedStream::new();
    s.queue_write(b"Hello").unwrap();
    let mut io = Script::new(vec![Ok(100)]);
    assert!(matches!(s.handle_write(&mut io), Ok(7)));
    assert_eq!(io.written, vec![5, 0, b'H', b'e', b'l', b'l', b'o']);
    assert_eq!(s.pending(), 0);
    assert_eq!(s.interest(), Ready::readable());
    // Nothing queued: the socket is not even asked.
    assert!(matches!(s.handle_write(&mut io), Ok(0)));
    assert_eq!(io.offered, vec![7]);
}

#[test]
fn handle_write_resumes_after_a_partial_write() {
    let mut s = FramedStream::new();
    s.queue_write(b"Hello").unwrap();
    s.queue_write(b"World").unwrap();
    let mut io = Script::new(vec![Ok(3), Err(ErrorKind::WouldBlock)]);
    assert!(matches!(s.handle_write(&mut io), Ok(3)));
    assert_eq!(s.pending(), 11);
    assert_eq!(s.interest(), both());
    io.accept = vec![Ok(4), Ok(2), Ok(100)];
    assert!(matches!(s.handle_write(&mut io), Ok(11)));
    assert_eq!(s.pending(), 0);
    assert_eq!(s.interest(), Ready::readable());

    let mut single = FramedStream::new();
    single.queue_write(b"Hello").unwrap();
    single.queue_write(b"World").unwrap();
    let mut once = Script::new(vec![Ok(100)]);
    assert!(matches!(single.handle_write(&mut once), Ok(14)));
    assert_eq!(io.written, once.written);
    assert_eq!(io.offered, vec![14, 11, 11, 7, 5]);
}

#[test]
fn handle_write_stops_on_zero_progress() {
    let mut s = FramedStream::new();
    s.queue_write(b"abc").unwrap();
    let mut io = Script::new(vec![Ok(2), Ok(0), Ok(100)]);
    assert!(matches!(s.handle_write(&mut io), Ok(2)));
    assert_eq!(s.pending(), 3);
    assert!(s.interest().is_writable());
    assert_eq!(io.accept.len(), 1);
}

#[test]
fn handle_write_error_ends_the_stream() {
    let mut s = FramedStream::new();
    s.queue_write(b"abc").unwrap();
    let mut io = Script::new(vec![Ok(1), Err(ErrorKind::BrokenPipe)]);
    match s.handle_write(&mut io) {
        Err(FrameError::Write(e)) => assert_eq!(e.kind(), ErrorKind::BrokenPipe),
        other => panic!("unexpected result: {:?}", other),
    }
    assert_eq!(s.state(), StreamState::Closing);
    assert_eq!(s.pending(), 4);
    assert!(s.interest().is_writable());
}

#[test]
fn wrote_follows_each_result() {
    let mut s = FramedStream::new();
    s.queue_write(b"abcd").unwrap();
    assert!(matches!(s.wrote(Ok(Some(2))), Ok(true)));
    assert_eq!(s.pending(), 4);
    assert!(matches!(s.wrote(Ok(None)), Ok(false)));
    assert_eq!(s.pending(), 4);
    assert!(matches!(s.wrote(Ok(Some(0))), Ok(false)));
    assert_eq!(s.pending(), 4);
    assert!(matches!(s.wrote(Ok(Some(4))), Ok(false)));
    assert_eq!(s.pending(), 0);
    assert_eq!(s.interest(), Ready::readable());
    assert!(matches!(
        s.wrote(Err(Error::from(ErrorKind::ConnectionAborted))),
        Err(FrameError::Write(_))
    ));
    assert_eq!(s.state(), StreamState::Closing);
}

#[test]
fn interest_is_writable_exactly_while_bytes_are_queued() {
    let mut s = FramedStream::new();
    let mut io = Script::new(vec![]);
    let check = |s: &FramedStream| {
        assert!(s.interest().is_readable());
        assert_eq!(s.interest().is_writable(), s.pending() > 0);
    };
    check(&s);
    s.queue_write(b"one").unwrap();
    check(&s);
    s.read_frames(&[1, 0, 7], ReadEnd::Drained);
    check(&s);
    io.accept = vec![Ok(2)];
    s.handle_write(&mut io).unwrap();
    check(&s);
    s.queue_write(b"two").unwrap();
    check(&s);
    io.accept = vec![Ok(50)];
    s.handle_write(&mut io).unwrap();
    check(&s);
    let _ = s.queue_write(&vec![0u8; 70000]);
    check(&s);
}

#[test]
fn close_marks_the_stream() {
    let mut s = FramedStream::new();
    s.queue_write(b"x").unwrap();
    s.close();
    assert_eq!(s.state(), StreamState::Closing);
    assert_eq!(s.pending(), 3);
}
