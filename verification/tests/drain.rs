use mesh_msg::drain::{drain, Drain, ReadEnd};
use mesh_msg::{FrameError, FramedStream, Stream};
use std::io::{Error, ErrorKind};

/// A socket whose reads follow a script.
struct Reads(Vec<Result<Vec<u8>, ErrorKind>>);

impl Stream for Reads {
    fn read(&mut self, buf: &mut [u8]) -> Result<usize, Error> {
        if self.0.is_empty() {
            return Err(Error::from(ErrorKind::WouldBlock));
        }
        match self.0.remove(0) {
            Ok(bytes) => {
                buf[..bytes.len()].copy_from_slice(&bytes);
                Ok(bytes.len())
            }
            Err(kind) => Err(Error::from(kind)),
        }
    }

    fn write(&mut self, _buf: &[u8]) -> Result<usize, Error> {
        Err(Error::from(ErrorKind::WouldBlock))
    }
}

fn drain_all(io: &mut Reads) -> Drain {
    let mut scratch = [0xEEu8; 16];
    drain(io, &mut scratch)
}

#[test]
fn new_drain_is_empty() {
    let d = Drain::new();
    assert!(d.data.is_empty());
    assert!(matches!(d.end, ReadEnd::Drained));
}

#[test]
fn drain_without_room_reads_nothing() {
    let mut io = Reads(vec![Ok(vec![])]);
    let mut scratch: [u8; 0] = [];
    let d = drain(&mut io, &mut scratch);
    assert!(d.data.is_empty());
    assert!(matches!(d.end, ReadEnd::Drained));
    assert_eq!(io.0.len(), 1);
}

#[test]
fn drain_keeps_the_bytes_of_every_read_in_order() {
    let mut reads = vec![];
    let mut expected = vec![];
    for i in 0..40u8 {
        let chunk: Vec<u8> = (0..(i % 16 + 1)).map(|j| i.wrapping_mul(7).wrapping_add(j)).collect();
        expected.extend_from_slice(&chunk);
        reads.push(Ok(chunk));
    }
    let mut io = Reads(reads);
    let d = drain_all(&mut io);
    assert_eq!(d.data, expected);
    assert!(matches!(d.end, ReadEnd::Drained));
}

#[test]
fn pull_collects_until_would_block() {
    let mut io =
        Reads(vec![Ok(vec![1, 2, 3]), Ok(vec![4]), Err(ErrorKind::WouldBlock), Ok(vec![9])]);
    let d = drain_all(&mut io);
    assert_eq!(d.data, vec![1, 2, 3, 4]);
    assert!(matches!(d.end, ReadEnd::Drained));
    assert_eq!(io.0.len(), 1);
}

#[test]
fn pull_says_when_to_go_on() {
    let mut io = Reads(vec![Ok(vec![7, 8]), Ok(vec![])]);
    let mut scratch = [0u8; 4];
    let mut d = Drain::new();
    assert!(d.pull(&mut io, &mut scratch));
    assert_eq!(d.data, vec![7, 8]);
    assert!(!d.pull(&mut io, &mut scratch));
    assert_eq!(d.data, vec![7, 8]);
    assert!(matches!(d.end, ReadEnd::Closed));
}

#[test]
fn pull_ends_on_a_failed_read() {
    let mut io = Reads(vec![Ok(vec![1]), Err(ErrorKind::ConnectionReset)]);
    let d = drain_all(&mut io);
    assert_eq!(d.data, vec![1]);
    match d.end {
        ReadEnd::Failed(e) => assert_eq!(e.kind(), ErrorKind::ConnectionReset),
        other => panic!("unexpected end: {:?}", other),
    }
}

#[test]
fn drained_reads_frame_across_tcp_boundaries() {
    // Two frames, which the transport hands over in reads of 3, 4 and 2 bytes.
    let mut io = Reads(vec![
        Ok(vec![2, 0, b'a']),
        Ok(vec![b'b', 3, 0, b'x']),
        Ok(vec![b'y', b'z']),
    ]);
    let mut s = FramedStream::new();
    let d = drain_all(&mut io);
    let (frames, end) = s.read_frames(&d.data, d.end);
    assert!(end.is_none());
    assert_eq!(frames.len(), 2);
    assert_eq!(&frames[0][..], b"ab");
    assert_eq!(&frames[1][..], b"xyz");
}

#[test]
fn drained_reads_one_event_per_read() {
    let mut s = FramedStream::new();
    let mut got: Vec<Vec<u8>> = vec![];
    let mut calls_with_frames = 0;
    for chunk in [vec![2u8, 0, b'a'], vec![b'b', 3, 0, b'x'], vec![b'y', b'z']] {
        let mut io = Reads(vec![Ok(chunk)]);
        let d = drain_all(&mut io);
        let (frames, end) = s.read_frames(&d.data, d.end);
        assert!(end.is_none());
        if !frames.is_empty() {
            calls_with_frames += 1;
        }
        got.extend(frames.iter().map(|f| f.to_vec()));
    }
    assert_eq!(got, vec![b"ab".to_vec(), b"xyz".to_vec()]);
    assert!(calls_with_frames <= 2);
}

#[test]
fn drained_peer_close_after_one_frame() {
    let mut io = Reads(vec![Ok(vec![3, 0, b'b', b'y', b'e']), Ok(vec![])]);
    let mut s = FramedStream::new();
    let d = drain_all(&mut io);
    let (frames, end) = s.read_frames(&d.data, d.end);
    assert_eq!(frames.len(), 1);
    assert_eq!(&frames[0][..], b"bye");
    assert!(matches!(end, Some(FrameError::PeerClosed)));
}

#[test]
fn took_appends_exactly_the_bytes_that_the_read_gave() {
    let scratch = [10u8, 11, 12, 13, 14, 15];
    let mut d = Drain::new();
    d.data.extend_from_slice(&[1, 2]);
    assert!(d.took(Ok(Some(4)), &scratch));
    assert_eq!(d.data, vec![1, 2, 10, 11, 12, 13]);
    assert!(matches!(d.end, ReadEnd::Drained));
    assert!(d.took(Ok(Some(6)), &scratch));
    assert_eq!(d.data, vec![1, 2, 10, 11, 12, 13, 10, 11, 12, 13, 14, 15]);
    assert!(d.took(Ok(Some(1)), &scratch));
    assert_eq!(d.data.len(), 13);
    assert_eq!(d.data[12], 10);
}

#[test]
fn took_ends_the_drain_without_adding_bytes() {
    let scratch = [7u8; 4];
    let mut d = Drain::new();
    d.data.push(1);
    assert!(!d.took(Ok(None), &scratch));
    assert_eq!(d.data, vec![1]);
    assert!(matches!(d.end, ReadEnd::Drained));

    let mut d = Drain::new();
    d.data.push(1);
    assert!(!d.took(Ok(Some(0)), &scratch));
    assert_eq!(d.data, vec![1]);
    assert!(matches!(d.end, ReadEnd::Closed));

    let mut d = Drain::new();
    d.data.push(1);
    assert!(!d.took(Err(Error::from(ErrorKind::ConnectionReset)), &scratch));
    assert_eq!(d.data, vec![1]);
    match d.end {
        ReadEnd::Failed(e) => assert_eq!(e.kind(), ErrorKind::ConnectionReset),
        other => panic!("unexpected end: {:?}", other),
    }
}
