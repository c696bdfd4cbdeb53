use mesh_msg::stream::{settle, Stream};
use std::io::{Error, ErrorKind};

struct Script {
    reads: Vec<Result<Vec<u8>, ErrorKind>>,
    written: Vec<u8>,
    accept: Vec<Result<usize, ErrorKind>>,
}

impl Stream for Script {
    fn read(&mut self, buf: &mut [u8]) -> Result<usize, Error> {
        if self.reads.is_empty() {
            return Err(Error::from(ErrorKind::WouldBlock));
        }
        match self.reads.remove(0) {
            Ok(bytes) => {
                buf[..bytes.len()].copy_from_slice(&bytes);
                Ok(bytes.len())
            }
            Err(kind) => Err(Error::from(kind)),
        }
    }

    fn write(&mut self, buf: &[u8]) -> Result<usize, Error> {
        if self.accept.is_empty() {
            return Err(Error::from(ErrorKind::WouldBlock));
        }
        match self.accept.remove(0) {
            Ok(n) => {
                let n = n.min(buf.len());
                self.written.extend_from_slice(&buf[..n]);
                Ok(n)
            }
            Err(kind) => Err(Error::from(kind)),
        }
    }
}

#[test]
fn try_read_maps_would_block_to_none() {
    let mut s = Script {
        reads: vec![Ok(vec![1, 2, 3]), Err(ErrorKind::WouldBlock)],
        written: vec![],
        accept: vec![],
    };
    let mut buf = [0u8; 8];
    assert_eq!(s.try_read(&mut buf).unwrap(), Some(3));
    assert_eq!(&buf[..3], &[1, 2, 3]);
    assert_eq!(s.try_read(&mut buf).unwrap(), None);
}

#[test]
fn try_write_passes_other_errors_on() {
    let mut s = Script {
        reads: vec![],
        written: vec![],
        accept: vec![Ok(2), Err(ErrorKind::BrokenPipe)],
    };
    assert_eq!(s.try_write(b"abc").unwrap(), Some(2));
    assert_eq!(s.written, b"ab");
    assert_eq!(s.try_write(b"c").unwrap_err().kind(), ErrorKind::BrokenPipe);
}

#[test]
fn settle_keeps_counts() {
    assert_eq!(settle(Ok(5)).unwrap(), Some(5));
    assert_eq!(settle(Err(Error::from(ErrorKind::WouldBlock))).unwrap(), None);
    assert!(settle(Err(Error::from(ErrorKind::ConnectionReset))).is_err());
}
