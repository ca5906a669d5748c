use framed::bytes::ReadEvent;
use framed::plain::{
    decoded_length, encoded_length, from_slice_to_box, from_slice_to_slice, to_box, to_slice,
    Encoded, Frame, FrameReader, ReadAction,
};
use framed::{Error, Result};

struct Stream {
    data: Vec<u8>,
    pos: usize,
}

impl Stream {
    fn new() -> Stream {
        Stream { data: Vec::new(), pos: 0 }
    }

    fn send(&mut self, f: &[u8]) {
        let code = to_box(&Frame(f.to_vec())).unwrap();
        self.data.extend_from_slice(&code.0);
    }

    fn recv(&mut self) -> Result<Vec<u8>> {
        let mut reader = FrameReader::new();
        loop {
            let ev = if self.pos < self.data.len() {
                self.pos += 1;
                ReadEvent::Byte(self.data[self.pos - 1])
            } else {
                ReadEvent::End
            };
            match reader.step(ev) {
                ReadAction::Continue => (),
                ReadAction::Finished(r) => return r,
            }
        }
    }
}

#[test]
fn lib_one_frame() {
    let mut s = Stream::new();
    let sent = [0x00, 0x01, 0x02];
    s.send(&sent);
    let recvd = s.recv().unwrap();
    assert_eq!(recvd, sent);
}

#[test]
fn lib_two_frames_sequentially() {
    let mut s = Stream::new();
    {
        let sent = [0x00, 0x01, 0x02];
        s.send(&sent);
        let recvd = s.recv().unwrap();
        assert_eq!(recvd, sent);
    }

    {
        let sent = [0x10, 0x11, 0x12];
        s.send(&sent);
        let recvd = s.recv().unwrap();
        assert_eq!(recvd, sent);
    }
}

#[test]
fn lib_two_frames_at_once() {
    let mut s = Stream::new();
    let s1 = [0x00, 0x01, 0x02];
    let s2 = [0x10, 0x11, 0x12];

    s.send(&s1);
    s.send(&s2);

    let r1 = s.recv().unwrap();
    let r2 = s.recv().unwrap();

    assert_eq!(r1, s1);
    assert_eq!(r2, s2);
}

#[test]
fn lib_empty_input() {
    let mut s = Stream::new();
    match s.recv() {
        Err(Error::EofDuringFrame) => (),
        e @ _ => panic!("Bad value: {:?}", e),
    }
}

#[test]
fn plain_frame_exact_bytes() {
    let code = to_box(&Frame(vec![0, 1, 2, 3])).unwrap();
    assert_eq!(code.0, vec![1, 4, 1, 2, 3, 0]);
    assert_eq!(encoded_length(&Frame(vec![0, 1, 2, 3])).unwrap(), 6);
    assert_eq!(decoded_length(&Encoded(vec![1, 4, 1, 2, 3, 0])).unwrap(), 4);
}

#[test]
fn plain_slice_roundtrip() {
    let f = Frame(vec![10, 0, 0, 11]);
    let mut dest = [0u8; 16];
    let n = to_slice(&f, &mut dest).unwrap();
    assert_eq!(&dest[..n], &[2, 10, 1, 2, 11, 0][..]);
    let mut out = [0u8; 16];
    let m = from_slice_to_slice(&dest[..n], &mut out).unwrap();
    assert_eq!(&out[..m], &[10, 0, 0, 11][..]);
    let back = from_slice_to_box(&Encoded(dest[..n].to_vec())).unwrap();
    assert_eq!(back.0, vec![10, 0, 0, 11]);
}

#[test]
fn plain_decode_errors() {
    assert!(matches!(decoded_length(&Encoded(vec![])), Err(Error::EofDuringFrame)));
    assert!(matches!(decoded_length(&Encoded(vec![2, 5])), Err(Error::EofDuringFrame)));
    assert!(matches!(from_slice_to_box(&Encoded(vec![4, 5, 0])), Err(Error::CobsDecodeFailed)));
}
