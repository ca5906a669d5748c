use framed::bytes::{encode_to_box, Codec, Config, FrameReader, ReadAction, ReadEvent};
use framed::{BoxPayload, Error, Result};

/// Bytes written by a sender and not yet read by a receiver.
struct Stream {
    data: Vec<u8>,
    pos: usize,
}

impl Stream {
    fn new() -> Stream {
        Stream { data: Vec::new(), pos: 0 }
    }

    fn send(&mut self, payload: &[u8]) {
        let encoded = encode_to_box(payload).unwrap();
        self.data.extend_from_slice(&encoded);
    }

    fn next_event(&mut self) -> ReadEvent {
        if self.pos < self.data.len() {
            let b = self.data[self.pos];
            self.pos += 1;
            ReadEvent::Byte(b)
        } else {
            ReadEvent::End
        }
    }
}

fn codec() -> Codec {
    Config::default().to_codec()
}

fn recv(stream: &mut Stream) -> Result<BoxPayload> {
    let mut reader = FrameReader::new(codec());
    loop {
        match reader.step(stream.next_event()) {
            ReadAction::Continue => (),
            ReadAction::Finished(r) => return r,
        }
    }
}

#[test]
fn decode_from_reader_ok() {
    let payload = [0u8, 1, 2, 3];
    let mut stream = Stream::new();
    stream.send(&payload);
    let decoded = recv(&mut stream).unwrap();
    assert_eq!(&*decoded, &payload);
}

#[test]
fn bytes_one_frame() {
    let mut stream = Stream::new();
    let p = [0x00, 0x01, 0x02];
    stream.send(&p);
    let recvd = recv(&mut stream).unwrap();
    assert_eq!(*recvd, p);
}

#[test]
fn bytes_two_frames_sequentially() {
    let mut stream = Stream::new();
    {
        let sent = [0x00, 0x01, 0x02];
        stream.send(&sent);
        let recvd = recv(&mut stream).unwrap();
        assert_eq!(*recvd, sent);
    }

    {
        let sent = [0x10, 0x11, 0x12];
        stream.send(&sent);
        let recvd = recv(&mut stream).unwrap();
        assert_eq!(*recvd, sent);
    }
}

#[test]
fn bytes_two_frames_at_once() {
    let mut stream = Stream::new();
    let s1 = [0x00, 0x01, 0x02];
    let s2 = [0x10, 0x11, 0x12];

    stream.send(&s1);
    stream.send(&s2);

    let r1 = recv(&mut stream).unwrap();
    let r2 = recv(&mut stream).unwrap();

    assert_eq!(*r1, s1);
    assert_eq!(*r2, s2);
}

#[test]
fn bytes_empty_input() {
    let mut stream = Stream::new();
    match recv(&mut stream) {
        Err(Error::EofBeforeFrame) => (),
        e @ _ => panic!("Bad value: {:?}", e),
    }
}

#[test]
fn partial_input() {
    let mut stream = Stream::new();
    stream.data.push(0x01);
    match recv(&mut stream) {
        Err(Error::EofDuringFrame) => (),
        e @ _ => panic!("Bad value: {:?}", e),
    }
}

#[test]
fn reader_continues_until_frame_end() {
    let mut reader = FrameReader::new(codec());
    assert!(matches!(reader.step(ReadEvent::Byte(3)), ReadAction::Continue));
    assert!(matches!(reader.step(ReadEvent::Byte(0xff)), ReadAction::Continue));
    assert!(matches!(reader.step(ReadEvent::Byte(0xff)), ReadAction::Continue));
    match reader.step(ReadEvent::Byte(0)) {
        ReadAction::Finished(Ok(p)) => assert_eq!(p.len(), 0),
        _ => panic!("expected the empty payload"),
    }
    // The reader starts afresh after a frame.
    match reader.step(ReadEvent::End) {
        ReadAction::Finished(Err(Error::EofBeforeFrame)) => (),
        _ => panic!("expected EofBeforeFrame"),
    }
}

#[test]
fn reader_reports_bad_frame_and_recovers() {
    let mut stream = Stream::new();
    stream.data.extend_from_slice(&[7, 7, 7, 0]);
    stream.send(&[5, 6]);
    assert!(matches!(recv(&mut stream), Err(Error::CobsDecodeFailed)));
    let recvd = recv(&mut stream).unwrap();
    assert_eq!(&*recvd, &[5, 6]);
}

#[test]
fn zero_in_checksum_is_stuffed() {
    // CRC-16/CDMA2000 of [230] is 0x0045; its zero byte is COBS-encoded
    // with the payload, so the end symbol is the frame's only zero.
    let encoded = encode_to_box(&[230]).unwrap();
    assert_eq!(&*encoded, &[2, 230, 2, 0x45, 0][..]);
    let mut stream = Stream::new();
    stream.send(&[230]);
    stream.send(&[5, 6]);
    assert_eq!(&*recv(&mut stream).unwrap(), &[230]);
    assert_eq!(&*recv(&mut stream).unwrap(), &[5, 6]);
}

#[test]
fn reader_recovers_after_garbage() {
    let mut stream = Stream::new();
    stream.data.extend_from_slice(&[9, 0, 0x44, 0x12, 0]);
    stream.send(&[0, 1, 2]);
    stream.send(&[0x10, 0x11, 0x12]);
    assert!(recv(&mut stream).is_err());
    assert!(recv(&mut stream).is_err());
    assert_eq!(&*recv(&mut stream).unwrap(), &[0, 1, 2]);
    assert_eq!(&*recv(&mut stream).unwrap(), &[0x10, 0x11, 0x12]);
}
