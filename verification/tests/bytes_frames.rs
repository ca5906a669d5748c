use framed::bytes::{
    decode_to_box, decode_to_slice, encode_to_box, encode_to_slice, max_decoded_len,
    max_encoded_len, Config,
};
use framed::checksum::Checksum;
use framed::{Error, FRAME_END_SYMBOL};

const PAYLOAD: [u8; PAYLOAD_LEN] = [0, 1, 2, 3];
const PAYLOAD_LEN: usize = 4;

fn assert_payload_eq(encoded: &[u8], payload: &[u8]) {
    let mut decoded_buf = [0u8; 100];
    let len = decode_to_slice(encoded, &mut decoded_buf).unwrap();
    let decoded = &decoded_buf[0..len];
    assert_eq!(decoded, payload);
}

#[test]
fn max_encoded_len_ok() {
    assert_eq!(max_encoded_len(0), 4);
    assert_eq!(max_encoded_len(1), 5);
    assert_eq!(max_encoded_len(2), 6);
    assert_eq!(max_encoded_len(254), 259);
    assert_eq!(max_encoded_len(255), 260);
}

#[test]
fn max_decoded_len_ok() {
    assert_eq!(max_decoded_len(0), 0);
    assert_eq!(max_decoded_len(1), 1);
    assert_eq!(max_decoded_len(2), 2);
    assert_eq!(max_decoded_len(3), 3);
    assert_eq!(max_decoded_len(255), 255);
}

#[test]
fn encode_to_slice_ok_dynamic_dest() {
    let mut encoded_buf = vec![0u8; max_encoded_len(PAYLOAD.len())];
    let len = encode_to_slice(&PAYLOAD, &mut *encoded_buf).unwrap();
    let encoded = &encoded_buf[0..len];

    assert_payload_eq(encoded, &PAYLOAD);
}

#[test]
fn encode_to_slice_ok_static_dest() {
    let mut encoded_buf = [0u8; 8];
    assert_eq!(max_encoded_len(PAYLOAD_LEN), 8);
    let len = encode_to_slice(&PAYLOAD, &mut encoded_buf).unwrap();
    let encoded = &encoded_buf[0..len];

    assert_payload_eq(encoded, &PAYLOAD);
}

#[test]
fn decode_to_slice_ok_dynamic_dest() {
    let encoded = encode_to_box(&PAYLOAD).unwrap();
    let mut decoded_buf = vec![0u8; max_decoded_len(encoded.len())];
    let len = decode_to_slice(&*encoded, &mut decoded_buf).unwrap();
    let decoded = &decoded_buf[0..len];

    assert_eq!(&PAYLOAD, decoded);
}

#[test]
fn decode_to_box_ok() {
    let encoded = encode_to_box(&PAYLOAD).unwrap();
    let decoded = decode_to_box(&*encoded).unwrap();

    assert_eq!(&PAYLOAD, &*decoded);
}

#[test]
fn encoded_frame_exact_bytes() {
    // CRC-16/CDMA2000 of [0, 1, 2, 3] is 0x1f4f, most significant byte
    // first; the COBS encoding of [0, 1, 2, 3, 0x1f, 0x4f] is
    // [1, 6, 1, 2, 3, 0x1f, 0x4f].
    let encoded = encode_to_box(&PAYLOAD).unwrap();
    assert_eq!(&*encoded, &[1, 6, 1, 2, 3, 0x1f, 0x4f, 0][..]);
}

#[test]
fn checksum_of_check_string() {
    // The check value of CRC-16/CDMA2000 over "123456789" is 0x4c06.
    let encoded = encode_to_box(b"123456789").unwrap();
    let n = encoded.len();
    assert_eq!(&encoded[n - 3..], &[0x4c, 0x06, FRAME_END_SYMBOL][..]);
    assert_eq!(&encoded[..n - 3], &[12, b'1', b'2', b'3', b'4', b'5', b'6', b'7', b'8', b'9'][..]);
}

#[test]
fn empty_payload_roundtrip() {
    let encoded = encode_to_box(&[]).unwrap();
    assert_eq!(&*encoded, &[3, 0xff, 0xff, 0][..]);
    let decoded = decode_to_box(&*encoded).unwrap();
    assert_eq!(decoded.len(), 0);
}

#[test]
fn long_payload_roundtrip() {
    let payload: Vec<u8> = (0..600u32).map(|i| (i % 251) as u8 + 1).collect();
    let encoded = encode_to_box(&payload).unwrap();
    assert!(encoded.len() <= max_encoded_len(payload.len()));
    assert_eq!(encoded[encoded.len() - 1], FRAME_END_SYMBOL);
    assert!(encoded[..encoded.len() - 1].iter().all(|b| *b != 0));
    let decoded = decode_to_box(&*encoded).unwrap();
    assert_eq!(&*decoded, &payload[..]);
}

#[test]
fn decode_empty_is_eof_before_frame() {
    assert!(matches!(decode_to_box(&[]), Err(Error::EofBeforeFrame)));
    let mut buf = [0u8; 4];
    assert!(matches!(decode_to_slice(&[], &mut buf), Err(Error::EofBeforeFrame)));
}

#[test]
fn decode_short_is_eof_during_frame() {
    assert!(matches!(decode_to_box(&[0]), Err(Error::EofDuringFrame)));
    assert!(matches!(decode_to_box(&[1, 0]), Err(Error::EofDuringFrame)));
}

#[test]
fn early_errors_leave_dest_alone() {
    let mut dest = [7u8; 4];
    assert!(matches!(decode_to_slice(&[], &mut dest), Err(Error::EofBeforeFrame)));
    assert!(matches!(decode_to_slice(&[0, 0], &mut dest), Err(Error::EofDuringFrame)));
    assert!(matches!(decode_to_slice(&[1, 2, 3, 4, 5], &mut dest), Err(Error::EofDuringFrame)));
    assert_eq!(dest, [7u8; 4]);
    let mut empty: [u8; 0] = [];
    assert!(matches!(decode_to_slice(&[9, 9, 9], &mut empty), Err(Error::EofDuringFrame)));
}

#[test]
fn decode_short_body_is_encoded_frame_too_short() {
    // The body [2, 7] decodes to the single byte [7], shorter than a checksum.
    assert!(matches!(decode_to_box(&[2, 7, 0]), Err(Error::EncodedFrameTooShort)));
}

#[test]
fn decode_unterminated_is_eof_during_frame() {
    assert!(matches!(decode_to_box(&[2, 1, 0x12, 0x34]), Err(Error::EofDuringFrame)));
}

#[test]
fn decode_bad_cobs_is_cobs_decode_failed() {
    // A code byte of 5 promises four more bytes, but only one follows.
    assert!(matches!(decode_to_box(&[5, 1, 0xaa, 0xbb, 0]), Err(Error::CobsDecodeFailed)));
}

#[test]
fn decode_bad_checksum_is_checksum_error() {
    let mut encoded = encode_to_box(&PAYLOAD).unwrap().to_vec();
    let n = encoded.len();
    encoded[n - 2] ^= 0x01;
    assert!(matches!(decode_to_box(&encoded), Err(Error::ChecksumError)));
    let mut corrupted = encode_to_box(&PAYLOAD).unwrap().to_vec();
    corrupted[2] = 9;
    assert_eq!(corrupted, vec![1, 6, 9, 2, 3, 0x1f, 0x4f, 0]);
    assert!(matches!(decode_to_box(&corrupted), Err(Error::ChecksumError)));
}

#[test]
fn codec_without_checksum() {
    let mut config = Config::default();
    assert!(matches!(config.checksum(), Checksum::Crc16Cdma2000));
    config.set_checksum(Checksum::NoChecksum);
    let codec = config.to_codec();
    assert_eq!(codec.footer_len(), 1);
    assert_eq!(codec.max_encoded_len(4), 6);
    let encoded = codec.encode_to_box(&PAYLOAD).unwrap();
    assert_eq!(&*encoded, &[1, 4, 1, 2, 3, 0][..]);
    let decoded = codec.decode_to_box(&*encoded).unwrap();
    assert_eq!(&*decoded, &PAYLOAD[..]);
    assert!(matches!(codec.decode_to_box(&[0]), Ok(_)));
    assert!(matches!(codec.decode_to_box(&[]), Err(Error::EofBeforeFrame)));
}

#[test]
fn codec_with_default_checksum_matches_free_functions() {
    let codec = Config::default().to_codec();
    assert_eq!(codec.footer_len(), 3);
    assert_eq!(codec.max_encoded_len(254), max_encoded_len(254));
    let mut dest = [0u8; 20];
    let n = codec.encode_to_slice(&PAYLOAD, &mut dest).unwrap();
    assert_eq!(&dest[..n], &[1, 6, 1, 2, 3, 0x1f, 0x4f, 0][..]);
    assert_eq!(&dest[..n], &*encode_to_box(&PAYLOAD).unwrap());
    let mut out = [0u8; 20];
    let m = codec.decode_to_slice(&dest[..n], &mut out).unwrap();
    assert_eq!(&out[..m], &PAYLOAD[..]);
    assert!(matches!(Checksum::default(), Checksum::Crc16Cdma2000));
}
