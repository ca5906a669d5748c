use framed::bytes;
use framed::typed::{max_encoded_len, max_serialize_buf_len};

#[allow(dead_code)]
struct Test {
    i8: i8,
    i16: i16,
    i32: i32,
    i64: i64,

    u8: u8,
    u16: u16,
    u32: u32,
    u64: u64,

    some: Option<u8>,
    none: Option<u8>,

    a: [u8; 3],
}

#[test]
fn serialize_buf_len() {
    assert_eq!(max_serialize_buf_len::<Test>(), 44);
    assert_eq!(max_serialize_buf_len::<u8>(), 5);
    assert_eq!(max_serialize_buf_len::<u16>(), 6);
    assert_eq!(max_serialize_buf_len::<u32>(), 8);
    assert_eq!(max_serialize_buf_len::<u64>(), 12);
}

#[test]
fn encoded_len() {
    assert_eq!(max_encoded_len::<Test>(), 48);
    assert_eq!(max_encoded_len::<u8>(), 9);
}

#[test]
fn typed_lens_follow_bytes_lens() {
    assert_eq!(max_encoded_len::<[u8; 300]>(), bytes::max_encoded_len(max_serialize_buf_len::<[u8; 300]>()));
    assert_eq!(max_serialize_buf_len::<[u8; 300]>(), bytes::max_encoded_len(300));
}
