use rdma_kv::cli::KeyValueOpt;
use rdma_kv::codec::decode_message;
use rdma_kv::codec::encode_message;
use rdma_kv::codec::encode_op;
use rdma_kv::codec::encode_padded;
use rdma_kv::codec::Message;
use rdma_kv::errors::RdmaError;

fn get(key: &str) -> Message {
    Message::Op(KeyValueOpt::Get { key: key.to_string() })
}

fn put(key: &str, value: &str) -> Message {
    Message::Op(KeyValueOpt::Put { key: key.to_string(), value: value.to_string() })
}

fn del(key: &str) -> Message {
    Message::Op(KeyValueOpt::Delete { key: key.to_string() })
}

#[test]
fn round_trip_get() {
    let m = get("alpha");
    let bytes = encode_message(&m);
    assert_eq!(decode_message(&bytes).unwrap(), m);
}

#[test]
fn round_trip_put() {
    let m = put("alpha", "beta");
    let bytes = encode_message(&m);
    assert_eq!(decode_message(&bytes).unwrap(), m);
}

#[test]
fn round_trip_delete() {
    let m = del("alpha");
    let bytes = encode_message(&m);
    assert_eq!(decode_message(&bytes).unwrap(), m);
}

#[test]
fn round_trip_reply() {
    let m = Message::Reply("a value".to_string());
    let bytes = encode_message(&m);
    assert_eq!(decode_message(&bytes).unwrap(), m);
}

#[test]
fn round_trip_empty_strings() {
    let m = put("", "");
    let bytes = encode_message(&m);
    assert_eq!(decode_message(&bytes).unwrap(), m);
}

#[test]
fn round_trip_through_padding() {
    let m = put("key", "value");
    let padded = encode_padded(&m, 100).unwrap();
    assert_eq!(padded.len(), 100);
    assert_eq!(decode_message(&padded).unwrap(), m);
}

#[test]
fn stripping_padding_before_decode_is_noop() {
    let m = get("key");
    let bare = encode_message(&m);
    let padded = encode_padded(&m, 100).unwrap();
    assert_eq!(decode_message(&bare).unwrap(), decode_message(&padded).unwrap());
}

#[test]
fn round_trip_bytes_needing_escape() {
    // NUL, the escape byte and the separator inside key and value.
    let m = put("a\u{0}b\u{1b}c", "x\u{1f}y\u{0}z");
    let bytes = encode_message(&m);
    assert!(bytes.iter().all(|&b| b != 0), "wire form must be zero-free");
    assert_eq!(decode_message(&bytes).unwrap(), m);
}

#[test]
fn round_trip_multibyte_characters() {
    let m = put("clé", "värde→值");
    let bytes = encode_message(&m);
    assert_eq!(decode_message(&bytes).unwrap(), m);
}

#[test]
fn exact_wire_form_of_get() {
    // Tag 'G' followed by the plain bytes of the key.
    let bytes = encode_op(&KeyValueOpt::Get { key: "ab".to_string() });
    assert_eq!(bytes, vec![0x47, b'a', b'b']);
}

#[test]
fn exact_wire_form_of_put() {
    // Tag 'P', key bytes, the 0x1f separator, value bytes.
    let bytes =
        encode_op(&KeyValueOpt::Put { key: "k".to_string(), value: "v".to_string() });
    assert_eq!(bytes, vec![0x50, b'k', 0x1f, b'v']);
}

#[test]
fn exact_wire_form_of_escapes() {
    // 0x00 -> 1b 30, 0x1b -> 1b 31, 0x1f -> 1b 32.
    let bytes = encode_op(&KeyValueOpt::Get { key: "\u{0}\u{1b}\u{1f}".to_string() });
    assert_eq!(bytes, vec![0x47, 0x1b, 0x30, 0x1b, 0x31, 0x1b, 0x32]);
}

#[test]
fn message_exactly_at_capacity_encodes() {
    let m = get("abcd");
    let len = encode_message(&m).len();
    let padded = encode_padded(&m, len).unwrap();
    assert_eq!(padded.len(), len);
    assert_eq!(decode_message(&padded).unwrap(), m);
}

#[test]
fn message_one_byte_over_capacity_fails() {
    let m = get("abcd");
    let len = encode_message(&m).len();
    assert_eq!(encode_padded(&m, len - 1), Err(RdmaError::EncodingError));
}

#[test]
fn decode_rejects_empty_buffer() {
    assert_eq!(decode_message(&[]), Err(RdmaError::EncodingError));
    assert_eq!(decode_message(&[0u8; 100]), Err(RdmaError::EncodingError));
}

#[test]
fn decode_rejects_unknown_tag() {
    assert_eq!(decode_message(&[0x58, b'a']), Err(RdmaError::EncodingError));
}

#[test]
fn decode_rejects_put_without_separator() {
    assert_eq!(decode_message(&[0x50, b'k', b'v']), Err(RdmaError::EncodingError));
}

#[test]
fn decode_rejects_dangling_escape() {
    assert_eq!(decode_message(&[0x47, b'a', 0x1b]), Err(RdmaError::EncodingError));
    assert_eq!(decode_message(&[0x47, 0x1b, 0x77]), Err(RdmaError::EncodingError));
}

#[test]
fn decode_rejects_invalid_utf8() {
    assert_eq!(decode_message(&[0x47, 0xff, 0xfe]), Err(RdmaError::EncodingError));
}

#[test]
fn decode_undoes_escaping() {
    // The decoded key differs from the raw wire bytes: escape pairs collapse.
    let wire = vec![0x47, 0x1b, 0x30, b'x'];
    match decode_message(&wire).unwrap() {
        Message::Op(KeyValueOpt::Get { key }) => {
            assert_eq!(key, "\u{0}x");
        },
        other => panic!("decoded {:?}", other),
    }
}
