//! The binary value codec: deterministic re-encoding, exact byte
//! layouts, and acceptance of foreign encodings.

use c2pa::cbor::{encode_to_vec, decode_whole};
use c2pa::value::Value;
use c2pa::assertion::data_hash;

fn text(s: &str) -> Value {
    Value::Text(s.to_string())
}

#[test]
fn test_scalar_byte_layouts() {
    assert_eq!(encode_to_vec(&Value::UInt(0)), vec![0x00]);
    assert_eq!(encode_to_vec(&Value::UInt(23)), vec![0x17]);
    assert_eq!(encode_to_vec(&Value::UInt(24)), vec![0x18, 24]);
    assert_eq!(encode_to_vec(&Value::UInt(255)), vec![0x18, 0xff]);
    assert_eq!(encode_to_vec(&Value::UInt(256)), vec![0x19, 0x01, 0x00]);
    assert_eq!(encode_to_vec(&Value::UInt(65536)), vec![0x1a, 0x00, 0x01, 0x00, 0x00]);
    assert_eq!(encode_to_vec(&Value::Neg(0)), vec![0x20]);
    assert_eq!(encode_to_vec(&Value::Bool(false)), vec![0xf4]);
    assert_eq!(encode_to_vec(&Value::Bool(true)), vec![0xf5]);
    assert_eq!(encode_to_vec(&Value::Null), vec![0xf6]);
    assert_eq!(encode_to_vec(&text("a")), vec![0x61, 0x61]);
    assert_eq!(encode_to_vec(&Value::Bytes(vec![1, 2])), vec![0x42, 1, 2]);
    assert_eq!(
        encode_to_vec(&Value::Array(vec![Value::UInt(1), Value::UInt(2)])),
        vec![0x82, 0x01, 0x02]
    );
}

#[test]
fn test_value_round_trip() {
    let v = Value::Dict(vec![
        ("a".to_string(), Value::Array(vec![Value::UInt(1), Value::Neg(9), Value::Null])),
        ("b".to_string(), text("nested")),
        (
            "c".to_string(),
            Value::Dict(vec![("inner".to_string(), Value::Bytes(vec![0, 255]))]),
        ),
        ("d".to_string(), Value::Bool(true)),
    ]);
    let bytes = encode_to_vec(&v);
    let back = decode_whole(&bytes).expect("decode");
    assert_eq!(back, v);
    // deterministic re-encoding: identical bytes
    assert_eq!(encode_to_vec(&back), bytes);
}

#[test]
fn test_non_ascii_text_round_trip() {
    let v = text("Grüße, 世界");
    let bytes = encode_to_vec(&v);
    let back = decode_whole(&bytes).expect("decode");
    assert_eq!(back, v);
}

#[test]
fn test_indefinite_length_containers_accepted() {
    // a foreign producer may write indefinite-length arrays and maps
    let bytes = vec![0x9f, 0x01, 0x02, 0xff];
    let back = decode_whole(&bytes).expect("decode");
    assert_eq!(back, Value::Array(vec![Value::UInt(1), Value::UInt(2)]));

    let bytes = vec![0xbf, 0x61, 0x61, 0x01, 0xff];
    let back = decode_whole(&bytes).expect("decode");
    assert_eq!(back, Value::Dict(vec![("a".to_string(), Value::UInt(1))]));
}

#[test]
fn test_rejects_what_it_cannot_reproduce() {
    // a non-shortest length form
    assert!(decode_whole(&vec![0x18, 0x05]).is_err());
    // a tag
    assert!(decode_whole(&vec![0xc0, 0x00]).is_err());
    // a floating-point value
    assert!(decode_whole(&vec![0xfb, 0, 0, 0, 0, 0, 0, 0, 0]).is_err());
    // trailing bytes
    assert!(decode_whole(&vec![0x01, 0x02]).is_err());
    // truncated input
    assert!(decode_whole(&vec![0x62, 0x61]).is_err());
    // a non-text map key
    assert!(decode_whole(&vec![0xa1, 0x01, 0x02]).is_err());
}

#[test]
fn test_binding_hash_is_deterministic_and_sensitive() {
    let a = data_hash(&b"some payload".to_vec());
    let b = data_hash(&b"some payload".to_vec());
    assert_eq!(a, b);
    assert_eq!(a.len(), 8);
    let c = data_hash(&b"some payloae".to_vec());
    assert_ne!(a, c);
    assert_ne!(data_hash(&vec![]), data_hash(&vec![0]));
}
