use ghostline::frame::Frame;
use sha2::Digest;

#[test]
fn roundtrip_msgpack() {
    let frame = Frame::new(
        b"request data".to_vec(),
        b"response data".to_vec(),
        42,
        1700000000000,
    );
    let packed = frame.to_msgpack();
    let unpacked = Frame::from_msgpack(&packed).unwrap();
    assert_eq!(frame.request_hash, unpacked.request_hash);
    assert_eq!(frame.request_bytes, unpacked.request_bytes);
    assert_eq!(frame.response_bytes, unpacked.response_bytes);
    assert_eq!(frame.latency_ms, unpacked.latency_ms);
    assert_eq!(frame.timestamp, unpacked.timestamp);
}

#[test]
fn deterministic_hash() {
    let data = b"same input";
    let h1 = Frame::hash_request(data);
    let h2 = Frame::hash_request(data);
    assert_eq!(h1, h2);

    let h3 = Frame::hash_request(b"different input");
    assert_ne!(h1, h3);
}

#[test]
fn hash_matches_direct_sha256() {
    let mut hasher = sha2::Sha256::new();
    hasher.update(b"some request body");
    let expected: Vec<u8> = hasher.finalize().to_vec();
    assert_eq!(Frame::hash_request(b"some request body"), expected);
}

#[test]
fn frame_new_fills_fields() {
    let frame = Frame::new(b"abc".to_vec(), b"xyz".to_vec(), 7, 9);
    assert_eq!(frame.request_bytes, b"abc".to_vec());
    assert_eq!(frame.response_bytes, b"xyz".to_vec());
    assert_eq!(frame.latency_ms, 7);
    assert_eq!(frame.timestamp, 9);
    assert_eq!(frame.request_hash.len(), 32);
    assert_eq!(frame.request_hash, Frame::hash_request(b"abc"));
}

#[test]
fn decode_rejects_garbage() {
    assert!(Frame::from_msgpack(b"not messagepack at all").is_err());
    assert!(Frame::from_msgpack(b"").is_err());
    // A valid encoding with a trailing byte is rejected too.
    let frame = Frame::new(b"a".to_vec(), b"b".to_vec(), 1, 2);
    let mut packed = frame.to_msgpack();
    packed.push(0);
    assert!(Frame::from_msgpack(&packed).is_err());
}

#[test]
fn encode_is_binary_msgpack() {
    let frame = Frame::new(b"req".to_vec(), b"res".to_vec(), 300, 0x1_0000_0000);
    let packed = frame.to_msgpack();
    // fixarray of five elements, then bin8 with the 32-byte hash.
    assert_eq!(packed[0], 0x95);
    assert_eq!(packed[1], 0xc4);
    assert_eq!(packed[2], 32);
    assert_eq!(&packed[3..35], frame.request_hash.as_slice());
}

#[test]
fn hash_of_empty_input_is_the_known_digest() {
    let h = Frame::hash_request(b"");
    assert_eq!(
        hex::encode(&h),
        "e3b0c44298fc1c149afbf4c8996fb92427ae41e4649b934ca495991b7852b855"
    );
}

#[test]
fn decode_accepts_wider_integer_forms() {
    // A hand-built encoding that uses uint64 for a small latency value:
    // parsers accept every well-formed MessagePack form, not only the
    // shortest one the encoder emits.
    let mut bytes = vec![0x95u8, 0xc4, 32];
    bytes.extend_from_slice(&[0u8; 32]);
    bytes.extend_from_slice(&[0xc4, 1, b'a']);
    bytes.extend_from_slice(&[0xc4, 1, b'b']);
    bytes.push(0xcf);
    bytes.extend_from_slice(&5u64.to_be_bytes());
    bytes.push(0x07);
    let frame = Frame::from_msgpack(&bytes).unwrap();
    assert_eq!(frame.request_hash, vec![0u8; 32]);
    assert_eq!(frame.request_bytes, b"a".to_vec());
    assert_eq!(frame.response_bytes, b"b".to_vec());
    assert_eq!(frame.latency_ms, 5);
    assert_eq!(frame.timestamp, 7);
}
