use yomitan::codec::{decode_binary, decode_payload, encode, encode_payload, Payload};

fn sample_payload() -> Payload {
    Payload {
        popularity: -42,
        content: vec!["\"cat\"".to_string(), "{\"k\":[1,2]}".to_string()],
        definition_tags: Some("n common".to_string()),
        term_tags: None,
        reading: Some("ねこ".to_string()),
        headword: Some("猫".to_string()),
    }
}

fn payload_eq(a: &Payload, b: &Payload) {
    assert_eq!(a.popularity, b.popularity);
    assert_eq!(a.content, b.content);
    assert_eq!(a.definition_tags, b.definition_tags);
    assert_eq!(a.term_tags, b.term_tags);
    assert_eq!(a.reading, b.reading);
    assert_eq!(a.headword, b.headword);
}

#[test]
fn round_trip_uncompressed() {
    let p = sample_payload();
    let bytes = encode_payload(&p, false);
    assert_eq!(&bytes[0..4], b"MGB1");
    let back = decode_payload(&bytes).expect("decodes");
    payload_eq(&p, &back);
}

#[test]
fn round_trip_compressed() {
    let p = sample_payload();
    let bytes = encode_payload(&p, true);
    let back = decode_payload(&bytes).expect("decodes");
    payload_eq(&p, &back);
}

#[test]
fn encode_emits_exact_wire_layout() {
    let p = Payload {
        popularity: 5,
        content: vec!["\"a\"".to_string()],
        definition_tags: None,
        term_tags: None,
        reading: None,
        headword: None,
    };
    let bytes = encode(&p);
    let mut expected: Vec<u8> = Vec::new();
    expected.extend_from_slice(b"MGB1");
    expected.extend_from_slice(&5u64.to_le_bytes());
    expected.extend_from_slice(&1u32.to_le_bytes());
    expected.extend_from_slice(&3u32.to_le_bytes());
    expected.extend_from_slice(b"\"a\"");
    for _ in 0..4 {
        expected.extend_from_slice(&0xFFFF_FFFFu32.to_le_bytes());
    }
    assert_eq!(bytes, expected);
}

#[test]
fn decode_rejects_truncated_lengths() {
    let p = sample_payload();
    let mut bytes = encode(&p);
    // Declare a longer first item than the buffer holds.
    let len = bytes.len();
    bytes.truncate(len - 1);
    assert!(decode_binary(&bytes).is_none());
}

#[test]
fn decode_rejects_missing_magic() {
    assert!(decode_binary(b"XXXX0123456789").is_none());
    assert!(decode_binary(b"").is_none());
}

#[test]
fn decode_legacy_json_payload() {
    let legacy = r#"{"popularity":7,"content_raw":["\"dog\"","{\"x\":1}"],"definition_tags_raw":"n","reading":"いぬ","headword":"犬"}"#;
    let p = decode_payload(legacy.as_bytes()).expect("legacy decodes");
    assert_eq!(p.popularity, 7);
    assert_eq!(p.content, vec!["\"dog\"".to_string(), "{\"x\":1}".to_string()]);
    assert_eq!(p.definition_tags, Some("n".to_string()));
    assert_eq!(p.term_tags, None);
    assert_eq!(p.reading, Some("いぬ".to_string()));
    assert_eq!(p.headword, Some("犬".to_string()));
}

#[test]
fn decode_legacy_json_with_legacy_magic() {
    let mut bytes = b"MGC1".to_vec();
    bytes.extend_from_slice(br#"{"popularity":3,"content_raw":["\"x\""]}"#);
    let p = decode_payload(&bytes).expect("legacy magic decodes");
    assert_eq!(p.popularity, 3);
    assert_eq!(p.content, vec!["\"x\"".to_string()]);
}

#[test]
fn decode_skip_is_not_an_error() {
    // Not Snappy, no magic, not a JSON object: the codec skips.
    assert!(decode_payload(b"not json at all").is_none());
    // A JSON document that is not an object also skips.
    assert!(decode_payload(b"[1,2,3]").is_none());
}

#[test]
fn compressed_bytes_differ_and_restore() {
    let p = sample_payload();
    let raw = encode_payload(&p, false);
    let compressed = encode_payload(&p, true);
    assert_ne!(raw, compressed);
    // The compressed form is real Snappy data.
    let restored = snap::raw::Decoder::new()
        .decompress_vec(&compressed)
        .expect("valid snappy block");
    assert_eq!(restored, raw);
}
