use emboss::encode::encode_metadata;
use emboss::extract::extract_metadata_into_vec;

#[test]
fn encode_single_pair_exact_bytes() {
    let pairs = vec![("key".to_string(), "value".to_string())];
    let encoded = encode_metadata(&pairs);
    assert_eq!(
        encoded,
        b"\x55\xB0\x77\x1A\x01key\0value\0".to_vec()
    );
}

#[test]
fn encode_then_decode_round_trip() {
    let pairs = vec![
        ("app-version".to_string(), "v1.0.0".to_string()),
        ("build-id".to_string(), "abc123".to_string()),
        ("expr".to_string(), "2+2=4".to_string()),
    ];
    let encoded = encode_metadata(&pairs);
    let decoded = extract_metadata_into_vec(&encoded).unwrap();
    assert_eq!(decoded.len(), pairs.len());
    for (i, (key, value)) in decoded.iter().enumerate() {
        assert_eq!(*key, pairs[i].0.as_str());
        assert_eq!(*value, pairs[i].1.as_str());
    }
}

#[test]
fn encode_then_decode_round_trip_non_ascii() {
    let pairs = vec![
        ("cl\u{e9}".to_string(), "\u{65e5}\u{672c}".to_string()),
        ("empty".to_string(), "".to_string()),
    ];
    let encoded = encode_metadata(&pairs);
    let decoded = extract_metadata_into_vec(&encoded).unwrap();
    assert_eq!(decoded.len(), 2);
    assert_eq!(decoded[0], ("cl\u{e9}", "\u{65e5}\u{672c}"));
    assert_eq!(decoded[1], ("empty", ""));
}

#[test]
fn encode_preserves_duplicate_keys_in_order() {
    let pairs = vec![
        ("key".to_string(), "first".to_string()),
        ("key".to_string(), "second".to_string()),
    ];
    let encoded = encode_metadata(&pairs);
    let decoded = extract_metadata_into_vec(&encoded).unwrap();
    assert_eq!(decoded, vec![("key", "first"), ("key", "second")]);
}

#[test]
fn encode_count_byte_matches_pair_count() {
    let pairs: Vec<(String, String)> = (0..255)
        .map(|i| (format!("k{}", i), format!("v{}", i)))
        .collect();
    let encoded = encode_metadata(&pairs);
    assert_eq!(encoded[4], 255);
    let decoded = extract_metadata_into_vec(&encoded).unwrap();
    assert_eq!(decoded.len(), 255);
}

#[test]
fn default_options() {
    let options = emboss::common::EmbossingOptions::default();
    assert_eq!(options.stored_in, ".emboss.meta");
    assert!(options.export_name.is_none());
    assert_eq!(options.segment, "__DATA");
    assert_eq!(emboss::common::get_default_section_name(), ".emboss.meta");
    assert_eq!(emboss::common::get_default_segment_name(), "__DATA");
    assert_eq!(emboss::DEFAULT_SECTION_NAME, ".emboss.meta");
}
