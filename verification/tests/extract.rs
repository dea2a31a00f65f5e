use emboss::error::EmbossError;
use emboss::extract::{extract_metadata_into_hashmap, extract_metadata_into_vec};

#[test]
fn extract_extract_basic() {
    let data = b"\x55\xB0\x77\x1A\x01key\0value\0";
    let metadata = extract_metadata_into_hashmap(data).unwrap();
    let value = metadata.get("key").unwrap();
    assert_eq!(*value, "value")
}

#[test]
fn extract_fail_incorrect_magic() {
    let data = b"\x44\xB0\x77\x1A\x01key\0value\0";
    if let Err(error) = extract_metadata_into_hashmap(data) {
        return assert_eq!(error, EmbossError::IncorrectLeadingMagic);
    }

    panic!("expected an error to be returned")
}

#[test]
fn extract_fail_on_empty_data() {
    let data = b"\x55\xB0\x77\x1A\x00";
    if let Err(error) = extract_metadata_into_hashmap(data) {
        return assert_eq!(error, EmbossError::EmptyEmbossing);
    }

    panic!("expected an error to be returned")
}

#[test]
fn extract_fail_invalid_utf8() {
    let data = &[0x55, 0xB0, 0x77, 0x1A, 0x01, 0xB0, 0x55, 0x0, 0x49, 0x0];
    if let Err(error) = extract_metadata_into_hashmap(data) {
        return assert!(matches!(error, EmbossError::InvalidUtf8(_)));
    }

    panic!("expected an error to be returned")
}

#[test]
fn extract_fail_invalid_c_string() {
    let data = b"\x55\xB0\x77\x1A\x01foo\0bar";
    if let Err(error) = extract_metadata_into_hashmap(data) {
        return assert_eq!(error, EmbossError::InvalidEmbossedCString);
    }

    panic!("expected an error to be returned")
}

#[test]
fn extract_two_pairs_in_order() {
    let data = b"\x55\xB0\x77\x1A\x02app-version\0v1.0.0\0build-id\0abc123\0";
    let metadata = extract_metadata_into_vec(data).unwrap();
    assert_eq!(metadata.len(), 2);
    assert_eq!(metadata[0], ("app-version", "v1.0.0"));
    assert_eq!(metadata[1], ("build-id", "abc123"));
}

#[test]
fn extract_duplicate_key_kept_in_vec() {
    let data = b"\x55\xB0\x77\x1A\x02key\0first\0key\0second\0";
    let metadata = extract_metadata_into_vec(data).unwrap();
    assert_eq!(metadata.len(), 2);
    assert_eq!(metadata[0], ("key", "first"));
    assert_eq!(metadata[1], ("key", "second"));
}

#[test]
fn extract_duplicate_key_last_wins_in_hashmap() {
    let data = b"\x55\xB0\x77\x1A\x02key\0first\0key\0second\0";
    let metadata = extract_metadata_into_hashmap(data).unwrap();
    assert_eq!(metadata.len(), 1);
    assert_eq!(*metadata.get("key").unwrap(), "second");
}

#[test]
fn extract_fail_short_buffer() {
    let data = b"\x55\xB0";
    if let Err(error) = extract_metadata_into_vec(data) {
        return assert_eq!(error, EmbossError::IncorrectLeadingMagic);
    }

    panic!("expected an error to be returned")
}

#[test]
fn extract_fail_empty_buffer() {
    let data = b"";
    if let Err(error) = extract_metadata_into_vec(data) {
        return assert_eq!(error, EmbossError::IncorrectLeadingMagic);
    }

    panic!("expected an error to be returned")
}

#[test]
fn extract_fail_empty_even_with_trailing_bytes() {
    let data = b"\x55\xB0\x77\x1A\x00key\0value\0";
    if let Err(error) = extract_metadata_into_vec(data) {
        return assert_eq!(error, EmbossError::EmptyEmbossing);
    }

    panic!("expected an error to be returned")
}

#[test]
fn extract_fail_utf8_does_not_proceed_past_invalid_string() {
    // The invalid segment is followed by a well-formed pair and then an
    // unterminated segment; the UTF-8 failure must win.
    let data = &[
        0x55, 0xB0, 0x77, 0x1A, 0x02, 0xFF, 0x0, b'k', 0x0, b'v', 0x0, b'x', b'y',
    ];
    if let Err(error) = extract_metadata_into_vec(data) {
        return assert!(matches!(error, EmbossError::InvalidUtf8(_)));
    }

    panic!("expected an error to be returned")
}

#[test]
fn extract_non_ascii_pair() {
    let data = b"\x55\xB0\x77\x1A\x01cl\xC3\xA9\0\xE6\x97\xA5\xE6\x9C\xAC\0";
    let metadata = extract_metadata_into_vec(data).unwrap();
    assert_eq!(metadata.len(), 1);
    assert_eq!(metadata[0], ("cl\u{e9}", "\u{65e5}\u{672c}"));
}

#[test]
fn extract_dangling_key_is_dropped() {
    let data = b"\x55\xB0\x77\x1A\x02key\0value\0dangling\0";
    let metadata = extract_metadata_into_vec(data).unwrap();
    assert_eq!(metadata.len(), 1);
    assert_eq!(metadata[0], ("key", "value"));
}

#[test]
fn extract_error_descriptions() {
    assert_eq!(EmbossError::EmptyEmbossing.describe(), "Empty Embossing");
    assert_eq!(
        EmbossError::IncorrectLeadingMagic.describe(),
        "Leading bytes did not correspond to a valid Emboss magic number"
    );
    assert_eq!(
        EmbossError::InvalidEmbossedCString.describe(),
        "No terminating null-byte was found in the embossed string"
    );
}
