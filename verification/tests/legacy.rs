use emboss::EmbossError;
use emboss::extract_metadata;

#[test]
fn lib_extract_basic() {
    let data = "key=value\0";
    let metadata = extract_metadata(data.as_bytes()).unwrap();
    let value = metadata.get("key").unwrap();
    assert_eq!(value.as_str(), "value")
}

#[test]
fn extract_with_eq_sign_in_value() {
    let data = "expr=2+2=4\0";
    let metadata = extract_metadata(data.as_bytes()).unwrap();
    let value = metadata.get("expr").unwrap();
    assert_eq!(value.as_str(), "2+2=4")
}

#[test]
fn extract_fail_on_unfinished_ident() {
    let data = "expr\0";
    if let Err(error) = extract_metadata(data.as_bytes()) {
        return assert_eq!(error, EmbossError::UnexpectedValueEnd);
    }

    panic!("expected an error to be returned")
}

#[test]
fn extract_fail_blank_ident() {
    let data = "=foo";
    if let Err(error) = extract_metadata(data.as_bytes()) {
        return assert_eq!(error, EmbossError::MissingIdent);
    }

    panic!("expected an error to be returned")
}

#[test]
fn extract_fail_blank_ident_with_spaces() {
    let data = "  =foo";
    if let Err(error) = extract_metadata(data.as_bytes()) {
        return assert_eq!(error, EmbossError::MissingIdent);
    }

    panic!("expected an error to be returned")
}

#[test]
fn extract_several_records() {
    let data = "VERGEN_RUSTC_CHANNEL=stable\0VERGEN_RUSTC_COMMIT_DATE=2021-05-09\0";
    let metadata = extract_metadata(data.as_bytes()).unwrap();
    assert_eq!(metadata.len(), 2);
    assert_eq!(metadata.get("VERGEN_RUSTC_CHANNEL").unwrap().as_str(), "stable");
    assert_eq!(
        metadata.get("VERGEN_RUSTC_COMMIT_DATE").unwrap().as_str(),
        "2021-05-09"
    );
}

#[test]
fn extract_repeated_ident_last_wins() {
    let data = "key=first\0key=second\0";
    let metadata = extract_metadata(data.as_bytes()).unwrap();
    assert_eq!(metadata.len(), 1);
    assert_eq!(metadata.get("key").unwrap().as_str(), "second");
}

#[test]
fn extract_trailing_incomplete_record_is_dropped() {
    let data = "key=value\0half=way";
    let metadata = extract_metadata(data.as_bytes()).unwrap();
    assert_eq!(metadata.len(), 1);
    assert_eq!(metadata.get("key").unwrap().as_str(), "value");
}

#[test]
fn extract_invalid_utf8_value_is_replaced() {
    let data: &[u8] = &[b'k', b'=', b'a', 0xFF, b'b', 0];
    let metadata = extract_metadata(data).unwrap();
    assert_eq!(metadata.get("k").unwrap().as_str(), "a\u{FFFD}b");
}

#[test]
fn extract_empty_buffer_gives_empty_map() {
    let metadata = extract_metadata(b"").unwrap();
    assert!(metadata.is_empty());
}

#[test]
fn legacy_error_descriptions() {
    assert_eq!(
        EmbossError::UnexpectedValueEnd.describe(),
        "Prematurely reached the end of metadata value during extraction"
    );
    assert_eq!(
        EmbossError::MissingIdent.describe(),
        "Metadata identifier is either blank or comprised entirely of whitespace"
    );
}
