use adler32_checksum_rs::errors::RError;

#[test]
fn error_carries_its_message() {
    let e = RError::new("checksum failed");
    assert_eq!(e.description(), "checksum failed");
    assert_eq!(e.message(), String::from("checksum failed"));
}

#[test]
fn error_with_an_empty_message() {
    let e = RError::new("");
    assert_eq!(e.description(), "");
    assert_eq!(e.message(), String::new());
}

#[test]
fn error_keeps_text_beyond_ascii() {
    let e = RError::new("échec: \u{2211} \u{2260} 0");
    assert_eq!(e.description(), "échec: \u{2211} \u{2260} 0");
}

#[test]
fn error_is_debug() {
    let e = RError::new("boom");
    assert!(format!("{:?}", e).contains("boom"));
}
