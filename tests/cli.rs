use rust_polyglot::cli::ValidationResult;
use rust_polyglot::PolyglotError;

#[test]
fn test_validation_result_display() {
    assert!(matches!(ValidationResult::Valid, ValidationResult::Valid));

    let invalid_png = ValidationResult::InvalidPng("test".to_string());
    assert!(matches!(invalid_png, ValidationResult::InvalidPng(_)));
}

#[test]
fn error_messages_name_the_failure() {
    assert_eq!(
        PolyglotError::PngParse("Invalid PNG signature".to_string()).message(),
        "PNG parse error: Invalid PNG signature"
    );
    assert_eq!(PolyglotError::NoIdatChunk.message(), "No IDAT chunk found");
    assert_eq!(
        PolyglotError::CrcMismatch("IDAT".to_string()).message(),
        "CRC mismatch in chunk IDAT"
    );
}

#[test]
fn crc_check_names_the_chunk_type() {
    assert!(PolyglotError::validate_png_chunk(b"IHDR", 5, 5).is_ok());
    match PolyglotError::validate_png_chunk(b"IHDR", 5, 6) {
        Err(PolyglotError::CrcMismatch(name)) => assert_eq!(name, "IHDR"),
        other => panic!("unexpected result: {:?}", other),
    }
}
