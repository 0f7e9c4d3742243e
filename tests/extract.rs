use rust_polyglot::cli::ValidationResult;
use rust_polyglot::extract::{
    detect_dominant, extract_archive_from_container, extract_container_from_archive,
    extract_wav_data, extract_zip_from_png_data, find_riff_signature, find_zip64_eocd,
    find_zip_signature, validate_as_png, validate_as_zip, validate_polyglot_data, Dominance,
};
use rust_polyglot::png::parser::parse_png_chunks;
use rust_polyglot::polyglot::{EmbedMethod, PolyglotCreator};
use rust_polyglot::utils::calculate_crc32;
use rust_polyglot::zip::ZipArchive;
use rust_polyglot::PolyglotError;

fn chunk(kind: &[u8; 4], data: &[u8]) -> Vec<u8> {
    let mut out = (data.len() as u32).to_be_bytes().to_vec();
    out.extend_from_slice(kind);
    out.extend_from_slice(data);
    let crc = calculate_crc32(&[kind.as_slice(), data].concat());
    out.extend_from_slice(&crc.to_be_bytes());
    out
}

/// The archive of the original fixture with its directory size and offset
/// corrected: the directory holds one 50-byte entry and starts at 34.
fn create_test_zip() -> Vec<u8> {
    let mut zip = stale_directory_zip();
    let n = zip.len();
    zip[n - 10..n - 6].copy_from_slice(&0x32u32.to_le_bytes());
    zip[n - 6..n - 2].copy_from_slice(&0x22u32.to_le_bytes());
    zip
}

/// An archive whose trailer declares its directory at 26 with size 22,
/// while the directory entry actually starts at 34.
fn stale_directory_zip() -> Vec<u8> {
    let mut zip = vec![0x50, 0x4B, 0x03, 0x04];
    zip.extend_from_slice(&vec![0x0A, 0x00]);
    zip.extend_from_slice(&vec![0x00, 0x00]);
    zip.extend_from_slice(&vec![0x00, 0x00]);
    zip.extend_from_slice(&vec![0x00, 0x00, 0x00, 0x00]);
    zip.extend_from_slice(&vec![0x00, 0x00, 0x00, 0x00]);
    zip.extend_from_slice(&vec![0x00, 0x00, 0x00, 0x00]);
    zip.extend_from_slice(&vec![0x00, 0x00, 0x00, 0x00]);
    zip.extend_from_slice(&vec![0x04, 0x00]);
    zip.extend_from_slice(&vec![0x00, 0x00]);
    zip.extend_from_slice(b"test");
    zip.extend_from_slice(&vec![0x50, 0x4B, 0x01, 0x02]);
    zip.extend_from_slice(&vec![0x0A, 0x00]);
    zip.extend_from_slice(&vec![0x0A, 0x00]);
    zip.extend_from_slice(&vec![0x00, 0x00]);
    zip.extend_from_slice(&vec![0x00, 0x00]);
    zip.extend_from_slice(&vec![0x00, 0x00, 0x00, 0x00]);
    zip.extend_from_slice(&vec![0x00, 0x00, 0x00, 0x00]);
    zip.extend_from_slice(&vec![0x00, 0x00, 0x00, 0x00]);
    zip.extend_from_slice(&vec![0x00, 0x00, 0x00, 0x00]);
    zip.extend_from_slice(&vec![0x04, 0x00]);
    zip.extend_from_slice(&vec![0x00, 0x00]);
    zip.extend_from_slice(&vec![0x00, 0x00]);
    zip.extend_from_slice(&vec![0x00, 0x00]);
    zip.extend_from_slice(&vec![0x00, 0x00]);
    zip.extend_from_slice(&vec![0x00, 0x00, 0x00, 0x00]);
    zip.extend_from_slice(&vec![0x00, 0x00, 0x00, 0x00]);
    zip.extend_from_slice(b"test");
    zip.extend_from_slice(&vec![0x50, 0x4B, 0x05, 0x06]);
    zip.extend_from_slice(&vec![0x00, 0x00]);
    zip.extend_from_slice(&vec![0x00, 0x00]);
    zip.extend_from_slice(&vec![0x01, 0x00]);
    zip.extend_from_slice(&vec![0x01, 0x00]);
    zip.extend_from_slice(&vec![0x16, 0x00, 0x00, 0x00]);
    zip.extend_from_slice(&vec![0x1A, 0x00, 0x00, 0x00]);
    zip.extend_from_slice(&vec![0x00, 0x00]);
    zip
}

fn create_test_polyglot() -> Vec<u8> {
    let mut png = vec![0x89, 0x50, 0x4E, 0x47, 0x0D, 0x0A, 0x1A, 0x0A];
    let ihdr_data = [0x00, 0x00, 0x00, 0x01, 0x00, 0x00, 0x00, 0x01, 0x08, 0x02, 0x00, 0x00, 0x00];
    png.extend_from_slice(&chunk(b"IHDR", &ihdr_data));
    let mut idat_data = vec![0x78, 0x9C, 0xED, 0xC1, 0x01, 0x01, 0x00, 0x00, 0x00, 0x80, 0x90, 0xFE, 0x37, 0x10];
    idat_data.extend_from_slice(&create_test_zip());
    png.extend_from_slice(&chunk(b"IDAT", &idat_data));
    png.extend_from_slice(&chunk(b"IEND", &[]));
    png
}

/// A minimal image: signature, header, one image-data chunk, terminal chunk.
fn minimal_png() -> Vec<u8> {
    let mut png = vec![0x89, 0x50, 0x4E, 0x47, 0x0D, 0x0A, 0x1A, 0x0A];
    png.extend_from_slice(&chunk(b"IHDR", &[0, 0, 0, 1, 0, 0, 0, 1, 8, 2, 0, 0, 0]));
    png.extend_from_slice(&chunk(b"IDAT", &[0x78, 0x9C, 0x63, 0x60, 0x00, 0x00, 0x00, 0x04, 0x00, 0x01]));
    png.extend_from_slice(&chunk(b"IEND", &[]));
    png
}

/// A minimal archive with one zero-length entry and consistent offsets.
fn minimal_zip() -> Vec<u8> {
    let mut zip = vec![0x50, 0x4B, 0x03, 0x04, 0x0A, 0, 0, 0, 0, 0, 0, 0, 0, 0];
    zip.extend_from_slice(&[0u8; 12]);
    zip.extend_from_slice(&[4, 0, 0, 0]);
    zip.extend_from_slice(b"test");
    zip.extend_from_slice(&[0x50, 0x4B, 0x01, 0x02, 0x0A, 0, 0x0A, 0, 0, 0, 0, 0, 0, 0, 0, 0]);
    zip.extend_from_slice(&[0u8; 12]);
    zip.extend_from_slice(&[4, 0, 0, 0, 0, 0, 0, 0, 0, 0, 0, 0, 0, 0]);
    zip.extend_from_slice(&0u32.to_le_bytes());
    zip.extend_from_slice(b"test");
    zip.extend_from_slice(&[0x50, 0x4B, 0x05, 0x06, 0, 0, 0, 0, 1, 0, 1, 0]);
    zip.extend_from_slice(&50u32.to_le_bytes());
    zip.extend_from_slice(&34u32.to_le_bytes());
    zip.extend_from_slice(&[0, 0]);
    zip
}

fn text_polyglot(png: Vec<u8>, zip: Vec<u8>) -> Vec<u8> {
    let mut creator = PolyglotCreator::from_data(png, zip).unwrap();
    creator.create_polyglot_data(EmbedMethod::Text).unwrap()
}

#[test]
fn test_extract_zip_from_polyglot() {
    let polyglot_data = create_test_polyglot();
    let expected_zip = create_test_zip();

    let mut extracted_data = extract_zip_from_png_data(&polyglot_data).unwrap();
    extracted_data.truncate(expected_zip.len());

    assert_eq!(extracted_data, expected_zip);
}

#[test]
fn test_validate_polyglot() {
    let polyglot_data = create_test_polyglot();
    let result = validate_polyglot_data(&polyglot_data);
    assert_eq!(result, ValidationResult::Valid);

    let invalid_data = vec![0x00, 0x01, 0x02, 0x03];
    let result = validate_polyglot_data(&invalid_data);
    assert!(matches!(result, ValidationResult::InvalidBoth(_, _)));
}

#[test]
fn archive_end_comes_from_its_trailer() {
    let polyglot_data = create_test_polyglot();
    assert_eq!(extract_zip_from_png_data(&polyglot_data).unwrap(), create_test_zip());
}

#[test]
fn end_to_end_metadata_chunk_scenario() {
    let png = minimal_png();
    let zip = minimal_zip();
    assert!(ZipArchive::from_data(zip.clone()).is_ok());
    let out = text_polyglot(png.clone(), zip.clone());
    let original = parse_png_chunks(&png).unwrap();
    let parsed = parse_png_chunks(&out).unwrap();
    assert_eq!(parsed.chunks.len(), original.chunks.len() + 1);
    let extra = &parsed.chunks[parsed.chunks.len() - 2];
    assert_eq!(&extra.chunk_type, b"tEXt");
    assert_eq!(extra.data, zip);
    assert_eq!(extract_zip_from_png_data(&out).unwrap(), zip);
    assert_eq!(extract_archive_from_container(&out).unwrap(), zip);
    assert_eq!(validate_polyglot_data(&out), ValidationResult::Valid);
}

#[test]
fn round_trip_with_arbitrary_archive_bytes() {
    let png = minimal_png();
    let archive = minimal_zip();
    let out = text_polyglot(png, archive.clone());
    // Any bytes wrapped in the text chunk come back verbatim.
    let mut file = rust_polyglot::png::PngFile::from_data(minimal_png()).unwrap();
    file.add_zip_text_chunk(b"PK\x03\x04 but no directory").unwrap();
    assert_eq!(
        extract_zip_from_png_data(&file.raw_data).unwrap(),
        b"PK\x03\x04 but no directory".to_vec()
    );
    assert_eq!(extract_zip_from_png_data(&out).unwrap(), archive);
}

#[test]
fn dominance_by_leading_signature() {
    let mut png_first = minimal_png();
    png_first.extend_from_slice(&minimal_zip());
    assert_eq!(detect_dominant(&png_first), Dominance::ContainerFirst);
    let mut zip_first = minimal_zip();
    zip_first.extend_from_slice(&minimal_png());
    assert_eq!(detect_dominant(&zip_first), Dominance::ArchiveFirst);
    assert_eq!(detect_dominant(&[0x89, 0x50]), Dominance::ContainerFirst);
}

#[test]
fn corrupt_outer_signature_only() {
    let mut out = text_polyglot(minimal_png(), minimal_zip());
    out[1] = 0x00;
    match validate_polyglot_data(&out) {
        ValidationResult::InvalidPng(reason) => assert!(reason.contains("signature")),
        other => panic!("unexpected result: {:?}", other),
    }
    assert_eq!(extract_zip_from_png_data(&out).unwrap(), minimal_zip());
}

#[test]
fn corrupt_directory_entry_offset_only() {
    let mut zip = minimal_zip();
    zip[76] = 7;
    let out = text_polyglot(minimal_png(), zip);
    match validate_polyglot_data(&out) {
        ValidationResult::InvalidZip(reason) => assert!(reason.starts_with("ZIP parse error")),
        other => panic!("unexpected result: {:?}", other),
    }
}

#[test]
fn corrupt_both_interpretations() {
    let mut zip = minimal_zip();
    zip[76] = 7;
    let mut out = text_polyglot(minimal_png(), zip);
    out[1] = 0x00;
    match validate_polyglot_data(&out) {
        ValidationResult::InvalidBoth(png_reason, zip_reason) => assert_ne!(png_reason, zip_reason),
        other => panic!("unexpected result: {:?}", other),
    }
}

#[test]
fn extraction_errors() {
    let png = minimal_png();
    assert!(matches!(extract_zip_from_png_data(&png), Err(PolyglotError::ValidationFailed(_))));
    assert!(matches!(extract_wav_data(&[1, 2, 3]), Err(PolyglotError::ValidationFailed(_))));
    assert!(matches!(extract_wav_data(&png), Err(PolyglotError::ValidationFailed(_))));
    assert!(matches!(
        extract_container_from_archive(&minimal_zip()),
        Err(PolyglotError::ValidationFailed(_))
    ));
}

#[test]
fn signature_searches() {
    let data = b"xxPK\x03\x04RIFFPK\x06\x06";
    assert_eq!(find_zip_signature(data, 0), Some(2));
    assert_eq!(find_zip_signature(data, 3), None);
    assert_eq!(find_riff_signature(data, 0), Some(6));
    assert_eq!(find_zip64_eocd(data), Some(10));
}

#[test]
fn single_format_checks() {
    assert!(validate_as_png(&minimal_png()).is_ok());
    assert!(matches!(validate_as_png(&minimal_zip()), Err(PolyglotError::ValidationFailed(_))));
    assert!(validate_as_zip(&minimal_zip()).is_ok());
    assert!(matches!(validate_as_zip(&minimal_png()), Err(PolyglotError::ValidationFailed(_))));
}

#[test]
fn wav_payload_bounded_by_declared_size() {
    let mut data = minimal_png();
    data.extend_from_slice(b"RIFF");
    data.extend_from_slice(&4u32.to_le_bytes());
    data.extend_from_slice(b"WAVEtrailing");
    let start = minimal_png().len();
    assert_eq!(extract_wav_data(&data).unwrap(), data[start..start + 12].to_vec());
    data[start + 4] = 200;
    assert!(matches!(extract_wav_data(&data), Err(PolyglotError::ValidationFailed(_))));
}

#[test]
fn stale_directory_offset_is_reported() {
    let mut png = vec![0x89, 0x50, 0x4E, 0x47, 0x0D, 0x0A, 0x1A, 0x0A];
    png.extend_from_slice(&chunk(b"IHDR", &[0, 0, 0, 1, 0, 0, 0, 1, 8, 2, 0, 0, 0]));
    let mut idat_data = vec![0x78, 0x9C, 0xED, 0xC1, 0x01, 0x01, 0x00, 0x00, 0x00, 0x80, 0x90, 0xFE, 0x37, 0x10];
    idat_data.extend_from_slice(&stale_directory_zip());
    png.extend_from_slice(&chunk(b"IDAT", &idat_data));
    png.extend_from_slice(&chunk(b"IEND", &[]));
    assert!(matches!(validate_polyglot_data(&png), ValidationResult::InvalidZip(_)));
    assert!(matches!(validate_as_zip(&stale_directory_zip()), Err(PolyglotError::ZipParse(_))));
}

#[test]
fn round_trip_takes_the_newest_wrapping_chunk() {
    let first = text_polyglot(minimal_png(), minimal_zip());
    let mut second_zip = minimal_zip();
    second_zip[10] = 0x21;
    let out = text_polyglot(first, second_zip.clone());
    assert_eq!(parse_png_chunks(&out).unwrap().chunks.len(), 5);
    assert_eq!(extract_zip_from_png_data(&out).unwrap(), second_zip);
}
