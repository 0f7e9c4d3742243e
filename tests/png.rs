use rust_polyglot::png::parser::{find_all_idat, find_first_idat, parse_png_chunks, serialize_png};
use rust_polyglot::png::PngFile;
use rust_polyglot::utils::calculate_crc32;
use rust_polyglot::PolyglotError;

fn chunk(kind: &[u8; 4], data: &[u8]) -> Vec<u8> {
    let mut out = (data.len() as u32).to_be_bytes().to_vec();
    out.extend_from_slice(kind);
    out.extend_from_slice(data);
    let crc = calculate_crc32(&[kind.as_slice(), data].concat());
    out.extend_from_slice(&crc.to_be_bytes());
    out
}

fn create_test_png() -> Vec<u8> {
    let mut png = vec![0x89, 0x50, 0x4E, 0x47, 0x0D, 0x0A, 0x1A, 0x0A];
    let ihdr_data = [0, 0, 0, 1, 0, 0, 0, 1, 8, 2, 0, 0, 0];
    png.extend_from_slice(&chunk(b"IHDR", &ihdr_data));
    let idat_data = [0x78, 0x9C, 0xED, 0xC1, 0x01, 0x01, 0x00, 0x00, 0x00, 0x80, 0x90, 0xFE, 0x37, 0x10];
    png.extend_from_slice(&chunk(b"IDAT", &idat_data));
    png.extend_from_slice(&chunk(b"IEND", &[]));
    png
}

#[test]
fn test_parse_empty_png() {
    let result = parse_png_chunks(&[0, 1, 2]);
    assert!(matches!(result, Err(PolyglotError::PngParse(_))));
}

#[test]
fn test_invalid_signature() {
    let invalid_png = [0x00, 0x50, 0x4E, 0x47, 0x0D, 0x0A, 0x1A, 0x0A];
    let result = parse_png_chunks(&invalid_png);
    assert!(matches!(result, Err(PolyglotError::PngParse(_))));
}

#[test]
fn test_png_file_load() {
    let png_data = create_test_png();
    let file = PngFile::from_data(png_data).unwrap();
    assert_eq!(file.parsed.chunks.len(), 3);
}

#[test]
fn test_idat_finding() {
    let png_data = create_test_png();
    let file = PngFile::from_data(png_data).unwrap();
    let (offset, length) = file.find_first_idat().unwrap();
    assert!(offset > 0);
    assert!(length > 0);
}

#[test]
fn test_append_to_idat() {
    let png_data = create_test_png();
    let mut file = PngFile::from_data(png_data.clone()).unwrap();
    let original_size = file.raw_data.len();
    let additional_data = b"extra data";

    let result = file.append_to_idat(additional_data);
    result.unwrap();

    assert!(file.raw_data.len() > original_size);
    let (_offset, length) = file.find_first_idat().unwrap();
    assert!(length > additional_data.len());
}

#[test]
fn chunk_offsets_point_at_chunk_data() {
    let png = create_test_png();
    let parsed = parse_png_chunks(&png).unwrap();
    assert_eq!(parsed.chunks[0].data_offset, 16);
    assert_eq!(parsed.chunks[1].data_offset, 16 + 13 + 4 + 8);
    let idat = find_first_idat(&parsed).unwrap();
    assert_eq!(&png[idat.data_offset..idat.data_offset + idat.data.len()], idat.data.as_slice());
    assert_eq!(find_all_idat(&parsed).len(), 1);
}

#[test]
fn append_grows_idat_by_exact_length() {
    let png = create_test_png();
    let mut file = PngFile::from_data(png.clone()).unwrap();
    file.append_to_idat(b"abc").unwrap();
    assert_eq!(file.raw_data.len(), png.len() + 3);
    assert_eq!(file.parsed.chunks[1].data.len(), 14 + 3);
    assert_eq!(&file.parsed.chunks[1].data[14..], b"abc");
    assert!(PngFile::from_data(file.raw_data.clone()).is_ok());
}

#[test]
fn serialized_chunks_carry_valid_checksums() {
    let png = create_test_png();
    let parsed = parse_png_chunks(&png).unwrap();
    let bytes = serialize_png(&parsed);
    assert_eq!(bytes, png);
    let reparsed = parse_png_chunks(&bytes).unwrap();
    for c in &reparsed.chunks {
        assert_eq!(c.crc, calculate_crc32(&[c.chunk_type.as_slice(), &c.data].concat()));
    }
}

#[test]
fn mutated_payload_byte_fails_checksum() {
    let png = create_test_png();
    let mut bytes = serialize_png(&parse_png_chunks(&png).unwrap());
    // First byte of the image-data payload.
    bytes[16 + 13 + 4 + 8] ^= 0x01;
    match parse_png_chunks(&bytes) {
        Err(PolyglotError::CrcMismatch(name)) => assert_eq!(name, "IDAT"),
        other => panic!("unexpected result: {:?}", other),
    }
}

#[test]
fn truncated_chunk_is_rejected() {
    let png = create_test_png();
    let cut = &png[..png.len() - 20];
    assert!(matches!(parse_png_chunks(cut), Err(PolyglotError::PngParse(_))));
}

#[test]
fn signature_alone_has_no_chunks() {
    let sig = [0x89, 0x50, 0x4E, 0x47, 0x0D, 0x0A, 0x1A, 0x0A];
    assert!(matches!(parse_png_chunks(&sig), Err(PolyglotError::PngParse(_))));
}

#[test]
fn parsing_stops_at_terminal_chunk() {
    let mut png = create_test_png();
    png.extend_from_slice(b"trailing bytes after the end");
    let parsed = parse_png_chunks(&png).unwrap();
    assert_eq!(parsed.chunks.len(), 3);
}

#[test]
fn missing_idat_is_reported() {
    let mut png = vec![0x89, 0x50, 0x4E, 0x47, 0x0D, 0x0A, 0x1A, 0x0A];
    png.extend_from_slice(&chunk(b"IHDR", &[0, 0, 0, 1, 0, 0, 0, 1, 8, 2, 0, 0, 0]));
    png.extend_from_slice(&chunk(b"IEND", &[]));
    let mut file = PngFile::from_data(png).unwrap();
    assert!(matches!(file.find_first_idat(), Err(PolyglotError::NoIdatChunk)));
    assert!(matches!(file.append_to_idat(b"x"), Err(PolyglotError::NoIdatChunk)));
}

#[test]
fn text_chunk_goes_before_terminal_chunk() {
    let png = create_test_png();
    let mut file = PngFile::from_data(png.clone()).unwrap();
    file.add_zip_text_chunk(b"PK").unwrap();
    let kinds: Vec<[u8; 4]> = file.parsed.chunks.iter().map(|c| c.chunk_type).collect();
    assert_eq!(kinds, vec![*b"IHDR", *b"IDAT", *b"tEXt", *b"IEND"]);
    assert_eq!(file.parsed.chunks[2].data, b"PK".to_vec());
    assert_eq!(file.raw_data.len(), png.len() + 12 + 2);
}

#[test]
fn text_chunk_needs_terminal_chunk() {
    let mut png = vec![0x89, 0x50, 0x4E, 0x47, 0x0D, 0x0A, 0x1A, 0x0A];
    png.extend_from_slice(&chunk(b"IHDR", &[0, 0, 0, 1, 0, 0, 0, 1, 8, 2, 0, 0, 0]));
    let mut file = PngFile::from_data(png.clone()).unwrap();
    assert!(matches!(file.add_zip_text_chunk(b"PK"), Err(PolyglotError::ChunkNotFound(_))));
    assert_eq!(file.raw_data, png);
}

#[test]
fn recalculating_checksums_keeps_valid_file() {
    let png = create_test_png();
    let mut file = PngFile::from_data(png.clone()).unwrap();
    file.recalculate_crcs().unwrap();
    assert_eq!(file.as_bytes(), png.as_slice());
}

#[test]
fn header_cut_short_is_truncation() {
    let mut png = vec![0x89, 0x50, 0x4E, 0x47, 0x0D, 0x0A, 0x1A, 0x0A];
    png.extend_from_slice(&chunk(b"IHDR", &[0, 0, 0, 1, 0, 0, 0, 1, 8, 2, 0, 0, 0]));
    png.extend_from_slice(&5u32.to_be_bytes());
    png.extend_from_slice(b"IDAT");
    png.extend_from_slice(&[1, 2, 3]);
    assert!(matches!(parse_png_chunks(&png), Err(PolyglotError::PngParse(_))));
}

#[test]
fn stale_checksums_are_recomputed() {
    let png = create_test_png();
    let mut file = PngFile::from_data(png.clone()).unwrap();
    // Change the first byte of the image data in place.
    let at = file.parsed.chunks[1].data_offset;
    file.raw_data[at] ^= 0xFF;
    assert!(parse_png_chunks(&file.raw_data).is_err());
    file.recalculate_crcs().unwrap();
    let reparsed = parse_png_chunks(&file.raw_data).unwrap();
    assert_eq!(reparsed.chunks[1].data[0], png[at] ^ 0xFF);
    assert_eq!(file.raw_data.len(), png.len());
}
