use rust_polyglot::extract::{extract_wav_data, extract_zip_from_png_data, validate_polyglot_data};
use rust_polyglot::cli::ValidationResult;
use rust_polyglot::png::parser::parse_png_chunks;
use rust_polyglot::png::PngFile;
use rust_polyglot::polyglot::{
    EmbedMethod, PngWavPolyglotCreator, PolyglotCreator, TrueBidirectionalPngWavCreator,
    WavPngPolyglotCreator,
};
use rust_polyglot::utils::calculate_crc32;
use rust_polyglot::wav::WavFile;
use rust_polyglot::zip::ZipArchive;
use rust_polyglot::PolyglotError;

fn chunk(kind: &[u8; 4], data: &[u8]) -> Vec<u8> {
    let mut out = (data.len() as u32).to_be_bytes().to_vec();
    out.extend_from_slice(kind);
    out.extend_from_slice(data);
    let crc = calculate_crc32(&[kind.as_slice(), data].concat());
    out.extend_from_slice(&crc.to_be_bytes());
    out
}

fn create_test_png() -> Vec<u8> {
    let mut png = vec![0x89, 0x50, 0x4E, 0x47, 0x0D, 0x0A, 0x1A, 0x0A];
    let ihdr_data = [0x00, 0x00, 0x00, 0x01, 0x00, 0x00, 0x00, 0x01, 0x08, 0x02, 0x00, 0x00, 0x00];
    png.extend_from_slice(&chunk(b"IHDR", &ihdr_data));
    let idat_data = [0x78, 0x9C, 0xED, 0xC1, 0x01, 0x01, 0x00, 0x00, 0x00, 0x80, 0x90, 0xFE, 0x37, 0x10];
    png.extend_from_slice(&chunk(b"IDAT", &idat_data));
    png.extend_from_slice(&0u32.to_be_bytes());
    png.extend_from_slice(b"IEND");
    let iend_crc = calculate_crc32(b"IEND");
    png.extend_from_slice(&iend_crc.to_be_bytes());
    png
}

fn create_test_zip() -> Vec<u8> {
    let mut zip = vec![0x50, 0x4B, 0x03, 0x04];
    zip.extend_from_slice(&vec![0x0A, 0x00]);
    zip.extend_from_slice(&vec![0x00, 0x00]);
    zip.extend_from_slice(&vec![0x00, 0x00]);
    zip.extend_from_slice(&vec![0x00, 0x00, 0x00, 0x00]);
    zip.extend_from_slice(&vec![0x00, 0x00, 0x00, 0x00]);
    zip.extend_from_slice(&vec![0x00, 0x00, 0x00, 0x00]);
    zip.extend_from_slice(&vec![0x00, 0x00, 0x00, 0x00]);
    zip.extend_from_slice(&vec![0x04, 0x00]);
    zip.extend_from_slice(&vec![0x00, 0x00]);
    zip.extend_from_slice(b"test");
    zip.extend_from_slice(&vec![0x50, 0x4B, 0x01, 0x02]);
    zip.extend_from_slice(&vec![0x0A, 0x00]);
    zip.extend_from_slice(&vec![0x0A, 0x00]);
    zip.extend_from_slice(&vec![0x00, 0x00]);
    zip.extend_from_slice(&vec![0x00, 0x00]);
    zip.extend_from_slice(&vec![0x00, 0x00, 0x00, 0x00]);
    zip.extend_from_slice(&vec![0x00, 0x00, 0x00, 0x00]);
    zip.extend_from_slice(&vec![0x00, 0x00, 0x00, 0x00]);
    zip.extend_from_slice(&vec![0x00, 0x00, 0x00, 0x00]);
    zip.extend_from_slice(&vec![0x04, 0x00]);
    zip.extend_from_slice(&vec![0x00, 0x00]);
    zip.extend_from_slice(&vec![0x00, 0x00]);
    zip.extend_from_slice(&vec![0x00, 0x00]);
    zip.extend_from_slice(&vec![0x00, 0x00]);
    zip.extend_from_slice(&vec![0x00, 0x00, 0x00, 0x00]);
    zip.extend_from_slice(&vec![0x00, 0x00, 0x00, 0x00]);
    zip.extend_from_slice(b"test");
    zip.extend_from_slice(&vec![0x50, 0x4B, 0x05, 0x06]);
    zip.extend_from_slice(&vec![0x00, 0x00]);
    zip.extend_from_slice(&vec![0x00, 0x00]);
    zip.extend_from_slice(&vec![0x01, 0x00]);
    zip.extend_from_slice(&vec![0x01, 0x00]);
    zip.extend_from_slice(&vec![0x16, 0x00, 0x00, 0x00]);
    zip.extend_from_slice(&vec![0x1A, 0x00, 0x00, 0x00]);
    zip.extend_from_slice(&vec![0x00, 0x00]);
    zip
}

/// The test archive with its directory size and offset corrected: one
/// 50-byte entry starting at 34.
fn consistent_test_zip() -> Vec<u8> {
    let mut zip = create_test_zip();
    zip[96..100].copy_from_slice(&50u32.to_le_bytes());
    zip[100..104].copy_from_slice(&34u32.to_le_bytes());
    zip
}

fn create_test_wav() -> Vec<u8> {
    let mut wav = vec![];
    wav.extend_from_slice(b"RIFF");
    wav.extend_from_slice(&(40u32).to_le_bytes());
    wav.extend_from_slice(b"WAVE");
    wav.extend_from_slice(b"fmt ");
    wav.extend_from_slice(&(16u32).to_le_bytes());
    wav.extend_from_slice(&(1u16).to_le_bytes());
    wav.extend_from_slice(&(1u16).to_le_bytes());
    wav.extend_from_slice(&(44100u32).to_le_bytes());
    wav.extend_from_slice(&(88200u32).to_le_bytes());
    wav.extend_from_slice(&(2u16).to_le_bytes());
    wav.extend_from_slice(&(16u16).to_le_bytes());
    wav.extend_from_slice(b"data");
    wav.extend_from_slice(&(4u32).to_le_bytes());
    wav.extend_from_slice(&(0u16).to_le_bytes());
    wav.extend_from_slice(&(0u16).to_le_bytes());
    wav
}

#[test]
fn test_png_wav_polyglot_creation_and_extraction() {
    let wav_data = create_test_wav();
    let png_data = create_test_png();

    let png = PngFile::from_data(png_data).unwrap();
    let wav = WavFile::from_data(wav_data.clone()).unwrap();
    let mut creator = PngWavPolyglotCreator::new(png, wav);
    let polyglot_data = creator.create_polyglot_data().unwrap();

    assert_eq!(&polyglot_data[0..8], &[0x89, 0x50, 0x4E, 0x47, 0x0D, 0x0A, 0x1A, 0x0A]);
    let _png = PngFile::from_data(polyglot_data.clone()).unwrap();

    let riff_pos = polyglot_data.windows(4).position(|w| w == *b"RIFF");
    assert!(riff_pos.is_some(), "RIFF signature not found in polyglot");

    let extracted_wav_data = extract_wav_data(&polyglot_data).unwrap();
    assert_eq!(extracted_wav_data, wav_data, "Extracted WAV does not match original");

    let extracted_wav = WavFile::from_data(extracted_wav_data).unwrap();
    assert_eq!(extracted_wav.structure.fmt_chunk.data.len(), 16);
    assert_eq!(extracted_wav.structure.data_chunk.header.data_size, 4);
}

#[test]
fn test_polyglot_creation() {
    let png_data = create_test_png();
    let zip_data = create_test_zip();

    let mut creator = PolyglotCreator::from_data(png_data, zip_data).unwrap();

    let polyglot_data = creator.create_polyglot_in_memory().unwrap();

    assert!(polyglot_data.len() > create_test_png().len());
    assert_eq!(&polyglot_data[0..8], &[0x89, 0x50, 0x4E, 0x47, 0x0D, 0x0A, 0x1A, 0x0A]);
    let zip_sig_pos = polyglot_data.windows(4).position(|w| w == [0x50, 0x4B, 0x03, 0x04]);
    assert!(zip_sig_pos.is_some());
}

#[test]
fn idat_strategy_shifts_by_archive_start() {
    let png_data = create_test_png();
    let zip_data = consistent_test_zip();
    let mut creator = PolyglotCreator::from_data(png_data.clone(), zip_data.clone()).unwrap();
    let out = creator.create_polyglot_data(EmbedMethod::Idat).unwrap();
    // The image data of the first IDAT chunk starts at 41 and holds 14 bytes.
    let start = 41 + 14;
    assert_eq!(&out[start..start + 4], &[0x50, 0x4B, 0x03, 0x04]);
    let moved = &out[start..start + zip_data.len()];
    let cd = u32::from_le_bytes([moved[100], moved[101], moved[102], moved[103]]);
    assert_eq!(cd, 34 + start as u32);
    // The entry's local header offset moved by the same amount.
    let entry = u32::from_le_bytes([moved[76], moved[77], moved[78], moved[79]]);
    assert_eq!(entry, start as u32);
    assert!(creator.zip().shifted);
    assert!(PngFile::from_data(out.clone()).is_ok());
    // The moved offsets count from the start of the whole file.
    assert_eq!(&out[entry as usize..entry as usize + 4], &[0x50, 0x4B, 0x03, 0x04]);
    assert_eq!(&out[cd as usize..cd as usize + 4], &[0x50, 0x4B, 0x01, 0x02]);
    assert_eq!(validate_polyglot_data(&out), ValidationResult::Valid);
    assert_eq!(creator.png().raw_data, out);
    // The archive's directory was moved once; a second build is refused.
    assert!(matches!(
        creator.create_polyglot_data(EmbedMethod::Idat),
        Err(PolyglotError::OffsetsAlreadyPatched)
    ));
}

#[test]
fn text_strategy_round_trip() {
    let png_data = create_test_png();
    let zip_data = create_test_zip();
    let mut creator = PolyglotCreator::from_data(png_data.clone(), zip_data.clone()).unwrap();
    let out = creator.create_polyglot_data(EmbedMethod::Text).unwrap();
    let parsed = parse_png_chunks(&out).unwrap();
    assert_eq!(parsed.chunks.len(), 4);
    assert_eq!(extract_zip_from_png_data(&out).unwrap(), zip_data);
}

#[test]
fn zip_strategy_wraps_the_image() {
    let png_data = create_test_png();
    let creator_zip = create_test_zip();
    let mut creator = PolyglotCreator::from_data(png_data.clone(), creator_zip).unwrap();
    let out = creator.create_polyglot_data(EmbedMethod::Zip).unwrap();
    assert_eq!(&out[0..4], &[0x50, 0x4B, 0x03, 0x04]);
    assert_eq!(out.len(), 39 + png_data.len() + 55 + 22);
    assert_eq!(&out[39..39 + png_data.len()], png_data.as_slice());
    let archive = ZipArchive::from_data(out.clone()).unwrap();
    assert_eq!(archive.eocd.num_entries_total, 1);
    assert_eq!(archive.eocd.cd_offset as usize, 39 + png_data.len());
    assert_eq!(archive.eocd.cd_size, 55);
    assert_eq!(extract_zip_from_png_data(&out).unwrap(), png_data);
    assert_eq!(validate_polyglot_data(&out), ValidationResult::Valid);
    let crc = calculate_crc32(&png_data);
    assert_eq!(&out[14..18], &crc.to_le_bytes());
}

#[test]
fn png_with_invalid_archive_is_rejected() {
    let mut bad_zip = create_test_zip();
    bad_zip[0] = 0;
    assert!(matches!(
        PolyglotCreator::from_data(create_test_png(), bad_zip),
        Err(PolyglotError::ZipParse(_))
    ));
    assert!(matches!(
        PolyglotCreator::from_data(vec![1, 2, 3], create_test_zip()),
        Err(PolyglotError::PngParse(_))
    ));
}

#[test]
fn wav_first_polyglot_holds_the_image() {
    let png_data = create_test_png();
    let png = PngFile::from_data(png_data.clone()).unwrap();
    let wav = WavFile::from_data(create_test_wav()).unwrap();
    let mut creator = WavPngPolyglotCreator::new(wav, png);
    let out = creator.create_polyglot_data().unwrap();
    assert_eq!(&out[0..4], b"RIFF");
    assert_eq!(WavFile::extract_png_from_wav_polyglot(&out).unwrap(), png_data);
    assert_eq!(extract_wav_data(&out).unwrap(), out);
    assert_eq!(creator.wav().raw_data, out);
    assert_eq!(creator.png().raw_data, png_data);
}

#[test]
fn bidirectional_layout_parses_as_png() {
    let png_data = create_test_png();
    let wav_data = create_test_wav();
    let creator = TrueBidirectionalPngWavCreator::new(
        PngFile::from_data(png_data.clone()).unwrap(),
        WavFile::from_data(wav_data.clone()).unwrap(),
    );
    let out = creator.create_bidirectional_data().unwrap();
    let parsed = parse_png_chunks(&out).unwrap();
    assert_eq!(parsed.chunks.len(), 3);
    assert_eq!(&parsed.chunks[0].chunk_type, b"IHDR");
    assert_eq!(parsed.chunks[0].data, vec![0, 0, 0, 0, 0, 0, 0, 0, 8, 2, 0, 0, 0]);
    assert_eq!(parsed.chunks[1].data, wav_data);
    assert_eq!(extract_wav_data(&out).unwrap(), wav_data);
    assert_eq!(creator.png().raw_data, png_data);
    assert_eq!(creator.wav().raw_data, wav_data);
}

#[test]
fn png_wav_creator_keeps_parts() {
    let png = PngFile::from_data(create_test_png()).unwrap();
    let wav = WavFile::from_data(create_test_wav()).unwrap();
    let creator = PngWavPolyglotCreator::new(png, wav);
    assert_eq!(creator.png().raw_data, create_test_png());
    assert_eq!(creator.wav().raw_data, create_test_wav());
}

#[test]
fn idat_size_check_leaves_parts_unchanged() {
    let png_data = create_test_png();
    let zip_data = consistent_test_zip();
    let mut creator = PolyglotCreator::from_data(png_data.clone(), zip_data.clone()).unwrap();
    // A container without an image-data chunk cannot take the archive.
    let mut no_idat = png_data[..33].to_vec();
    no_idat.extend_from_slice(&png_data[59..]);
    let mut other = PolyglotCreator::from_data(no_idat, zip_data.clone()).unwrap();
    assert!(matches!(
        other.create_polyglot_data(EmbedMethod::Idat),
        Err(PolyglotError::NoIdatChunk)
    ));
    assert!(!other.zip().shifted);
    assert_eq!(other.zip().data, zip_data);
    // A successful build still works afterwards on a fresh creator.
    assert!(creator.create_polyglot_data(EmbedMethod::Idat).is_ok());
}
