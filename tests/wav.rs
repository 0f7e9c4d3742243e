use hound::WavReader;
use rust_polyglot::utils::calculate_crc32;
use rust_polyglot::wav::{RiffStructure, WavFile};
use rust_polyglot::PolyglotError;

fn create_test_wav() -> Vec<u8> {
    let mut wav = vec![];
    wav.extend_from_slice(b"RIFF");
    wav.extend_from_slice(&(40u32).to_le_bytes());
    wav.extend_from_slice(b"WAVE");
    wav.extend_from_slice(b"fmt ");
    wav.extend_from_slice(&(16u32).to_le_bytes());
    wav.extend_from_slice(&(1u16).to_le_bytes());
    wav.extend_from_slice(&(1u16).to_le_bytes());
    wav.extend_from_slice(&(44100u32).to_le_bytes());
    wav.extend_from_slice(&(88200u32).to_le_bytes());
    wav.extend_from_slice(&(2u16).to_le_bytes());
    wav.extend_from_slice(&(16u16).to_le_bytes());
    wav.extend_from_slice(b"data");
    wav.extend_from_slice(&(4u32).to_le_bytes());
    wav.extend_from_slice(&(0u16).to_le_bytes());
    wav.extend_from_slice(&(0u16).to_le_bytes());
    wav
}

fn create_test_png() -> Vec<u8> {
    let mut png = vec![];
    png.extend_from_slice(b"\x89PNG\r\n\x1A\n");
    png.extend_from_slice(&(13u32).to_be_bytes());
    png.extend_from_slice(b"IHDR");
    png.extend_from_slice(&(1u32).to_be_bytes());
    png.extend_from_slice(&(1u32).to_be_bytes());
    png.push(8);
    png.push(2);
    png.push(0);
    png.push(0);
    png.push(0);
    let ihdr_data = png[16..29].to_vec();
    let ihdr_crc = calculate_crc32(&[b"IHDR".as_slice(), &ihdr_data].concat());
    png.extend_from_slice(&ihdr_crc.to_be_bytes());
    let idat_data = [0x78, 0x9C, 0x62, 0x60, 0x00, 0x00, 0x00, 0x02, 0x00, 0x01];
    png.extend_from_slice(&(idat_data.len() as u32).to_be_bytes());
    png.extend_from_slice(b"IDAT");
    png.extend_from_slice(&idat_data);
    let idat_crc = calculate_crc32(&[b"IDAT".as_slice(), &idat_data].concat());
    png.extend_from_slice(&idat_crc.to_be_bytes());
    png.extend_from_slice(&(0u32).to_be_bytes());
    png.extend_from_slice(b"IEND");
    let iend_crc = calculate_crc32(b"IEND");
    png.extend_from_slice(&iend_crc.to_be_bytes());
    png
}

#[test]
fn test_riff_signature_validation() {
    let short_data = b"RIFF....WAVE".to_vec();
    let result = RiffStructure::parse(&short_data);
    assert!(matches!(result, Err(PolyglotError::ChunkNotFound(_))));

    let invalid_riff = b"XXXX....WAVE....".to_vec();
    let result = WavFile::from_data(invalid_riff);
    assert!(matches!(result, Err(PolyglotError::InvalidRiffHeader)));
}

#[test]
fn test_png_embedding_and_extraction() {
    let wav_data = create_test_wav();
    let png_data = create_test_png();

    let mut wav_file = WavFile::from_data(wav_data.clone()).unwrap();

    assert!(wav_file.extract_png_data().is_none());
    assert_eq!(wav_file.structure.additional_chunks.len(), 0);

    wav_file.embed_png_data(&png_data).unwrap();

    assert_eq!(wav_file.structure.additional_chunks.len(), 1);
    assert_eq!(wav_file.structure.additional_chunks[0].header.fourcc, *b"pnG ");

    let extracted_png = wav_file.extract_png_data().unwrap();
    assert_eq!(extracted_png, png_data);

    let reparsed = WavFile::from_data(wav_file.raw_data.clone()).unwrap();
    let extracted_again = reparsed.extract_png_data().unwrap();
    assert_eq!(extracted_again, png_data);
}

#[test]
fn test_polyglot_file_size() {
    let wav_data = create_test_wav();
    let png_data = create_test_png();

    let original_size = wav_data.len();
    let mut wav_file = WavFile::from_data(wav_data).unwrap();
    wav_file.embed_png_data(&png_data).unwrap();

    let mut expected_additional_size = png_data.len() + 8;
    if png_data.len() % 2 == 1 {
        expected_additional_size += 1;
    }

    assert_eq!(wav_file.raw_data.len(), original_size + expected_additional_size);

    let reported_size = u32::from_le_bytes([
        wav_file.raw_data[4],
        wav_file.raw_data[5],
        wav_file.raw_data[6],
        wav_file.raw_data[7],
    ]);
    assert_eq!(reported_size as usize, original_size + expected_additional_size - 8);
}

#[test]
fn test_wav_still_valid_after_embedding() {
    let wav_data = create_test_wav();
    let png_data = create_test_png();

    let mut wav_file = WavFile::from_data(wav_data).unwrap();
    wav_file.embed_png_data(&png_data).unwrap();

    let cursor = std::io::Cursor::new(&wav_file.raw_data);
    let reader = WavReader::new(cursor).unwrap();
    let spec = reader.spec();

    assert_eq!(spec.channels, 1);
    assert_eq!(spec.sample_rate, 44100);
    assert_eq!(spec.bits_per_sample, 16);
}

#[test]
fn test_size_overflow_prevention() {
    // The RIFF size field cannot grow past 32 bits. A buffer of 2^32 bytes
    // is too large for a unit test, so the declared size is raised instead: the
    // same size check refuses the embedding.
    let mut wav_data = create_test_wav();
    wav_data[4..8].copy_from_slice(&(u32::MAX - 7).to_le_bytes());
    let small_png = vec![0u8; 8];

    let mut wav_file = WavFile::from_data(wav_data).unwrap();
    let before = wav_file.raw_data.clone();
    let result = wav_file.embed_png_data(&small_png);
    assert!(matches!(result, Err(PolyglotError::SizeOverflow)));
    assert_eq!(wav_file.raw_data, before);
}

#[test]
fn parsed_wav_keeps_its_chunks() {
    let wav = WavFile::from_data(create_test_wav()).unwrap();
    assert_eq!(wav.structure.header.file_size, 40);
    assert_eq!(wav.structure.fmt_chunk.data.len(), 16);
    assert_eq!(wav.structure.data_chunk.header.data_size, 4);
    assert_eq!(wav.structure.to_bytes().unwrap(), create_test_wav());
    assert_eq!(wav.as_bytes(), create_test_wav().as_slice());
}

#[test]
fn odd_sized_chunk_is_padded() {
    let mut wav = WavFile::from_data(create_test_wav()).unwrap();
    wav.embed_png_data(b"abc").unwrap();
    let bytes = wav.raw_data.clone();
    assert_eq!(bytes.len(), 48 + 8 + 3 + 1);
    assert_eq!(&bytes[48..52], b"pnG ");
    assert_eq!(&bytes[52..56], &3u32.to_le_bytes());
    assert_eq!(&bytes[56..59], b"abc");
    assert_eq!(bytes[59], 0);
    assert_eq!(WavFile::extract_png_from_wav_polyglot(&bytes).unwrap(), b"abc".to_vec());
}

#[test]
fn wav_errors_by_kind() {
    assert!(matches!(WavFile::from_data(b"RIFF".to_vec()), Err(PolyglotError::WavParse(_))));
    let mut not_wave = create_test_wav();
    not_wave[8] = b'X';
    assert!(matches!(WavFile::from_data(not_wave), Err(PolyglotError::WavParse(_))));
    let mut overrun = create_test_wav();
    overrun[40] = 0xFF;
    assert!(matches!(WavFile::from_data(overrun), Err(PolyglotError::WavParse(_))));
    let mut no_data = create_test_wav();
    no_data[36..40].copy_from_slice(b"junk");
    assert!(matches!(WavFile::from_data(no_data), Err(PolyglotError::ChunkNotFound(_))));
}

#[test]
fn png_first_bytes_hold_no_embedded_image() {
    assert!(WavFile::extract_png_from_wav_polyglot(&create_test_png()).is_none());
    assert!(WavFile::extract_png_from_wav_polyglot(&create_test_wav()).is_none());
}
