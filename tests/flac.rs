use rust_polyglot::flac::{FlacFile, FlacStructure, MetadataBlock, StreamInfo};
use rust_polyglot::PolyglotError;

fn streaminfo_bytes() -> Vec<u8> {
    let mut d = vec![0x10, 0x00, 0x10, 0x00];
    d.extend_from_slice(&[0, 0, 0, 16]);
    d.extend_from_slice(&[0, 0, 1, 0]);
    d.extend_from_slice(&[0x0A, 0xC4, 0x42, 0xF0]);
    d.extend_from_slice(&[0, 0]);
    d.extend_from_slice(&(1u8..=16).collect::<Vec<u8>>());
    d
}

/// Signature, STREAMINFO, and a last padding block of declared length 8.
fn flac_with_padding() -> Vec<u8> {
    let mut f = b"fLaC".to_vec();
    f.extend_from_slice(&[0, 0, 0, 34]);
    f.extend_from_slice(&streaminfo_bytes());
    f.push(0x81);
    f.extend_from_slice(&[0, 0, 0, 8]);
    f.extend_from_slice(&[0u8; 7]);
    f
}

#[test]
fn streaminfo_fields() {
    let si = StreamInfo::parse_from_data(&streaminfo_bytes()).unwrap();
    assert_eq!(si.min_block_size, 4096);
    assert_eq!(si.max_block_size, 4096);
    assert_eq!(si.min_frame_size, 16);
    assert_eq!(si.max_frame_size, 256);
    assert_eq!(si.sample_rate, 44100);
    assert_eq!(si.channels, 2);
    assert_eq!(si.bits_per_sample, 16);
    // Bytes 16..24 are 00 00 01 02 03 04 05 06; the low 36 bits are kept.
    assert_eq!(si.total_samples, 0x02_0304_0506);
    assert_eq!(si.md5_signature.to_vec(), (1u8..=16).collect::<Vec<u8>>());
    assert!(matches!(StreamInfo::parse_from_data(&[0u8; 33]), Err(PolyglotError::PngParse(_))));
}

#[test]
fn structure_parse_reads_blocks() {
    let data = flac_with_padding();
    let s = FlacStructure::parse(&data).unwrap();
    assert_eq!(s.metadata_blocks.len(), 2);
    assert!(matches!(s.metadata_blocks[0], MetadataBlock::StreamInfo(_)));
    match &s.metadata_blocks[1] {
        MetadataBlock::Padding { length, data } => {
            assert_eq!(*length, 8);
            assert_eq!(data.len(), 8);
        },
        other => panic!("unexpected block: {:?}", other),
    }
    assert_eq!(s.streaminfo.sample_rate, 44100);
    assert!(matches!(FlacStructure::parse(&data[..30]), Err(PolyglotError::PngParse(_))));
}

#[test]
fn padding_injection_replaces_block_content() {
    let data = flac_with_padding();
    let mut file = FlacFile { raw_data: data.clone(), structure: FlacStructure::parse(&data).unwrap() };
    let result = file.inject_png_to_padding(&[1, 2, 3, 4, 5]);
    // The STREAMINFO block cannot be written back.
    assert!(matches!(result, Err(PolyglotError::InvalidInput(_))));
    match &file.structure.metadata_blocks[1] {
        MetadataBlock::Padding { length, data } => {
            assert_eq!(*length, 8);
            assert_eq!(data, &vec![1, 2, 3, 4, 5, 0, 0, 0]);
        },
        other => panic!("unexpected block: {:?}", other),
    }
    assert_eq!(file.as_bytes(), data.as_slice());
}

#[test]
fn padding_too_small_is_reported() {
    let data = flac_with_padding();
    let mut file = FlacFile { raw_data: data.clone(), structure: FlacStructure::parse(&data).unwrap() };
    assert!(matches!(file.inject_png_to_padding(&[0u8; 9]), Err(PolyglotError::InvalidInput(_))));
    assert_eq!(file.raw_data, data);
}

#[test]
fn only_padding_blocks_serialize() {
    let only_padding = FlacStructure {
        streaminfo: StreamInfo::parse_from_data(&streaminfo_bytes()).unwrap(),
        metadata_blocks: vec![MetadataBlock::Padding { length: 2, data: vec![7, 8] }],
    };
    assert_eq!(only_padding.to_bytes().unwrap(), b"fLaC\x01\x00\x00\x00\x02\x07\x08".to_vec());
    let data = flac_with_padding();
    let s = FlacStructure::parse(&data).unwrap();
    assert!(matches!(s.to_bytes(), Err(PolyglotError::InvalidInput(_))));
    let mut out = vec![9];
    assert!(matches!(s.streaminfo.write_to(&mut out), Err(PolyglotError::InvalidInput(_))));
    assert_eq!(out, vec![9]);
}

#[test]
fn flac_from_data_checks_signature() {
    let file = FlacFile::from_data(flac_with_padding()).unwrap();
    assert_eq!(file.structure.metadata_blocks.len(), 2);
    let mut bad = flac_with_padding();
    bad[0] = b'x';
    assert!(matches!(FlacFile::from_data(bad), Err(PolyglotError::PngParse(_))));
    assert!(matches!(FlacFile::from_data(b"fLaC".to_vec()), Err(PolyglotError::PngParse(_))));
}
