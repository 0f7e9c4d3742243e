use rust_polyglot::gif::{GifFile, GifStructure};
use rust_polyglot::PolyglotError;

fn small_gif() -> Vec<u8> {
    let mut g = b"GIF89a".to_vec();
    g.extend_from_slice(&[1, 0, 1, 0, 0, 0, 0]);
    g.push(0x3B);
    g
}

#[test]
fn header_is_read() {
    let s = GifStructure::parse(&small_gif()).unwrap();
    assert_eq!(&s.header.signature, b"GIF");
    assert_eq!(&s.header.version, b"89a");
    assert!(s.global_color_table.is_none());
    assert!(s.blocks.is_empty());
    assert!(matches!(GifStructure::parse(b"GIF8"), Err(PolyglotError::PngParse(_))));
}

#[test]
fn comment_extension_before_trailer() {
    let data = small_gif();
    let mut file = GifFile { raw_data: data.clone(), parsed: GifStructure::parse(&data).unwrap() };
    file.add_zip_comment_extension(b"PK").unwrap();
    let mut expected = data[..13].to_vec();
    expected.extend_from_slice(&[0x21, 0xFE, 14]);
    expected.extend_from_slice(b"ZIP_ARCHIVE:PK");
    expected.extend_from_slice(&[0x00, 0x3B]);
    assert_eq!(file.as_bytes(), expected.as_slice());
}

#[test]
fn long_comment_is_split_into_sub_blocks() {
    let data = small_gif();
    let mut file = GifFile { raw_data: data.clone(), parsed: GifStructure::parse(&data).unwrap() };
    let zip = vec![0x55u8; 300];
    file.add_zip_comment_extension(&zip).unwrap();
    let ext = &file.raw_data[13..];
    assert_eq!(&ext[0..2], &[0x21, 0xFE]);
    assert_eq!(ext[2], 255);
    assert_eq!(ext[3 + 255], (312 - 255) as u8);
    assert_eq!(ext.len(), 2 + 1 + 255 + 1 + 57 + 1 + 1);
    assert_eq!(*ext.last().unwrap(), 0x3B);
}

#[test]
fn no_trailer_means_no_change() {
    let data = b"GIF89a\x01\x00".to_vec();
    let mut file = GifFile { raw_data: data.clone(), parsed: GifStructure::parse(&data).unwrap() };
    file.add_zip_comment_extension(b"PK").unwrap();
    assert_eq!(file.raw_data, data);
}

#[test]
fn trailer_byte_inside_the_image_is_kept() {
    let mut data = b"GIF89a".to_vec();
    data.extend_from_slice(&[0x3B, 0x3B, 7]);
    data.push(0x3B);
    let mut file = GifFile::from_data(data.clone()).unwrap();
    file.add_zip_comment_extension(b"PK").unwrap();
    assert_eq!(&file.raw_data[..9], &data[..9]);
    assert_eq!(&file.raw_data[9..11], &[0x21, 0xFE]);
    assert_eq!(*file.raw_data.last().unwrap(), 0x3B);
    assert_eq!(file.raw_data.len(), data.len() + 2 + 1 + 14 + 1);
}

#[test]
fn gif_from_data_checks_signature() {
    assert!(GifFile::from_data(small_gif()).is_ok());
    assert!(matches!(GifFile::from_data(b"GIX89a;".to_vec()), Err(PolyglotError::PngParse(_))));
    assert!(matches!(GifFile::from_data(b"GIF".to_vec()), Err(PolyglotError::PngParse(_))));
}
