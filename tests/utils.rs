use rust_polyglot::utils::{
    calculate_crc32, calculate_offset_adjustment, is_png_signature, read_u16_le, read_u32_be,
    read_u32_le, read_u64_le, write_u32_be, write_u32_le, write_u64_le,
};

#[test]
fn test_crc32_calculation() {
    let data = b"Hello, World!";
    let crc = calculate_crc32(data);
    assert_eq!(crc, 0xEC4AC3D0);
    assert_eq!(calculate_crc32(b"123456789"), 0xCBF43926);
}

#[test]
fn test_u32_be_operations() {
    let mut buf = vec![0u8; 4];
    write_u32_be(&mut buf, 0, 0xDEADBEEF);
    assert_eq!(read_u32_be(&buf, 0), 0xDEADBEEF);
}

#[test]
fn test_u32_le_operations() {
    let mut buf = vec![0u8; 4];
    write_u32_le(&mut buf, 0, 0xDEADBEEF);
    assert_eq!(read_u32_le(&buf, 0), 0xDEADBEEF);
}

#[test]
fn test_png_signature_validation() {
    let valid_sig = [0x89, 0x50, 0x4E, 0x47, 0x0D, 0x0A, 0x1A, 0x0A];
    assert!(is_png_signature(&valid_sig));

    let invalid_sig = [0x00, 0x50, 0x4E, 0x47, 0x0D, 0x0A, 0x1A, 0x0A];
    assert!(!is_png_signature(&invalid_sig));
}

#[test]
fn byte_order_of_written_fields() {
    let mut buf = vec![0u8; 6];
    write_u32_be(&mut buf, 1, 0x01020304);
    assert_eq!(buf, vec![0, 1, 2, 3, 4, 0]);
    write_u32_le(&mut buf, 1, 0x01020304);
    assert_eq!(buf, vec![0, 4, 3, 2, 1, 0]);
    assert_eq!(read_u16_le(&buf, 1), 0x0304);
}

#[test]
fn u64_le_round_trip_at_offset() {
    let mut buf = vec![0xAAu8; 10];
    write_u64_le(&mut buf, 1, 0x0102030405060708);
    assert_eq!(buf[0], 0xAA);
    assert_eq!(buf[9], 0xAA);
    assert_eq!(&buf[1..9], &[8, 7, 6, 5, 4, 3, 2, 1]);
    assert_eq!(read_u64_le(&buf, 1), 0x0102030405060708);
}

#[test]
fn offset_adjustment_is_start_plus_length() {
    assert_eq!(calculate_offset_adjustment(41, 14), 55);
}

#[test]
fn short_input_is_not_a_png_signature() {
    assert!(!is_png_signature(&[0x89, 0x50, 0x4E]));
}

#[test]
fn crc_of_empty_input() {
    assert_eq!(calculate_crc32(&[]), 0);
    assert_eq!(calculate_crc32(b"IEND"), 0xAE426082);
}
