use datasets::idx::read_be_u32;

#[test]
fn read_be_u32_most_significant_byte_first() {
    let data = vec![0x00, 0x00, 0x08, 0x01];
    assert_eq!(read_be_u32(&data, 0), 2049);
    let data = vec![0x01, 0x00, 0x00, 0x00];
    assert_eq!(read_be_u32(&data, 0), 0x0100_0000);
    assert_eq!(read_be_u32(&data, 0), u32::from_be_bytes([1, 0, 0, 0]));
}

#[test]
fn read_be_u32_at_an_offset() {
    let data = vec![0xAA, 0xDE, 0xAD, 0xBE, 0xEF, 0xBB];
    assert_eq!(read_be_u32(&data, 0), 0xAADE_ADBE);
    assert_eq!(read_be_u32(&data, 1), 0xDEAD_BEEF);
    assert_eq!(read_be_u32(&data, 2), 0xADBE_EFBB);
}

#[test]
fn read_be_u32_extremes() {
    assert_eq!(read_be_u32(&vec![0, 0, 0, 0], 0), 0);
    assert_eq!(read_be_u32(&vec![0xFF, 0xFF, 0xFF, 0xFF], 0), u32::MAX);
}
