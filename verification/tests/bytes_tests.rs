use shapes::bytes::{read_i32_le, read_u16_le, read_u32_le};
use shapes::frame::FrameData;

#[test]
fn u16_is_read_little_endian() {
    let data = vec![0x34, 0x12];
    assert_eq!(read_u16_le(&data, 0), Some(0x1234));
    assert_eq!(read_u16_le(&data, 1), None);
    assert_eq!(read_u16_le(&data, 2), None);
}

#[test]
fn u32_is_read_little_endian() {
    let data = vec![0x31, 0x2E, 0x31, 0x30, 0xFF];
    assert_eq!(read_u32_le(&data, 0), Some(0x30312E31));
    assert_eq!(read_u32_le(&data, 1), Some(0xFF30312E));
    assert_eq!(read_u32_le(&data, 2), None);
}

#[test]
fn i32_is_read_as_twos_complement() {
    let data = vec![0xFB, 0xFF, 0xFF, 0xFF, 0x00, 0x00, 0x00, 0x80];
    assert_eq!(read_i32_le(&data, 0), Some(-5));
    assert_eq!(read_i32_le(&data, 4), Some(i32::MIN));
    assert_eq!(read_i32_le(&data, 5), None);
}

#[test]
fn zero_height_frame_has_no_rows() {
    let mut data = Vec::new();
    data.extend_from_slice(&[0x00, 0x00]); // height 0
    data.extend_from_slice(&[0x05, 0x00]); // width 5
    data.extend_from_slice(&[0x00; 20]); // anchor and bounding box
    let fd = FrameData::from_file_offset(&data, 0).unwrap();
    assert_eq!(fd.height, 0);
    assert_eq!(fd.width, 5);
    assert!(fd.data.is_empty());
}

#[test]
fn zero_width_rows_are_empty() {
    let mut data = Vec::new();
    data.extend_from_slice(&[0x02, 0x00]); // height 2
    data.extend_from_slice(&[0x00, 0x00]); // width 0
    data.extend_from_slice(&[0x00; 20]);
    data.extend_from_slice(&[0x00, 0x00]); // one end-of-row packet per row
    let fd = FrameData::from_file_offset(&data, 0).unwrap();
    assert_eq!(fd.data, vec![Vec::<u8>::new(), Vec::<u8>::new()]);
}

#[test]
fn truncated_header_is_eof() {
    let data = vec![0x01, 0x00, 0x01, 0x00]; // header stops after width
    let r = FrameData::from_file_offset(&data, 0);
    assert!(r.is_err());
}
