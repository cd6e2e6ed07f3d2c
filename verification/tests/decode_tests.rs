use shapes::errors::ShapesFileError;
use shapes::frame::{Frame, FrameData};
use shapes::unit::UnitType;
use shapes::Shapes;

fn push_u32_le(out: &mut Vec<u8>, v: u32) {
    out.push((v & 0xFF) as u8);
    out.push(((v >> 8) & 0xFF) as u8);
    out.push(((v >> 16) & 0xFF) as u8);
    out.push(((v >> 24) & 0xFF) as u8);
}

fn push_u16_le(out: &mut Vec<u8>, v: u16) {
    out.push((v & 0xFF) as u8);
    out.push(((v >> 8) & 0xFF) as u8);
}

fn push_i32_le(out: &mut Vec<u8>, v: i32) {
    push_u32_le(out, v as u32);
}

const MAGIC: u32 = 0x30312E31;

/// The 24-byte frame-data header for a canvas of the given size, with the
/// draw anchor and the bounding box all zero.
fn frame_data_header(height: u16, width: u16) -> Vec<u8> {
    let mut out = Vec::new();
    push_u16_le(&mut out, height);
    push_u16_le(&mut out, width);
    push_u16_le(&mut out, 0);
    push_u16_le(&mut out, 0);
    push_i32_le(&mut out, 0);
    push_i32_le(&mut out, 0);
    push_i32_le(&mut out, 0);
    push_i32_le(&mut out, 0);
    out
}

/// A file holding one unit with a single frame whose pixel payload is
/// `packets`, the bitmap stored right after the 16-byte unit.
fn one_frame_file(height: u16, width: u16, packets: &[u8]) -> Vec<u8> {
    let mut out = Vec::new();
    push_u32_le(&mut out, MAGIC);
    push_u32_le(&mut out, 1); // frame count
    push_u32_le(&mut out, 16); // offset_from_unit: data follows the table
    push_u32_le(&mut out, 0); // color table
    out.extend(frame_data_header(height, width));
    out.extend_from_slice(packets);
    out
}

#[test]
fn one_empty_shape() {
    let mut data = Vec::new();
    push_u32_le(&mut data, MAGIC);
    push_u32_le(&mut data, 0);
    let shapes = Shapes::from_bytes(&data).unwrap();
    assert_eq!(shapes.units, vec![UnitType::new(0x30312E31, 0, Vec::new())]);
}

#[test]
fn three_empty_shapes() {
    let mut data = Vec::new();
    for _ in 0..3 {
        push_u32_le(&mut data, MAGIC);
        push_u32_le(&mut data, 0);
    }
    let shapes = Shapes::from_bytes(&data).unwrap();
    assert_eq!(
        shapes.units,
        vec![UnitType::new(0x30312E31, 0, Vec::new()); 3]
    );
}

#[test]
fn empty_file_scans_to_no_units() {
    let data = Vec::new();
    let shapes = Shapes::from_bytes(&data).unwrap();
    assert!(shapes.units.is_empty());
}

#[test]
fn foreign_tag_scans_to_no_units() {
    let mut data = Vec::new();
    push_u32_le(&mut data, 0xDEADBEEF);
    push_u32_le(&mut data, 7);
    let shapes = Shapes::from_bytes(&data).unwrap();
    assert!(shapes.units.is_empty());
}

#[test]
fn short_header_scans_to_no_units() {
    // a correct magic but no room for the frame count: still "no more units"
    let mut data = Vec::new();
    push_u32_le(&mut data, MAGIC);
    data.push(0x01);
    let shapes = Shapes::from_bytes(&data).unwrap();
    assert!(shapes.units.is_empty());
}

#[test]
fn zero_frame_unit_reads_empty_frame_list() {
    let mut data = Vec::new();
    push_u32_le(&mut data, MAGIC);
    push_u32_le(&mut data, 0);
    let mut offset: usize = 0;
    let unit = UnitType::from_file_offset(&data, &mut offset).unwrap();
    assert_eq!(offset, 8);
    assert_eq!(unit.version, MAGIC);
    assert_eq!(unit.frame_count, 0);
    assert!(unit.frames.is_empty());
}

#[test]
fn bad_version_is_reported_with_the_tag() {
    let mut data = Vec::new();
    push_u32_le(&mut data, 0xDEADBEEF);
    push_u32_le(&mut data, 0);
    let mut offset: usize = 0;
    let r = UnitType::from_file_offset(&data, &mut offset);
    assert!(matches!(r, Err(ShapesFileError::BadVersion(0xDEADBEEF))));
    assert_eq!(offset, 0);
}

#[test]
fn fill_row_packet_fills_with_ff() {
    // width 4, height 1, single packet 0x00: the whole row becomes 0xFF
    let data = one_frame_file(1, 4, &[0x00]);
    let shapes = Shapes::from_bytes(&data).unwrap();
    assert_eq!(shapes.units.len(), 1);
    let frame = &shapes.units[0].frames[0];
    assert_eq!(frame.data.data, vec![vec![0xFF, 0xFF, 0xFF, 0xFF]]);
}

#[test]
fn literal_run_packet_copies_bytes() {
    // width 3, height 1, packet 0x07 (odd, length 3) then three raw bytes
    let data = one_frame_file(1, 3, &[0x07, 0x01, 0x02, 0x03]);
    let shapes = Shapes::from_bytes(&data).unwrap();
    let frame = &shapes.units[0].frames[0];
    assert_eq!(frame.data.data, vec![vec![0x01, 0x02, 0x03]]);
}

#[test]
fn repeat_run_packet_clips_to_row_width() {
    // declared length 6 exceeds the remaining width 4: only 4 are written
    let data = one_frame_file(1, 4, &[0x0C, 0xAB]);
    let shapes = Shapes::from_bytes(&data).unwrap();
    let frame = &shapes.units[0].frames[0];
    assert_eq!(frame.data.data, vec![vec![0xAB, 0xAB, 0xAB, 0xAB]]);
}

#[test]
fn short_fill_packet_writes_ff_then_row_continues() {
    // packet 1 writes two 0xFF, the literal packet finishes the row
    let data = one_frame_file(1, 4, &[0x01, 0x02, 0x05, 0x09, 0x08]);
    let shapes = Shapes::from_bytes(&data).unwrap();
    let frame = &shapes.units[0].frames[0];
    assert_eq!(frame.data.data, vec![vec![0xFF, 0xFF, 0x09, 0x08]]);
}

#[test]
fn end_of_row_packet_starts_next_row_at_column_zero() {
    // row 0: one literal byte, then packet 0 completes it with 0xFF;
    // row 1 starts fresh at column 0 and takes three literal bytes
    let data = one_frame_file(2, 3, &[0x03, 0x77, 0x00, 0x07, 0x01, 0x02, 0x03]);
    let shapes = Shapes::from_bytes(&data).unwrap();
    let frame = &shapes.units[0].frames[0];
    assert_eq!(
        frame.data.data,
        vec![vec![0x77, 0xFF, 0xFF], vec![0x01, 0x02, 0x03]]
    );
}

#[test]
fn decoded_grid_has_height_rows_of_width_bytes() {
    let data = one_frame_file(2, 3, &[0x00, 0x00]);
    let shapes = Shapes::from_bytes(&data).unwrap();
    let frame = &shapes.units[0].frames[0];
    assert_eq!(frame.data.height, 2);
    assert_eq!(frame.data.width, 3);
    assert_eq!(frame.data.data.len(), 2);
    for row in &frame.data.data {
        assert_eq!(row.len(), 3);
    }
}

#[test]
fn bad_color_table_fails_the_decode() {
    let mut data = Vec::new();
    push_u32_le(&mut data, MAGIC);
    push_u32_le(&mut data, 1);
    push_u32_le(&mut data, 16);
    push_u32_le(&mut data, 5); // nonzero color table
    data.extend(frame_data_header(1, 1));
    data.push(0x00);
    let r = Shapes::from_bytes(&data);
    assert!(matches!(r, Err(ShapesFileError::BadColorTable(5))));
}

#[test]
fn truncated_frame_header_is_fatal_eof() {
    // one declared frame, but the file ends in the middle of its
    // frame-table entry
    let mut data = Vec::new();
    push_u32_le(&mut data, MAGIC);
    push_u32_le(&mut data, 1);
    push_u32_le(&mut data, 16); // only half of the 8-byte entry
    let r = Shapes::from_bytes(&data);
    assert!(matches!(r, Err(ShapesFileError::EOF)));
}

#[test]
fn truncated_pixel_payload_is_eof() {
    // the literal packet promises three bytes but only two are present
    let mut payload = frame_data_header(1, 3);
    payload.extend_from_slice(&[0x07, 0x01, 0x02]);
    let r = FrameData::from_file_offset(&payload, 0);
    assert!(matches!(r, Err(ShapesFileError::EOF)));
}

#[test]
fn frame_data_header_fields_are_little_endian() {
    let mut data = Vec::new();
    push_u16_le(&mut data, 1); // height
    push_u16_le(&mut data, 2); // width
    push_u16_le(&mut data, 3); // origin_x
    push_u16_le(&mut data, 4); // origin_y
    push_i32_le(&mut data, -5);
    push_i32_le(&mut data, -6);
    push_i32_le(&mut data, 70000);
    push_i32_le(&mut data, 80000);
    data.push(0x00); // one fill packet completes the single row
    let fd = FrameData::from_file_offset(&data, 0).unwrap();
    assert_eq!(fd.height, 1);
    assert_eq!(fd.width, 2);
    assert_eq!(fd.origin_x, 3);
    assert_eq!(fd.origin_y, 4);
    assert_eq!(fd.minimum_x, -5);
    assert_eq!(fd.minimum_y, -6);
    assert_eq!(fd.maximum_x, 70000);
    assert_eq!(fd.maximum_y, 80000);
    assert_eq!(fd.data, vec![vec![0xFF, 0xFF]]);
}

#[test]
fn frame_reader_leaves_cursor_after_the_entry() {
    let data = one_frame_file(1, 1, &[0x00]);
    let mut offset: usize = 8; // at the frame-table entry
    let frame = Frame::from_file_offset(&data, &mut offset, 0).unwrap();
    assert_eq!(offset, 16);
    assert_eq!(frame.offset_from_unit, 16);
    assert_eq!(frame.color_table, 0);
    assert_eq!(frame.data.data, vec![vec![0xFF]]);
}

#[test]
fn frame_data_may_sit_past_padding() {
    // the entry points 4 bytes past the table; padding is skipped and the
    // cursor still rests right after the entry
    let mut data = Vec::new();
    push_u32_le(&mut data, MAGIC);
    push_u32_le(&mut data, 1);
    push_u32_le(&mut data, 20); // 16-byte unit + 4 bytes of padding
    push_u32_le(&mut data, 0);
    push_u32_le(&mut data, 0xDDDDDDDD); // padding, never decoded
    data.extend(frame_data_header(1, 1));
    data.push(0x02); // repeat run, length 1
    data.push(0x42);
    let shapes = Shapes::from_bytes(&data).unwrap();
    let unit = &shapes.units[0];
    assert_eq!(unit.frame_count, 1);
    assert_eq!(unit.frames[0].offset_from_unit, 20);
    assert_eq!(unit.frames[0].data.data, vec![vec![0x42]]);
}

#[test]
fn it_works() {
    assert_eq!(2 + 2, 4);
}
