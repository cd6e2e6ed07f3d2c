use vstd::prelude::*;

use crate::bytes::{le16, le32, le32_signed, read_i32_le, read_u16_le, read_u32_le};
use crate::errors::ShapesFileError;

verus! {

// ------------------------------------------------------------------
// Mathematical model of frame decoding
// ------------------------------------------------------------------

/// Model of a decoded bitmap: the eight header fields and the pixel grid,
/// one palette-index byte per pixel, row-major.
#[verifier::ext_equal]
pub ghost struct FrameDataModel {
    pub height: int,
    pub width: int,
    pub origin_x: int,
    pub origin_y: int,
    pub minimum_x: int,
    pub minimum_y: int,
    pub maximum_x: int,
    pub maximum_y: int,
    pub pixels: Seq<Seq<u8>>,
}

/// Model of one frame-table entry together with its decoded bitmap.
#[verifier::ext_equal]
pub ghost struct FrameModel {
    pub offset_from_unit: int,
    pub color_table: int,
    pub data: FrameDataModel,
}

/// State of the scanline decoder after some packets have been applied:
/// the input position of the next packet, the rows completed so far, and
/// the partially filled current row (its length is the current column).
#[verifier::ext_equal]
pub ghost struct RowProgress {
    pub pos: int,
    pub rows: Seq<Seq<u8>>,
    pub partial: Seq<u8>,
}

/// `n` copies of the byte `v` (none for a negative `n`).
pub open spec fn repeat_byte(v: u8, n: int) -> Seq<u8> {
    Seq::new(if n < 0 { 0 } else { n as nat }, |i: int| v)
}

/// A run of declared length `len` is clipped to the `rem` columns that are
/// left in the current row, so that a row never overflows.
pub open spec fn clipped_len(len: int, rem: int) -> int {
    if rem <= 0 {
        0
    } else if len <= rem {
        len
    } else {
        rem
    }
}

/// When a write has filled the current row up to `width`, the row is
/// complete: it is appended to `rows` and the column offset returns to 0.
pub open spec fn finish_row(pos: int, rows: Seq<Seq<u8>>, partial: Seq<u8>, width: int) -> RowProgress {
    if partial.len() == width {
        RowProgress { pos, rows: rows.push(partial), partial: Seq::empty() }
    } else {
        RowProgress { pos, rows, partial }
    }
}

/// Applies the single packet found at `pos`, or `None` when the input ends
/// before the packet is complete.
///
/// Packet grammar (one control byte, then payload):
/// - `0`: fill the rest of the row with `0xFF` and start the next row;
/// - `1`: one length byte `n`, then `n` copies of `0xFF`, clipped;
/// - odd `p`: `p / 2` literal payload bytes, clipped (only the clipped
///   count is consumed from the input);
/// - even `p`: one value byte, repeated `p / 2` times, clipped.
pub open spec fn spec_apply_packet(
    d: Seq<u8>,
    pos: int,
    rows: Seq<Seq<u8>>,
    partial: Seq<u8>,
    width: int,
) -> Option<RowProgress> {
    if pos < 0 || pos >= d.len() {
        None
    } else {
        let p = d[pos];
        if p == 0 {
            Some(RowProgress {
                pos: pos + 1,
                rows: rows.push(partial + repeat_byte(0xFF, width - partial.len())),
                partial: Seq::empty(),
            })
        } else if p == 1 {
            if pos + 2 <= d.len() {
                let k = clipped_len(d[pos + 1] as int, width - partial.len());
                Some(finish_row(pos + 2, rows, partial + repeat_byte(0xFF, k), width))
            } else {
                None
            }
        } else if p % 2 == 1 {
            let k = clipped_len(p as int / 2, width - partial.len());
            if pos + 1 + k <= d.len() {
                Some(finish_row(pos + 1 + k, rows, partial + d.subrange(pos + 1, pos + 1 + k), width))
            } else {
                None
            }
        } else {
            if pos + 2 <= d.len() {
                let k = clipped_len(p as int / 2, width - partial.len());
                Some(finish_row(pos + 2, rows, partial + repeat_byte(d[pos + 1], k), width))
            } else {
                None
            }
        }
    }
}

/// Applies packets starting at `pos` until `height` rows are complete,
/// or `None` when the input ends first.
pub open spec fn spec_decode_rows(
    d: Seq<u8>,
    pos: int,
    rows: Seq<Seq<u8>>,
    partial: Seq<u8>,
    height: int,
    width: int,
) -> Option<Seq<Seq<u8>>>
    decreases d.len() - pos,
{
    if rows.len() >= height {
        Some(rows)
    } else {
        match spec_apply_packet(d, pos, rows, partial, width) {
            None => None,
            Some(st) => spec_decode_rows(d, st.pos, st.rows, st.partial, height, width),
        }
    }
}

/// Decodes a whole frame bitmap at `pos`: the eight little-endian header
/// fields, then packets until `height` rows are complete. `None` means the
/// input ended too early.
#[verifier::opaque]
pub open spec fn spec_frame_data(d: Seq<u8>, pos: int) -> Option<FrameDataModel> {
    if pos < 0 || pos + 24 > d.len() {
        None
    } else {
        let height = le16(d, pos);
        let width = le16(d, pos + 2);
        match spec_decode_rows(d, pos + 24, Seq::empty(), Seq::empty(), height, width) {
            None => None,
            Some(rows) => Some(FrameDataModel {
                height,
                width,
                origin_x: le16(d, pos + 4),
                origin_y: le16(d, pos + 6),
                minimum_x: le32_signed(d, pos + 8),
                minimum_y: le32_signed(d, pos + 12),
                maximum_x: le32_signed(d, pos + 16),
                maximum_y: le32_signed(d, pos + 20),
                pixels: rows,
            }),
        }
    }
}

// ------------------------------------------------------------------
// Executable decoder
// ------------------------------------------------------------------

/// The rows of a pixel grid, each as the sequence of its bytes.
pub open spec fn rows_view(s: Seq<Vec<u8>>) -> Seq<Seq<u8>> {
    s.map_values(|r: Vec<u8>| r@)
}

/// A decoded bitmap: canvas size, draw anchor, advisory bounding box, and
/// the pixel grid of `height` rows, each of `width` palette-index bytes.
#[derive(Debug, PartialEq, Clone)]
pub struct FrameData {
    pub height: u16,
    pub width: u16,
    pub origin_x: u16,
    pub origin_y: u16,
    pub minimum_x: i32,
    pub minimum_y: i32,
    pub maximum_x: i32,
    pub maximum_y: i32,
    pub data: Vec<Vec<u8>>,
}

impl View for FrameData {
    type V = FrameDataModel;

    open spec fn view(&self) -> FrameDataModel {
        FrameDataModel {
            height: self.height as int,
            width: self.width as int,
            origin_x: self.origin_x as int,
            origin_y: self.origin_y as int,
            minimum_x: self.minimum_x as int,
            minimum_y: self.minimum_y as int,
            maximum_x: self.maximum_x as int,
            maximum_y: self.maximum_y as int,
            pixels: rows_view(self.data@),
        }
    }
}

/// Appends `k` copies of `v` to the current row.
fn push_repeat(partial: &mut Vec<u8>, v: u8, k: usize)
    ensures
        final(partial)@ == old(partial)@ + repeat_byte(v, k as int),
{
    for i in 0..k
        invariant
            partial@ == old(partial)@ + repeat_byte(v, i as int),
    {
        partial.push(v);
        proof {
            assert(partial@ =~= old(partial)@ + repeat_byte(v, i + 1));
        }
    }
}

/// Appends the `k` input bytes found at `from` to the current row.
fn push_literal(partial: &mut Vec<u8>, data: &Vec<u8>, from: usize, k: usize)
    requires
        from + k <= data@.len(),
    ensures
        final(partial)@ == old(partial)@ + data@.subrange(from as int, from + k),
{
    let dlen: usize = data.len();
    for i in 0..k
        invariant
            from + k <= dlen,
            dlen == data@.len(),
            partial@ == old(partial)@ + data@.subrange(from as int, from + i),
    {
        let b = data[from + i];
        partial.push(b);
        proof {
            assert(partial@ =~= old(partial)@ + data@.subrange(from as int, from + i + 1));
        }
    }
}

impl FrameData {
    /// Decodes a frame bitmap from the pixel payload that starts at
    /// `offset`: eight little-endian header fields, then scanline packets
    /// until `height` rows are complete. Fails with `EOF` exactly when the
    /// input ends before the bitmap does.
    pub fn from_file_offset(data: &Vec<u8>, offset: usize) -> (r: Result<FrameData, ShapesFileError>)
        ensures
            match r {
                Ok(fd) => spec_frame_data(data@, offset as int) == Some(fd@),
                Err(e) => spec_frame_data(data@, offset as int) is None && e == ShapesFileError::EOF,
            },
    {
        proof {
            reveal(spec_frame_data);
        }
        let dlen: usize = data.len();
        let height = match read_u16_le(data, offset) {
            Some(v) => v,
            None => { return Err(ShapesFileError::EOF) },
        };
        let width = match read_u16_le(data, offset + 2) {
            Some(v) => v,
            None => { return Err(ShapesFileError::EOF) },
        };
        let origin_x = match read_u16_le(data, offset + 4) {
            Some(v) => v,
            None => { return Err(ShapesFileError::EOF) },
        };
        let origin_y = match read_u16_le(data, offset + 6) {
            Some(v) => v,
            None => { return Err(ShapesFileError::EOF) },
        };
        let minimum_x = match read_i32_le(data, offset + 8) {
            Some(v) => v,
            None => { return Err(ShapesFileError::EOF) },
        };
        let minimum_y = match read_i32_le(data, offset + 12) {
            Some(v) => v,
            None => { return Err(ShapesFileError::EOF) },
        };
        let maximum_x = match read_i32_le(data, offset + 16) {
            Some(v) => v,
            None => { return Err(ShapesFileError::EOF) },
        };
        let maximum_y = match read_i32_le(data, offset + 20) {
            Some(v) => v,
            None => { return Err(ShapesFileError::EOF) },
        };

        let ghost start = offset + 24;
        let ghost h = height as int;
        let ghost w = width as int;
        let mut rows: Vec<Vec<u8>> = Vec::new();
        let mut partial: Vec<u8> = Vec::new();
        let mut pos: usize = offset + 24;
        proof {
            assert(rows_view(rows@) =~= Seq::<Seq<u8>>::empty());
        }

        while rows.len() < height as usize
            invariant
                dlen == data@.len(),
                offset + 24 <= data@.len(),
                pos <= data@.len(),
                partial@.len() <= w,
                rows@.len() <= h,
                h == height as int,
                w == width as int,
                h == le16(data@, offset as int),
                w == le16(data@, offset as int + 2),
                start == offset + 24,
                spec_decode_rows(data@, start, Seq::empty(), Seq::empty(), h, w)
                    == spec_decode_rows(data@, pos as int, rows_view(rows@), partial@, h, w),
            decreases data@.len() - pos,
        {
            proof {
                reveal(spec_frame_data);
            }
            let ghost pos0 = pos as int;
            let ghost rows0 = rows_view(rows@);
            let ghost cur0 = partial@;

            if pos >= dlen {
                return Err(ShapesFileError::EOF);
            }
            let p = data[pos];
            if p == 0 {
                // end-of-row fill: 0xFF up to the row's width, next row begins
                let fill = width as usize - partial.len();
                push_repeat(&mut partial, 0xFF, fill);
                rows.push(partial);
                partial = Vec::new();
                pos = pos + 1;
                proof {
                    assert(rows_view(rows@) =~~= rows0.push(cur0 + repeat_byte(0xFF, w - cur0.len())));
                }
            } else if p == 1 {
                // short fill: one length byte, that many 0xFF, clipped
                if pos + 1 >= dlen {
                    return Err(ShapesFileError::EOF);
                }
                let n = data[pos + 1];
                let rem = width as usize - partial.len();
                let k = if (n as usize) < rem { n as usize } else { rem };
                push_repeat(&mut partial, 0xFF, k);
                pos = pos + 2;
                if partial.len() == width as usize {
                    rows.push(partial);
                    partial = Vec::new();
                    proof {
                        assert(rows_view(rows@) =~~= rows0.push(cur0 + repeat_byte(0xFF, k as int)));
                    }
                }
            } else if p % 2 == 1 {
                // literal run: p / 2 raw bytes copied into the row, clipped
                let declared = (p / 2) as usize;
                let rem = width as usize - partial.len();
                let k = if declared < rem { declared } else { rem };
                if k > dlen - (pos + 1) {
                    return Err(ShapesFileError::EOF);
                }
                push_literal(&mut partial, data, pos + 1, k);
                pos = pos + 1 + k;
                if partial.len() == width as usize {
                    rows.push(partial);
                    partial = Vec::new();
                    proof {
                        assert(rows_view(rows@) =~~= rows0.push(cur0 + data@.subrange(pos0 + 1, pos0 + 1 + k)));
                    }
                }
            } else {
                // repeat run: one value byte written p / 2 times, clipped
                if pos + 1 >= dlen {
                    return Err(ShapesFileError::EOF);
                }
                let v = data[pos + 1];
                let declared = (p / 2) as usize;
                let rem = width as usize - partial.len();
                let k = if declared < rem { declared } else { rem };
                push_repeat(&mut partial, v, k);
                pos = pos + 2;
                if partial.len() == width as usize {
                    rows.push(partial);
                    partial = Vec::new();
                    proof {
                        assert(rows_view(rows@) =~~= rows0.push(cur0 + repeat_byte(v, k as int)));
                    }
                }
            }
        }

        let fd = FrameData {
            height,
            width,
            origin_x,
            origin_y,
            minimum_x,
            minimum_y,
            maximum_x,
            maximum_y,
            data: rows,
        };
        Ok(fd)
    }
}

/// Decodes one frame: the 8-byte frame-table entry at `pos`, then the
/// bitmap found `offset_from_unit` bytes after the owning unit's start.
pub open spec fn spec_frame(d: Seq<u8>, pos: int, start_unit_offset: int) -> Result<
    FrameModel,
    ShapesFileError,
> {
    if pos < 0 || pos + 8 > d.len() {
        Err(ShapesFileError::EOF)
    } else {
        let offset_from_unit = le32(d, pos);
        let color_table = le32(d, pos + 4);
        if color_table != 0 {
            Err(ShapesFileError::BadColorTable(color_table as u32))
        } else {
            match spec_frame_data(d, start_unit_offset + offset_from_unit) {
                None => Err(ShapesFileError::EOF),
                Some(fd) => Ok(FrameModel { offset_from_unit, color_table: 0, data: fd }),
            }
        }
    }
}

/// One frame of a unit: the two frame-table fields and the decoded bitmap.
#[derive(Debug, PartialEq, Clone)]
pub struct Frame {
    pub offset_from_unit: u32,
    pub color_table: u32,
    pub data: FrameData,
}

impl View for Frame {
    type V = FrameModel;

    open spec fn view(&self) -> FrameModel {
        FrameModel {
            offset_from_unit: self.offset_from_unit as int,
            color_table: self.color_table as int,
            data: self.data@,
        }
    }
}

impl Frame {
    /// Reads the 8-byte frame-table entry at `*offset`, then decodes the
    /// bitmap it points to, `offset_from_unit` bytes past the start of the
    /// owning unit. On success the cursor rests just past the entry, so
    /// the caller can read the next entry contiguously; the excursion to
    /// the pixel data never moves it.
    pub fn from_file_offset(
        data: &Vec<u8>,
        offset: &mut usize,
        start_unit_offset: usize,
    ) -> (r: Result<Frame, ShapesFileError>)
        ensures
            match r {
                Ok(f) => {
                    &&& spec_frame(data@, *old(offset) as int, start_unit_offset as int) == Ok::<
                        FrameModel,
                        ShapesFileError,
                    >(f@)
                    &&& *final(offset) == *old(offset) + 8
                },
                Err(e) => {
                    &&& spec_frame(data@, *old(offset) as int, start_unit_offset as int) == Err::<
                        FrameModel,
                        ShapesFileError,
                    >(e)
                    &&& (if *old(offset) + 8 > data@.len() {
                        *final(offset) == *old(offset)
                    } else {
                        *final(offset) == *old(offset) + 8
                    })
                },
            },
    {
        proof {
            reveal(spec_frame_data);
        }
        let dlen: usize = data.len();
        let offset_from_unit = match read_u32_le(data, *offset) {
            Some(v) => v,
            None => { return Err(ShapesFileError::EOF) },
        };
        let color_table = match read_u32_le(data, *offset + 4) {
            Some(v) => v,
            None => { return Err(ShapesFileError::EOF) },
        };
        *offset = *offset + 8;
        if color_table != 0 {
            return Err(ShapesFileError::BadColorTable(color_table));
        }

        // seek to the frame's pixel data, measured from the unit's start
        let in_range = offset_from_unit as usize <= dlen
            && start_unit_offset <= dlen - offset_from_unit as usize;
        if !in_range {
            return Err(ShapesFileError::EOF);
        }
        let target = start_unit_offset + offset_from_unit as usize;
        match FrameData::from_file_offset(data, target) {
            Ok(fd) => Ok(Frame { offset_from_unit, color_table, data: fd }),
            Err(e) => Err(e),
        }
    }
}

// ------------------------------------------------------------------
// Laws of the scanline decoder
// ------------------------------------------------------------------

proof fn lemma_decode_rows_shape(
    d: Seq<u8>,
    pos: int,
    rows: Seq<Seq<u8>>,
    partial: Seq<u8>,
    height: int,
    width: int,
)
    requires
        rows.len() <= height,
        forall|i: int| 0 <= i < rows.len() ==> (#[trigger] rows[i]).len() == width,
        partial.len() <= width,
    ensures
        spec_decode_rows(d, pos, rows, partial, height, width) matches Some(g) ==> {
            &&& g.len() == height
            &&& forall|i: int| 0 <= i < g.len() ==> (#[trigger] g[i]).len() == width
        },
    decreases d.len() - pos,
{
    if rows.len() >= height {
    } else {
        match spec_apply_packet(d, pos, rows, partial, width) {
            None => {},
            Some(st) => {
                lemma_decode_rows_shape(d, st.pos, st.rows, st.partial, height, width);
            },
        }
    }
}

/// Every fully decoded bitmap has exactly `height` rows, each holding
/// exactly `width` bytes — no more and no fewer.
pub proof fn lemma_frame_data_dimensions(d: Seq<u8>, pos: int)
    ensures
        spec_frame_data(d, pos) matches Some(fd) ==> {
            &&& fd.pixels.len() == fd.height
            &&& forall|i: int| 0 <= i < fd.pixels.len() ==> (#[trigger] fd.pixels[i]).len()
                == fd.width
        },
{
    reveal(spec_frame_data);
    if pos >= 0 && pos + 24 <= d.len() {
        lemma_decode_rows_shape(
            d,
            pos + 24,
            Seq::empty(),
            Seq::empty(),
            le16(d, pos),
            le16(d, pos + 2),
        );
    }
}

/// The declared run length of the fill and run packets: the extra length
/// byte for a short fill, half the control byte otherwise.
pub open spec fn spec_declared_len(d: Seq<u8>, pos: int) -> int {
    if d[pos] == 1 {
        if pos + 1 < d.len() {
            d[pos + 1] as int
        } else {
            0
        }
    } else {
        d[pos] as int / 2
    }
}

/// Clipping law: a fill or run packet whose declared length exceeds the
/// width remaining in the current row writes exactly `width − column`
/// bytes — the row is completed, keeps what was already written, and is
/// never overflowed.
pub proof fn lemma_packet_clips_to_row(
    d: Seq<u8>,
    pos: int,
    rows: Seq<Seq<u8>>,
    partial: Seq<u8>,
    width: int,
)
    requires
        0 <= pos < d.len(),
        d[pos] != 0,
        partial.len() <= width,
        spec_declared_len(d, pos) > width - partial.len(),
    ensures
        spec_apply_packet(d, pos, rows, partial, width) matches Some(st) ==> {
            &&& st.rows == rows.push(st.rows.last())
            &&& st.rows.last().len() == width
            &&& st.rows.last().subrange(0, partial.len() as int) == partial
            &&& st.partial.len() == 0
        },
{
    match spec_apply_packet(d, pos, rows, partial, width) {
        None => {},
        Some(st) => {
            let k = width - partial.len();
            if d[pos] == 1 {
                assert((partial + repeat_byte(0xFF, k)).subrange(0, partial.len() as int)
                    =~= partial);
            } else if d[pos] % 2 == 1 {
                assert((partial + d.subrange(pos + 1, pos + 1 + k)).subrange(
                    0,
                    partial.len() as int,
                ) =~= partial);
            } else {
                assert((partial + repeat_byte(d[pos + 1], k)).subrange(0, partial.len() as int)
                    =~= partial);
            }
        },
    }
}

/// An end-of-row packet always starts a new row: it completes the current
/// row with `0xFF`, the next read sits directly after the packet byte, and
/// the column offset of the new row is zero.
pub proof fn lemma_end_of_row_packet(
    d: Seq<u8>,
    pos: int,
    rows: Seq<Seq<u8>>,
    partial: Seq<u8>,
    width: int,
)
    requires
        0 <= pos < d.len(),
        d[pos] == 0,
        partial.len() <= width,
    ensures
        spec_apply_packet(d, pos, rows, partial, width) is Some,
        spec_apply_packet(d, pos, rows, partial, width) matches Some(st) ==> {
            &&& st.pos == pos + 1
            &&& st.partial == Seq::<u8>::empty()
            &&& st.rows == rows.push(partial + repeat_byte(0xFF, width - partial.len()))
            &&& st.rows.last().len() == width
        },
{
}

/// A nonzero color-table id fails the frame with `BadColorTable` carrying
/// that id: no frame data is produced for the frame.
pub proof fn lemma_bad_color_table(d: Seq<u8>, pos: int, start_unit_offset: int)
    requires
        0 <= pos,
        pos + 8 <= d.len(),
        le32(d, pos + 4) != 0,
    ensures
        spec_frame(d, pos, start_unit_offset) == Err::<FrameModel, ShapesFileError>(
            ShapesFileError::BadColorTable(le32(d, pos + 4) as u32),
        ),
{
}

} // verus!
