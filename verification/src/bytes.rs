use vstd::prelude::*;

verus! {

/// The unsigned value of the two little-endian bytes at `pos`.
pub open spec fn le16(d: Seq<u8>, pos: int) -> int {
    d[pos] + 0x100 * d[pos + 1]
}

/// The unsigned value of the four little-endian bytes at `pos`.
pub open spec fn le32(d: Seq<u8>, pos: int) -> int {
    d[pos] + 0x100 * d[pos + 1] + 0x1_0000 * d[pos + 2] + 0x100_0000 * d[pos + 3]
}

/// The two's-complement value of the four little-endian bytes at `pos`.
pub open spec fn le32_signed(d: Seq<u8>, pos: int) -> int {
    if le32(d, pos) >= 0x8000_0000 {
        le32(d, pos) - 0x1_0000_0000
    } else {
        le32(d, pos)
    }
}

/// Reads a little-endian `u16` at `pos`, or `None` when fewer than two
/// bytes remain.
pub fn read_u16_le(data: &Vec<u8>, pos: usize) -> (r: Option<u16>)
    ensures
        match r {
            Some(v) => pos + 2 <= data@.len() && v as int == le16(data@, pos as int),
            None => pos + 2 > data@.len(),
        },
{
    if data.len() >= 2 && pos <= data.len() - 2 {
        let b0 = data[pos];
        let b1 = data[pos + 1];
        Some(b0 as u16 + (b1 as u16) * 0x100)
    } else {
        None
    }
}

/// Reads a little-endian `u32` at `pos`, or `None` when fewer than four
/// bytes remain.
pub fn read_u32_le(data: &Vec<u8>, pos: usize) -> (r: Option<u32>)
    ensures
        match r {
            Some(v) => pos + 4 <= data@.len() && v as int == le32(data@, pos as int),
            None => pos + 4 > data@.len(),
        },
{
    if data.len() >= 4 && pos <= data.len() - 4 {
        let b0 = data[pos];
        let b1 = data[pos + 1];
        let b2 = data[pos + 2];
        let b3 = data[pos + 3];
        Some(
            b0 as u32 + (b1 as u32) * 0x100 + (b2 as u32) * 0x1_0000 + (b3 as u32) * 0x100_0000,
        )
    } else {
        None
    }
}

/// Reads a little-endian `i32` at `pos`, or `None` when fewer than four
/// bytes remain.
pub fn read_i32_le(data: &Vec<u8>, pos: usize) -> (r: Option<i32>)
    ensures
        match r {
            Some(v) => pos + 4 <= data@.len() && v as int == le32_signed(data@, pos as int),
            None => pos + 4 > data@.len(),
        },
{
    match read_u32_le(data, pos) {
        Some(u) => {
            if u >= 0x8000_0000 {
                let m = (u32::MAX - u) as i32;
                Some(-m - 1)
            } else {
                Some(u as i32)
            }
        },
        None => None,
    }
}

} // verus!
