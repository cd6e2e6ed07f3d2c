use vstd::prelude::*;

verus! {

/// Everything that can go wrong while decoding a Shapes byte stream.
///
/// `EOF` is returned whenever a read runs past the end of the input;
/// `BadVersion` carries a unit version tag that is not the expected magic;
/// `BadColorTable` carries a nonzero color-table id, which the format
/// reserves but the decoder does not support.
#[derive(Debug, Clone, Copy, PartialEq, Eq)]
pub enum ShapesFileError {
    EOF,
    BadVersion(u32),
    BadColorTable(u32),
}

} // verus!
