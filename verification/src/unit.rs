use vstd::prelude::*;

use crate::bytes::{le32, read_u32_le};
use crate::errors::ShapesFileError;
use crate::frame::{spec_frame, Frame, FrameModel};

verus! {

/// The only version tag a unit may carry; any other tag ends the scan.
pub const SHAPES_MAGIC: u32 = 0x30312E31;

/// Model of a decoded unit: its version tag, the declared frame count,
/// and the frames in frame-table order.
#[verifier::ext_equal]
pub ghost struct UnitModel {
    pub version: int,
    pub frame_count: int,
    pub frames: Seq<FrameModel>,
}

/// The frames of a unit, each as its model.
pub open spec fn frames_view(s: Seq<Frame>) -> Seq<FrameModel> {
    s.map_values(|f: Frame| f@)
}

/// Decodes `n` frame-table entries starting at `pos`, for a unit that
/// begins at `start_unit_offset`. On success, also the position just past
/// the last entry, where the next unit begins.
pub open spec fn spec_frames(d: Seq<u8>, pos: int, n: int, start_unit_offset: int) -> Result<
    (Seq<FrameModel>, int),
    ShapesFileError,
>
    decreases n,
{
    if n <= 0 {
        Ok((Seq::empty(), pos))
    } else {
        match spec_frame(d, pos, start_unit_offset) {
            Ok(f) => match spec_frames(d, pos + 8, n - 1, start_unit_offset) {
                Ok((fs, end)) => Ok((seq![f] + fs, end)),
                Err(e) => Err(e),
            },
            Err(e) => Err(e),
        }
    }
}

/// Decodes one unit at `pos`: the 4-byte version tag, the 4-byte frame
/// count, then that many frames. `BadVersion` reports a tag that is not
/// the magic; `EOF` within the 8-byte header means the input ended between
/// units, deeper in it means a truncated unit.
pub open spec fn spec_unit(d: Seq<u8>, pos: int) -> Result<(UnitModel, int), ShapesFileError> {
    if pos < 0 || pos + 4 > d.len() {
        Err(ShapesFileError::EOF)
    } else if le32(d, pos) != SHAPES_MAGIC {
        Err(ShapesFileError::BadVersion(le32(d, pos) as u32))
    } else if pos + 8 > d.len() {
        Err(ShapesFileError::EOF)
    } else {
        match spec_frames(d, pos + 8, le32(d, pos + 4), pos) {
            Ok((fs, end)) => Ok(
                (
                    UnitModel {
                        version: SHAPES_MAGIC as int,
                        frame_count: le32(d, pos + 4),
                        frames: fs,
                    },
                    end,
                ),
            ),
            Err(e) => Err(e),
        }
    }
}

/// The frames decoded so far, prepended to what the rest of the frame
/// table decodes to.
spec fn frames_compose(
    done: Seq<FrameModel>,
    rest: Result<(Seq<FrameModel>, int), ShapesFileError>,
) -> Result<(Seq<FrameModel>, int), ShapesFileError> {
    match rest {
        Ok((fs, end)) => Ok((done + fs, end)),
        Err(e) => Err(e),
    }
}

proof fn lemma_frames_view_push(s: Seq<Frame>, f: Frame)
    ensures
        frames_view(s.push(f)) == frames_view(s).push(f@),
{
    assert(frames_view(s.push(f)) =~= frames_view(s).push(f@));
}

proof fn lemma_frames_step(
    d: Seq<u8>,
    pos: int,
    n: int,
    start_unit_offset: int,
    done: Seq<FrameModel>,
    f: FrameModel,
)
    requires
        n > 0,
        spec_frame(d, pos, start_unit_offset) == Ok::<FrameModel, ShapesFileError>(f),
    ensures
        frames_compose(done, spec_frames(d, pos, n, start_unit_offset)) == frames_compose(
            done.push(f),
            spec_frames(d, pos + 8, n - 1, start_unit_offset),
        ),
{
    match spec_frames(d, pos + 8, n - 1, start_unit_offset) {
        Ok((fs, end)) => {
            assert(done + (seq![f] + fs) =~= done.push(f) + fs);
        },
        Err(e) => {},
    }
}

/// On success the frame table holds exactly `n` entries of 8 bytes each,
/// all inside the input.
pub proof fn lemma_spec_frames_bounds(d: Seq<u8>, pos: int, n: int, start_unit_offset: int)
    requires
        pos <= d.len(),
    ensures
        spec_frames(d, pos, n, start_unit_offset) matches Ok((fs, end)) ==> {
            &&& fs.len() == if n <= 0 { 0 } else { n }
            &&& end == pos + 8 * fs.len()
            &&& end <= d.len()
        },
    decreases n,
{
    if n <= 0 {
    } else {
        match spec_frame(d, pos, start_unit_offset) {
            Ok(f) => {
                lemma_spec_frames_bounds(d, pos + 8, n - 1, start_unit_offset);
            },
            Err(e) => {},
        }
    }
}

/// A decoded unit covers at least its 8-byte header and ends inside the
/// input: the frame table runs from `pos + 8` to the returned end.
pub proof fn lemma_spec_unit_bounds(d: Seq<u8>, pos: int)
    ensures
        spec_unit(d, pos) matches Ok((u, end)) ==> pos + 8 <= end <= d.len(),
{
    if 0 <= pos && pos + 8 <= d.len() {
        assert(le32(d, pos + 4) >= 0);
        lemma_spec_frames_bounds(d, pos + 8, le32(d, pos + 4), pos);
    }
}

/// A unit: a version tag, a declared frame count, and its decoded frames.
#[derive(Debug, PartialEq, Clone)]
pub struct UnitType {
    pub version: u32,
    pub frame_count: u32,
    pub frames: Vec<Frame>,
}

impl View for UnitType {
    type V = UnitModel;

    open spec fn view(&self) -> UnitModel {
        UnitModel {
            version: self.version as int,
            frame_count: self.frame_count as int,
            frames: frames_view(self.frames@),
        }
    }
}

impl UnitType {
    /// Builds a unit from its parts, exactly as given.
    pub fn new(version: u32, frame_count: u32, frames: Vec<Frame>) -> (r: UnitType)
        ensures
            r.version == version,
            r.frame_count == frame_count,
            r.frames == frames,
    {
        UnitType { version, frame_count, frames }
    }

    /// Reads one unit whose version tag starts at `*offset`. On success
    /// the cursor rests where the next unit would begin; on failure it is
    /// unchanged.
    pub fn from_file_offset(data: &Vec<u8>, offset: &mut usize) -> (r: Result<
        UnitType,
        ShapesFileError,
    >)
        ensures
            match r {
                Ok(u) => {
                    &&& spec_unit(data@, *old(offset) as int) == Ok::<_, ShapesFileError>(
                        (u@, *final(offset) as int),
                    )
                    &&& *old(offset) + 8 <= *final(offset) <= data@.len()
                },
                Err(e) => {
                    &&& spec_unit(data@, *old(offset) as int) == Err::<(UnitModel, int), _>(e)
                    &&& *final(offset) == *old(offset)
                },
            },
    {
        let dlen: usize = data.len();
        let start_unit_offset = *offset;
        let version = match read_u32_le(data, start_unit_offset) {
            Some(v) => v,
            None => { return Err(ShapesFileError::EOF) },
        };
        if version != SHAPES_MAGIC {
            return Err(ShapesFileError::BadVersion(version));
        }
        let frame_count = match read_u32_le(data, start_unit_offset + 4) {
            Some(v) => v,
            None => { return Err(ShapesFileError::EOF) },
        };

        let mut pos: usize = start_unit_offset + 8;
        let mut frames: Vec<Frame> = Vec::new();
        proof {
            assert(frames_view(frames@) =~= Seq::<FrameModel>::empty());
        }
        let mut i: u32 = 0;
        while i < frame_count
            invariant
                dlen == data@.len(),
                start_unit_offset == *old(offset),
                *offset == *old(offset),
                start_unit_offset + 8 <= dlen,
                le32(data@, start_unit_offset as int) == SHAPES_MAGIC as int,
                le32(data@, start_unit_offset as int + 4) == frame_count as int,
                i <= frame_count,
                pos <= dlen,
                pos == start_unit_offset + 8 + 8 * (i as int),
                frames@.len() == i as int,
                spec_frames(data@, start_unit_offset + 8, frame_count as int, start_unit_offset as int)
                    == frames_compose(
                    frames_view(frames@),
                    spec_frames(data@, pos as int, frame_count - i, start_unit_offset as int),
                ),

            decreases frame_count - i,
        {
            let ghost pos0 = pos as int;
            let ghost vecs0 = frames@;
            let frame = match Frame::from_file_offset(data, &mut pos, start_unit_offset) {
                Ok(f) => f,
                Err(e) => { return Err(e) },
            };
            frames.push(frame);
            proof {
                lemma_frames_view_push(vecs0, frame);
                lemma_frames_step(
                    data@,
                    pos0,
                    frame_count - i,
                    start_unit_offset as int,
                    frames_view(vecs0),
                    frame@,
                );
            }
            i = i + 1;
        }
        proof {
            assert(frames_view(frames@) + Seq::<FrameModel>::empty() =~= frames_view(frames@));
        }
        *offset = pos;
        Ok(UnitType { version, frame_count, frames })
    }
}

/// A unit that declares zero frames decodes to an empty frame list, with
/// the next unit starting right after the 8-byte header.
pub proof fn lemma_zero_frame_unit(d: Seq<u8>, pos: int)
    requires
        0 <= pos,
        pos + 8 <= d.len(),
        le32(d, pos) == SHAPES_MAGIC,
        le32(d, pos + 4) == 0,
    ensures
        spec_unit(d, pos) == Ok::<_, ShapesFileError>(
            (
                UnitModel {
                    version: SHAPES_MAGIC as int,
                    frame_count: 0,
                    frames: Seq::<FrameModel>::empty(),
                },
                pos + 8,
            ),
        ),
{
}

} // verus!
