pub mod bytes;
pub mod errors;
pub mod frame;
pub mod unit;

use vstd::prelude::*;

use crate::bytes::le32;
use crate::errors::ShapesFileError;
use crate::unit::{lemma_spec_unit_bounds, spec_unit, UnitModel, UnitType, SHAPES_MAGIC};

verus! {

/// The units decoded at a scan position, each as its model.
pub open spec fn units_view(s: Seq<UnitType>) -> Seq<UnitModel> {
    s.map_values(|u: UnitType| u@)
}

/// Scans units from `pos` until the input has no room left for a unit
/// header or the version tag is not the magic; both end the scan normally.
/// Any failure deeper inside a unit is fatal.
pub open spec fn spec_scan(d: Seq<u8>, pos: int) -> Result<Seq<UnitModel>, ShapesFileError>
    decreases d.len() - pos
        via spec_scan_decreases
{
    if pos < 0 || pos + 8 > d.len() {
        Ok(Seq::empty())
    } else if le32(d, pos) != SHAPES_MAGIC {
        Ok(Seq::empty())
    } else {
        match spec_unit(d, pos) {
            Ok((u, end)) => match spec_scan(d, end) {
                Ok(us) => Ok(seq![u] + us),
                Err(e) => Err(e),
            },
            Err(e) => Err(e),
        }
    }
}

#[via_fn]
proof fn spec_scan_decreases(d: Seq<u8>, pos: int) {
    if 0 <= pos && pos + 8 <= d.len() && le32(d, pos) == SHAPES_MAGIC {
        lemma_spec_unit_bounds(d, pos);
    }
}

/// The units scanned so far, prepended to what the rest of the input
/// scans to.
spec fn scan_compose(
    done: Seq<UnitModel>,
    rest: Result<Seq<UnitModel>, ShapesFileError>,
) -> Result<Seq<UnitModel>, ShapesFileError> {
    match rest {
        Ok(us) => Ok(done + us),
        Err(e) => Err(e),
    }
}

proof fn lemma_units_view_push(s: Seq<UnitType>, u: UnitType)
    ensures
        units_view(s.push(u)) == units_view(s).push(u@),
{
    assert(units_view(s.push(u)) =~= units_view(s).push(u@));
}

proof fn lemma_scan_step(d: Seq<u8>, pos: int, u: UnitModel, end: int, done: Seq<UnitModel>)
    requires
        pos + 8 <= d.len(),
        le32(d, pos) == SHAPES_MAGIC,
        spec_unit(d, pos) == Ok::<(UnitModel, int), ShapesFileError>((u, end)),
    ensures
        scan_compose(done, spec_scan(d, pos)) == scan_compose(done.push(u), spec_scan(d, end)),
{
    match spec_scan(d, end) {
        Ok(us) => {
            assert(done + (seq![u] + us) =~= done.push(u) + us);
        },
        Err(e) => {},
    }
}

/// A fully decoded Shapes file: its units in file order.
#[derive(Debug, PartialEq, Clone)]
pub struct Shapes {
    pub units: Vec<UnitType>,
}

impl View for Shapes {
    type V = Seq<UnitModel>;

    open spec fn view(&self) -> Seq<UnitModel> {
        units_view(self.units@)
    }
}

impl Shapes {
    /// Decodes a whole Shapes byte stream: units are read back to back
    /// from the start until the input has no room left for a unit header
    /// or a version tag is not the magic — both end the scan with the
    /// units read so far. Any other failure aborts the decode with no
    /// partial unit retained.
    pub fn from_bytes(data: &Vec<u8>) -> (r: Result<Shapes, ShapesFileError>)
        ensures
            match r {
                Ok(s) => spec_scan(data@, 0) == Ok::<Seq<UnitModel>, ShapesFileError>(s@),
                Err(e) => spec_scan(data@, 0) == Err::<Seq<UnitModel>, ShapesFileError>(e),
            },
    {
        let dlen: usize = data.len();
        let mut units: Vec<UnitType> = Vec::new();
        let mut offset: usize = 0;
        proof {
            assert(units_view(units@) =~= Seq::<UnitModel>::empty());
        }
        loop
            invariant
                dlen == data@.len(),
                offset <= dlen,
                spec_scan(data@, 0) == scan_compose(
                    units_view(units@),
                    spec_scan(data@, offset as int),
                ),
            ensures
                spec_scan(data@, 0) == Ok::<Seq<UnitModel>, ShapesFileError>(
                    units_view(units@),
                ),
            decreases dlen - offset,
        {
            if dlen - offset < 8 {
                proof {
                    assert(units_view(units@) + Seq::<UnitModel>::empty()
                        =~= units_view(units@));
                }
                break;
            }
            let version = match crate::bytes::read_u32_le(data, offset) {
                Some(v) => v,
                None => {
                    // at least 8 bytes remain here, so the read cannot fail
                    proof {
                        assert(false);
                    }
                    return Err(ShapesFileError::EOF);
                },
            };
            if version != SHAPES_MAGIC {
                // a foreign version tag ends the scan normally
                proof {
                    assert(units_view(units@) + Seq::<UnitModel>::empty()
                        =~= units_view(units@));
                }
                break;
            }
            let ghost offset0 = offset as int;
            let ghost done0 = units_view(units@);
            let ghost vecs0 = units@;
            match UnitType::from_file_offset(data, &mut offset) {
                Ok(u) => {
                    proof {
                        lemma_units_view_push(vecs0, u);
                        lemma_scan_step(
                            data@,
                            offset0,
                            u@,
                            offset as int,
                            done0,
                        );
                    }
                    units.push(u);
                },
                Err(e) => {
                    // past the header, every unit error is fatal
                    return Err(e);
                },
            }
        }
        Ok(Shapes { units })
    }
}

/// A valid file that holds no unit — too short for a unit header, or
/// starting with a tag other than the magic — scans to the empty unit
/// list, not to an error.
pub proof fn lemma_empty_scan(d: Seq<u8>)
    requires
        d.len() < 8 || le32(d, 0) != SHAPES_MAGIC,
    ensures
        spec_scan(d, 0) == Ok::<Seq<UnitModel>, ShapesFileError>(Seq::empty()),
{
}

} // verus!
