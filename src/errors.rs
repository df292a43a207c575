use vstd::prelude::*;

verus! {

/// Why two point sequences cannot be compared.
#[derive(Clone, Copy, Debug, PartialEq, Eq, Structural)]
pub enum CurveError {
    /// The points of the two sequences have different numbers of coordinates.
    DimensionMismatch { dim1: usize, dim2: usize },
    /// One of the sequences has no point.
    EmptySequence,
}

/// The outcome of validating two sequences of `len1` and `len2` points with
/// `dim1` and `dim2` coordinates each: the dimensions are compared first, then
/// both sequences must hold a point.
pub open spec fn shape_outcome(len1: nat, dim1: nat, len2: nat, dim2: nat) -> Result<(), CurveError> {
    if dim1 != dim2 {
        Err(CurveError::DimensionMismatch { dim1: dim1 as usize, dim2: dim2 as usize })
    } else if len1 == 0 || len2 == 0 {
        Err(CurveError::EmptySequence)
    } else {
        Ok(())
    }
}

/// Validates the shapes of two point sequences before any distance is computed.
pub fn check_shapes(len1: usize, dim1: usize, len2: usize, dim2: usize) -> (r: Result<(), CurveError>)
    ensures
        r == shape_outcome(len1 as nat, dim1 as nat, len2 as nat, dim2 as nat),
        dim1 != dim2 ==> r == Err::<(), CurveError>(CurveError::DimensionMismatch { dim1, dim2 }),
{
    if dim1 != dim2 {
        Err(CurveError::DimensionMismatch { dim1, dim2 })
    } else if len1 == 0 || len2 == 0 {
        Err(CurveError::EmptySequence)
    } else {
        Ok(())
    }
}

} // verus!
