//! Decision logic of the bilinear resize operation.
//!
//! The surrounding import layer parses the node attributes and wires the
//! operation into the typed graph; what is decided here is how the
//! `align_corners` attribute translates into the coordinate transformer
//! the resize interpolation uses, and the arity the operation accepts.

use vstd::prelude::*;

verus! {

use crate::CoreError;

/// How output coordinates map back onto input coordinates.
#[derive(Clone, Copy, Debug, PartialEq, Eq, Structural)]
pub enum CoordTransformer {
    /// Corners of input and output grids coincide.
    AlignCorners,
    /// Pixel centres are offset by half a pixel.
    HalfPixel,
}

/// The bilinear resize operation, as far as its behaviour is decided by
/// its attributes.
#[derive(Clone, Copy, Debug, PartialEq, Eq, Structural)]
pub struct Resize {
    pub align_corners: bool,
}

impl Resize {
    pub fn new(align_corners: bool) -> (r: Resize)
        ensures
            r.align_corners == align_corners,
    {
        Resize { align_corners }
    }

    /// The operation's registered name.
    pub fn name(&self) -> (r: String)
        ensures
            r@ == "Resize"@,
    {
        let r = "Resize".to_string();
        proof {
            reveal_strlit("Resize");
        }
        r
    }

    /// Arity rule: the operation takes exactly two inputs (the image and
    /// the target sizes) and produces one output.
    pub fn rules(&self, inputs: usize, outputs: usize) -> (r: Result<(), CoreError>)
        ensures
            r is Ok <==> inputs == 2 && outputs == 1,
            r is Err ==> r == Err::<(), CoreError>(CoreError::ShapeMismatch),
    {
        if inputs == 2 && outputs == 1 {
            Ok(())
        } else {
            Err(CoreError::ShapeMismatch)
        }
    }

    /// The coordinate transformer the interpolation must use: aligned
    /// corners when the attribute asks for them, half-pixel centres
    /// otherwise.
    pub fn coord_transformer(&self) -> (r: CoordTransformer)
        ensures
            r == if self.align_corners {
                CoordTransformer::AlignCorners
            } else {
                CoordTransformer::HalfPixel
            },
    {
        if self.align_corners {
            CoordTransformer::AlignCorners
        } else {
            CoordTransformer::HalfPixel
        }
    }
}

/// Builds the resize operation from the optional integer value of the
/// `align_corners` node attribute: corners are aligned exactly when the
/// attribute is present with value 1.
pub fn resize_bilinear(align_corners_attr: Option<i64>) -> (r: Resize)
    ensures
        r.align_corners <==> align_corners_attr == Some(1i64),
{
    let align: bool = match align_corners_attr {
        Some(v) => v == 1,
        None => false,
    };
    Resize { align_corners: align }
}

} // verus!
