//! The per-shape rules that a drawing's geometry must satisfy are decided on
//! floating-point coordinates outside this library; what they can report is
//! named here.

use vstd::prelude::*;

verus! {

/// Why a shape fails its per-shape rule.
#[derive(Clone, Copy, Debug, PartialEq, Eq, Structural)]
pub enum GeometryError {
    ZeroLengthLine,
    DegeneratePolyline,
    NonPositiveWidth,
    NonPositiveHeight,
    NonPositiveRadius,
    ZeroSweepAngle,
}

/// The message text of a `GeometryError`.
pub open spec fn geometry_error_text(e: GeometryError) -> Seq<char> {
    match e {
        GeometryError::ZeroLengthLine => "line has zero length"@,
        GeometryError::DegeneratePolyline => "polyline has fewer than two distinct points"@,
        GeometryError::NonPositiveWidth => "rectangle width must be positive"@,
        GeometryError::NonPositiveHeight => "rectangle height must be positive"@,
        GeometryError::NonPositiveRadius => "radius must be positive"@,
        GeometryError::ZeroSweepAngle => "arc sweep angle must not be zero"@,
    }
}

impl GeometryError {
    /// The human-readable message, e.g. `line has zero length`.
    pub fn message(&self) -> (s: String)
        ensures
            s@ == geometry_error_text(*self),
    {
        match self {
            GeometryError::ZeroLengthLine => String::from_str("line has zero length"),
            GeometryError::DegeneratePolyline => String::from_str(
                "polyline has fewer than two distinct points",
            ),
            GeometryError::NonPositiveWidth => String::from_str("rectangle width must be positive"),
            GeometryError::NonPositiveHeight => String::from_str("rectangle height must be positive"),
            GeometryError::NonPositiveRadius => String::from_str("radius must be positive"),
            GeometryError::ZeroSweepAngle => String::from_str("arc sweep angle must not be zero"),
        }
    }
}

} // verus!
