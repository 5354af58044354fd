use vstd::prelude::*;

pub mod utils;

verus! {

/// The side of a concrete section along which a rebar collection is placed.
#[derive(Debug, Clone, Copy, PartialEq, Eq, Structural)]
pub enum Side {
    /// The index argument controls where the rebar is placed.
    /// - 0 = bottom of the bounding box,
    /// - 1 = right,
    /// - 2 = top,
    /// - 3 = left
    BoundingBox { index: i32 },
    /// For polygon type, the index argument is by what line of the polygon the rebars are placed.
    Polygon { index: i32 },
}

} // verus!
