use vstd::prelude::*;

verus! {

/// The type of a load given by the user.
#[derive(Debug, Clone, Copy, PartialEq, Eq, Structural)]
pub enum LoadType {
    Point,
    Line,
    Triangular,
    Rotational,
    /// Note. The start and end values are separated with ; (semicolon)
    Trapezoid,
    Strain,
    Thermal,
}

/// The type of a load after it has been converted for the calculation.
#[derive(Debug, Clone, Copy, PartialEq, Eq, Structural)]
pub enum CalculationLoadType {
    Point,
    Line,
    Triangular,
    Rotational,
    Strain,
}

} // verus!
