use vstd::prelude::*;

verus! {

/// The kind of an internal force result.
#[derive(Debug, Clone, Copy, PartialEq, Eq, Structural)]
pub enum ForceType {
    Axial,
    Shear,
    Moment,
    Deflection,
}

} // verus!
