use vstd::prelude::*;

verus! {

/// The kind of a profile.
#[derive(Debug, Clone, Copy, PartialEq, Eq, Structural)]
pub enum ProfileType {
    /// Polygon profile. All the values are calculated from the polygon
    Polygon,
    /// A standard profile from profile library
    StandardProfile,
    /// Custom profile most likely created by the user.
    Custom,
}

} // verus!
