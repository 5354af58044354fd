use vstd::prelude::*;

verus! {

/// The type of a load group.
#[derive(Debug, Clone, Copy, PartialEq, Eq, Structural)]
pub enum GroupType {
    /// Permanent loads (unfavourable)
    Permanent,
    /// Live loads
    LiveLoad,
    /// Permanent loads (favourable)
    PermanentFav,
}

} // verus!
