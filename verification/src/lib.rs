use vstd::prelude::*;

pub mod fem;
pub mod loads;
pub mod material;
pub mod profile;
pub mod reinforcement;
pub mod results;
pub mod structure;

verus! {

/// Adds two unsigned integers.
pub fn add(left: u64, right: u64) -> (sum: u64)
    requires
        left + right <= u64::MAX,
    ensures
        sum == left + right,
{
    left + right
}

} // verus!
