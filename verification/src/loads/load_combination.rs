use vstd::prelude::*;

verus! {

/// The load combination type. All types have a bool parameter to control whether the load
/// combinations should be automatically created (when 'exploding' the load combination).
#[derive(Debug, Clone, Copy, PartialEq, Eq, Structural)]
pub enum LoadCombinationType {
    /// Ultimate limit state. The bool indicates if the load combination should be automatically
    /// created by load groups.
    ULS { is_auto: bool },
    /// Serviceability limit state - characteristic.
    SLSc { is_auto: bool },
    /// Serviceability limit state - frequent.
    SLSf { is_auto: bool },
    /// Serviceability limit state - quasi-permanent.
    SLSqp { is_auto: bool },
    /// No limit state type
    NoType,
}

} // verus!
