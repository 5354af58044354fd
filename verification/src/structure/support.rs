use vstd::prelude::*;

verus! {

/// The locks of a node support: which global degrees of freedom are held in place.
#[derive(Debug, Clone, Copy, PartialEq, Eq, Structural)]
pub struct SupportLocks {
    /// If set to true, the translation in the global X-axis is locked at current node
    pub tx: bool,
    /// If set to true, the translation in the global Z-axis is locked at current node
    pub tz: bool,
    /// If set to true, the rotation about the global Y-axis is locked at current node
    pub ry: bool,
}

impl SupportLocks {
    /// The lock at a global degree of freedom index (0=tx, 1=tz, 2=ry).
    pub open spec fn lock(self, index: int) -> bool {
        if index == 0 {
            self.tx
        } else if index == 1 {
            self.tz
        } else {
            self.ry
        }
    }

    /// Creates new support locks that have no locks set (translations and rotation are not locked)
    pub fn new() -> (s: Self)
        ensures
            !s.tx && !s.tz && !s.ry,
    {
        SupportLocks { tx: false, tz: false, ry: false }
    }

    /// Creates new support locks that are hinged (translations locked, rotation not locked)
    pub fn new_hinged() -> (s: Self)
        ensures
            s.tx && s.tz && !s.ry,
    {
        SupportLocks { tx: true, tz: true, ry: false }
    }

    /// Creates new support locks that are fixed (translations locked, rotation locked)
    pub fn new_fixed() -> (s: Self)
        ensures
            s.tx && s.tz && s.ry,
    {
        SupportLocks { tx: true, tz: true, ry: true }
    }

    /// Returns true if the degree of freedom is locked at given index (0=tx, 1=tz, 2=ry)
    pub fn get_support_lock(&self, index: usize) -> (r: bool)
        requires
            index < 3,
        ensures
            r == self.lock(index as int),
    {
        match index {
            0 => self.tx,
            1 => self.tz,
            _ => self.ry,
        }
    }
}

/// What the solver reads of a node: its number and the locks of its support.
#[derive(Debug, Clone, Copy, PartialEq, Eq, Structural)]
pub struct NodeLocks {
    /// The node number
    pub number: i32,
    /// The support locks at the node
    pub support: SupportLocks,
}

} // verus!
