use vstd::prelude::*;

verus! {

/// The releases at the two ends of an element. A set flag means that the degree of freedom is
/// released (not connected to the node).
#[derive(Debug, Clone, Copy, PartialEq, Eq, Structural)]
pub struct Release {
    /// Start release in elements local X-axis
    pub s_tx: bool,
    /// Start release in elements local Z-axis
    pub s_tz: bool,
    /// Start rotation release about elements local Y-axis
    pub s_ry: bool,
    /// End release in elements local X-axis
    pub e_tx: bool,
    /// End release in elements local Z-axis
    pub e_tz: bool,
    /// End rotation release about elements local Y-axis
    pub e_ry: bool,
}

/// 1 for a set flag, 0 otherwise.
pub open spec fn flag_count(b: bool) -> int {
    if b {
        1
    } else {
        0
    }
}

impl Release {
    /// The release with nothing released.
    pub open spec fn locked() -> Release {
        Release { s_tx: false, s_tz: false, s_ry: false, e_tx: false, e_tz: false, e_ry: false }
    }

    /// The flag at a local degree of freedom index
    /// (0: s_tx, 1: s_tz, 2: s_ry, 3: e_tx, 4: e_tz, 5: e_ry).
    pub open spec fn flag(self, i: int) -> bool {
        if i == 0 {
            self.s_tx
        } else if i == 1 {
            self.s_tz
        } else if i == 2 {
            self.s_ry
        } else if i == 3 {
            self.e_tx
        } else if i == 4 {
            self.e_tz
        } else {
            self.e_ry
        }
    }

    /// Whether any degree of freedom at the start of the element is released.
    pub open spec fn start_any(self) -> bool {
        self.s_tx || self.s_tz || self.s_ry
    }

    /// Whether any degree of freedom at the end of the element is released.
    pub open spec fn end_any(self) -> bool {
        self.e_tx || self.e_tz || self.e_ry
    }

    /// The number of released degrees of freedom at the start of the element.
    pub open spec fn start_count(self) -> int {
        flag_count(self.s_tx) + flag_count(self.s_tz) + flag_count(self.s_ry)
    }

    /// The number of released degrees of freedom at the end of the element.
    pub open spec fn end_count(self) -> int {
        flag_count(self.e_tx) + flag_count(self.e_tz) + flag_count(self.e_ry)
    }

    /// The number of released degrees of freedom at both ends of the element.
    pub open spec fn total_count(self) -> int {
        self.start_count() + self.end_count()
    }

    /// Creates new Release object that has no releases set (translations and rotation are all locked)
    pub fn new() -> (r: Self)
        ensures
            r == Release::locked(),
    {
        Release::default()
    }

    /// Gets the release value from given index (from range 0..=5, 0: s_tx, 1: s_tz, 2: s_ry,
    /// 3: e_tx, 4: e_tz, 5: e_ry)
    pub fn get_release_value(&self, i: usize) -> (r: Option<bool>)
        ensures
            i < 6 ==> r == Some(self.flag(i as int)),
            i >= 6 ==> r is None,
    {
        match i {
            0 => Some(self.s_tx),
            1 => Some(self.s_tz),
            2 => Some(self.s_ry),
            3 => Some(self.e_tx),
            4 => Some(self.e_tz),
            5 => Some(self.e_ry),
            _ => None,
        }
    }

    /// Whether any degree of freedom at the start of the element is released.
    pub fn start_release_any(&self) -> (r: bool)
        ensures
            r == self.start_any(),
    {
        self.s_tx || self.s_tz || self.s_ry
    }

    /// Whether any degree of freedom at the end of the element is released.
    pub fn end_release_any(&self) -> (r: bool)
        ensures
            r == self.end_any(),
    {
        self.e_tx || self.e_tz || self.e_ry
    }

    /// The number of released degrees of freedom at the start of the element.
    pub fn start_release_count(&self) -> (r: usize)
        ensures
            r == self.start_count(),
    {
        let tx: usize = if self.s_tx {
            1
        } else {
            0
        };
        let tz: usize = if self.s_tz {
            1
        } else {
            0
        };
        let ry: usize = if self.s_ry {
            1
        } else {
            0
        };
        tx + tz + ry
    }

    /// The number of released degrees of freedom at the end of the element.
    pub fn end_release_count(&self) -> (r: usize)
        ensures
            r == self.end_count(),
    {
        let tx: usize = if self.e_tx {
            1
        } else {
            0
        };
        let tz: usize = if self.e_tz {
            1
        } else {
            0
        };
        let ry: usize = if self.e_ry {
            1
        } else {
            0
        };
        tx + tz + ry
    }
}

impl Default for Release {
    fn default() -> (r: Self)
        ensures
            r == Release::locked(),
    {
        Release { s_tx: false, s_tz: false, s_ry: false, e_tx: false, e_tz: false, e_ry: false }
    }
}

/// A release has something released at its start exactly when its start release count is
/// positive, and likewise at its end.
pub proof fn lemma_release_any_iff_count(r: Release)
    ensures
        r.start_any() <==> r.start_count() > 0,
        r.end_any() <==> r.end_count() > 0,
        0 <= r.start_count() <= 3,
        0 <= r.end_count() <= 3,
{
}

/// The start release count is the number of start indices (0..3) at which
/// `get_release_value` reports a release, and the end count likewise for indices 3..6.
pub proof fn lemma_release_count_by_index(r: Release)
    ensures
        r.start_count() == flag_count(r.flag(0)) + flag_count(r.flag(1)) + flag_count(r.flag(2)),
        r.end_count() == flag_count(r.flag(3)) + flag_count(r.flag(4)) + flag_count(r.flag(5)),
{
}

/// A release with nothing released has no releases at either end.
pub proof fn lemma_locked_has_no_releases()
    ensures
        !Release::locked().start_any(),
        !Release::locked().end_any(),
        Release::locked().total_count() == 0,
        forall|i: int| 0 <= i < 6 ==> !#[trigger] Release::locked().flag(i),
{
}

} // verus!
