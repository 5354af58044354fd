use std::collections::BTreeMap;
use vstd::prelude::*;

verus! {

/// The degrees of freedom of a single node (tx, tz, ry).
pub const NODE_DOF: usize = 3;

/// The height of the global calculation matrix: three degrees of freedom per node.
pub fn col_height<N>(nodes: &BTreeMap<i32, N>) -> (h: usize)
    requires
        nodes.len() * 3 <= usize::MAX,
    ensures
        h == nodes.len() * 3,
{
    // The degrees of freedom count of single node (tx, tz, ry)
    let dof = NODE_DOF;
    let col_height = nodes.len() * dof;
    col_height
}

} // verus!
