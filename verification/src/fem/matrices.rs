use vstd::prelude::*;

use crate::fem::equivalent_loads::{node_row, ElementNodes};
use crate::fem::stiffness::ReleaseIndexMap;
use crate::structure::NodeLocks;

verus! {

broadcast use vstd::seq_lib::group_to_multiset_ensures;

/// The global rows of one node whose support leaves the translation or rotation free, in the
/// order tx, tz, ry.
pub open spec fn node_free_rows(n: NodeLocks) -> Seq<i32> {
    let base = (n.number - 1) * 3;
    (if !n.support.tx {
        seq![base as i32]
    } else {
        seq![]
    }) + (if !n.support.tz {
        seq![(base + 1) as i32]
    } else {
        seq![]
    }) + (if !n.support.ry {
        seq![(base + 2) as i32]
    } else {
        seq![]
    })
}

/// The free rows of all the nodes, node after node.
pub open spec fn nodes_free_rows(nodes: Seq<NodeLocks>) -> Seq<i32>
    decreases nodes.len(),
{
    if nodes.len() == 0 {
        seq![]
    } else {
        nodes_free_rows(nodes.drop_last()) + node_free_rows(nodes.last())
    }
}

/// The rows of the element releases, placed after the rows of the nodes.
pub open spec fn release_rows(node_count: int, row_count: int) -> Seq<i32> {
    if row_count <= node_count * 3 {
        seq![]
    } else {
        Seq::new((row_count - node_count * 3) as nat, |k: int| (node_count * 3 + k) as i32)
    }
}

/// The rows with unknown translations, before sorting.
pub open spec fn unknown_rows_unsorted(nodes: Seq<NodeLocks>, row_count: int) -> Seq<i32> {
    nodes_free_rows(nodes) + release_rows(nodes.len() as int, row_count)
}

/// The node numbers keep every row index inside `i32`.
pub open spec fn node_rows_fit(nodes: Seq<NodeLocks>) -> bool {
    forall|i: int|
        0 <= i < nodes.len() ==> i32::MIN <= (#[trigger] nodes[i].number - 1) * 3 && (
        nodes[i].number - 1) * 3 + 2 <= i32::MAX
}

/// Ascending order.
pub open spec fn is_sorted(s: Seq<i32>) -> bool {
    forall|i: int, j: int| 0 <= i <= j < s.len() ==> s[i] <= s[j]
}

/// Gathers the rows of the global matrix whose displacement is unknown: the free degrees of
/// freedom of every node and all the release rows after the node rows (`row_count` is the row
/// count of the global stiffness matrix). The rows are returned in ascending order.
pub fn get_unknown_translation_rows(nodes: &Vec<NodeLocks>, row_count: usize) -> (result: Vec<
    i32,
>)
    requires
        node_rows_fit(nodes@),
        nodes.len() * 3 <= usize::MAX,
        row_count <= i32::MAX + 1,
    ensures
        is_sorted(result@),
        result@.to_multiset() == unknown_rows_unsorted(nodes@, row_count as int).to_multiset(),
        forall|r: int| nodes.len() * 3 <= r < row_count ==> #[trigger] result@.contains(r as i32),
        forall|i: int, d: int|
            0 <= i < nodes.len() && 0 <= d < 3 && !(#[trigger] nodes@[i].support.lock(d))
                ==> result@.contains(((nodes@[i].number - 1) * 3 + d) as i32),
{
    let node_count = nodes.len();
    let mut result: Vec<i32> = Vec::new();
    let dof: usize = 3;
    let mut k: usize = 0;
    while k < node_count
        invariant
            k <= node_count,
            node_count == nodes.len(),
            dof == 3,
            node_rows_fit(nodes@),
            result@ == nodes_free_rows(nodes@.take(k as int)),
        decreases node_count - k,
    {
        let n = nodes[k];
        assert(nodes@.take(k + 1).drop_last() =~= nodes@.take(k as int));
        assert(n == nodes@[k as int]);
        let ghost before = result@;
        let base: i32 = (n.number - 1) * 3;
        let mut i: usize = 0;
        while i < dof
            invariant
                i <= dof,
                dof == 3,
                base == (n.number - 1) * 3,
                i32::MIN <= base && base + 2 <= i32::MAX,
                result@ == before + (if !n.support.tx && i > 0 {
                    seq![base]
                } else {
                    seq![]
                }) + (if !n.support.tz && i > 1 {
                    seq![(base + 1) as i32]
                } else {
                    seq![]
                }) + (if !n.support.ry && i > 2 {
                    seq![(base + 2) as i32]
                } else {
                    seq![]
                }),
            decreases dof - i,
        {
            // If the support translation is not locked -> row translation is unknown
            if !n.support.get_support_lock(i) {
                result.push(base + i as i32);
            }
            i += 1;
        }
        assert(result@ =~= before + node_free_rows(n));
        k += 1;
    }
    assert(nodes@.take(node_count as int) =~= nodes@);
    let ghost node_rows = result@;
    // Gather the rows of element releases
    let first_release: usize = node_count * dof;
    if row_count > first_release {
        let extra: usize = row_count - first_release;
        let mut j: usize = 0;
        while j < extra
            invariant
                j <= extra,
                extra == row_count - first_release,
                first_release == node_count * 3,
                row_count <= i32::MAX + 1,
                result@ == node_rows + Seq::new(j as nat, |t: int| (first_release + t) as i32),
            decreases extra - j,
        {
            result.push((first_release + j) as i32);
            j += 1;
            assert(result@ =~= node_rows + Seq::new(j as nat, |t: int| (first_release + t) as i32));
        }
    } else {
        assert(result@ =~= node_rows + release_rows(node_count as int, row_count as int));
    }
    assert(result@ =~= unknown_rows_unsorted(nodes@, row_count as int));
    // The rows are sorted so that they are in order
    let sorted = sort_rows(result);
    proof {
        let all = unknown_rows_unsorted(nodes@, row_count as int);
        lemma_unknown_rows_complete(nodes@, row_count as int);
        assert forall|r: int| nodes.len() * 3 <= r < row_count implies #[trigger] sorted@.contains(
            r as i32,
        ) by {
            assert(all.contains(r as i32));
            assert(all.to_multiset().count(r as i32) > 0);
            assert(sorted@.to_multiset().count(r as i32) > 0);
        }
        assert forall|i: int, d: int|
            0 <= i < nodes.len() && 0 <= d < 3 && !(#[trigger] nodes@[i].support.lock(
                d,
            )) implies sorted@.contains(((nodes@[i].number - 1) * 3 + d) as i32) by {
            let x = ((nodes@[i].number - 1) * 3 + d) as i32;
            assert(all.contains(x));
            assert(all.to_multiset().count(x) > 0);
            assert(sorted@.to_multiset().count(x) > 0);
        }
    }
    sorted
}

/// Sorts the rows in ascending order (insertion sort).
pub fn sort_rows(rows: Vec<i32>) -> (sorted: Vec<i32>)
    ensures
        is_sorted(sorted@),
        sorted@.to_multiset() == rows@.to_multiset(),
{
    let mut sorted: Vec<i32> = Vec::new();
    let mut k: usize = 0;
    while k < rows.len()
        invariant
            k <= rows.len(),
            is_sorted(sorted@),
            sorted@.to_multiset() == rows@.take(k as int).to_multiset(),
        decreases rows.len() - k,
    {
        let x = rows[k];
        // Find the first position holding a larger value
        let mut p: usize = 0;
        while p < sorted.len() && sorted[p] <= x
            invariant
                p <= sorted.len(),
                forall|j: int| 0 <= j < p ==> sorted@[j] <= x,
            decreases sorted.len() - p,
        {
            p += 1;
        }
        let ghost old_sorted = sorted@;
        sorted.insert(p, x);
        proof {
            vstd::seq_lib::to_multiset_insert(old_sorted, p as int, x);
            assert(rows@.take(k + 1) =~= rows@.take(k as int).push(x));
            assert forall|a: int, b: int| 0 <= a <= b < sorted@.len() implies sorted@[a]
                <= sorted@[b] by {
                if a < p as int && b > p as int {
                    assert(sorted@[a] == old_sorted[a]);
                    assert(sorted@[b] == old_sorted[b - 1]);
                } else if a < p as int && b == p as int {
                } else if a == p as int && b > p as int {
                    assert(p < old_sorted.len());
                    assert(sorted@[b] == old_sorted[b - 1]);
                    assert(old_sorted[p as int] <= old_sorted[b - 1]);
                } else if b < p as int {
                } else if a > p as int {
                    assert(sorted@[a] == old_sorted[a - 1]);
                    assert(sorted@[b] == old_sorted[b - 1]);
                }
            }
        }
        k += 1;
    }
    assert(rows@.take(rows.len() as int) =~= rows@);
    sorted
}

/// The rows of the joined matrix of the six local degrees of freedom of an element (start node
/// tx, tz, ry, end node tx, tz, ry): the row of the node, or for a released degree of freedom
/// the release row recorded in `release_index_map`.
pub fn get_release_rotation_indices(
    elem: ElementNodes,
    release_index_map: &ReleaseIndexMap,
) -> (indices: Vec<usize>)
    requires
        1 <= elem.node_start,
        1 <= elem.node_end,
        (elem.node_start - 1) * 3 + 2 <= i32::MAX,
        (elem.node_end - 1) * 3 + 2 <= i32::MAX,
    ensures
        indices.len() == 6,
        forall|k: int|
            0 <= k < 6 ==> #[trigger] indices@[k] == (if elem.releases.flag(k) {
                release_index_map.index(k) as int
            } else {
                node_row(elem, k)
            }),
{
    let dof: i32 = 3;
    let mut indices: Vec<usize> = Vec::new();
    let mut i: usize = 0;
    while i < 6
        invariant
            i <= 6,
            dof == 3,
            1 <= elem.node_start,
            1 <= elem.node_end,
            (elem.node_start - 1) * 3 + 2 <= i32::MAX,
            (elem.node_end - 1) * 3 + 2 <= i32::MAX,
            indices.len() == i,
            forall|k: int|
                0 <= k < i ==> #[trigger] indices@[k] == (if elem.releases.flag(k) {
                    release_index_map.index(k) as int
                } else {
                    node_row(elem, k)
                }),
        decreases 6 - i,
    {
        let released = elem.releases.get_release_value(i).unwrap();
        let index: usize = if released {
            match i {
                0 => release_index_map.s_tx,
                1 => release_index_map.s_tz,
                2 => release_index_map.s_ry,
                3 => release_index_map.e_tx,
                4 => release_index_map.e_tz,
                _ => release_index_map.e_ry,
            }
        } else if i < 3 {
            ((elem.node_start - 1) * dof + i as i32) as usize
        } else {
            ((elem.node_end - 1) * dof + (i - 3) as i32) as usize
        };
        indices.push(index);
        i += 1;
    }
    indices
}

/// Every node is numbered within `1..=node_count`.
pub open spec fn nodes_numbered_in(nodes: Seq<NodeLocks>, node_count: int) -> bool {
    forall|i: int| 0 <= i < nodes.len() ==> 1 <= #[trigger] nodes[i].number <= node_count
}

proof fn lemma_free_rows_below(nodes: Seq<NodeLocks>, node_count: int)
    requires
        nodes_numbered_in(nodes, node_count),
        node_count * 3 <= i32::MAX + 1,
    ensures
        forall|k: int|
            0 <= k < nodes_free_rows(nodes).len() ==> 0 <= #[trigger] nodes_free_rows(nodes)[k]
                < node_count * 3,
    decreases nodes.len(),
{
    if nodes.len() > 0 {
        let prev = nodes.drop_last();
        assert(nodes_numbered_in(prev, node_count)) by {
            assert forall|i: int| 0 <= i < prev.len() implies 1 <= #[trigger] prev[i].number
                <= node_count by {
                assert(prev[i] == nodes[i]);
            }
        }
        lemma_free_rows_below(prev, node_count);
        let n = nodes.last();
        assert(1 <= n.number <= node_count) by {
            assert(n == nodes[nodes.len() - 1]);
        }
        let rows = nodes_free_rows(nodes);
        let p = nodes_free_rows(prev);
        assert forall|k: int| 0 <= k < rows.len() implies 0 <= #[trigger] rows[k] < node_count
            * 3 by {
            if k < p.len() {
                assert(rows[k] == p[k]);
            } else {
                assert(rows[k] == node_free_rows(n)[k - p.len()]);
            }
        }
    }
}

/// The rows that the solver takes as unknown are rows of the stiffness matrix: with the nodes
/// numbered within `1..=nodes.len()` and a matrix with at least the three rows of every node,
/// every row lies in `0..row_count`.
pub proof fn lemma_unknown_rows_in_matrix(nodes: Seq<NodeLocks>, row_count: int)
    requires
        nodes_numbered_in(nodes, nodes.len() as int),
        nodes.len() * 3 <= row_count <= i32::MAX + 1,
    ensures
        forall|k: int|
            0 <= k < unknown_rows_unsorted(nodes, row_count).len() ==> 0
                <= #[trigger] unknown_rows_unsorted(nodes, row_count)[k] < row_count,
{
    lemma_free_rows_below(nodes, nodes.len() as int);
    let free = nodes_free_rows(nodes);
    let rel = release_rows(nodes.len() as int, row_count);
    let all = unknown_rows_unsorted(nodes, row_count);
    assert forall|k: int| 0 <= k < all.len() implies 0 <= #[trigger] all[k] < row_count by {
        if k < free.len() {
            assert(all[k] == free[k]);
        } else {
            assert(all[k] == rel[k - free.len()]);
        }
    }
}

/// No two nodes have the same number.
pub open spec fn numbers_distinct(nodes: Seq<NodeLocks>) -> bool {
    forall|i: int, j: int|
        0 <= i < j < nodes.len() ==> #[trigger] nodes[i].number != #[trigger] nodes[j].number
}

/// The free rows of each node lie in the three rows of that node, in increasing order.
proof fn lemma_node_free_rows(n: NodeLocks)
    requires
        i32::MIN <= (n.number - 1) * 3,
        (n.number - 1) * 3 + 2 <= i32::MAX,
    ensures
        forall|k: int|
            0 <= k < node_free_rows(n).len() ==> (n.number - 1) * 3 <= #[trigger] node_free_rows(
                n,
            )[k] < (n.number - 1) * 3 + 3,
        forall|a: int, b: int|
            0 <= a < b < node_free_rows(n).len() ==> #[trigger] node_free_rows(n)[a]
                < #[trigger] node_free_rows(n)[b],
{
}

proof fn lemma_free_rows_distinct(nodes: Seq<NodeLocks>)
    requires
        node_rows_fit(nodes),
        numbers_distinct(nodes),
    ensures
        forall|k: int|
            0 <= k < nodes_free_rows(nodes).len() ==> exists|i: int|
                #![trigger nodes[i]]
                0 <= i < nodes.len() && (nodes[i].number - 1) * 3 <= #[trigger] nodes_free_rows(
                    nodes,
                )[k] < (nodes[i].number - 1) * 3 + 3,
        forall|a: int, b: int|
            0 <= a < b < nodes_free_rows(nodes).len() ==> #[trigger] nodes_free_rows(nodes)[a]
                != #[trigger] nodes_free_rows(nodes)[b],
    decreases nodes.len(),
{
    if nodes.len() > 0 {
        let prev = nodes.drop_last();
        let n = nodes.last();
        assert(n == nodes[nodes.len() - 1]);
        assert(node_rows_fit(prev)) by {
            assert forall|i: int| 0 <= i < prev.len() implies i32::MIN <= (
            #[trigger] prev[i].number - 1) * 3 && (prev[i].number - 1) * 3 + 2 <= i32::MAX by {
                assert(prev[i] == nodes[i]);
            }
        }
        assert(numbers_distinct(prev)) by {
            assert forall|i: int, j: int| 0 <= i < j < prev.len() implies #[trigger] prev[i].number
                != #[trigger] prev[j].number by {
                assert(prev[i] == nodes[i]);
                assert(prev[j] == nodes[j]);
            }
        }
        lemma_free_rows_distinct(prev);
        lemma_node_free_rows(n);
        let p = nodes_free_rows(prev);
        let q = node_free_rows(n);
        let rows = nodes_free_rows(nodes);
        assert(rows == p + q);
        assert forall|k: int| 0 <= k < rows.len() implies exists|i: int|
            #![trigger nodes[i]]
            0 <= i < nodes.len() && (nodes[i].number - 1) * 3 <= #[trigger] rows[k] < (
            nodes[i].number - 1) * 3 + 3 by {
            if k < p.len() {
                assert(rows[k] == p[k]);
                let i = choose|i: int|
                    #![trigger prev[i]]
                    0 <= i < prev.len() && (prev[i].number - 1) * 3 <= p[k] < (prev[i].number - 1)
                        * 3 + 3;
                assert(prev[i] == nodes[i]);
            } else {
                assert(rows[k] == q[k - p.len()]);
                assert((n.number - 1) * 3 <= q[k - p.len()] < (n.number - 1) * 3 + 3);
            }
        }
        assert forall|a: int, b: int| 0 <= a < b < rows.len() implies #[trigger] rows[a]
            != #[trigger] rows[b] by {
            if b < p.len() {
                assert(rows[a] == p[a]);
                assert(rows[b] == p[b]);
            } else if a >= p.len() {
                assert(rows[a] == q[a - p.len()]);
                assert(rows[b] == q[b - p.len()]);
            } else {
                assert(rows[a] == p[a]);
                assert(rows[b] == q[b - p.len()]);
                let i = choose|i: int|
                    #![trigger prev[i]]
                    0 <= i < prev.len() && (prev[i].number - 1) * 3 <= p[a] < (prev[i].number - 1)
                        * 3 + 3;
                assert(prev[i] == nodes[i]);
                assert(nodes[i].number != nodes[nodes.len() - 1].number);
            }
        }
    }
}

/// No row is taken as unknown twice: with distinct node numbers within `1..=nodes.len()`, the
/// free rows of different nodes differ, and the release rows follow all of them.
pub proof fn lemma_unknown_rows_distinct(nodes: Seq<NodeLocks>, row_count: int)
    requires
        node_rows_fit(nodes),
        numbers_distinct(nodes),
        nodes_numbered_in(nodes, nodes.len() as int),
        nodes.len() * 3 <= row_count <= i32::MAX + 1,
    ensures
        forall|a: int, b: int|
            0 <= a < b < unknown_rows_unsorted(nodes, row_count).len() ==> #[trigger] unknown_rows_unsorted(
                nodes,
                row_count,
            )[a] != #[trigger] unknown_rows_unsorted(nodes, row_count)[b],
{
    lemma_free_rows_distinct(nodes);
    lemma_free_rows_below(nodes, nodes.len() as int);
    let free = nodes_free_rows(nodes);
    let rel = release_rows(nodes.len() as int, row_count);
    let all = unknown_rows_unsorted(nodes, row_count);
    assert forall|a: int, b: int| 0 <= a < b < all.len() implies #[trigger] all[a]
        != #[trigger] all[b] by {
        if b < free.len() {
            assert(all[a] == free[a]);
            assert(all[b] == free[b]);
        } else if a >= free.len() {
            assert(all[a] == rel[a - free.len()]);
            assert(all[b] == rel[b - free.len()]);
        } else {
            assert(all[a] == free[a]);
            assert(all[b] == rel[b - free.len()]);
        }
    }
}

proof fn lemma_free_rows_contain(nodes: Seq<NodeLocks>)
    ensures
        forall|i: int, d: int|
            0 <= i < nodes.len() && 0 <= d < 3 && !(#[trigger] nodes[i].support.lock(d))
                ==> nodes_free_rows(nodes).contains(((nodes[i].number - 1) * 3 + d) as i32),
    decreases nodes.len(),
{
    if nodes.len() > 0 {
        let prev = nodes.drop_last();
        lemma_free_rows_contain(prev);
        let n = nodes.last();
        let p = nodes_free_rows(prev);
        let q = node_free_rows(n);
        assert(nodes_free_rows(nodes) == p + q);
        assert forall|i: int, d: int|
            0 <= i < nodes.len() && 0 <= d < 3 && !(#[trigger] nodes[i].support.lock(
                d,
            )) implies nodes_free_rows(nodes).contains(((nodes[i].number - 1) * 3 + d) as i32) by {
            let x = ((nodes[i].number - 1) * 3 + d) as i32;
            if i < nodes.len() - 1 {
                assert(prev[i] == nodes[i]);
                assert(prev[i].support.lock(d) == nodes[i].support.lock(d));
                let k = choose|k: int| 0 <= k < p.len() && p[k] == x;
                assert((p + q)[k] == x);
            } else {
                assert(nodes[i] == n);
                let base = (n.number - 1) * 3;
                let ktx: int = if !n.support.tx { 1 } else { 0 };
                let ktz: int = if !n.support.tz { 1 } else { 0 };
                let k = if d == 0 {
                    0
                } else if d == 1 {
                    ktx
                } else {
                    ktx + ktz
                };
                assert(q[k] == x);
                assert((p + q)[p.len() + k] == x);
            }
        }
    }
}

/// The solver takes every degree of freedom that it has to find: the free translation or
/// rotation `d` of every node (row `(number - 1) * 3 + d`) and every row after the rows of the
/// nodes (the release rows) up to the height of the matrix.
pub proof fn lemma_unknown_rows_complete(nodes: Seq<NodeLocks>, row_count: int)
    ensures
        forall|r: int|
            nodes.len() * 3 <= r < row_count ==> #[trigger] unknown_rows_unsorted(
                nodes,
                row_count,
            ).contains(r as i32),
        forall|i: int, d: int|
            0 <= i < nodes.len() && 0 <= d < 3 && !(#[trigger] nodes[i].support.lock(d))
                ==> unknown_rows_unsorted(nodes, row_count).contains(
                ((nodes[i].number - 1) * 3 + d) as i32,
            ),
{
    lemma_free_rows_contain(nodes);
    let free = nodes_free_rows(nodes);
    let rel = release_rows(nodes.len() as int, row_count);
    let all = unknown_rows_unsorted(nodes, row_count);
    assert forall|r: int| nodes.len() * 3 <= r < row_count implies #[trigger] all.contains(
        r as i32,
    ) by {
        let k = r - nodes.len() * 3;
        assert(rel[k] == r as i32);
        assert(all[free.len() + k] == rel[k]);
    }
    assert forall|i: int, d: int|
        0 <= i < nodes.len() && 0 <= d < 3 && !(#[trigger] nodes[i].support.lock(
            d,
        )) implies all.contains(((nodes[i].number - 1) * 3 + d) as i32) by {
        let x = ((nodes[i].number - 1) * 3 + d) as i32;
        let k = choose|k: int| 0 <= k < free.len() && free[k] == x;
        assert(all[k] == x);
    }
}

} // verus!
