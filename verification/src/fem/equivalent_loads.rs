use vstd::prelude::*;

use crate::structure::{flag_count, Release};

verus! {

/// What the placement of equivalent loads reads of an element: the numbers of its end nodes and
/// its releases.
#[derive(Debug, Clone, Copy, PartialEq, Eq, Structural)]
pub struct ElementNodes {
    /// The node number at the start of the element
    pub node_start: i32,
    /// The node number at the end of the element
    pub node_end: i32,
    /// The releases of the element
    pub releases: Release,
}

/// The number of released degrees of freedom of the elements.
pub open spec fn elements_release_total(es: Seq<ElementNodes>) -> int
    decreases es.len(),
{
    if es.len() == 0 {
        0
    } else {
        elements_release_total(es.drop_last()) + es.last().releases.total_count()
    }
}

/// The number of released local degrees of freedom of `r` below index `i`.
pub open spec fn flags_before(r: Release, i: int) -> int
    decreases i,
{
    if i <= 0 {
        0
    } else {
        flags_before(r, i - 1) + flag_count(r.flag(i - 1))
    }
}

/// The global row of a local degree of freedom of an element (0..3 at the start node, 3..6 at
/// the end node).
pub open spec fn node_row(e: ElementNodes, i: int) -> int {
    if i < 3 {
        (e.node_start - 1) * 3 + i
    } else {
        (e.node_end - 1) * 3 + (i - 3)
    }
}

/// The height of the equivalent load vector: three rows per node and one row per release.
pub open spec fn load_vector_height(es: Seq<ElementNodes>, node_count: int) -> int {
    node_count * 3 + elements_release_total(es)
}

/// The row of the equivalent load vector that receives the local equivalent load `i` of element
/// `e`: released degrees of freedom get their own rows after the node rows, in the order of the
/// elements and of their local indices; the others go to the row of their node.
pub open spec fn load_row(es: Seq<ElementNodes>, node_count: int, e: int, i: int) -> int {
    if es[e].releases.flag(i) {
        node_count * 3 + elements_release_total(es.take(e)) + flags_before(es[e].releases, i)
    } else {
        node_row(es[e], i)
    }
}

/// The node rows of the locked degrees of freedom fall inside the equivalent load vector.
pub open spec fn node_rows_inside(es: Seq<ElementNodes>, node_count: int) -> bool {
    forall|e: int, i: int|
        0 <= e < es.len() && 0 <= i < 6 && !es[e].releases.flag(i) ==> 0 <= #[trigger] node_row(
            es[e],
            i,
        ) < load_vector_height(es, node_count)
}

/// The releases below an index count up to the total count of the element, and a released
/// index lies below the total.
pub(crate) proof fn lemma_flags_before_total(r: Release)
    ensures
        flags_before(r, 6) == r.total_count(),
        forall|i: int| 0 <= i <= 6 ==> 0 <= #[trigger] flags_before(r, i) <= i,
        forall|i: int| 0 <= i <= 6 ==> #[trigger] flags_before(r, i) <= r.total_count(),
        forall|i: int|
            0 <= i < 6 && r.flag(i) ==> #[trigger] flags_before(r, i) < r.total_count(),
{
    assert(flags_before(r, 0) == 0);
    assert(flags_before(r, 1) == flag_count(r.flag(0)));
    assert(flags_before(r, 2) == flags_before(r, 1) + flag_count(r.flag(1)));
    assert(flags_before(r, 3) == flags_before(r, 2) + flag_count(r.flag(2)));
    assert(flags_before(r, 4) == flags_before(r, 3) + flag_count(r.flag(3)));
    assert(flags_before(r, 5) == flags_before(r, 4) + flag_count(r.flag(4)));
    assert(flags_before(r, 6) == flags_before(r, 5) + flag_count(r.flag(5)));
}

/// The release total of the first `e + 1` elements adds the releases of element `e`, and it does
/// not exceed the total of all the elements.
pub(crate) proof fn lemma_total_prefix(es: Seq<ElementNodes>, e: int)
    requires
        0 <= e < es.len(),
    ensures
        elements_release_total(es.take(e + 1)) == elements_release_total(es.take(e))
            + es[e].releases.total_count(),
        elements_release_total(es.take(e + 1)) <= elements_release_total(es),
        0 <= elements_release_total(es.take(e)),
    decreases es.len() - e,
{
    assert(es.take(e + 1).drop_last() =~= es.take(e));
    lemma_total_nonneg(es.take(e));
    if e + 1 < es.len() {
        lemma_total_prefix(es, e + 1);
        lemma_total_nonneg(es.take(e + 1));
        assert(es[e + 1].releases.total_count() >= 0);
    } else {
        assert(es.take(e + 1) =~= es);
    }
}

/// The release total is never negative.
pub(crate) proof fn lemma_total_nonneg(es: Seq<ElementNodes>)
    ensures
        elements_release_total(es) >= 0,
    decreases es.len(),
{
    if es.len() > 0 {
        lemma_total_nonneg(es.drop_last());
    }
}

/// Places the equivalent loads of the elements into the global equivalent load vector: for every
/// element the six rows (start node tx, tz, ry, end node tx, tz, ry) that receive its local
/// equivalent loads. The rows of released degrees of freedom come after the rows of the nodes,
/// one for each release.
pub fn get_equivalent_load_rows(elements: &Vec<ElementNodes>, node_count: usize) -> (rows: Vec<
    Vec<usize>,
>)
    requires
        load_vector_height(elements@, node_count as int) <= usize::MAX,
        node_rows_inside(elements@, node_count as int),
    ensures
        rows.len() == elements.len(),
        forall|e: int|
            0 <= e < elements.len() ==> #[trigger] rows@[e].len() == 6 && forall|i: int|
                0 <= i < 6 ==> rows@[e]@[i] == load_row(elements@, node_count as int, e, i),
{
    let es = elements;
    let ghost height = load_vector_height(es@, node_count as int);
    let dof: usize = 3;
    proof {
        lemma_total_nonneg(es@);
        assert(es@.take(0) =~= Seq::<ElementNodes>::empty());
    }
    let mut rows: Vec<Vec<usize>> = Vec::new();
    // The next free row for a release
    let mut rel_col: usize = node_count * dof;
    let mut e: usize = 0;
    while e < es.len()
        invariant
            e <= es.len(),
            dof == 3,
            height == load_vector_height(es@, node_count as int),
            height <= usize::MAX,
            node_rows_inside(es@, node_count as int),
            rel_col == node_count * 3 + elements_release_total(es@.take(e as int)),
            rows.len() == e,
            forall|k: int|
                0 <= k < e ==> #[trigger] rows@[k].len() == 6 && forall|i: int|
                    0 <= i < 6 ==> rows@[k]@[i] == load_row(es@, node_count as int, k, i),
        decreases es.len() - e,
    {
        let elem = es[e];
        proof {
            lemma_total_prefix(es@, e as int);
            lemma_flags_before_total(elem.releases);
        }
        let ghost base = rel_col as int;
        let mut el_rows: Vec<usize> = Vec::new();
        let mut i: usize = 0;
        while i < 6
            invariant
                i <= 6,
                dof == 3,
                elem == es@[e as int],
                0 <= e < es.len(),
                base == node_count * 3 + elements_release_total(es@.take(e as int)),
                base + elem.releases.total_count() <= height,
                height == load_vector_height(es@, node_count as int),
                height <= usize::MAX,
                node_rows_inside(es@, node_count as int),
                rel_col == base + flags_before(elem.releases, i as int),
                forall|i: int|
                    0 <= i <= 6 ==> #[trigger] flags_before(elem.releases, i)
                        <= elem.releases.total_count(),
                forall|i: int|
                    0 <= i < 6 && elem.releases.flag(i) ==> #[trigger] flags_before(
                        elem.releases,
                        i,
                    ) < elem.releases.total_count(),
                el_rows.len() == i,
                forall|j: int| 0 <= j < i ==> el_rows@[j] == load_row(es@, node_count as int, e as int, j),
            decreases 6 - i,
        {
            let released = elem.releases.get_release_value(i).unwrap();
            if released {
                // A released degree of freedom gets its own row after the node rows
                el_rows.push(rel_col);
                rel_col += 1;
            } else {
                assert(!es@[e as int].releases.flag(i as int));
                assert(0 <= node_row(es@[e as int], i as int) < height);
                let row: usize = if i < dof {
                    ((elem.node_start - 1) as usize) * dof + i
                } else {
                    ((elem.node_end - 1) as usize) * dof + (i - dof)
                };
                el_rows.push(row);
            }
            i += 1;
        }
        assert(rel_col == base + elem.releases.total_count());
        rows.push(el_rows);
        e += 1;
    }
    rows
}

/// Every row that `get_equivalent_load_rows` assigns lies inside the equivalent load vector, and
/// the released degrees of freedom of the elements take its last rows.
pub proof fn lemma_load_rows_in_bounds(es: Seq<ElementNodes>, node_count: int, e: int, i: int)
    requires
        node_count >= 0,
        node_rows_inside(es, node_count),
        0 <= e < es.len(),
        0 <= i < 6,
    ensures
        0 <= load_row(es, node_count, e, i) < load_vector_height(es, node_count),
        es[e].releases.flag(i) ==> node_count * 3 <= load_row(es, node_count, e, i),
{
    lemma_total_prefix(es, e);
    lemma_flags_before_total(es[e].releases);
    if !es[e].releases.flag(i) {
        assert(0 <= node_row(es[e], i) < load_vector_height(es, node_count));
    }
}

} // verus!
