use vstd::prelude::*;

use crate::fem::equivalent_loads::{
    elements_release_total, flags_before, lemma_flags_before_total, lemma_total_nonneg,
    lemma_total_prefix, load_row, node_row, ElementNodes,
};
use crate::structure::{flag_count, Release};

verus! {

/// The rows of the joined stiffness matrix that hold the released degrees of freedom of one
/// element (0 for a degree of freedom that is not released).
#[derive(Debug, Clone, Copy, PartialEq, Eq, Structural)]
pub struct ReleaseIndexMap {
    /// The row of the start release in the local X-axis
    pub s_tx: usize,
    /// The row of the start release in the local Z-axis
    pub s_tz: usize,
    /// The row of the start rotation release
    pub s_ry: usize,
    /// The row of the end release in the local X-axis
    pub e_tx: usize,
    /// The row of the end release in the local Z-axis
    pub e_tz: usize,
    /// The row of the end rotation release
    pub e_ry: usize,
}

impl ReleaseIndexMap {
    /// The row stored for a local degree of freedom index
    /// (0: s_tx, 1: s_tz, 2: s_ry, 3: e_tx, 4: e_tz, 5: e_ry).
    pub open spec fn index(self, i: int) -> usize {
        if i == 0 {
            self.s_tx
        } else if i == 1 {
            self.s_tz
        } else if i == 2 {
            self.s_ry
        } else if i == 3 {
            self.e_tx
        } else if i == 4 {
            self.e_tz
        } else {
            self.e_ry
        }
    }

    /// The row stored for the release at local index `i` (0..6).
    pub fn get(&self, i: usize) -> (row: usize)
        requires
            i < 6,
        ensures
            row == self.index(i as int),
    {
        match i {
            0 => self.s_tx,
            1 => self.s_tz,
            2 => self.s_ry,
            3 => self.e_tx,
            4 => self.e_tz,
            _ => self.e_ry,
        }
    }

    /// Stores the row of the release at local index `i`; an index outside 0..6 changes nothing.
    pub fn set(&mut self, i: usize, value: usize)
        ensures
            forall|k: int|
                0 <= k < 6 ==> #[trigger] final(self).index(k) == (if k == i as int {
                    value
                } else {
                    old(self).index(k)
                }),
    {
        match i {
            0 => self.s_tx = value,
            1 => self.s_tz = value,
            2 => self.s_ry = value,
            3 => self.e_tx = value,
            4 => self.e_tz = value,
            5 => self.e_ry = value,
            _ => {},
        }
    }
}

impl Default for ReleaseIndexMap {
    fn default() -> (m: Self)
        ensures
            forall|k: int| 0 <= k < 6 ==> #[trigger] m.index(k) == 0,
    {
        ReleaseIndexMap { s_tx: 0, s_tz: 0, s_ry: 0, e_tx: 0, e_tz: 0, e_ry: 0 }
    }
}

/// Every element joins two nodes numbered within `1..=node_count`.
pub open spec fn nodes_numbered_within(es: Seq<ElementNodes>, node_count: int) -> bool {
    forall|e: int|
        0 <= e < es.len() ==> 1 <= #[trigger] es[e].node_start <= node_count && 1
            <= es[e].node_end <= node_count
}

/// The first row of the joined matrix that belongs to the releases of element `e`: the releases
/// follow the three rows of every node, in the order of the elements.
pub open spec fn release_base(es: Seq<ElementNodes>, node_count: int, e: int) -> int {
    node_count * 3 + elements_release_total(es.take(e))
}

/// The width (and height) of the joined stiffness matrix.
pub open spec fn joined_width(node_count: int, release_count: int) -> int {
    node_count * 3 + release_count
}

/// The row of the joined matrix that receives entry `(i, j)` of the global stiffness matrix of
/// element `el`, whose release rows start at `base`.
pub open spec fn cell_row(el: ElementNodes, base: int, i: int, j: int) -> int {
    let r = el.releases;
    if r.flag(i) && i == j {
        base + flags_before(r, i)
    } else if r.flag(i) {
        base + flags_before(r, i)
    } else if r.flag(j) {
        node_row(el, i)
    } else {
        node_row(el, j)
    }
}

/// The column of the joined matrix that receives entry `(i, j)` of the global stiffness matrix
/// of element `el`, whose release rows start at `base`.
pub open spec fn cell_col(el: ElementNodes, base: int, i: int, j: int) -> int {
    let r = el.releases;
    if r.flag(i) && i == j {
        base + flags_before(r, i)
    } else if r.flag(i) {
        node_row(el, j)
    } else if r.flag(j) {
        base + flags_before(r, j)
    } else {
        node_row(el, i)
    }
}

/// The row of the joined matrix that receives entry `(i, j)` of element `e`.
pub open spec fn joined_row(es: Seq<ElementNodes>, node_count: int, e: int, i: int, j: int) -> int {
    cell_row(es[e], release_base(es, node_count, e), i, j)
}

/// The column of the joined matrix that receives entry `(i, j)` of element `e`.
pub open spec fn joined_col(es: Seq<ElementNodes>, node_count: int, e: int, i: int, j: int) -> int {
    cell_col(es[e], release_base(es, node_count, e), i, j)
}

/// The position of that cell in the column-major storage of the joined matrix.
pub open spec fn joined_index(
    es: Seq<ElementNodes>,
    node_count: int,
    release_count: int,
    e: int,
    i: int,
    j: int,
) -> int {
    joined_row(es, node_count, e, i, j) + joined_col(es, node_count, e, i, j) * joined_width(
        node_count,
        release_count,
    )
}

/// The release row recorded for local index `i` of element `e`.
pub open spec fn release_index(es: Seq<ElementNodes>, node_count: int, e: int, i: int) -> int {
    if es[e].releases.flag(i) {
        release_base(es, node_count, e) + flags_before(es[e].releases, i)
    } else {
        0
    }
}

/// The row and column of the joined matrix that receive entry `(i, j)` of the element, with
/// the release row counter at `rel_row` and the release column counter at `rel_col`.
fn place_cell(
    el: ElementNodes,
    supp_rows: usize,
    w: usize,
    g: usize,
    i: usize,
    j: usize,
    rel_row: usize,
    rel_col: usize,
) -> (cell: (usize, usize))
    requires
        1 <= el.node_start,
        1 <= el.node_end,
        (el.node_start - 1) * 3 + 3 <= supp_rows,
        (el.node_end - 1) * 3 + 3 <= supp_rows,
        supp_rows + g + el.releases.total_count() <= w,
        i < 6,
        j < 6,
        rel_row == g + flags_before(el.releases, i as int),
        rel_col == g + (if el.releases.flag(i as int) {
            0
        } else {
            flags_before(el.releases, j as int)
        }),
    ensures
        cell.0 == cell_row(el, supp_rows + g, i as int, j as int),
        cell.1 == cell_col(el, supp_rows + g, i as int, j as int),
        cell.0 < w,
        cell.1 < w,
{
    let dof: usize = 3;
    let r = el.releases;
    proof {
        lemma_flags_before_total(r);
    }
    let rel_i = r.get_release_value(i).unwrap();
    let rel_j = r.get_release_value(j).unwrap();
    // The index of the start node and of the end node
    let s: usize = (el.node_start - 1) as usize;
    let en: usize = (el.node_end - 1) as usize;
    let (supp_index1, i_normalized): (usize, usize) = if i < dof {
        (s, i)
    } else {
        (en, i - dof)
    };
    let (supp_index2, j_normalized): (usize, usize) = if j < dof {
        (s, j)
    } else {
        (en, j - dof)
    };
    assert(supp_index1 * 3 + i_normalized == node_row(el, i as int));
    assert(supp_index2 * 3 + j_normalized == node_row(el, j as int));
    if rel_i || rel_j {
        if i == j {
            // The intersection of the release row and column
            (supp_rows + rel_row, supp_rows + rel_row)
        } else if rel_i {
            // A released row is moved to the release row
            (supp_rows + rel_row, supp_index2 * 3 + j_normalized)
        } else {
            // A released column is moved to the release column
            (supp_index1 * 3 + i_normalized, supp_rows + rel_col)
        }
    } else {
        (supp_index2 * 3 + j_normalized, supp_index1 * 3 + i_normalized)
    }
}

/// The positions of the 36 entries of one element's stiffness matrix, and its release rows;
/// `supp_rows + g` is the first release row of the element.
#[verifier::loop_isolation(false)]
fn place_element(el: ElementNodes, supp_rows: usize, w: usize, g: usize) -> (placed: (
    Vec<Vec<usize>>,
    ReleaseIndexMap,
))
    requires
        1 <= el.node_start,
        1 <= el.node_end,
        (el.node_start - 1) * 3 + 3 <= supp_rows,
        (el.node_end - 1) * 3 + 3 <= supp_rows,
        supp_rows + g + el.releases.total_count() <= w,
        w * w <= usize::MAX,
    ensures
        placed.0.len() == 6,
        forall|i: int| 0 <= i < 6 ==> #[trigger] placed.0@[i].len() == 6,
        forall|i: int, j: int|
            0 <= i < 6 && 0 <= j < 6 ==> #[trigger] placed.0@[i]@[j] == cell_row(
                el,
                supp_rows + g,
                i,
                j,
            ) + cell_col(el, supp_rows + g, i, j) * w,
        forall|k: int|
            0 <= k < 6 ==> #[trigger] placed.1.index(k) == (if el.releases.flag(k) {
                supp_rows + g + flags_before(el.releases, k)
            } else {
                0
            }),
{
    let dof: usize = 3;
    let r = el.releases;
    proof {
        lemma_flags_before_total(r);
    }
    let mut map = ReleaseIndexMap::default();
    let mut el_pos: Vec<Vec<usize>> = Vec::new();
    // The release row counter
    let mut rel_row: usize = g;
    let mut i: usize = 0;
    while i < 6
        invariant
            i <= 6,
            rel_row == g + flags_before(r, i as int),
            el_pos.len() == i,
            forall|i2: int| 0 <= i2 < i ==> #[trigger] el_pos@[i2].len() == 6,
            forall|i2: int, j: int|
                0 <= i2 < i && 0 <= j < 6 ==> #[trigger] el_pos@[i2]@[j] == cell_row(
                    el,
                    supp_rows + g,
                    i2,
                    j,
                ) + cell_col(el, supp_rows + g, i2, j) * w,
            forall|k: int|
                0 <= k < 6 ==> #[trigger] map.index(k) == (if k < i && r.flag(k) {
                    supp_rows + g + flags_before(r, k)
                } else {
                    0
                }),
        decreases 6 - i,
    {
        let rel_i = r.get_release_value(i).unwrap();
        // Reset the release column at every row
        let mut rel_col: usize = g;
        let mut row_pos: Vec<usize> = Vec::new();
        let mut j: usize = 0;
        while j < 6
            invariant
                j <= 6,
                rel_col == g + (if rel_i {
                    0
                } else {
                    flags_before(r, j as int)
                }),
                row_pos.len() == j,
                forall|j2: int|
                    0 <= j2 < j ==> #[trigger] row_pos@[j2] == cell_row(
                        el,
                        supp_rows + g,
                        i as int,
                        j2,
                    ) + cell_col(el, supp_rows + g, i as int, j2) * w,
                forall|k: int|
                    0 <= k < 6 ==> #[trigger] map.index(k) == (if (k < i || (k == i && j > i))
                        && r.flag(k) {
                        supp_rows + g + flags_before(r, k)
                    } else {
                        0
                    }),
            decreases 6 - j,
        {
            let rel_j = r.get_release_value(j).unwrap();
            let (row, col) = place_cell(el, supp_rows, w, g, i, j, rel_row, rel_col);
            if rel_i || rel_j {
                if i == j {
                    // The release row of a released degree of freedom
                    map.set(i, supp_rows + rel_row);
                } else if !rel_i {
                    rel_col += 1;
                }
            }
            assert(row + col * w < w * w) by (nonlinear_arith)
                requires
                    row < w,
                    col < w,
            ;
            row_pos.push(row + col * w);
            j += 1;
        }
        if rel_i {
            // Every row of a released degree of freedom takes a release row
            rel_row += 1;
        }
        el_pos.push(row_pos);
        i += 1;
    }
    (el_pos, map)
}

/// Places the global stiffness matrices of the elements into the joined stiffness matrix of the
/// structure, whose size is three rows per node plus `release_count` rows for the releases.
///
/// For every element, in order, it gives the position (in column-major storage) that receives
/// each entry `(i, j)` of the element's 6x6 matrix, and the release rows of the element. An entry
/// whose row and column are not released goes to the rows of its nodes; a released row or
/// column is moved to the release rows of the element.
///
/// Every released degree of freedom has a release row and column of its own (the k-th release
/// of an element takes the k-th release row of the element), and its diagonal entry goes to the
/// intersection of that row and column, which is also the row recorded in its
/// `ReleaseIndexMap` and the row of its equivalent load. A placement that put every release of
/// an element into the column of its first release, and recorded that one index for all of
/// them, would not meet the equivalent loads and would break that intersection rule.
pub fn get_joined_stiffness_positions(
    elements: &Vec<ElementNodes>,
    node_count: usize,
    release_count: usize,
) -> (placed: (Vec<Vec<Vec<usize>>>, Vec<ReleaseIndexMap>))
    requires
        nodes_numbered_within(elements@, node_count as int),
        elements_release_total(elements@) <= release_count,
        joined_width(node_count as int, release_count as int) * joined_width(
            node_count as int,
            release_count as int,
        ) <= usize::MAX,
    ensures
        placed.0.len() == elements.len(),
        placed.1.len() == elements.len(),
        forall|e: int| 0 <= e < elements.len() ==> #[trigger] placed.0@[e].len() == 6,
        forall|e: int, i: int|
            0 <= e < elements.len() && 0 <= i < 6 ==> #[trigger] placed.0@[e]@[i].len() == 6,
        forall|e: int, i: int, j: int|
            0 <= e < elements.len() && 0 <= i < 6 && 0 <= j < 6 ==> #[trigger] placed.0@[e]@[i]@[j]
                == joined_index(elements@, node_count as int, release_count as int, e, i, j),
        forall|e: int, i: int|
            0 <= e < elements.len() && 0 <= i < 6 ==> #[trigger] placed.1@[e].index(i)
                == release_index(elements@, node_count as int, e, i),
{
    let ghost w_int = joined_width(node_count as int, release_count as int);
    assert(w_int <= w_int * w_int) by (nonlinear_arith)
        requires
            w_int >= 0,
    ;
    let supp_rows: usize = node_count * 3;
    let w: usize = supp_rows + release_count;
    let mut positions: Vec<Vec<Vec<usize>>> = Vec::new();
    let mut maps: Vec<ReleaseIndexMap> = Vec::new();
    // The releases of the elements placed so far
    let mut g: usize = 0;
    proof {
        lemma_total_nonneg(elements@);
        assert(elements@.take(0) =~= Seq::<ElementNodes>::empty());
    }
    let mut e: usize = 0;
    while e < elements.len()
        invariant
            e <= elements.len(),
            supp_rows == node_count * 3,
            w == supp_rows + release_count,
            w * w <= usize::MAX,
            nodes_numbered_within(elements@, node_count as int),
            elements_release_total(elements@) <= release_count,
            g == elements_release_total(elements@.take(e as int)),
            positions.len() == e,
            maps.len() == e,
            forall|k: int| 0 <= k < e ==> #[trigger] positions@[k].len() == 6,
            forall|k: int, i: int|
                0 <= k < e && 0 <= i < 6 ==> #[trigger] positions@[k]@[i].len() == 6,
            forall|k: int, i: int, j: int|
                0 <= k < e && 0 <= i < 6 && 0 <= j < 6 ==> #[trigger] positions@[k]@[i]@[j]
                    == joined_index(elements@, node_count as int, release_count as int, k, i, j),
            forall|k: int, i: int|
                0 <= k < e && 0 <= i < 6 ==> #[trigger] maps@[k].index(i) == release_index(
                    elements@,
                    node_count as int,
                    k,
                    i,
                ),
        decreases elements.len() - e,
    {
        let elem = elements[e];
        proof {
            lemma_total_prefix(elements@, e as int);
        }
        assert(1 <= elem.node_start <= node_count && 1 <= elem.node_end <= node_count);
        let (el_pos, map) = place_element(elem, supp_rows, w, g);
        assert(supp_rows + g == release_base(elements@, node_count as int, e as int));
        assert(w == joined_width(node_count as int, release_count as int));
        assert(elements@[e as int] == elem);
        assert forall|i: int, j: int| 0 <= i < 6 && 0 <= j < 6 implies #[trigger] el_pos@[i]@[j]
            == joined_index(elements@, node_count as int, release_count as int, e as int, i, j) by {
        }
        g += elem.releases.start_release_count() + elem.releases.end_release_count();
        positions.push(el_pos);
        maps.push(map);
        e += 1;
    }
    (positions, maps)
}

/// Every cell that `get_joined_stiffness_positions` assigns lies inside the joined matrix: the
/// entries whose row and column are not released stay in the rows of the nodes, and the
/// released ones go to the release rows of their element.
pub proof fn lemma_joined_positions_in_bounds(
    es: Seq<ElementNodes>,
    node_count: int,
    release_count: int,
    e: int,
    i: int,
    j: int,
)
    requires
        nodes_numbered_within(es, node_count),
        elements_release_total(es) <= release_count,
        0 <= e < es.len(),
        0 <= i < 6,
        0 <= j < 6,
    ensures
        0 <= joined_row(es, node_count, e, i, j) < joined_width(node_count, release_count),
        0 <= joined_col(es, node_count, e, i, j) < joined_width(node_count, release_count),
        0 <= joined_index(es, node_count, release_count, e, i, j) < joined_width(
            node_count,
            release_count,
        ) * joined_width(node_count, release_count),
        !es[e].releases.flag(i) && !es[e].releases.flag(j) ==> joined_row(
            es,
            node_count,
            e,
            i,
            j,
        ) < node_count * 3 && joined_col(es, node_count, e, i, j) < node_count * 3,
        es[e].releases.flag(i) ==> release_base(es, node_count, e) <= joined_row(
            es,
            node_count,
            e,
            i,
            j,
        ) < release_base(es, node_count, e + 1),
{
    let el = es[e];
    let r = el.releases;
    lemma_total_prefix(es, e);
    lemma_flags_before_total(r);
    assert(1 <= el.node_start <= node_count && 1 <= el.node_end <= node_count);
    let base = release_base(es, node_count, e);
    assert(base + r.total_count() <= joined_width(node_count, release_count));
    assert(release_base(es, node_count, e + 1) == base + r.total_count());
    assert(0 <= flags_before(r, i) <= r.total_count());
    assert(0 <= flags_before(r, j) <= r.total_count());
    assert(r.flag(i) ==> flags_before(r, i) < r.total_count());
    assert(r.flag(j) ==> flags_before(r, j) < r.total_count());
    assert(0 <= node_row(el, i) < node_count * 3);
    assert(0 <= node_row(el, j) < node_count * 3);
    let row = joined_row(es, node_count, e, i, j);
    let col = joined_col(es, node_count, e, i, j);
    let w = joined_width(node_count, release_count);
    assert(0 <= row < w);
    assert(0 <= col < w);
    assert(0 <= row + col * w < w * w) by (nonlinear_arith)
        requires
            0 <= row < w,
            0 <= col < w,
    ;
}

/// The stiffness and the equivalent load of a degree of freedom meet in the same row: a released
/// local index `i` of element `e` has one release row, which receives the equivalent load of `i`,
/// the entries `(i, j)` of its row, the diagonal entry `(i, i)` in its column, the entries of the
/// unreleased rows in its column, and which is recorded as its release row; the entries of two
/// unreleased indices go to the column of the node row that receives the load.
pub proof fn lemma_loads_meet_stiffness_rows(
    es: Seq<ElementNodes>,
    node_count: int,
    e: int,
    i: int,
    j: int,
)
    requires
        0 <= e < es.len(),
        0 <= i < 6,
        0 <= j < 6,
    ensures
        es[e].releases.flag(i) ==> joined_row(es, node_count, e, i, j) == load_row(
            es,
            node_count,
            e,
            i,
        ),
        es[e].releases.flag(i) ==> joined_col(es, node_count, e, i, i) == load_row(
            es,
            node_count,
            e,
            i,
        ),
        es[e].releases.flag(i) ==> release_index(es, node_count, e, i) == load_row(
            es,
            node_count,
            e,
            i,
        ),
        !es[e].releases.flag(i) && es[e].releases.flag(j) ==> joined_col(
            es,
            node_count,
            e,
            i,
            j,
        ) == load_row(es, node_count, e, j),
        !es[e].releases.flag(i) && !es[e].releases.flag(j) ==> joined_col(
            es,
            node_count,
            e,
            i,
            j,
        ) == load_row(es, node_count, e, i),
{
}

/// The cells of row `i` of the released part K_ff of an element stiffness matrix, over the
/// columns below `m`: for a released `i` and every released column `j`, the cell `(i, j)` of the
/// element matrix with its cell in K_ff (the released rows and columns below them counted).
pub open spec fn released_row_cells(r: Release, i: int, m: int) -> Seq<(usize, usize, usize, usize)>
    decreases m,
{
    if m <= 0 {
        seq![]
    } else {
        released_row_cells(r, i, m - 1) + if r.flag(i) && r.flag(m - 1) {
            seq![
                (
                    i as usize,
                    (m - 1) as usize,
                    flags_before(r, i) as usize,
                    flags_before(r, m - 1) as usize,
                ),
            ]
        } else {
            seq![]
        }
    }
}

/// The cells of K_ff over the rows below `n`, row after row.
pub open spec fn released_cells(r: Release, n: int) -> Seq<(usize, usize, usize, usize)>
    decreases n,
{
    if n <= 0 {
        seq![]
    } else {
        released_cells(r, n - 1) + released_row_cells(r, n - 1, 6)
    }
}

/// Gathers the released part K_ff of an element stiffness matrix: for every pair `(i, j)` of
/// released local indices, in the order of the rows and then of the columns, the cell `(i, j)`
/// of the element matrix and the cell of K_ff that receives it.
pub fn get_released_cells(releases: Release) -> (cells: Vec<(usize, usize, usize, usize)>)
    ensures
        cells@ == released_cells(releases, 6),
{
    let mut cells: Vec<(usize, usize, usize, usize)> = Vec::new();
    // The row of K_ff of the current row
    let mut kff_row_cur: usize = 0;
    let mut i: usize = 0;
    while i < 6
        invariant
            i <= 6,
            kff_row_cur == flags_before(releases, i as int),
            kff_row_cur <= i,
            cells@ == released_cells(releases, i as int),
        decreases 6 - i,
    {
        let ghost before = cells@;
        let rel_row = releases.get_release_value(i).unwrap();
        let mut kff_col_cur: usize = 0;
        let mut j: usize = 0;
        while j < 6
            invariant
                j <= 6,
                i < 6,
                rel_row == releases.flag(i as int),
                kff_row_cur == flags_before(releases, i as int),
                kff_row_cur <= i,
                kff_col_cur == (if rel_row {
                    flags_before(releases, j as int)
                } else {
                    0
                }),
                kff_col_cur <= j,
                cells@ == before + released_row_cells(releases, i as int, j as int),
            decreases 6 - j,
        {
            let rel_col = releases.get_release_value(j).unwrap();
            if rel_row && rel_col {
                // The intersection of a released row and a released column
                cells.push((i, j, kff_row_cur, kff_col_cur));
                kff_col_cur += 1;
            }
            j += 1;
            assert(cells@ =~= before + released_row_cells(releases, i as int, j as int));
        }
        if rel_row {
            kff_row_cur += 1;
        }
        i += 1;
    }
    cells
}

proof fn lemma_released_row_cells(r: Release, i: int, m: int)
    requires
        0 <= i < 6,
        0 <= m <= 6,
    ensures
        released_row_cells(r, i, m).len() == (if r.flag(i) {
            flags_before(r, m)
        } else {
            0
        }),
        forall|k: int|
            0 <= k < released_row_cells(r, i, m).len() ==> {
                let c = #[trigger] released_row_cells(r, i, m)[k];
                &&& c.0 == i
                &&& r.flag(i) && r.flag(c.1 as int)
                &&& c.1 < m
                &&& c.2 == flags_before(r, i)
                &&& c.3 == flags_before(r, c.1 as int)
            },
    decreases m,
{
    lemma_flags_before_total(r);
    if m > 0 {
        lemma_released_row_cells(r, i, m - 1);
    }
}

/// The released part K_ff of an element stiffness matrix is filled exactly: it gets one cell for
/// every pair of released local indices (the square of the release count), and every cell lies
/// inside K_ff, at the row and column of the releases below its indices.
pub proof fn lemma_released_cells_fill_kff(r: Release)
    ensures
        released_cells(r, 6).len() == r.total_count() * r.total_count(),
        forall|k: int|
            0 <= k < released_cells(r, 6).len() ==> {
                let c = #[trigger] released_cells(r, 6)[k];
                &&& r.flag(c.0 as int) && r.flag(c.1 as int)
                &&& c.0 < 6 && c.1 < 6
                &&& c.2 == flags_before(r, c.0 as int) && c.3 == flags_before(r, c.1 as int)
                &&& c.2 < r.total_count() && c.3 < r.total_count()
            },
{
    lemma_flags_before_total(r);
    lemma_released_cells(r, 6);
}

proof fn lemma_released_cells(r: Release, n: int)
    requires
        0 <= n <= 6,
    ensures
        released_cells(r, n).len() == flags_before(r, n) * r.total_count(),
        forall|k: int|
            0 <= k < released_cells(r, n).len() ==> {
                let c = #[trigger] released_cells(r, n)[k];
                &&& r.flag(c.0 as int) && r.flag(c.1 as int)
                &&& c.0 < n && c.1 < 6
                &&& c.2 == flags_before(r, c.0 as int) && c.3 == flags_before(r, c.1 as int)
            },
    decreases n,
{
    lemma_flags_before_total(r);
    if n > 0 {
        lemma_released_cells(r, n - 1);
        lemma_released_row_cells(r, n - 1, 6);
        let prev = released_cells(r, n - 1);
        let row = released_row_cells(r, n - 1, 6);
        let t = r.total_count();
        let fb = flags_before(r, n - 1);
        assert(flags_before(r, n) == fb + flag_count(r.flag(n - 1)));
        assert((fb + flag_count(r.flag(n - 1))) * t == fb * t + flag_count(r.flag(n - 1)) * t)
            by (nonlinear_arith);
        assert forall|k: int| 0 <= k < released_cells(r, n).len() implies {
            let c = #[trigger] released_cells(r, n)[k];
            &&& r.flag(c.0 as int) && r.flag(c.1 as int)
            &&& c.0 < n && c.1 < 6
            &&& c.2 == flags_before(r, c.0 as int) && c.3 == flags_before(r, c.1 as int)
        } by {
            if k < prev.len() {
                assert(released_cells(r, n)[k] == prev[k]);
            } else {
                assert(released_cells(r, n)[k] == row[k - prev.len()]);
            }
        }
    }
}

/// Where each entry of an element's stiffness matrix lands, by the kind of its row and column.
/// Write `d(i)` for the global degree of freedom of local index `i` (start node rows for `i < 3`,
/// end node rows for `i >= 3`) and `rel(i)` for the release row of a released `i` (the rows after
/// the node rows, counting the releases of the earlier elements and the earlier indices):
/// - a released row `i` with `j != i`: row `rel(i)`, column `d(j)`;
/// - the diagonal of a released `i`: row and column `rel(i)`;
/// - an unreleased row `i` with a released column `j`: row `d(i)`, column `rel(j)`;
/// - neither released: row `d(j)`, column `d(i)` (the transposed place of a symmetric matrix).
pub proof fn lemma_joined_cells_by_kind(
    es: Seq<ElementNodes>,
    node_count: int,
    e: int,
    i: int,
    j: int,
)
    requires
        0 <= e < es.len(),
        0 <= i < 6,
        0 <= j < 6,
    ensures
        ({
            let el = es[e];
            let r = el.releases;
            let d_i = if i < 3 {
                (el.node_start - 1) * 3 + i
            } else {
                (el.node_end - 1) * 3 + i - 3
            };
            let d_j = if j < 3 {
                (el.node_start - 1) * 3 + j
            } else {
                (el.node_end - 1) * 3 + j - 3
            };
            let rel_i = node_count * 3 + elements_release_total(es.take(e)) + flags_before(r, i);
            let rel_j = node_count * 3 + elements_release_total(es.take(e)) + flags_before(r, j);
            let row = joined_row(es, node_count, e, i, j);
            let col = joined_col(es, node_count, e, i, j);
            &&& r.flag(i) && i != j ==> row == rel_i && col == d_j
            &&& r.flag(i) && i == j ==> row == rel_i && col == rel_i
            &&& !r.flag(i) && r.flag(j) ==> row == d_i && col == rel_j
            &&& !r.flag(i) && !r.flag(j) ==> row == d_j && col == d_i
        }),
{
}

} // verus!
