use std::collections::BTreeMap;

use vefem::fem::equivalent_loads::{get_equivalent_load_rows, ElementNodes};
use vefem::fem::matrices::{
    get_release_rotation_indices, get_unknown_translation_rows, sort_rows,
};
use vefem::fem::stiffness::{get_joined_stiffness_positions, get_released_cells, ReleaseIndexMap};
use vefem::fem::utils::col_height;
use vefem::structure::{NodeLocks, Release, SupportLocks};

#[test]
fn col_height_is_three_per_node() {
    let mut nodes: BTreeMap<i32, &str> = BTreeMap::new();
    assert_eq!(col_height(&nodes), 0);
    nodes.insert(1, "a");
    nodes.insert(2, "b");
    nodes.insert(7, "c");
    assert_eq!(col_height(&nodes), 9);
}

#[test]
fn unknown_rows_of_simple_beam() {
    // Two hinged nodes: only the rotations are unknown
    let nodes = vec![
        NodeLocks { number: 1, support: SupportLocks::new_hinged() },
        NodeLocks { number: 2, support: SupportLocks::new_hinged() },
    ];
    assert_eq!(get_unknown_translation_rows(&nodes, 6), vec![2, 5]);
}

#[test]
fn unknown_rows_are_sorted_with_releases() {
    // Nodes out of order, a free node and two release rows at the end
    let nodes = vec![
        NodeLocks { number: 3, support: SupportLocks::new() },
        NodeLocks { number: 1, support: SupportLocks::new_fixed() },
        NodeLocks { number: 2, support: SupportLocks::new_hinged() },
    ];
    assert_eq!(get_unknown_translation_rows(&nodes, 11), vec![5, 6, 7, 8, 9, 10]);
    // No release rows when the matrix is not larger than the node rows
    assert_eq!(get_unknown_translation_rows(&nodes, 9), vec![5, 6, 7, 8]);
    assert_eq!(get_unknown_translation_rows(&nodes, 3), vec![5, 6, 7, 8]);
}

#[test]
fn sort_rows_sorts_and_keeps_duplicates() {
    assert_eq!(sort_rows(vec![5, -1, 3, 3, 0, 9, -7]), vec![-7, -1, 0, 3, 3, 5, 9]);
    assert_eq!(sort_rows(vec![]), Vec::<i32>::new());
}

#[test]
fn equivalent_load_rows_without_releases() {
    let es = vec![
        ElementNodes { node_start: 1, node_end: 2, releases: Release::new() },
        ElementNodes { node_start: 2, node_end: 3, releases: Release::new() },
    ];
    let rows = get_equivalent_load_rows(&es, 3);
    assert_eq!(rows, vec![vec![0, 1, 2, 3, 4, 5], vec![3, 4, 5, 6, 7, 8]]);
}

#[test]
fn equivalent_load_rows_with_releases() {
    let mut hinge_end = Release::new();
    hinge_end.e_ry = true;
    let mut hinge_both = Release::new();
    hinge_both.s_ry = true;
    hinge_both.e_ry = true;
    let es = vec![
        ElementNodes { node_start: 1, node_end: 2, releases: hinge_end },
        ElementNodes { node_start: 2, node_end: 3, releases: hinge_both },
    ];
    let rows = get_equivalent_load_rows(&es, 3);
    // Releases take the rows after the 9 node rows, in element order
    assert_eq!(rows, vec![vec![0, 1, 2, 3, 4, 9], vec![3, 4, 10, 6, 7, 11]]);
    // Law: every row is inside the vector (9 node rows + 3 release rows)
    for r in rows.iter().flatten() {
        assert!(*r < 12);
    }
}

#[test]
fn joined_positions_without_releases() {
    let es = vec![ElementNodes { node_start: 1, node_end: 2, releases: Release::new() }];
    let (positions, maps) = get_joined_stiffness_positions(&es, 2, 0);
    assert_eq!(positions.len(), 1);
    for i in 0..6 {
        for j in 0..6 {
            // Column-major storage of a 6x6 matrix
            assert_eq!(positions[0][i][j], j + 6 * i);
        }
    }
    assert_eq!(maps, vec![ReleaseIndexMap::default()]);
}

#[test]
fn joined_positions_of_second_element() {
    let es = vec![
        ElementNodes { node_start: 1, node_end: 2, releases: Release::new() },
        ElementNodes { node_start: 2, node_end: 3, releases: Release::new() },
    ];
    let (positions, _) = get_joined_stiffness_positions(&es, 3, 0);
    // The start node of the second element is node 2 (rows 3..6), the end node is node 3
    assert_eq!(positions[1][0][0], 3 + 3 * 9);
    assert_eq!(positions[1][5][3], 6 + 8 * 9);
    assert_eq!(positions[1][1][4], 7 + 4 * 9);
}

#[test]
fn joined_positions_with_end_hinge() {
    let mut r = Release::new();
    r.e_ry = true;
    let es = vec![ElementNodes { node_start: 1, node_end: 2, releases: r }];
    let (positions, maps) = get_joined_stiffness_positions(&es, 2, 1);
    // The joined matrix is 7x7; the release row and column is 6
    assert_eq!(positions[0][5][5], 6 + 6 * 7);
    assert_eq!(positions[0][5][0], 6);
    assert_eq!(positions[0][0][5], 6 * 7);
    assert_eq!(positions[0][1][2], 2 + 7);
    assert_eq!(maps[0].e_ry, 6);
    assert_eq!(maps[0].s_ry, 0);
    // Law: every position is inside the joined matrix
    for row in positions[0].iter() {
        for p in row.iter() {
            assert!(*p < 49);
        }
    }
}

#[test]
fn joined_positions_with_two_hinges() {
    let mut r = Release::new();
    r.s_ry = true;
    r.e_ry = true;
    let es = vec![ElementNodes { node_start: 1, node_end: 2, releases: r }];
    let (positions, maps) = get_joined_stiffness_positions(&es, 2, 2);
    // Each release has its own row and column: 6 for s_ry, 7 for e_ry (8x8 matrix)
    assert_eq!(positions[0][2][2], 6 + 6 * 8);
    assert_eq!(positions[0][5][5], 7 + 7 * 8);
    assert_eq!(positions[0][5][2], 7 + 2 * 8);
    assert_eq!(positions[0][0][5], 7 * 8);
    assert_eq!(maps[0].s_ry, 6);
    assert_eq!(maps[0].e_ry, 7);
}

#[test]
fn release_index_map_set() {
    let mut m = ReleaseIndexMap::default();
    m.set(4, 11);
    m.set(9, 5);
    assert_eq!(m, ReleaseIndexMap { s_tx: 0, s_tz: 0, s_ry: 0, e_tx: 0, e_tz: 11, e_ry: 0 });
    assert_eq!(m.get(4), 11);
    assert_eq!(m.get(0), 0);
}

#[test]
fn release_rotation_indices_use_release_rows() {
    let mut r = Release::new();
    r.e_tz = true;
    let elem = ElementNodes { node_start: 2, node_end: 3, releases: r };
    let mut map = ReleaseIndexMap::default();
    map.e_tz = 9;
    assert_eq!(get_release_rotation_indices(elem, &map), vec![3, 4, 5, 6, 9, 8]);
}

#[test]
fn equivalent_loads_meet_stiffness_rows() {
    let mut r = Release::new();
    r.s_tz = true;
    r.e_ry = true;
    let es = vec![
        ElementNodes { node_start: 1, node_end: 2, releases: Release::new() },
        ElementNodes { node_start: 2, node_end: 3, releases: r },
    ];
    let rows = get_equivalent_load_rows(&es, 3);
    let (positions, _) = get_joined_stiffness_positions(&es, 3, 2);
    let w = 11;
    for i in 0..6 {
        for j in 0..6 {
            let row = positions[1][i][j] % w;
            let col = positions[1][i][j] / w;
            let released_i = r.get_release_value(i).unwrap();
            let released_j = r.get_release_value(j).unwrap();
            if released_i {
                assert_eq!(row, rows[1][i]);
            }
            if released_i && i == j {
                assert_eq!(col, rows[1][i]);
            }
            if !released_i && released_j {
                assert_eq!(col, rows[1][j]);
            }
            if !released_i && !released_j {
                assert_eq!(col, rows[1][i]);
            }
        }
    }
    assert_eq!(rows[1], vec![3, 9, 5, 6, 7, 10]);
}

#[test]
fn released_cells_of_kff() {
    assert_eq!(get_released_cells(Release::new()), vec![]);
    let mut r = Release::new();
    r.e_ry = true;
    assert_eq!(get_released_cells(r), vec![(5, 5, 0, 0)]);
    r.s_tz = true;
    // Law: one cell per pair of released indices, inside the 2x2 Kff
    assert_eq!(
        get_released_cells(r),
        vec![(1, 1, 0, 0), (1, 5, 0, 1), (5, 1, 1, 0), (5, 5, 1, 1)]
    );
}

#[test]
fn unknown_rows_are_rows_of_the_matrix_once() {
    let nodes = vec![
        NodeLocks { number: 2, support: SupportLocks::new() },
        NodeLocks { number: 1, support: SupportLocks::new_hinged() },
        NodeLocks { number: 3, support: SupportLocks { tx: false, tz: true, ry: false } },
    ];
    let rows = get_unknown_translation_rows(&nodes, 11);
    assert_eq!(rows, vec![2, 3, 4, 5, 6, 8, 9, 10]);
    // Laws: every row is a row of the 11x11 matrix, and no row comes twice
    for w in rows.windows(2) {
        assert!(w[0] < w[1]);
    }
    assert!(rows.iter().all(|r| *r >= 0 && *r < 11));
}
