use vefem::structure::utils::{
    clear_element_releases, get_element_release_count, plan_calc_elements, CalcElementPlan,
};
use vefem::structure::{NodeLocks, Release, SupportLocks};

fn release(flags: [bool; 6]) -> Release {
    Release {
        s_tx: flags[0],
        s_tz: flags[1],
        s_ry: flags[2],
        e_tx: flags[3],
        e_tz: flags[4],
        e_ry: flags[5],
    }
}

#[test]
fn release_new_is_locked() {
    let r = Release::new();
    for i in 0..6 {
        assert_eq!(r.get_release_value(i), Some(false));
    }
    assert!(!r.start_release_any());
    assert!(!r.end_release_any());
    assert_eq!(r.start_release_count(), 0);
    assert_eq!(r.end_release_count(), 0);
    assert_eq!(Release::default(), r);
}

#[test]
fn release_value_by_index() {
    let r = release([true, false, true, false, false, true]);
    assert_eq!(r.get_release_value(0), Some(true));
    assert_eq!(r.get_release_value(1), Some(false));
    assert_eq!(r.get_release_value(2), Some(true));
    assert_eq!(r.get_release_value(3), Some(false));
    assert_eq!(r.get_release_value(4), Some(false));
    assert_eq!(r.get_release_value(5), Some(true));
    assert_eq!(r.get_release_value(6), None);
    assert_eq!(r.get_release_value(100), None);
}

#[test]
fn release_counts_and_any() {
    let r = release([true, false, true, false, false, true]);
    assert_eq!(r.start_release_count(), 2);
    assert_eq!(r.end_release_count(), 1);
    assert!(r.start_release_any());
    assert!(r.end_release_any());

    let only_end = release([false, false, false, true, true, true]);
    assert_eq!(only_end.start_release_count(), 0);
    assert!(!only_end.start_release_any());
    assert_eq!(only_end.end_release_count(), 3);
    assert!(only_end.end_release_any());
}

#[test]
fn release_any_matches_count() {
    // Law: any release at an end <=> its count is positive, over all flag combinations
    for bits in 0u32..64 {
        let flags = [
            bits & 1 != 0,
            bits & 2 != 0,
            bits & 4 != 0,
            bits & 8 != 0,
            bits & 16 != 0,
            bits & 32 != 0,
        ];
        let r = release(flags);
        assert_eq!(r.start_release_any(), r.start_release_count() > 0);
        assert_eq!(r.end_release_any(), r.end_release_count() > 0);
        let by_index = (0..3).filter(|i| r.get_release_value(*i) == Some(true)).count();
        assert_eq!(r.start_release_count(), by_index);
    }
}

#[test]
fn clear_releases() {
    let mut r = release([true, true, true, true, true, true]);
    clear_element_releases(&mut r);
    assert_eq!(r, Release::new());
    assert_eq!(r.start_release_count() + r.end_release_count(), 0);
}

#[test]
fn element_release_count() {
    let rs = vec![
        release([true, false, false, false, false, true]),
        Release::new(),
        release([true, true, true, true, true, true]),
    ];
    assert_eq!(get_element_release_count(&rs), 8);
    assert_eq!(get_element_release_count(&vec![]), 0);
    // Law: the count is additive over element lists
    let a = vec![release([true, false, false, false, false, true])];
    let b = vec![Release::new(), release([true, true, true, true, true, true])];
    let mut ab = vec![release([true, false, false, false, false, true])];
    ab.extend(b.iter().copied());
    assert_eq!(
        get_element_release_count(&ab),
        get_element_release_count(&a) + get_element_release_count(&b)
    );
}

#[test]
fn support_locks() {
    let free = SupportLocks::new();
    assert!(!free.get_support_lock(0) && !free.get_support_lock(1) && !free.get_support_lock(2));
    let hinged = SupportLocks::new_hinged();
    assert!(hinged.get_support_lock(0) && hinged.get_support_lock(1) && !hinged.get_support_lock(2));
    let fixed = SupportLocks::new_fixed();
    assert!(fixed.get_support_lock(0) && fixed.get_support_lock(1) && fixed.get_support_lock(2));
    let n = NodeLocks { number: 1, support: fixed };
    assert_eq!(n.number, 1);
}

#[test]
fn plan_without_splits_keeps_element() {
    let r = release([false, false, true, false, false, true]);
    let (plans, next) = plan_calc_elements(7, 1, 2, r, &vec![], 1001);
    assert_eq!(
        plans,
        vec![CalcElementPlan { calc_el_num: 1001, model_el_num: 7, node_start: 1, node_end: 2, releases: r }]
    );
    // An element that is not split does not use up a number
    assert_eq!(next, 1001);
}

#[test]
fn plan_with_three_splits() {
    let r = release([false, false, true, false, false, true]);
    let (plans, next) = plan_calc_elements(1, 1, 2, r, &vec![5, 6, 7], 1001);
    let piece = |num: i32, s: i32, e: i32, rel: Release| CalcElementPlan {
        calc_el_num: num,
        model_el_num: 1,
        node_start: s,
        node_end: e,
        releases: rel,
    };
    assert_eq!(
        plans,
        vec![
            piece(1001, 1, 5, release([false, false, true, false, false, false])),
            piece(1002, 5, 6, Release::new()),
            piece(1003, 6, 7, Release::new()),
            piece(1004, 7, 2, release([false, false, false, false, false, true])),
        ]
    );
    assert_eq!(next, 1005);
    // Law: the pieces keep the releases of the element
    let rel: Vec<Release> = plans.iter().map(|p| p.releases).collect();
    assert_eq!(get_element_release_count(&rel), 2);
}

#[test]
fn plan_with_one_split_gives_two_pieces() {
    let r = release([true, false, false, true, false, false]);
    let (plans, next) = plan_calc_elements(3, 4, 5, r, &vec![9], 10);
    assert_eq!(
        plans,
        vec![
            CalcElementPlan {
                calc_el_num: 10,
                model_el_num: 3,
                node_start: 4,
                node_end: 9,
                releases: release([true, false, false, false, false, false]),
            },
            CalcElementPlan {
                calc_el_num: 11,
                model_el_num: 3,
                node_start: 9,
                node_end: 5,
                releases: release([false, false, false, true, false, false]),
            },
        ]
    );
    assert_eq!(next, 12);
}
