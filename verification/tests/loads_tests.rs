use vefem::loads::lc_utils::{
    load_factor_source, load_is_included, plan_calc_load_combinations, CombinationPlan,
    FactorKind, FactorSource, LoadEntry, PlannedFactor,
};
use vefem::loads::utils::{
    expand_element_numbers, extract_linked_elements, load_is_linked, split_element_numbers,
    split_text, ElementNumberToken,
};
use vefem::loads::GroupType;

/// Resolves an element number list with the library, parsing the numbers with `str::parse`.
fn linked_numbers(s: &str) -> Vec<i32> {
    let ranges: Vec<(i32, i32)> = split_element_numbers(s)
        .into_iter()
        .map(|t| match t {
            ElementNumberToken::Single(n) => {
                let n: i32 = n.trim().parse().unwrap();
                (n, n)
            }
            ElementNumberToken::Range(a, b) => {
                (a.trim().parse().unwrap(), b.trim().parse().unwrap())
            }
        })
        .collect();
    expand_element_numbers(&ranges)
}

#[test]
fn t_get_element_list() {
    assert_eq!(vec![1, 2, 3], linked_numbers("1,2,3"));
    assert_eq!(vec![1, 2, 6, 8], linked_numbers("1,2,6,8"));
    assert_eq!(vec![1, 3, 4, 5, 6, 8], linked_numbers("1,3..6,8"));
    assert_eq!(vec![-1], linked_numbers("-1"));
}

#[test]
fn element_number_tokens() {
    assert_eq!(
        split_element_numbers("1,,3..6,2..3..4,7"),
        vec![
            ElementNumberToken::Single("1".to_string()),
            ElementNumberToken::Range("3".to_string(), "6".to_string()),
            ElementNumberToken::Single("7".to_string()),
        ]
    );
    assert_eq!(split_element_numbers(""), vec![]);
    assert_eq!(split_element_numbers(",,"), vec![]);
    // Leftmost non-overlapping `..`: "1...3" splits into "1" and ".3"
    assert_eq!(
        split_element_numbers("1...3"),
        vec![ElementNumberToken::Range("1".to_string(), ".3".to_string())]
    );
}

#[test]
fn split_text_like_str_split() {
    for (s, sep) in [("a,b,,c", ','), ("", ','), (",", ','), ("abc", ','), ("1 2  3", ' ')] {
        let expected: Vec<String> = s.split(sep).map(|p| p.to_string()).collect();
        assert_eq!(split_text(s, sep), expected);
    }
}

#[test]
fn expand_ranges() {
    assert_eq!(expand_element_numbers(&vec![(3, 6), (8, 8), (5, 4)]), vec![3, 4, 5, 6, 8]);
    assert_eq!(
        expand_element_numbers(&vec![(i32::MAX - 1, i32::MAX)]),
        vec![i32::MAX - 1, i32::MAX]
    );
}

#[test]
fn linking() {
    assert!(load_is_linked(5, &vec![1, 5]));
    assert!(!load_is_linked(4, &vec![1, 5]));
    // -1 links to every element
    assert!(load_is_linked(4, &vec![-1]));
    assert!(load_is_linked(-1, &vec![-1]));
    assert!(!load_is_linked(4, &vec![]));
}

#[test]
fn included_loads() {
    let names = vec!["g".to_string(), "q".to_string()];
    assert!(load_is_included(&names, "g"));
    assert!(!load_is_included(&names, "w"));
    assert!(load_is_included(&vec![], "w"));
    assert!(load_is_included(&vec!["ALL".to_string()], "w"));
}

fn entry(name: &str, group_id: u8, group_type: GroupType) -> LoadEntry {
    LoadEntry { name: name.to_string(), group_id, group_type }
}

fn test_loads() -> Vec<LoadEntry> {
    vec![
        entry("g_oma", 0, GroupType::Permanent),
        entry("g", 0, GroupType::Permanent),
        entry("q1", 2, GroupType::LiveLoad),
        entry("qs", 10, GroupType::LiveLoad),
        entry("qw", 11, GroupType::LiveLoad),
    ]
}

fn names(ns: &[&str]) -> Vec<String> {
    ns.iter().map(|s| s.to_string()).collect()
}

#[test]
fn test_get_calc_load_combinations() {
    let loads = test_loads();
    let count = |ns: &[&str]| plan_calc_load_combinations(&names(ns), &loads).len();
    assert_eq!(count(&["g_oma", "g", "q1", "qs", "qw"]), 4);
    assert_eq!(count(&["g_oma"]), 1);
    assert_eq!(count(&["g_oma", "g"]), 1);
    assert_eq!(count(&["g_oma", "g", "q1"]), 2);
    assert_eq!(count(&["g_oma", "g", "q1", "qs"]), 3);
    assert_eq!(count(&["ALL"]), 4);
    assert_eq!(count(&[]), 4);
}

#[test]
fn combination_factors() {
    let loads = test_loads();
    let plans: Vec<CombinationPlan> = plan_calc_load_combinations(&names(&["ALL"]), &loads);
    let pf = |i: usize, kind: FactorKind| PlannedFactor { load_index: i, kind };
    assert_eq!(plans[0].lead_load, None);
    assert_eq!(
        plans[0].factors,
        vec![pf(0, FactorKind::PermanentOnly), pf(1, FactorKind::PermanentOnly)]
    );
    // Led by the class A group (load 2)
    assert_eq!(plans[1].lead_load, Some(2));
    assert_eq!(
        plans[1].factors,
        vec![
            pf(0, FactorKind::Uls),
            pf(1, FactorKind::Uls),
            pf(2, FactorKind::Uls),
            pf(3, FactorKind::UlsReduced),
            pf(4, FactorKind::UlsReduced),
        ]
    );
    // Then snow (group 10) and wind (group 11), in group order
    assert_eq!(plans[2].lead_load, Some(3));
    assert_eq!(plans[2].factors[3], pf(3, FactorKind::Uls));
    assert_eq!(plans[2].factors[2], pf(2, FactorKind::UlsReduced));
    assert_eq!(plans[3].lead_load, Some(4));
}

#[test]
fn combination_groups_in_ascending_order() {
    // Groups listed out of order and a favourable permanent group
    let loads = vec![
        entry("w", 11, GroupType::LiveLoad),
        entry("gf", 1, GroupType::PermanentFav),
        entry("a", 2, GroupType::LiveLoad),
        entry("w2", 11, GroupType::LiveLoad),
    ];
    let plans = plan_calc_load_combinations(&vec![], &loads);
    assert_eq!(plans.len(), 3);
    assert_eq!(plans[0].factors, vec![]);
    assert_eq!(plans[1].lead_load, Some(2));
    assert_eq!(plans[2].lead_load, Some(0));
    assert_eq!(plans[1].factors[1], PlannedFactor { load_index: 1, kind: FactorKind::Uls });
    assert_eq!(plans[2].factors[3], PlannedFactor { load_index: 3, kind: FactorKind::Uls });
}

#[test]
fn factor_sources() {
    let names = vec!["g".to_string(), "ALL".to_string()];
    assert_eq!(load_factor_source(&names, "g"), Some(FactorSource::Own));
    assert_eq!(load_factor_source(&names, "q"), Some(FactorSource::All));
    assert_eq!(load_factor_source(&vec!["g".to_string()], "q"), None);
    assert_eq!(load_factor_source(&vec![], "q"), Some(FactorSource::Unit));
}

#[test]
fn linked_elements_are_filtered_in_order() {
    let elements = vec![4, 1, 2, 7, 2];
    assert_eq!(extract_linked_elements(&elements, &vec![2, 7]), vec![2, 7, 2]);
    assert_eq!(extract_linked_elements(&elements, &vec![-1]), elements);
    assert_eq!(extract_linked_elements(&elements, &vec![9]), Vec::<i32>::new());
}
