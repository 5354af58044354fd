use vstd::prelude::*;
use vstd::string::*;

use super::load_group::GroupType;

verus! {

/// Whether one of the names equals `name`.
pub open spec fn name_listed(names: Seq<String>, name: Seq<char>) -> bool {
    exists|i: int| 0 <= i < names.len() && #[trigger] names[i]@ == name
}

/// Whether a load combination with the load names `names` (the keys of its load factor map)
/// includes the loads named `name`: an empty list or the name `ALL` includes every load.
pub open spec fn included(names: Seq<String>, name: Seq<char>) -> bool {
    names.len() == 0 || name_listed(names, "ALL"@) || name_listed(names, name)
}

fn names_contain(names: &Vec<String>, name: &String) -> (found: bool)
    ensures
        found == name_listed(names@, name@),
{
    let mut k: usize = 0;
    while k < names.len()
        invariant
            k <= names.len(),
            forall|j: int| 0 <= j < k ==> names@[j]@ != name@,
        decreases names.len() - k,
    {
        if names[k] == *name {
            return true;
        }
        k += 1;
    }
    false
}

/// Checks if the loads with the given name are included in a load combination whose load factor
/// map has the keys `lc_load_names`. Every load is included when the map is empty or has the
/// key `ALL`.
pub fn load_is_included(lc_load_names: &Vec<String>, load_name: &str) -> (r: bool)
    ensures
        r == included(lc_load_names@, load_name@),
{
    if lc_load_names.len() == 0 {
        return true;
    }
    let all = String::from_str("ALL");
    if names_contain(lc_load_names, &all) {
        return true;
    }
    let name = load_name.to_owned();
    names_contain(lc_load_names, &name)
}

/// Where the strength factor of a load comes from in a calculation load combination.
#[derive(Debug, Clone, Copy, PartialEq, Eq, Structural)]
pub enum FactorSource {
    /// The combination lists no loads: every load is taken as such (factor 1.0)
    Unit,
    /// The factor listed under the name of the load
    Own,
    /// The factor listed under the name `ALL`
    All,
}

/// Chooses the strength factor of the loads named `load_name` in a calculation load combination
/// whose factor map has the keys `lc_load_names`: none when the combination leaves the loads
/// out, the unit factor when it lists no loads at all, the factor of the load's own name when
/// it is listed, and otherwise the factor listed under `ALL`.
pub fn load_factor_source(lc_load_names: &Vec<String>, load_name: &str) -> (r: Option<FactorSource>)
    ensures
        lc_load_names.len() == 0 ==> r == Some(FactorSource::Unit),
        lc_load_names.len() > 0 ==> (r is None <==> !included(lc_load_names@, load_name@)),
        lc_load_names.len() > 0 && name_listed(lc_load_names@, load_name@) ==> r == Some(
            FactorSource::Own,
        ),
        lc_load_names.len() > 0 && !name_listed(lc_load_names@, load_name@) && name_listed(
            lc_load_names@,
            "ALL"@,
        ) ==> r == Some(FactorSource::All),
{
    if lc_load_names.len() == 0 {
        return Some(FactorSource::Unit);
    }
    let name = load_name.to_owned();
    if names_contain(lc_load_names, &name) {
        return Some(FactorSource::Own);
    }
    let all = String::from_str("ALL");
    if names_contain(lc_load_names, &all) {
        Some(FactorSource::All)
    } else {
        None
    }
}

/// What the combination rules read of a load: its name and the number (id) and type of its
/// load group.
#[derive(Debug)]
pub struct LoadEntry {
    /// The name of the load
    pub name: String,
    /// The number of the load group of the load
    pub group_id: u8,
    /// The type of the load group of the load
    pub group_type: GroupType,
}

/// Which factor a load gets in a calculation load combination.
#[derive(Debug, Clone, Copy, PartialEq, Eq, Structural)]
pub enum FactorKind {
    /// The factor of a combination with permanent loads only (1.35)
    PermanentOnly,
    /// The ultimate limit state factor of the load group
    Uls,
    /// The ultimate limit state factor of the load group reduced by its ψ0
    UlsReduced,
}

/// The factor of one load in a calculation load combination: the index of the load and the
/// kind of its factor.
#[derive(Debug, Clone, Copy, PartialEq, Eq, Structural)]
pub struct PlannedFactor {
    /// The index of the load in the list of loads
    pub load_index: usize,
    /// The kind of factor the load gets
    pub kind: FactorKind,
}

/// A calculation load combination: its leading load (the first included load of the leading
/// load group, none for the combination of permanent loads) and the factors of its loads, in
/// the order of the loads. A later factor for a load name replaces an earlier one.
#[derive(Debug)]
pub struct CombinationPlan {
    /// The first included load of the leading live load group
    pub lead_load: Option<usize>,
    /// The factors of the loads
    pub factors: Vec<PlannedFactor>,
}

impl View for CombinationPlan {
    type V = (Option<usize>, Seq<PlannedFactor>);

    open spec fn view(&self) -> (Option<usize>, Seq<PlannedFactor>) {
        (self.lead_load, self.factors@)
    }
}

/// The factors of the combination of permanent loads over the first `n` loads.
pub open spec fn permanent_factors(loads: Seq<LoadEntry>, names: Seq<String>, n: int) -> Seq<
    PlannedFactor,
>
    decreases n,
{
    if n <= 0 {
        seq![]
    } else {
        permanent_factors(loads, names, n - 1) + if included(names, loads[n - 1].name@)
            && loads[n - 1].group_type == GroupType::Permanent {
            seq![PlannedFactor { load_index: (n - 1) as usize, kind: FactorKind::PermanentOnly }]
        } else {
            seq![]
        }
    }
}

/// The factor kind of a load when the live load group `main_group` leads the combination.
pub open spec fn live_kind(load: LoadEntry, main_group: u8) -> FactorKind {
    match load.group_type {
        GroupType::LiveLoad => if load.group_id == main_group {
            FactorKind::Uls
        } else {
            FactorKind::UlsReduced
        },
        _ => FactorKind::Uls,
    }
}

/// The factors of the combination led by `main_group` over the first `n` loads.
pub open spec fn live_factors(loads: Seq<LoadEntry>, names: Seq<String>, main_group: u8, n: int) -> Seq<
    PlannedFactor,
>
    decreases n,
{
    if n <= 0 {
        seq![]
    } else {
        live_factors(loads, names, main_group, n - 1) + if included(names, loads[n - 1].name@) {
            seq![
                PlannedFactor {
                    load_index: (n - 1) as usize,
                    kind: live_kind(loads[n - 1], main_group),
                },
            ]
        } else {
            seq![]
        }
    }
}

/// The index of the first included load of group `id` among the first `n` loads.
pub open spec fn first_in_group(loads: Seq<LoadEntry>, names: Seq<String>, id: u8, n: int) -> Option<
    int,
>
    decreases n,
{
    if n <= 0 {
        None
    } else {
        match first_in_group(loads, names, id, n - 1) {
            Some(i) => Some(i),
            None => if included(names, loads[n - 1].name@) && loads[n - 1].group_id == id {
                Some(n - 1)
            } else {
                None
            },
        }
    }
}

/// The combination led by group `id`, if the group has included loads and its first included
/// load is a live load.
pub open spec fn live_plan(loads: Seq<LoadEntry>, names: Seq<String>, id: u8) -> Seq<
    (Option<usize>, Seq<PlannedFactor>),
> {
    match first_in_group(loads, names, id, loads.len() as int) {
        Some(i) => if loads[i].group_type == GroupType::LiveLoad && live_factors(
            loads,
            names,
            id,
            loads.len() as int,
        ).len() > 0 {
            seq![(Some(i as usize), live_factors(loads, names, id, loads.len() as int))]
        } else {
            seq![]
        },
        None => seq![],
    }
}

/// The combinations led by the groups with a number below `bound`, in ascending group order.
pub open spec fn live_plans(loads: Seq<LoadEntry>, names: Seq<String>, bound: int) -> Seq<
    (Option<usize>, Seq<PlannedFactor>),
>
    decreases bound,
{
    if bound <= 0 {
        seq![]
    } else {
        live_plans(loads, names, bound - 1) + live_plan(loads, names, (bound - 1) as u8)
    }
}

/// All the calculation load combinations of a load combination: first the one with permanent
/// loads only, then one for each live load group, led by that group.
pub open spec fn combination_plans(loads: Seq<LoadEntry>, names: Seq<String>) -> Seq<
    (Option<usize>, Seq<PlannedFactor>),
> {
    seq![(None, permanent_factors(loads, names, loads.len() as int))] + live_plans(
        loads,
        names,
        256,
    )
}

/// Plans the calculation load combinations of a load combination whose load factor map has the
/// keys `lc_load_names`. The first combination holds the permanent loads only (factor 1.35).
/// Then, for each live load group in ascending group number, a combination where that group
/// leads (its loads get the ultimate limit state factor of the group), the other live loads get
/// the factor reduced by ψ0 and the permanent loads the factor of their group
/// (1.15 * Gk + 1.5 * Qk,1 + sum(1,5 * ψ0,i * Qk,i)).
pub fn plan_calc_load_combinations(lc_load_names: &Vec<String>, loads: &Vec<LoadEntry>) -> (plans:
    Vec<CombinationPlan>)
    ensures
        plans@.map_values(|p: CombinationPlan| p@) == combination_plans(loads@, lc_load_names@),
{
    let names = lc_load_names;
    let n = loads.len();
    // Whether each load is included in the load combination
    let mut inc: Vec<bool> = Vec::new();
    let mut k: usize = 0;
    while k < n
        invariant
            k <= n,
            n == loads.len(),
            inc.len() == k,
            forall|j: int| 0 <= j < k ==> inc@[j] == included(names@, #[trigger] loads@[j].name@),
        decreases n - k,
    {
        let b = load_is_included(names, loads[k].name.as_str());
        inc.push(b);
        k += 1;
    }
    // The combination with permanent loads only
    let mut perm: Vec<PlannedFactor> = Vec::new();
    let mut k: usize = 0;
    while k < n
        invariant
            k <= n,
            n == loads.len(),
            inc.len() == n,
            forall|j: int| 0 <= j < n ==> inc@[j] == included(names@, #[trigger] loads@[j].name@),
            perm@ == permanent_factors(loads@, names@, k as int),
        decreases n - k,
    {
        if inc[k] && loads[k].group_type == GroupType::Permanent {
            perm.push(PlannedFactor { load_index: k, kind: FactorKind::PermanentOnly });
        }
        k += 1;
    }
    let mut plans: Vec<CombinationPlan> = Vec::new();
    plans.push(CombinationPlan { lead_load: None, factors: perm });
    assert(plans@.map_values(|p: CombinationPlan| p@) =~= seq![
        (None, permanent_factors(loads@, names@, n as int)),
    ] + live_plans(loads@, names@, 0));
    // One combination for each live load group, led by that group
    let mut id: u16 = 0;
    while id < 256
        invariant
            id <= 256,
            n == loads.len(),
            inc.len() == n,
            forall|j: int| 0 <= j < n ==> inc@[j] == included(names@, #[trigger] loads@[j].name@),
            plans@.map_values(|p: CombinationPlan| p@) == seq![
                (None, permanent_factors(loads@, names@, n as int)),
            ] + live_plans(loads@, names@, id as int),
        decreases 256 - id,
    {
        let g: u8 = id as u8;
        // The first included load of the group
        let mut lead: Option<usize> = None;
        let mut k: usize = 0;
        while k < n
            invariant
                k <= n,
                n == loads.len(),
                inc.len() == n,
                forall|j: int|
                    0 <= j < n ==> inc@[j] == included(names@, #[trigger] loads@[j].name@),
                lead matches Some(i) ==> i < k,
                match lead {
                    Some(i) => first_in_group(loads@, names@, g, k as int) == Some(i as int),
                    None => first_in_group(loads@, names@, g, k as int) is None,
                },
            decreases n - k,
        {
            if lead.is_none() && inc[k] && loads[k].group_id == g {
                lead = Some(k);
            }
            k += 1;
        }
        let ghost before = plans@.map_values(|p: CombinationPlan| p@);
        match lead {
            Some(i) => {
                if loads[i].group_type == GroupType::LiveLoad {
                    let mut factors: Vec<PlannedFactor> = Vec::new();
                    let mut k: usize = 0;
                    while k < n
                        invariant
                            k <= n,
                            n == loads.len(),
                            inc.len() == n,
                            forall|j: int|
                                0 <= j < n ==> inc@[j] == included(
                                    names@,
                                    #[trigger] loads@[j].name@,
                                ),
                            factors@ == live_factors(loads@, names@, g, k as int),
                        decreases n - k,
                    {
                        if inc[k] {
                            let kind = match loads[k].group_type {
                                GroupType::LiveLoad => if loads[k].group_id == g {
                                    FactorKind::Uls
                                } else {
                                    FactorKind::UlsReduced
                                },
                                _ => FactorKind::Uls,
                            };
                            factors.push(PlannedFactor { load_index: k, kind });
                        }
                        k += 1;
                    }
                    if !factors.is_empty() {
                        plans.push(CombinationPlan { lead_load: Some(i), factors });
                    }
                }
            },
            None => {},
        }
        assert(plans@.map_values(|p: CombinationPlan| p@) =~= before + live_plan(
            loads@,
            names@,
            g,
        ));
        id += 1;
    }
    plans
}

/// The first included load of a group is an included load of that group, and no earlier load is.
pub proof fn lemma_first_in_group(loads: Seq<LoadEntry>, names: Seq<String>, id: u8, n: int)
    requires
        n <= loads.len(),
    ensures
        match first_in_group(loads, names, id, n) {
            Some(i) => 0 <= i < n && included(names, loads[i].name@) && loads[i].group_id == id
                && forall|j: int|
                0 <= j < i ==> !(included(names, #[trigger] loads[j].name@) && loads[j].group_id
                    == id),
            None => forall|j: int|
                0 <= j < n ==> !(included(names, #[trigger] loads[j].name@) && loads[j].group_id
                    == id),
        },
    decreases n,
{
    if n > 0 {
        lemma_first_in_group(loads, names, id, n - 1);
    }
}

/// A combination led by a group lists every included load (and only those), in order.
pub proof fn lemma_live_factors(loads: Seq<LoadEntry>, names: Seq<String>, g: u8, n: int)
    requires
        0 <= n <= loads.len(),
        loads.len() <= usize::MAX,
    ensures
        forall|i: int|
            0 <= i < n && included(names, #[trigger] loads[i].name@) ==> exists|k: int|
                0 <= k < live_factors(loads, names, g, n).len() && live_factors(
                    loads,
                    names,
                    g,
                    n,
                )[k].load_index == i,
        forall|k: int|
            0 <= k < live_factors(loads, names, g, n).len() ==> {
                let f = #[trigger] live_factors(loads, names, g, n)[k];
                0 <= f.load_index < n && included(names, loads[f.load_index as int].name@)
                    && f.kind == live_kind(loads[f.load_index as int], g)
            },
    decreases n,
{
    if n > 0 {
        lemma_live_factors(loads, names, g, n - 1);
        let prev = live_factors(loads, names, g, n - 1);
        let cur = live_factors(loads, names, g, n);
        assert forall|i: int| 0 <= i < n && included(names, #[trigger] loads[i].name@) implies exists|
            k: int,
        | 0 <= k < cur.len() && cur[k].load_index == i by {
            if i < n - 1 {
                let k = choose|k: int| 0 <= k < prev.len() && prev[k].load_index == i;
                assert(cur[k] == prev[k]);
            } else {
                assert(cur[prev.len() as int].load_index == i);
            }
        }
    }
}

/// A live load group gets its own combination exactly when it has included loads and the first
/// of them is a live load; that combination is led by that first load.
pub proof fn lemma_live_group_has_combination(
    loads: Seq<LoadEntry>,
    names: Seq<String>,
    id: u8,
)
    requires
        loads.len() <= usize::MAX,
    ensures
        live_plan(loads, names, id).len() > 0 <==> match first_in_group(
            loads,
            names,
            id,
            loads.len() as int,
        ) {
            Some(i) => loads[i].group_type == GroupType::LiveLoad,
            None => false,
        },
        live_plan(loads, names, id).len() > 0 ==> live_plan(loads, names, id)[0].0 == Some(
            first_in_group(loads, names, id, loads.len() as int)->0 as usize,
        ),
{
    lemma_first_in_group(loads, names, id, loads.len() as int);
    lemma_live_factors(loads, names, id, loads.len() as int);
    match first_in_group(loads, names, id, loads.len() as int) {
        Some(i) => {
            let f = live_factors(loads, names, id, loads.len() as int);
            assert(exists|k: int| 0 <= k < f.len() && f[k].load_index == i);
        },
        None => {},
    }
}

/// The combination of permanent loads lists every included load of a permanent group (and only
/// those), in order, each with the factor of permanent loads alone.
pub proof fn lemma_permanent_factors(loads: Seq<LoadEntry>, names: Seq<String>, n: int)
    requires
        0 <= n <= loads.len(),
        loads.len() <= usize::MAX,
    ensures
        forall|i: int|
            0 <= i < n && included(names, #[trigger] loads[i].name@) && loads[i].group_type
                == GroupType::Permanent ==> exists|k: int|
                0 <= k < permanent_factors(loads, names, n).len() && permanent_factors(
                    loads,
                    names,
                    n,
                )[k].load_index == i,
        forall|k: int|
            0 <= k < permanent_factors(loads, names, n).len() ==> {
                let f = #[trigger] permanent_factors(loads, names, n)[k];
                &&& 0 <= f.load_index < n
                &&& included(names, loads[f.load_index as int].name@)
                &&& loads[f.load_index as int].group_type == GroupType::Permanent
                &&& f.kind == FactorKind::PermanentOnly
            },
        forall|a: int, b: int|
            0 <= a < b < permanent_factors(loads, names, n).len() ==> #[trigger] permanent_factors(
                loads,
                names,
                n,
            )[a].load_index < #[trigger] permanent_factors(loads, names, n)[b].load_index,
    decreases n,
{
    if n > 0 {
        lemma_permanent_factors(loads, names, n - 1);
        let prev = permanent_factors(loads, names, n - 1);
        let cur = permanent_factors(loads, names, n);
        assert forall|i: int|
            0 <= i < n && included(names, #[trigger] loads[i].name@) && loads[i].group_type
                == GroupType::Permanent implies exists|k: int|
            0 <= k < cur.len() && cur[k].load_index == i by {
            if i < n - 1 {
                let k = choose|k: int| 0 <= k < prev.len() && prev[k].load_index == i;
                assert(cur[k] == prev[k]);
            } else {
                assert(cur[prev.len() as int].load_index == i);
            }
        }
        assert forall|a: int, b: int| 0 <= a < b < cur.len() implies #[trigger] cur[a].load_index
            < #[trigger] cur[b].load_index by {
            if b < prev.len() {
                assert(cur[a] == prev[a]);
                assert(cur[b] == prev[b]);
            } else {
                assert(cur[a] == prev[a]);
            }
        }
    }
}

/// The group of the leading load of a planned combination.
pub open spec fn lead_group(loads: Seq<LoadEntry>, plan: (Option<usize>, Seq<PlannedFactor>)) -> int {
    loads[plan.0->0 as int].group_id as int
}

/// The combinations led by live load groups come in strictly ascending group order: each is
/// led by a load of its own group, so no group leads two combinations.
pub proof fn lemma_live_plans_ascending(loads: Seq<LoadEntry>, names: Seq<String>, bound: int)
    requires
        0 <= bound <= 256,
        loads.len() <= usize::MAX,
    ensures
        forall|k: int|
            0 <= k < live_plans(loads, names, bound).len() ==> {
                let p = #[trigger] live_plans(loads, names, bound)[k];
                &&& p.0 is Some
                &&& 0 <= p.0->0 < loads.len()
                &&& lead_group(loads, p) < bound
            },
        forall|a: int, b: int|
            0 <= a < b < live_plans(loads, names, bound).len() ==> lead_group(
                loads,
                #[trigger] live_plans(loads, names, bound)[a],
            ) < lead_group(loads, #[trigger] live_plans(loads, names, bound)[b]),
    decreases bound,
{
    if bound > 0 {
        lemma_live_plans_ascending(loads, names, bound - 1);
        let id = (bound - 1) as u8;
        lemma_first_in_group(loads, names, id, loads.len() as int);
        let prev = live_plans(loads, names, bound - 1);
        let last = live_plan(loads, names, id);
        let cur = live_plans(loads, names, bound);
        assert(cur == prev + last);
        assert forall|k: int| 0 <= k < last.len() implies {
            let p = #[trigger] last[k];
            &&& p.0 is Some
            &&& 0 <= p.0->0 < loads.len()
            &&& lead_group(loads, p) == bound - 1
        } by {
            assert(k == 0);
        }
        assert forall|k: int| 0 <= k < cur.len() implies {
            let p = #[trigger] cur[k];
            &&& p.0 is Some
            &&& 0 <= p.0->0 < loads.len()
            &&& lead_group(loads, p) < bound
        } by {
            if k < prev.len() {
                assert(cur[k] == prev[k]);
            } else {
                assert(cur[k] == last[k - prev.len()]);
            }
        }
        assert forall|a: int, b: int| 0 <= a < b < cur.len() implies lead_group(
            loads,
            #[trigger] cur[a],
        ) < lead_group(loads, #[trigger] cur[b]) by {
            if b < prev.len() {
                assert(cur[a] == prev[a]);
                assert(cur[b] == prev[b]);
            } else {
                assert(cur[a] == prev[a]);
                assert(cur[b] == last[b - prev.len()]);
            }
        }
    }
}

/// Every factor belongs to one of the loads, and to a load that the combination includes.
#[verifier::opaque]
pub open spec fn only_included(
    loads: Seq<LoadEntry>,
    names: Seq<String>,
    fs: Seq<PlannedFactor>,
) -> bool {
    forall|k: int|
        0 <= k < fs.len() ==> 0 <= #[trigger] fs[k].load_index < loads.len() && included(
            names,
            loads[fs[k].load_index as int].name@,
        )
}

/// Every load that the combination includes has a factor.
#[verifier::opaque]
pub open spec fn every_included_listed(
    loads: Seq<LoadEntry>,
    names: Seq<String>,
    fs: Seq<PlannedFactor>,
) -> bool {
    forall|i: int|
        0 <= i < loads.len() && included(names, #[trigger] loads[i].name@) ==> exists|k: int|
            0 <= k < fs.len() && fs[k].load_index == i
}

proof fn lemma_live_factors_included(loads: Seq<LoadEntry>, names: Seq<String>, g: u8)
    requires
        loads.len() <= usize::MAX,
    ensures
        only_included(loads, names, live_factors(loads, names, g, loads.len() as int)),
        every_included_listed(loads, names, live_factors(loads, names, g, loads.len() as int)),
{
    reveal(only_included);
    reveal(every_included_listed);
    lemma_live_factors(loads, names, g, loads.len() as int);
}

/// The combinations led by the groups below `bound` each list every included load and only
/// included loads.
proof fn lemma_live_plans_list_included(loads: Seq<LoadEntry>, names: Seq<String>, bound: int)
    requires
        0 <= bound <= 256,
        loads.len() <= usize::MAX,
    ensures
        forall|p: int|
            0 <= p < live_plans(loads, names, bound).len() ==> only_included(
                loads,
                names,
                #[trigger] live_plans(loads, names, bound)[p].1,
            ) && every_included_listed(loads, names, live_plans(loads, names, bound)[p].1),
    decreases bound,
{
    if bound > 0 {
        lemma_live_plans_list_included(loads, names, bound - 1);
        let id = (bound - 1) as u8;
        lemma_live_factors_included(loads, names, id);
        let prev = live_plans(loads, names, bound - 1);
        let last = live_plan(loads, names, id);
        let cur = live_plans(loads, names, bound);
        assert(cur == prev + last);
        assert forall|p: int| 0 <= p < cur.len() implies only_included(
            loads,
            names,
            #[trigger] cur[p].1,
        ) && every_included_listed(loads, names, cur[p].1) by {
            if p < prev.len() {
                assert(cur[p] == prev[p]);
            } else {
                assert(cur[p] == last[p - prev.len()]);
            }
        }
    }
}

/// A calculation load combination never takes a load that its load combination leaves out: every
/// factor of every planned combination belongs to a load that the combination includes. Each
/// combination led by a live load group lists every included load, and the combination of
/// permanent loads lists every included permanent load.
pub proof fn lemma_plans_take_included_loads(loads: Seq<LoadEntry>, names: Seq<String>)
    requires
        loads.len() <= usize::MAX,
    ensures
        forall|p: int|
            0 <= p < combination_plans(loads, names).len() ==> only_included(
                loads,
                names,
                #[trigger] combination_plans(loads, names)[p].1,
            ),
        forall|p: int|
            1 <= p < combination_plans(loads, names).len() ==> every_included_listed(
                loads,
                names,
                #[trigger] combination_plans(loads, names)[p].1,
            ),
        forall|i: int|
            0 <= i < loads.len() && included(names, #[trigger] loads[i].name@)
                && loads[i].group_type == GroupType::Permanent ==> exists|k: int|
                0 <= k < combination_plans(loads, names)[0].1.len() && combination_plans(
                    loads,
                    names,
                )[0].1[k].load_index == i,
{
    let n = loads.len() as int;
    lemma_permanent_factors(loads, names, n);
    lemma_live_plans_list_included(loads, names, 256);
    let perm = permanent_factors(loads, names, n);
    let live = live_plans(loads, names, 256);
    let all = combination_plans(loads, names);
    assert(all == seq![(None::<usize>, perm)] + live);
    assert(all[0].1 == perm);
    assert(only_included(loads, names, perm)) by {
        reveal(only_included);
    }
    assert forall|p: int| 0 <= p < all.len() implies only_included(
        loads,
        names,
        #[trigger] all[p].1,
    ) by {
        if p > 0 {
            assert(all[p] == live[p - 1]);
        }
    }
    assert forall|p: int| 1 <= p < all.len() implies every_included_listed(
        loads,
        names,
        #[trigger] all[p].1,
    ) by {
        assert(all[p] == live[p - 1]);
    }
}

} // verus!
