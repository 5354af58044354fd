use vstd::prelude::*;

use super::release::Release;

verus! {

/// The number of released degrees of freedom over a list of element releases.
pub open spec fn releases_total(releases: Seq<Release>) -> int
    decreases releases.len(),
{
    if releases.len() == 0 {
        0
    } else {
        releases_total(releases.drop_last()) + releases.last().total_count()
    }
}

/// Counts the released degrees of freedom of all the given elements (one release per element).
pub fn get_element_release_count(releases: &Vec<Release>) -> (count: usize)
    requires
        releases.len() * 6 <= usize::MAX,
    ensures
        count == releases_total(releases@),
{
    let mut count: usize = 0;
    let mut k: usize = 0;
    while k < releases.len()
        invariant
            k <= releases.len(),
            releases.len() * 6 <= usize::MAX,
            count == releases_total(releases@.take(k as int)),
            count <= 6 * k,
        decreases releases.len() - k,
    {
        let r = &releases[k];
        assert(releases@.take(k + 1).drop_last() =~= releases@.take(k as int));
        if r.s_tx {
            count += 1;
        }
        if r.s_tz {
            count += 1;
        }
        if r.s_ry {
            count += 1;
        }
        if r.e_tx {
            count += 1;
        }
        if r.e_tz {
            count += 1;
        }
        if r.e_ry {
            count += 1;
        }
        k += 1;
    }
    assert(releases@.take(releases.len() as int) =~= releases@);
    count
}

/// Clears all the releases (every degree of freedom becomes locked).
pub fn clear_element_releases(release: &mut Release)
    ensures
        *final(release) == Release::locked(),
{
    release.s_tx = false;
    release.s_tz = false;
    release.s_ry = false;
    release.e_tx = false;
    release.e_tz = false;
    release.e_ry = false;
}

/// The release count of a list of elements is the sum of the counts of its parts.
pub proof fn lemma_release_count_additive(a: Seq<Release>, b: Seq<Release>)
    ensures
        releases_total(a + b) == releases_total(a) + releases_total(b),
    decreases b.len(),
{
    if b.len() == 0 {
        assert(a + b =~= a);
    } else {
        lemma_release_count_additive(a, b.drop_last());
        assert((a + b).drop_last() =~= a + b.drop_last());
    }
}

/// Every element contributes between zero and six released degrees of freedom.
pub proof fn lemma_release_count_bounds(releases: Seq<Release>)
    ensures
        0 <= releases_total(releases) <= 6 * releases.len(),
    decreases releases.len(),
{
    if releases.len() > 0 {
        lemma_release_count_bounds(releases.drop_last());
    }
}

/// The calculation element that the splitting of a model element produces: its number, the
/// model element it comes from, its end nodes and its releases.
#[derive(Debug, Clone, Copy, PartialEq, Eq, Structural)]
pub struct CalcElementPlan {
    /// The number of the calculation element
    pub calc_el_num: i32,
    /// The number of the model element it is a piece of
    pub model_el_num: i32,
    /// The node number at the start of the piece
    pub node_start: i32,
    /// The node number at the end of the piece
    pub node_end: i32,
    /// The releases of the piece
    pub releases: Release,
}

/// The releases with the end of the element locked.
pub open spec fn without_end_releases(r: Release) -> Release {
    Release { e_tx: false, e_tz: false, e_ry: false, ..r }
}

/// The releases with the start of the element locked.
pub open spec fn without_start_releases(r: Release) -> Release {
    Release { s_tx: false, s_tz: false, s_ry: false, ..r }
}

/// The `k`-th calculation element of model element `number` (nodes `node_start` to `node_end`)
/// that is split at the nodes `splits` (ordered along the element), numbered from `el_num`.
/// Piece `k` runs from the split node before it (the start node for the first piece) to the
/// split node after it (the end node for the last piece). Without splits the element is taken
/// whole; otherwise the first piece keeps the start releases, the last piece keeps the end
/// releases and the pieces between have none.
pub open spec fn planned_element(
    number: i32,
    node_start: i32,
    node_end: i32,
    releases: Release,
    splits: Seq<i32>,
    el_num: int,
    k: int,
) -> CalcElementPlan {
    let n = splits.len() as int;
    CalcElementPlan {
        calc_el_num: (el_num + k) as i32,
        model_el_num: number,
        node_start: if k == 0 {
            node_start
        } else {
            splits[k - 1]
        },
        node_end: if k == n {
            node_end
        } else {
            splits[k]
        },
        releases: if n == 0 {
            releases
        } else if k == 0 {
            without_end_releases(releases)
        } else if k == n {
            without_start_releases(releases)
        } else {
            Release::locked()
        },
    }
}

/// The number of calculation elements that the splitting produces: one more than the splits.
pub open spec fn planned_count(splits: Seq<i32>) -> int {
    splits.len() + 1int
}

/// The number given to the next calculation element: one more per piece of a split element (an
/// element that is not split does not use up a number).
pub open spec fn next_el_num(splits: Seq<i32>, el_num: int) -> int {
    if splits.len() == 0 {
        el_num
    } else {
        el_num + splits.len() + 1
    }
}

/// Splits a model element into calculation elements at the given split nodes (ordered along the
/// element from its start), numbering the pieces from `el_num`. Returns the pieces and the number
/// for the next calculation element.
pub fn plan_calc_elements(
    number: i32,
    node_start: i32,
    node_end: i32,
    releases: Release,
    splits: &Vec<i32>,
    el_num: i32,
) -> (planned: (Vec<CalcElementPlan>, i32))
    requires
        el_num + splits.len() + 1 <= i32::MAX,
    ensures
        planned.0.len() == planned_count(splits@),
        forall|k: int|
            0 <= k < planned_count(splits@) ==> #[trigger] planned.0@[k] == planned_element(
                number,
                node_start,
                node_end,
                releases,
                splits@,
                el_num as int,
                k,
            ),
        planned.1 == next_el_num(splits@, el_num as int),
{
    let mut plans: Vec<CalcElementPlan> = Vec::new();
    let n = splits.len();
    if n == 0 {
        plans.push(CalcElementPlan { calc_el_num: el_num, model_el_num: number, node_start, node_end, releases });
        return (plans, el_num);
    }
    let ghost first = el_num as int;
    let mut el_num = el_num;
    let mut count: usize = 0;
    while count <= n
        invariant
            count <= n + 1,
            n == splits.len(),
            n > 0,
            i32::MIN <= first && first + n + 1 <= i32::MAX,
            el_num == first + count,
            plans.len() == count,
            forall|k: int|
                0 <= k < count ==> #[trigger] plans@[k] == planned_element(
                    number,
                    node_start,
                    node_end,
                    releases,
                    splits@,
                    first,
                    k,
                ),
        decreases n + 1 - count,
    {
        let piece_start = if count == 0 {
            node_start
        } else {
            splits[count - 1]
        };
        let piece_end = if count == n {
            node_end
        } else {
            splits[count]
        };
        let mut piece_releases = releases;
        if count == 0 {
            // The first piece keeps the start releases
            piece_releases.e_tx = false;
            piece_releases.e_tz = false;
            piece_releases.e_ry = false;
        } else if count == n {
            // The last piece keeps the end releases
            piece_releases.s_tx = false;
            piece_releases.s_tz = false;
            piece_releases.s_ry = false;
        } else {
            // A middle piece has no releases
            clear_element_releases(&mut piece_releases);
        }
        plans.push(
            CalcElementPlan {
                calc_el_num: el_num,
                model_el_num: number,
                node_start: piece_start,
                node_end: piece_end,
                releases: piece_releases,
            },
        );
        el_num += 1;
        count += 1;
    }
    (plans, el_num)
}

/// The releases of the calculation elements that the splitting produces.
pub open spec fn planned_releases(
    number: i32,
    node_start: i32,
    node_end: i32,
    releases: Release,
    splits: Seq<i32>,
    el_num: int,
) -> Seq<Release> {
    Seq::new(
        planned_count(splits) as nat,
        |k: int| planned_element(number, node_start, node_end, releases, splits, el_num, k).releases,
    )
}

proof fn lemma_total_first_then_locked(s: Seq<Release>, m: int)
    requires
        1 <= m <= s.len(),
        forall|k: int| 1 <= k < m ==> #[trigger] s[k] == Release::locked(),
    ensures
        releases_total(s.take(m)) == s[0].total_count(),
    decreases m,
{
    assert(s.take(m).drop_last() =~= s.take(m - 1));
    assert(releases_total(s.take(m)) == releases_total(s.take(m - 1)) + s[m - 1].total_count());
    if m == 1 {
        assert(s.take(0) =~= Seq::<Release>::empty());
    } else {
        lemma_total_first_then_locked(s, m - 1);
        assert(s[m - 1].total_count() == 0);
    }
}

/// Splitting a model element keeps its released degrees of freedom: the first piece keeps the
/// start releases, the last piece the end releases and the pieces between have none.
pub proof fn lemma_split_keeps_release_count(
    number: i32,
    node_start: i32,
    node_end: i32,
    releases: Release,
    splits: Seq<i32>,
    el_num: int,
)
    ensures
        releases_total(planned_releases(number, node_start, node_end, releases, splits, el_num))
            == releases.total_count(),
{
    let s = planned_releases(number, node_start, node_end, releases, splits, el_num);
    if splits.len() == 0 {
        assert(s.drop_last() =~= Seq::<Release>::empty());
        assert(releases_total(s) == releases_total(s.drop_last()) + s[0].total_count());
        assert(s[0] == releases);
    } else {
        let n = splits.len() as int;
        assert forall|k: int| 1 <= k < n implies #[trigger] s[k] == Release::locked() by {
        }
        lemma_total_first_then_locked(s, n);
        assert(s.drop_last() =~= s.take(n));
        assert(releases_total(s) == releases_total(s.take(n)) + s[n].total_count());
        assert(s[n] == without_start_releases(releases));
        assert(s[0] == without_end_releases(releases));
    }
}

} // verus!
