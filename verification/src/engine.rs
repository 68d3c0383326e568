use vstd::prelude::*;

use crate::model::Group;
use crate::model::Household;
use crate::model::HouseholdModel;
use crate::model::after_placing;
use crate::model::fits;
use crate::model::group_wf;
use crate::model::household_inv;
use crate::model::model_of;
use crate::priority::sort_by_avg;
use crate::priority::sort_groups;

verus! {

/// The models of a sequence of households.
pub open spec fn models_of(hs: Seq<Household>) -> Seq<HouseholdModel> {
    hs.map_values(|h: Household| model_of(h))
}

/// Every household satisfies its capacity invariant.
pub open spec fn households_inv(hs: Seq<Household>) -> bool {
    forall|i: int| 0 <= i < hs.len() ==> household_inv(model_of(#[trigger] hs[i]))
}

/// Every group is one the allocator can work on.
pub open spec fn groups_wf(gs: Seq<Group>) -> bool {
    forall|i: int| 0 <= i < gs.len() ==> group_wf(#[trigger] gs[i])
}

/// Some entry of `s` reads `x`.
pub open spec fn has_name(s: Seq<String>, x: Seq<char>) -> bool {
    exists|i: int| 0 <= i < s.len() && (#[trigger] s[i])@ == x
}

/// No two entries of `s` read the same.
pub open spec fn distinct_names(s: Seq<String>) -> bool {
    forall|i: int, j: int| 0 <= i < j < s.len() ==> (#[trigger] s[i])@ != (#[trigger] s[j])@
}

/// The two lists name the same set of buildings.
pub open spec fn same_name_set(a: Seq<String>, b: Seq<String>) -> bool {
    &&& forall|i: int| 0 <= i < a.len() ==> has_name(b, (#[trigger] a[i])@)
    &&& forall|i: int| 0 <= i < b.len() ==> has_name(a, (#[trigger] b[i])@)
}

/// The default building order is a permutation of the declared buildings:
/// the same names, order-independent, duplicates not permitted.
pub open spec fn order_consistent(buildings: Seq<String>, order: Seq<String>) -> bool {
    &&& distinct_names(buildings)
    &&& distinct_names(order)
    &&& same_name_set(buildings, order)
}

/// Every household stands in a declared building.
pub open spec fn households_consistent(hs: Seq<HouseholdModel>, buildings: Seq<String>) -> bool {
    forall|i: int| 0 <= i < hs.len() ==> has_name(buildings, (#[trigger] hs[i]).building)
}

/// Every building a group prefers is declared. A group without building
/// preferences never triggers this check.
pub open spec fn group_prefs_consistent(g: Group, buildings: Seq<String>) -> bool {
    g.building_preferences is Some ==> forall|k: int|
        0 <= k < g.building_preferences->0@.len() ==> has_name(
            buildings,
            (#[trigger] g.building_preferences->0@[k])@,
        )
}

/// Every pending group's building preferences are declared.
pub open spec fn groups_consistent(gs: Seq<Group>, buildings: Seq<String>) -> bool {
    forall|i: int| 0 <= i < gs.len() ==> group_prefs_consistent(#[trigger] gs[i], buildings)
}

/// The first household at or after `i` that bears `name` and can take `g`.
pub open spec fn pref_fit_from(
    hs: Seq<HouseholdModel>,
    g: Group,
    name: Seq<char>,
    i: int,
) -> Option<int>
    decreases hs.len() - i,
{
    if i >= hs.len() {
        None
    } else if hs[i].name == name && fits(hs[i], g) {
        Some(i)
    } else {
        pref_fit_from(hs, g, name, i + 1)
    }
}

/// The household-preference tier, scanned from rank `r`: the first ranked,
/// present preference that names a household with room decides; absent
/// entries and full households are skipped.
pub open spec fn pref_dest_from(hs: Seq<HouseholdModel>, g: Group, r: int) -> Option<int>
    decreases g.household_preferences@.len() - r,
{
    let prefs = g.household_preferences@;
    if r >= prefs.len() {
        None
    } else {
        let here = match prefs[r] {
            Some(name) => pref_fit_from(hs, g, name@, 0),
            None => None,
        };
        if here is Some {
            here
        } else {
            pref_dest_from(hs, g, r + 1)
        }
    }
}

/// The first household at or after `i` that stands in `building` and can
/// take `g`.
pub open spec fn building_fit_from(
    hs: Seq<HouseholdModel>,
    g: Group,
    building: Seq<char>,
    i: int,
) -> Option<int>
    decreases hs.len() - i,
{
    if i >= hs.len() {
        None
    } else if hs[i].building == building && fits(hs[i], g) {
        Some(i)
    } else {
        building_fit_from(hs, g, building, i + 1)
    }
}

/// The building tier, scanned from position `k` of the effective order: the
/// first listed building with a household that has room decides.
pub open spec fn building_dest_from(
    hs: Seq<HouseholdModel>,
    g: Group,
    order: Seq<String>,
    k: int,
) -> Option<int>
    decreases order.len() - k,
{
    if k >= order.len() {
        None
    } else {
        let here = building_fit_from(hs, g, order[k]@, 0);
        if here is Some {
            here
        } else {
            building_dest_from(hs, g, order, k + 1)
        }
    }
}

/// The building order a group is tried against: its own preferences if
/// present, else the caller-supplied default order.
pub open spec fn effective_order(g: Group, dflt: Seq<String>) -> Seq<String> {
    match g.building_preferences {
        Some(bp) => bp@,
        None => dflt,
    }
}

/// Where one group goes: the household-preference tier wins if it finds
/// room anywhere; otherwise the building tier decides; otherwise the group
/// is unplaced.
pub open spec fn destination(hs: Seq<HouseholdModel>, g: Group, dflt: Seq<String>) -> Option<
    int,
> {
    match pref_dest_from(hs, g, 0) {
        Some(i) => Some(i),
        None => building_dest_from(hs, g, effective_order(g, dflt), 0),
    }
}

/// One full allocation pass over the groups in processing order: each group
/// is placed into its destination household, or appended to the residual.
/// Capacity is checked against all earlier placements of the same pass.
pub open spec fn pass_result(
    hs: Seq<HouseholdModel>,
    gs: Seq<Group>,
    dflt: Seq<String>,
) -> (Seq<HouseholdModel>, Seq<Group>)
    decreases gs.len(),
{
    if gs.len() == 0 {
        (hs, Seq::empty())
    } else {
        let g = gs[0];
        match destination(hs, g, dflt) {
            Some(i) => pass_result(hs.update(i, after_placing(hs[i], g)), gs.drop_first(), dflt),
            None => {
                let r = pass_result(hs, gs.drop_first(), dflt);
                (r.0, seq![g] + r.1)
            },
        }
    }
}

/// A complete problem instance: the declared buildings, the households, and
/// the groups waiting to be placed. After allocation the pending groups are
/// replaced by the unplaced residual.
#[derive(Debug)]
pub struct Ballot {
    pub buildings: Vec<String>,
    pub accommodation: Vec<Household>,
    pub pending_groups: Vec<Group>,
}

/// The structural well-formedness the allocator relies on.
pub open spec fn ballot_wf(b: Ballot) -> bool {
    &&& groups_wf(b.pending_groups@)
    &&& households_inv(b.accommodation@)
}

/// A freshly loaded ballot: no household holds any group yet. Allocation
/// runs exactly once per ballot, so it demands this state.
pub open spec fn pre_allocation(b: Ballot) -> bool {
    forall|i: int| 0 <= i < b.accommodation@.len() ==> (#[trigger] b.accommodation@[i]).placed_groups@.len() == 0
}

/// The whole configuration is internally consistent: the default order is a
/// permutation of the declared buildings, every household stands in a
/// declared building, and every preferred building is declared.
pub open spec fn config_consistent(b: Ballot, dflt: Seq<String>) -> bool {
    &&& order_consistent(b.buildings@, dflt)
    &&& households_consistent(models_of(b.accommodation@), b.buildings@)
    &&& groups_consistent(b.pending_groups@, b.buildings@)
}

/// A fatal configuration error: allocation refuses to start and the ballot
/// is left exactly as it was. Each variant carries the offending names.
#[derive(Debug)]
pub enum ConfigurationInconsistency {
    /// The default building order is not a duplicate-free permutation of the
    /// declared buildings.
    OrderMismatch,
    /// A household stands in a building that is not declared.
    UnknownHouseholdBuilding { household: String, building: String },
    /// A group prefers a building that is not declared.
    UnknownPreferredBuilding { building: String },
}

/// The returned error names the first offender, in check order: the order
/// permutation first, then the households in stored order, then the groups
/// in input order and their preferences in rank order.
pub open spec fn reported_inconsistency(
    e: ConfigurationInconsistency,
    b: Ballot,
    dflt: Seq<String>,
) -> bool {
    match e {
        ConfigurationInconsistency::OrderMismatch => !order_consistent(b.buildings@, dflt),
        ConfigurationInconsistency::UnknownHouseholdBuilding { household, building } => {
            let ms = models_of(b.accommodation@);
            &&& order_consistent(b.buildings@, dflt)
            &&& exists|i: int|
                {
                    &&& 0 <= i < ms.len()
                    &&& !has_name(b.buildings@, (#[trigger] ms[i]).building)
                    &&& household@ == ms[i].name
                    &&& building@ == ms[i].building
                    &&& forall|j: int| 0 <= j < i ==> has_name(b.buildings@, (#[trigger] ms[j]).building)
                }
        },
        ConfigurationInconsistency::UnknownPreferredBuilding { building } => {
            let gs = b.pending_groups@;
            &&& order_consistent(b.buildings@, dflt)
            &&& households_consistent(models_of(b.accommodation@), b.buildings@)
            &&& exists|i: int, k: int|
                {
                    &&& 0 <= i < gs.len()
                    &&& gs[i].building_preferences is Some
                    &&& 0 <= k < gs[i].building_preferences->0@.len()
                    &&& !has_name(b.buildings@, #[trigger] gs[i].building_preferences->0@[k]@)
                    &&& building@ == gs[i].building_preferences->0@[k]@
                    &&& forall|m: int|
                        0 <= m < k ==> has_name(
                            b.buildings@,
                            #[trigger] gs[i].building_preferences->0@[m]@,
                        )
                    &&& forall|j: int|
                        0 <= j < i ==> group_prefs_consistent(#[trigger] gs[j], b.buildings@)
                }
        },
    }
}

/// What a successful pass leaves behind: the households hold exactly what
/// the pass over the sorted pending groups placed; the pending groups are
/// replaced by the residual, in processing order; the buildings are
/// untouched.
pub open spec fn allocation_outcome(before: Ballot, after: Ballot, dflt: Seq<String>) -> bool {
    let sorted = sort_by_avg(before.pending_groups@);
    let r = pass_result(models_of(before.accommodation@), sorted, dflt);
    &&& models_of(after.accommodation@) == r.0
    &&& after.pending_groups@ == r.1
    &&& after.buildings@ == before.buildings@
}

/// True iff some entry of `names` reads exactly `x`.
fn building_listed(names: &Vec<String>, x: &String) -> (r: bool)
    ensures
        r == has_name(names@, x@),
{
    let mut i: usize = 0;
    while i < names.len()
        invariant
            0 <= i <= names@.len(),
            forall|j: int| 0 <= j < i ==> (#[trigger] names@[j])@ != x@,
        decreases names@.len() - i,
    {
        if names[i].eq(x) {
            return true;
        }
        i = i + 1;
    }
    false
}

/// True iff the two lists are duplicate-free and name the same set: the
/// validator's check that the default building order matches the declared
/// buildings.
pub fn are_permutations(v1: &Vec<String>, v2: &Vec<String>) -> (r: bool)
    ensures
        r == order_consistent(v1@, v2@),
{
    let mut i: usize = 0;
    while i < v1.len()
        invariant
            0 <= i <= v1@.len(),
            forall|a: int, b: int| 0 <= a < b < i ==> (#[trigger] v1@[a])@ != (#[trigger] v1@[b])@,
        decreases v1@.len() - i,
    {
        let mut j: usize = 0;
        while j < i
            invariant
                0 <= j <= i < v1@.len(),
                forall|a: int| 0 <= a < j ==> (#[trigger] v1@[a])@ != v1@[i as int]@,
            decreases i - j,
        {
            if v1[j].eq(&v1[i]) {
                return false;
            }
            j = j + 1;
        }
        i = i + 1;
    }
    let mut i2: usize = 0;
    while i2 < v2.len()
        invariant
            0 <= i2 <= v2@.len(),
            distinct_names(v1@),
            forall|a: int, b: int| 0 <= a < b < i2 ==> (#[trigger] v2@[a])@ != (#[trigger] v2@[b])@,
        decreases v2@.len() - i2,
    {
        let mut j: usize = 0;
        while j < i2
            invariant
                0 <= j <= i2 < v2@.len(),
                distinct_names(v1@),
                forall|a: int, b: int| 0 <= a < b < i2 ==> (#[trigger] v2@[a])@ != (#[trigger] v2@[b])@,
                forall|a: int| 0 <= a < j ==> (#[trigger] v2@[a])@ != v2@[i2 as int]@,
            decreases i2 - j,
        {
            if v2[j].eq(&v2[i2]) {
                return false;
            }
            j = j + 1;
        }
        i2 = i2 + 1;
    }
    let mut a: usize = 0;
    while a < v1.len()
        invariant
            0 <= a <= v1@.len(),
            distinct_names(v1@),
            distinct_names(v2@),
            forall|k: int| 0 <= k < a ==> has_name(v2@, (#[trigger] v1@[k])@),
        decreases v1@.len() - a,
    {
        if !building_listed(v2, &v1[a]) {
            return false;
        }
        a = a + 1;
    }
    let mut b: usize = 0;
    while b < v2.len()
        invariant
            0 <= b <= v2@.len(),
            distinct_names(v1@),
            distinct_names(v2@),
            forall|k: int| 0 <= k < v1@.len() ==> has_name(v2@, (#[trigger] v1@[k])@),
            forall|k: int| 0 <= k < b ==> has_name(v1@, (#[trigger] v2@[k])@),
        decreases v2@.len() - b,
    {
        if !building_listed(v1, &v2[b]) {
            return false;
        }
        b = b + 1;
    }
    true
}

proof fn lemma_models_update(hs: Seq<Household>, i: int, h: Household)
    requires
        0 <= i < hs.len(),
    ensures
        models_of(hs.update(i, h)) == models_of(hs).update(i, model_of(h)),
{
    assert(models_of(hs.update(i, h)) =~= models_of(hs).update(i, model_of(h)));
}

/// Places one group: the household-preference tier first, then the
/// effective building order, else the group comes back unplaced. Exactly
/// the destination household changes, by exactly the one admission.
fn place_group(accom: &mut Vec<Household>, g: Group, dflt: &Vec<String>) -> (r: Option<Group>)
    requires
        households_inv(old(accom)@),
        group_wf(g),
    ensures
        households_inv(final(accom)@),
        destination(models_of(old(accom)@), g, dflt@) matches Some(i) ==> {
            &&& r is None
            &&& final(accom)@.len() == old(accom)@.len()
            &&& models_of(final(accom)@) == models_of(old(accom)@).update(
                i,
                after_placing(models_of(old(accom)@)[i], g),
            )
        },
        destination(models_of(old(accom)@), g, dflt@) is None ==> {
            &&& r == Some(g)
            &&& final(accom)@ == old(accom)@
        },
{
    let ghost ms0 = models_of(accom@);
    let mut grp = g;

    // Household-preference tier: ranked, absent entries skipped, full
    // households skipped in favour of the next rank.
    let mut rank: usize = 0;
    while rank < grp.household_preferences.len()
        invariant
            accom@ == old(accom)@,
            ms0 == models_of(accom@),
            households_inv(accom@),
            grp == g,
            group_wf(g),
            0 <= rank <= g.household_preferences@.len(),
            pref_dest_from(ms0, g, 0) == pref_dest_from(ms0, g, rank as int),
        decreases g.household_preferences@.len() - rank,
    {
        let pref_name: Option<String> = match &grp.household_preferences[rank] {
            Some(n) => Some(n.clone()),
            None => None,
        };
        match pref_name {
            Some(name) => {
                proof {
                    assert(g.household_preferences@[rank as int] matches Some(n) && n@
                        == name@);
                }
                let mut idx: usize = 0;
                while idx < accom.len()
                    invariant
                        accom@ == old(accom)@,
                        ms0 == models_of(accom@),
                        households_inv(accom@),
                        grp == g,
                        group_wf(g),
                        0 <= rank < g.household_preferences@.len(),
                        g.household_preferences@[rank as int] matches Some(n) && n@ == name@,
                        pref_dest_from(ms0, g, 0) == pref_dest_from(ms0, g, rank as int),
                        0 <= idx <= accom@.len(),
                        pref_fit_from(ms0, g, name@, 0) == pref_fit_from(
                            ms0,
                            g,
                            name@,
                            idx as int,
                        ),
                    decreases accom@.len() - idx,
                {
                    let same_name = accom[idx].name.eq(&name);
                    if same_name {
                        proof {
                            assert(ms0[idx as int] == model_of(accom@[idx as int]));
                        }
                        match accom[idx].attempt_to_add_group(grp) {
                            Ok(()) => {
                                proof {
                                    assert(fits(ms0[idx as int], g));
                                    assert(pref_fit_from(ms0, g, name@, idx as int) == Some(
                                        idx as int,
                                    ));
                                    assert(pref_dest_from(ms0, g, rank as int) == Some(
                                        idx as int,
                                    ));
                                    assert(destination(ms0, g, dflt@) == Some(idx as int));
                                    lemma_models_update(
                                        old(accom)@,
                                        idx as int,
                                        accom@[idx as int],
                                    );
                                    assert(models_of(accom@) == ms0.update(
                                        idx as int,
                                        after_placing(ms0[idx as int], g),
                                    ));
                                    assert(ms0 == models_of(old(accom)@));
                                }
                                return None;
                            },
                            Err(back) => {
                                proof {
                                    assert(!fits(ms0[idx as int], g));
                                    assert(pref_fit_from(ms0, g, name@, idx as int)
                                        == pref_fit_from(ms0, g, name@, idx + 1));
                                }
                                grp = back;
                            },
                        }
                    } else {
                        proof {
                            assert(ms0[idx as int] == model_of(accom@[idx as int]));
                            assert(ms0[idx as int].name != name@);
                            assert(pref_fit_from(ms0, g, name@, idx as int) == pref_fit_from(
                                ms0,
                                g,
                                name@,
                                idx + 1,
                            ));
                        }
                    }
                    idx = idx + 1;
                }
                proof {
                    assert(pref_fit_from(ms0, g, name@, accom@.len() as int) is None);
                    assert(pref_fit_from(ms0, g, name@, 0) is None);
                    assert(pref_dest_from(ms0, g, rank as int) == pref_dest_from(
                        ms0,
                        g,
                        rank + 1,
                    ));
                }
            },
            None => {
                proof {
                    assert(g.household_preferences@[rank as int] is None);
                    assert(pref_dest_from(ms0, g, rank as int) == pref_dest_from(
                        ms0,
                        g,
                        rank + 1,
                    ));
                }
            },
        }
        rank = rank + 1;
    }
    proof {
        assert(pref_dest_from(ms0, g, g.household_preferences@.len() as int) is None);
        assert(pref_dest_from(ms0, g, 0) is None);
    }

    // Building tier: the group's own order if present, else the default.
    let ghost eff = effective_order(g, dflt@);
    let order_len: usize = match &grp.building_preferences {
        Some(bp) => bp.len(),
        None => dflt.len(),
    };
    proof {
        assert(order_len == eff.len());
    }
    let mut k: usize = 0;
    while k < order_len
        invariant
            accom@ == old(accom)@,
            ms0 == models_of(accom@),
            households_inv(accom@),
            grp == g,
            group_wf(g),
            pref_dest_from(ms0, g, 0) is None,
            eff == effective_order(g, dflt@),
            order_len == eff.len(),
            0 <= k <= eff.len(),
            building_dest_from(ms0, g, eff, 0) == building_dest_from(ms0, g, eff, k as int),
        decreases eff.len() - k,
    {
        let here: String = match &grp.building_preferences {
            Some(bp) => bp[k].clone(),
            None => dflt[k].clone(),
        };
        proof {
            assert(here@ == eff[k as int]@);
        }
        let mut idx: usize = 0;
        while idx < accom.len()
            invariant
                accom@ == old(accom)@,
                ms0 == models_of(accom@),
                households_inv(accom@),
                grp == g,
                group_wf(g),
                pref_dest_from(ms0, g, 0) is None,
                eff == effective_order(g, dflt@),
                order_len == eff.len(),
                0 <= k < eff.len(),
                here@ == eff[k as int]@,
                building_dest_from(ms0, g, eff, 0) == building_dest_from(ms0, g, eff, k as int),
                0 <= idx <= accom@.len(),
                building_fit_from(ms0, g, eff[k as int]@, 0) == building_fit_from(
                    ms0,
                    g,
                    eff[k as int]@,
                    idx as int,
                ),
            decreases accom@.len() - idx,
        {
            let same_building = accom[idx].building.eq(&here);
            if same_building {
                proof {
                    assert(ms0[idx as int] == model_of(accom@[idx as int]));
                }
                match accom[idx].attempt_to_add_group(grp) {
                    Ok(()) => {
                        proof {
                            assert(fits(ms0[idx as int], g));
                            assert(building_fit_from(ms0, g, eff[k as int]@, idx as int)
                                == Some(idx as int));
                            assert(building_dest_from(ms0, g, eff, k as int) == Some(
                                idx as int,
                            ));
                            assert(destination(ms0, g, dflt@) == Some(idx as int));
                            lemma_models_update(old(accom)@, idx as int, accom@[idx as int]);
                            assert(models_of(accom@) == ms0.update(
                                idx as int,
                                after_placing(ms0[idx as int], g),
                            ));
                            assert(ms0 == models_of(old(accom)@));
                        }
                        return None;
                    },
                    Err(back) => {
                        proof {
                            assert(!fits(ms0[idx as int], g));
                            assert(building_fit_from(ms0, g, eff[k as int]@, idx as int)
                                == building_fit_from(ms0, g, eff[k as int]@, idx + 1));
                        }
                        grp = back;
                    },
                }
            } else {
                proof {
                    assert(ms0[idx as int] == model_of(accom@[idx as int]));
                    assert(ms0[idx as int].building != eff[k as int]@);
                    assert(building_fit_from(ms0, g, eff[k as int]@, idx as int)
                        == building_fit_from(ms0, g, eff[k as int]@, idx + 1));
                }
            }
            idx = idx + 1;
        }
        proof {
            assert(building_fit_from(ms0, g, eff[k as int]@, accom@.len() as int) is None);
            assert(building_fit_from(ms0, g, eff[k as int]@, 0) is None);
            assert(building_dest_from(ms0, g, eff, k as int) == building_dest_from(
                ms0,
                g,
                eff,
                k + 1,
            ));
        }
        k = k + 1;
    }
    proof {
        assert(building_dest_from(ms0, g, eff, eff.len() as int) is None);
        assert(building_dest_from(ms0, g, eff, 0) is None);
        assert(destination(ms0, g, dflt@) is None);
        assert(ms0 == models_of(old(accom)@));
    }
    Some(grp)
}

impl Ballot {
    /// Validates the configuration, then runs the single allocation pass.
    ///
    /// On success the households are filled by the pass over the pending
    /// groups in ascending order of average score (stable in the input
    /// order), and the pending groups are replaced by the unplaced residual
    /// in that same processing order.
    ///
    /// On a configuration inconsistency the error names the first offender
    /// and the ballot is left exactly as it was: no household is touched.
    pub fn allocate_rooms(&mut self, default_building_order: &Vec<String>) -> (r: Result<
        (),
        ConfigurationInconsistency,
    >)
        requires
            ballot_wf(*old(self)),
            pre_allocation(*old(self)),
        ensures
            r is Ok <==> config_consistent(*old(self), default_building_order@),
            r matches Ok(()) ==> allocation_outcome(
                *old(self),
                *final(self),
                default_building_order@,
            ),
            r matches Ok(()) ==> ballot_wf(*final(self)),
            r matches Err(e) ==> {
                &&& *final(self) == *old(self)
                &&& reported_inconsistency(e, *old(self), default_building_order@)
            },
    {
        // Eager validation: nothing is mutated until the whole
        // configuration has been checked.
        if !are_permutations(&self.buildings, default_building_order) {
            return Err(ConfigurationInconsistency::OrderMismatch);
        }
        let mut hi: usize = 0;
        while hi < self.accommodation.len()
            invariant
                order_consistent(self.buildings@, default_building_order@),
                0 <= hi <= self.accommodation@.len(),
                forall|j: int|
                    0 <= j < hi ==> has_name(
                        self.buildings@,
                        models_of(self.accommodation@)[j].building,
                    ),
        decreases self.accommodation@.len() - hi,
        {
            proof {
                assert(models_of(self.accommodation@)[hi as int] == model_of(
                    self.accommodation@[hi as int],
                ));
            }
            if !building_listed(&self.buildings, &self.accommodation[hi].building) {
                let household = self.accommodation[hi].name.clone();
                let building = self.accommodation[hi].building.clone();
                proof {
                    let ms = models_of(self.accommodation@);
                    let bl = self.buildings@;
                    assert(0 <= hi as int && (hi as int) < ms.len() && !has_name(
                        bl,
                        ms[hi as int].building,
                    ) && household@ == ms[hi as int].name && building@ == ms[
                        hi as int
                    ].building && (forall|j: int|
                        0 <= j < hi as int ==> has_name(bl, (#[trigger] ms[j]).building)));
                }
                return Err(ConfigurationInconsistency::UnknownHouseholdBuilding {
                    household,
                    building,
                });
            }
            hi = hi + 1;
        }
        let mut gi: usize = 0;
        while gi < self.pending_groups.len()
            invariant
                order_consistent(self.buildings@, default_building_order@),
                0 <= gi <= self.pending_groups@.len(),
                households_consistent(models_of(self.accommodation@), self.buildings@),
                forall|j: int|
                    0 <= j < gi ==> group_prefs_consistent(
                        #[trigger] self.pending_groups@[j],
                        self.buildings@,
                    ),
        decreases self.pending_groups@.len() - gi,
        {
            let pref_len: usize = match &self.pending_groups[gi].building_preferences {
                Some(bp) => bp.len(),
                None => 0,
            };
            let mut k: usize = 0;
            while k < pref_len
                invariant
                    order_consistent(self.buildings@, default_building_order@),
                    0 <= gi < self.pending_groups@.len(),
                    households_consistent(models_of(self.accommodation@), self.buildings@),
                    forall|j: int|
                        0 <= j < gi ==> group_prefs_consistent(
                            #[trigger] self.pending_groups@[j],
                            self.buildings@,
                        ),
                    self.pending_groups@[gi as int].building_preferences is Some
                        ==> pref_len == self.pending_groups@[
                        gi as int
                    ].building_preferences->0@.len(),
                    self.pending_groups@[gi as int].building_preferences is None ==> pref_len
                        == 0,
                    0 <= k <= pref_len,
                    forall|m: int|
                        0 <= m < k ==> has_name(
                            self.buildings@,
                            #[trigger] self.pending_groups@[gi as int].building_preferences->0@[m]@,
                        ),
            decreases pref_len - k,
            {
                let listed = match &self.pending_groups[gi].building_preferences {
                    Some(bp) => building_listed(&self.buildings, &bp[k]),
                    None => true,
                };
                if !listed {
                    let building = match &self.pending_groups[gi].building_preferences {
                        Some(bp) => bp[k].clone(),
                        None => String::new(),
                    };
                    proof {
                        let gs = self.pending_groups@;
                        let bl = self.buildings@;
                        assert(0 <= gi as int && (gi as int) < gs.len() && gs[
                            gi as int
                        ].building_preferences is Some && 0 <= k as int && (k as int) < gs[
                            gi as int
                        ].building_preferences->0@.len() && !has_name(
                            bl,
                            gs[gi as int].building_preferences->0@[k as int]@,
                        ) && building@ == gs[gi as int].building_preferences->0@[k as int]@
                            && (forall|m: int|
                            0 <= m < k as int ==> has_name(
                                bl,
                                #[trigger] gs[gi as int].building_preferences->0@[m]@,
                            )) && (forall|j: int|
                            0 <= j < gi as int ==> group_prefs_consistent(
                                #[trigger] gs[j],
                                bl,
                            )));
                    }
                    return Err(ConfigurationInconsistency::UnknownPreferredBuilding {
                        building,
                    });
                }
                k = k + 1;
            }
            proof {
                assert(group_prefs_consistent(
                    self.pending_groups@[gi as int],
                    self.buildings@,
                ));
            }
            gi = gi + 1;
        }

        // The configuration is consistent: sort, then run the pass.
        let ghost before = *self;
        sort_groups(&mut self.pending_groups);
        let ghost sorted = self.pending_groups@;
        let ghost hs0 = models_of(self.accommodation@);
        let ghost d = default_building_order@;
        let mut residual: Vec<Group> = Vec::new();
        proof {
            assert(pass_result(hs0, sorted, d) == ({
                let r2 = pass_result(models_of(self.accommodation@), self.pending_groups@, d);
                (r2.0, residual@ + r2.1)
            })) by {
                let r2 = pass_result(models_of(self.accommodation@), self.pending_groups@, d);
                assert(residual@ + r2.1 =~= r2.1);
            }
        }
        while self.pending_groups.len() > 0
            invariant
                groups_wf(self.pending_groups@),
                households_inv(self.accommodation@),
                self.buildings@ == before.buildings@,
                groups_wf(residual@),
                pass_result(hs0, sorted, d) == ({
                    let r2 = pass_result(
                        models_of(self.accommodation@),
                        self.pending_groups@,
                        d,
                    );
                    (r2.0, residual@ + r2.1)
                }),
                d == default_building_order@,
            decreases self.pending_groups@.len(),
        {
            let ghost cur = models_of(self.accommodation@);
            let ghost gs = self.pending_groups@;
            let g = self.pending_groups.remove(0);
            proof {
                assert(g == gs[0]);
                assert(self.pending_groups@ =~= gs.drop_first());
            }
            match place_group(&mut self.accommodation, g, default_building_order) {
                None => {
                    proof {
                        let i = destination(cur, gs[0], d)->0;
                        assert(pass_result(cur, gs, d) == pass_result(
                            cur.update(i, after_placing(cur[i], gs[0])),
                            gs.drop_first(),
                            d,
                        ));
                    }
                },
                Some(back) => {
                    residual.push(back);
                    proof {
                        let r2 = pass_result(cur, gs.drop_first(), d);
                        assert(pass_result(cur, gs, d) == (r2.0, seq![gs[0]] + r2.1));
                        assert(residual@.drop_last() + (seq![gs[0]] + r2.1) =~= residual@
                            + r2.1);
                    }
                },
            }
        }
        proof {
            assert(self.pending_groups@.len() == 0);
            let r2 = pass_result(models_of(self.accommodation@), self.pending_groups@, d);
            assert(r2.0 == models_of(self.accommodation@) && r2.1 == Seq::<Group>::empty());
            assert(residual@ + r2.1 =~= residual@);
        }
        self.pending_groups = residual;
        Ok(())
    }
}

} // verus!
