use vstd::prelude::*;

use vstd::multiset::Multiset;

use crate::engine::Ballot;
use crate::engine::allocation_outcome;
use crate::engine::building_dest_from;
use crate::engine::building_fit_from;
use crate::engine::destination;
use crate::engine::models_of;
use crate::engine::pass_result;
use crate::engine::pref_dest_from;
use crate::engine::pref_fit_from;
use crate::model::Group;
use crate::model::HouseholdModel;
use crate::model::after_placing;
use crate::model::fits;
use crate::priority::lemma_sort_multiset;
use crate::priority::sort_by_avg;

verus! {

/// All groups placed anywhere in a sequence of households, as a multiset.
pub open spec fn placed_multiset(hs: Seq<HouseholdModel>) -> Multiset<Group>
    decreases hs.len(),
{
    if hs.len() == 0 {
        Multiset::empty()
    } else {
        placed_multiset(hs.drop_last()).add(hs.last().placed.to_multiset())
    }
}

proof fn lemma_placed_multiset_update(hs: Seq<HouseholdModel>, i: int, g: Group)
    requires
        0 <= i < hs.len(),
    ensures
        placed_multiset(hs.update(i, after_placing(hs[i], g))) == placed_multiset(hs).insert(g),
    decreases hs.len(),
{
    broadcast use vstd::seq_lib::group_to_multiset_ensures;
    broadcast use vstd::multiset::group_multiset_axioms;

    let hs2 = hs.update(i, after_placing(hs[i], g));
    if i == hs.len() - 1 {
        assert(hs2.drop_last() =~= hs.drop_last());
        assert(hs2.last() == after_placing(hs[i], g));
        assert(hs2.last().placed == hs.last().placed.push(g));
        assert(hs2.last().placed.to_multiset() == hs.last().placed.to_multiset().insert(g));
        assert(placed_multiset(hs2) =~= placed_multiset(hs).insert(g));
    } else {
        assert(hs2.drop_last() =~= hs.drop_last().update(i, after_placing(hs.drop_last()[i], g)));
        lemma_placed_multiset_update(hs.drop_last(), i, g);
        assert(hs2.last() == hs.last());
        assert(placed_multiset(hs2) =~= placed_multiset(hs).insert(g));
    }
}

proof fn lemma_pref_fit_props(hs: Seq<HouseholdModel>, g: Group, name: Seq<char>, i: int)
    requires
        0 <= i <= hs.len(),
    ensures
        pref_fit_from(hs, g, name, i) matches Some(j) ==> i <= j < hs.len() && hs[j].name == name
            && fits(hs[j], g),
        pref_fit_from(hs, g, name, i) is None ==> forall|j: int|
            i <= j < hs.len() ==> !((#[trigger] hs[j]).name == name && fits(hs[j], g)),
    decreases hs.len() - i,
{
    if i < hs.len() && !(hs[i].name == name && fits(hs[i], g)) {
        lemma_pref_fit_props(hs, g, name, i + 1);
    }
}

proof fn lemma_pref_dest_props(hs: Seq<HouseholdModel>, g: Group, r: int)
    requires
        0 <= r <= g.household_preferences@.len(),
    ensures
        pref_dest_from(hs, g, r) matches Some(i) ==> 0 <= i < hs.len() && fits(hs[i], g) && (
        exists|rr: int|
            r <= rr < g.household_preferences@.len() && #[trigger] g.household_preferences@[rr]
                is Some && hs[i].name == g.household_preferences@[rr]->0@),
        pref_dest_from(hs, g, r) is None ==> forall|rr: int, j: int|
            r <= rr < g.household_preferences@.len() && 0 <= j < hs.len()
                && #[trigger] g.household_preferences@[rr] is Some ==> !((#[trigger] hs[j]).name
                == g.household_preferences@[rr]->0@ && fits(hs[j], g)),
    decreases g.household_preferences@.len() - r,
{
    let prefs = g.household_preferences@;
    if r < prefs.len() {
        lemma_pref_dest_props(hs, g, r + 1);
        match prefs[r] {
            Some(name) => {
                lemma_pref_fit_props(hs, g, name@, 0);
            },
            None => {
            },
        }
    }
}

proof fn lemma_building_fit_props(hs: Seq<HouseholdModel>, g: Group, building: Seq<char>, i: int)
    requires
        0 <= i <= hs.len(),
    ensures
        building_fit_from(hs, g, building, i) matches Some(j) ==> i <= j < hs.len() && hs[
            j
        ].building == building && fits(hs[j], g),
        building_fit_from(hs, g, building, i) is None ==> forall|j: int|
            i <= j < hs.len() ==> !((#[trigger] hs[j]).building == building && fits(hs[j], g)),
    decreases hs.len() - i,
{
    if i < hs.len() && !(hs[i].building == building && fits(hs[i], g)) {
        lemma_building_fit_props(hs, g, building, i + 1);
    }
}

proof fn lemma_building_dest_props(hs: Seq<HouseholdModel>, g: Group, order: Seq<String>, k: int)
    requires
        0 <= k <= order.len(),
    ensures
        building_dest_from(hs, g, order, k) matches Some(i) ==> 0 <= i < hs.len() && fits(
            hs[i],
            g,
        ),
        building_dest_from(hs, g, order, k) is None ==> forall|kk: int|
            k <= kk < order.len() ==> building_fit_from(hs, g, (#[trigger] order[kk])@, 0)
                is None,
    decreases order.len() - k,
{
    if k < order.len() {
        lemma_building_dest_props(hs, g, order, k + 1);
        lemma_building_fit_props(hs, g, order[k]@, 0);
    }
}

/// A chosen destination is a real household index with room for the group.
pub proof fn lemma_destination_in_range(hs: Seq<HouseholdModel>, g: Group, dflt: Seq<String>)
    ensures
        destination(hs, g, dflt) matches Some(i) ==> 0 <= i < hs.len() && fits(hs[i], g),
{
    lemma_pref_dest_props(hs, g, 0);
    lemma_building_dest_props(hs, g, crate::engine::effective_order(g, dflt), 0);
}

/// Law: conservation. Across one allocation pass, every group ends in
/// exactly one place: the groups placed in the households plus the unplaced
/// residual are, as a multiset, exactly the groups that were already placed
/// plus the groups that went in. Nothing is lost, nothing is duplicated,
/// and no group is both placed and residual.
pub proof fn lemma_conservation(hs: Seq<HouseholdModel>, gs: Seq<Group>, dflt: Seq<String>)
    ensures
        placed_multiset(pass_result(hs, gs, dflt).0).add(
            pass_result(hs, gs, dflt).1.to_multiset(),
        ) == placed_multiset(hs).add(gs.to_multiset()),
    decreases gs.len(),
{
    broadcast use vstd::seq_lib::group_to_multiset_ensures;
    broadcast use vstd::multiset::group_multiset_axioms;

    if gs.len() == 0 {
        assert(pass_result(hs, gs, dflt).1.to_multiset().len() == 0);
        assert(gs.to_multiset().len() == 0);
        assert(pass_result(hs, gs, dflt).1.to_multiset() =~= Multiset::<Group>::empty());
        assert(gs.to_multiset() =~= Multiset::<Group>::empty());
        assert(placed_multiset(hs).add(Multiset::<Group>::empty()) =~= placed_multiset(hs));
    } else {
        let g = gs[0];
        let rest = gs.drop_first();
        assert(seq![g] + rest =~= gs);
        vstd::seq_lib::lemma_multiset_commutative(seq![g], rest);
        assert(seq![g] =~= Seq::<Group>::empty().push(g));
        assert(seq![g].to_multiset() == Seq::<Group>::empty().to_multiset().insert(g));
        assert(Seq::<Group>::empty().to_multiset().len() == 0);
        assert(Seq::<Group>::empty().to_multiset() == Multiset::<Group>::empty()) by {
            assert(Seq::<Group>::empty().to_multiset() =~= Multiset::<Group>::empty());
        }
        match destination(hs, g, dflt) {
            Some(i) => {
                lemma_destination_in_range(hs, g, dflt);
                let hs2 = hs.update(i, after_placing(hs[i], g));
                lemma_conservation(hs2, rest, dflt);
                lemma_placed_multiset_update(hs, i, g);
                assert(pass_result(hs, gs, dflt) == pass_result(hs2, rest, dflt));
                assert(gs.to_multiset() == rest.to_multiset().insert(g)) by {
                    assert(gs.to_multiset() =~= rest.to_multiset().insert(g));
                }
                assert(placed_multiset(pass_result(hs2, rest, dflt).0).add(
                    pass_result(hs2, rest, dflt).1.to_multiset(),
                ) == placed_multiset(hs).insert(g).add(rest.to_multiset()));
                assert(placed_multiset(hs).insert(g).add(rest.to_multiset())
                    == placed_multiset(hs).add(rest.to_multiset().insert(g))) by {
                    assert(placed_multiset(hs).insert(g).add(rest.to_multiset())
                        =~= placed_multiset(hs).add(rest.to_multiset().insert(g)));
                }
                assert(placed_multiset(pass_result(hs, gs, dflt).0) == placed_multiset(
                    pass_result(hs2, rest, dflt).0,
                ));
                assert(pass_result(hs, gs, dflt).1.to_multiset() == pass_result(
                    hs2,
                    rest,
                    dflt,
                ).1.to_multiset());
                assert(placed_multiset(pass_result(hs, gs, dflt).0).add(
                    pass_result(hs, gs, dflt).1.to_multiset(),
                ) == placed_multiset(hs).add(gs.to_multiset()));
            },
            None => {
                lemma_conservation(hs, rest, dflt);
                let r = pass_result(hs, rest, dflt);
                assert(pass_result(hs, gs, dflt) == (r.0, seq![g] + r.1));
                vstd::seq_lib::lemma_multiset_commutative(seq![g], r.1);
                assert(gs.to_multiset() == rest.to_multiset().insert(g)) by {
                    assert(gs.to_multiset() =~= rest.to_multiset().insert(g));
                }
                assert((seq![g] + r.1).to_multiset() == seq![g].to_multiset().add(
                    r.1.to_multiset(),
                )) by {
                    assert((seq![g] + r.1).to_multiset() =~= seq![g].to_multiset().add(
                        r.1.to_multiset(),
                    ));
                }
                assert(placed_multiset(r.0).add(
                    seq![g].to_multiset().add(r.1.to_multiset()),
                ) == placed_multiset(hs).add(rest.to_multiset().insert(g))) by {
                    assert(placed_multiset(r.0).add(r.1.to_multiset()) == placed_multiset(
                        hs,
                    ).add(rest.to_multiset()));
                    assert forall|x: Group|
                        placed_multiset(r.0).add(
                            seq![g].to_multiset().add(r.1.to_multiset()),
                        ).count(x) == placed_multiset(hs).add(
                            rest.to_multiset().insert(g),
                        ).count(x) by {
                        assert(placed_multiset(r.0).add(r.1.to_multiset()).count(x)
                            == placed_multiset(hs).add(rest.to_multiset()).count(x));
                        assert(seq![g].to_multiset().count(x) == Multiset::<
                            Group,
                        >::empty().insert(g).count(x));
                    }
                    assert(placed_multiset(r.0).add(
                        seq![g].to_multiset().add(r.1.to_multiset()),
                    ) =~= placed_multiset(hs).add(rest.to_multiset().insert(g)));
                }
                assert(placed_multiset(pass_result(hs, gs, dflt).0).add(
                    pass_result(hs, gs, dflt).1.to_multiset(),
                ) == placed_multiset(hs).add(gs.to_multiset()));
            },
        }
    }
}

/// Law: conservation, stated on the allocator's own contract. What a
/// successful `allocate_rooms` leaves placed in the households plus its
/// residual is exactly what was placed before plus the groups that were
/// pending, as multisets.
pub proof fn lemma_allocation_conserves_groups(before: Ballot, after: Ballot, dflt: Seq<String>)
    requires
        allocation_outcome(before, after, dflt),
    ensures
        placed_multiset(models_of(after.accommodation@)).add(
            after.pending_groups@.to_multiset(),
        ) == placed_multiset(models_of(before.accommodation@)).add(
            before.pending_groups@.to_multiset(),
        ),
{
    lemma_conservation(
        models_of(before.accommodation@),
        sort_by_avg(before.pending_groups@),
        dflt,
    );
    lemma_sort_multiset(before.pending_groups@);
}

/// Law: preference precedence. A group with a present household preference
/// that names a household with room for it is placed by the household tier:
/// its destination bears one of its preferred names. No building
/// preference, however well-ranked, can divert it.
pub proof fn lemma_household_preference_precedence(
    hs: Seq<HouseholdModel>,
    g: Group,
    dflt: Seq<String>,
)
    requires
        exists|r: int, j: int|
            0 <= r < g.household_preferences@.len() && 0 <= j < hs.len()
                && #[trigger] g.household_preferences@[r] is Some && (#[trigger] hs[j]).name
                == g.household_preferences@[r]->0@ && fits(hs[j], g),
    ensures
        destination(hs, g, dflt) is Some,
        fits(hs[destination(hs, g, dflt)->0], g),
        exists|r: int|
            0 <= r < g.household_preferences@.len() && #[trigger] g.household_preferences@[r]
                is Some && hs[destination(hs, g, dflt)->0].name
                == g.household_preferences@[r]->0@,
{
    lemma_pref_dest_props(hs, g, 0);
    if pref_dest_from(hs, g, 0) is None {
        let (r, j): (int, int) = choose|r: int, j: int|
            0 <= r < g.household_preferences@.len() && 0 <= j < hs.len()
                && #[trigger] g.household_preferences@[r] is Some && (#[trigger] hs[j]).name
                == g.household_preferences@[r]->0@ && fits(hs[j], g);
        assert(!((hs[j]).name == g.household_preferences@[r]->0@ && fits(hs[j], g)));
        assert(false);
    }
}

proof fn lemma_building_dest_first(
    hs: Seq<HouseholdModel>,
    g: Group,
    order: Seq<String>,
    k: int,
    j: int,
)
    requires
        0 <= j <= k < order.len(),
        building_fit_from(hs, g, order[k]@, 0) is Some,
        forall|k2: int| 0 <= k2 < k ==> building_fit_from(hs, g, (#[trigger] order[k2])@, 0)
            is None,
    ensures
        building_dest_from(hs, g, order, j) == building_fit_from(hs, g, order[k]@, 0),
    decreases k - j,
{
    if j < k {
        lemma_building_dest_first(hs, g, order, k, j + 1);
    }
}

/// Law: fallback ordering. A group without building preferences of its own
/// that reaches the building tier is tried against the caller-supplied
/// default order building by building: if the buildings before position `k`
/// have no admitting household and the one at `k` has, the group goes to
/// the first admitting household of that building.
pub proof fn lemma_fallback_order(hs: Seq<HouseholdModel>, g: Group, dflt: Seq<String>, k: int)
    requires
        g.building_preferences is None,
        pref_dest_from(hs, g, 0) is None,
        0 <= k < dflt.len(),
        building_fit_from(hs, g, dflt[k]@, 0) is Some,
        forall|k2: int| 0 <= k2 < k ==> building_fit_from(hs, g, (#[trigger] dflt[k2])@, 0)
            is None,
    ensures
        destination(hs, g, dflt) == building_fit_from(hs, g, dflt[k]@, 0),
{
    lemma_building_dest_first(hs, g, dflt, k, 0);
}

/// Law: a group that no household can take is unplaced. If the household
/// tier finds nothing and no building of the effective order has an
/// admitting household, the destination is none and the pass appends the
/// group to the residual.
pub proof fn lemma_no_room_unplaced(hs: Seq<HouseholdModel>, g: Group, dflt: Seq<String>)
    requires
        pref_dest_from(hs, g, 0) is None,
        forall|k: int|
            0 <= k < crate::engine::effective_order(g, dflt).len() ==> building_fit_from(
                hs,
                g,
                (#[trigger] crate::engine::effective_order(g, dflt)[k])@,
                0,
            ) is None,
    ensures
        destination(hs, g, dflt) is None,
{
    let eff = crate::engine::effective_order(g, dflt);
    assert forall|k: int| 0 <= k <= eff.len() implies building_dest_from(hs, g, eff, k)
        is None by {
        lemma_building_dest_none(hs, g, eff, k);
    }
}

proof fn lemma_building_dest_none(hs: Seq<HouseholdModel>, g: Group, order: Seq<String>, k: int)
    requires
        0 <= k <= order.len(),
        forall|k2: int| 0 <= k2 < order.len() ==> building_fit_from(
            hs,
            g,
            (#[trigger] order[k2])@,
            0,
        ) is None,
    ensures
        building_dest_from(hs, g, order, k) is None,
    decreases order.len() - k,
{
    if k < order.len() {
        lemma_building_dest_none(hs, g, order, k + 1);
    }
}

} // verus!
