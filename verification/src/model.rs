use vstd::prelude::*;

verus! {

/// A person seeking housing. The score is a desirability metric used to
/// order groups by average score during allocation. A person is immutable
/// once created and belongs to exactly one group.
#[derive(Debug)]
pub struct Person {
    pub name: String,
    pub score: u32,
}

impl Person {
    pub fn new(name: String, score: u32) -> (p: Person)
        ensures
            p.name@ == name@,
            p.score == score,
    {
        Person { name, score }
    }
}

impl Clone for Person {
    fn clone(&self) -> (p: Self)
        ensures
            p.name@ == self.name@,
            p.score == self.score,
    {
        Person { name: self.name.clone(), score: self.score }
    }
}

/// The error returned when a group with no members is constructed: such a
/// group would leave the average score undefined, so construction rejects it.
#[derive(Debug)]
pub struct DegenerateGroup;

/// An atomic placement unit: a non-empty set of people that must be housed
/// together, with an optional ranked list of preferred households (entries
/// may be absent, meaning no preference at that rank) and an optional ranked
/// list of preferred buildings.
#[derive(Debug)]
pub struct Group {
    pub members: Vec<Person>,
    pub household_preferences: Vec<Option<String>>,
    pub building_preferences: Option<Vec<String>>,
}

/// Sum of the scores of a sequence of people.
pub open spec fn sum_scores(ms: Seq<Person>) -> int
    decreases ms.len(),
{
    if ms.len() == 0 {
        0
    } else {
        sum_scores(ms.drop_last()) + ms.last().score
    }
}

/// A group the allocator can work on: non-empty (so its average score is
/// defined), with a member count that fits the machine word used for sizes.
pub open spec fn group_wf(g: Group) -> bool {
    1 <= g.members@.len() <= u32::MAX
}

pub proof fn lemma_sum_scores_bounds(ms: Seq<Person>)
    ensures
        0 <= sum_scores(ms) <= ms.len() * (u32::MAX as int),
    decreases ms.len(),
{
    if ms.len() > 0 {
        lemma_sum_scores_bounds(ms.drop_last());
    }
}

impl Group {
    /// Constructs a group; a group with zero members is rejected rather than
    /// allowed to reach the allocator with an undefined average score.
    pub fn new(
        members: Vec<Person>,
        household_preferences: Vec<Option<String>>,
        building_preferences: Option<Vec<String>>,
    ) -> (r: Result<Group, DegenerateGroup>)
        requires
            members@.len() <= u32::MAX,
        ensures
            members@.len() == 0 <==> r is Err,
            r matches Ok(g) ==> {
                &&& g.members@ == members@
                &&& g.household_preferences@ == household_preferences@
                &&& g.building_preferences == building_preferences
                &&& group_wf(g)
            },
    {
        if members.len() == 0 {
            Err(DegenerateGroup)
        } else {
            Ok(Group { members, household_preferences, building_preferences })
        }
    }

    /// Total score of the group: the sum of its members' scores.
    pub fn score(&self) -> (total: u64)
        requires
            group_wf(*self),
        ensures
            total == sum_scores(self.members@),
    {
        let mut total: u64 = 0;
        let mut i: usize = 0;
        while i < self.members.len()
            invariant
                0 <= i <= self.members@.len() <= u32::MAX,
                total == sum_scores(self.members@.take(i as int)),
                total <= i * (u32::MAX as int),
            decreases self.members@.len() - i,
        {
            proof {
                assert(self.members@.take(i + 1).drop_last() =~= self.members@.take(i as int));
                assert(self.members@.take(i + 1).last() == self.members@[i as int]);
            }
            total = total + self.members[i].score as u64;
            i = i + 1;
        }
        proof {
            assert(self.members@.take(self.members@.len() as int) =~= self.members@);
        }
        total
    }

    /// Number of members in the group.
    pub fn size(&self) -> (n: u32)
        requires
            group_wf(*self),
        ensures
            n == self.members@.len(),
    {
        self.members.len() as u32
    }
}

/// The mathematical content of a household: what the contracts of the
/// allocator speak about.
pub ghost struct HouseholdModel {
    pub name: Seq<char>,
    pub capacity: u32,
    pub building: Seq<char>,
    pub placed: Seq<Group>,
}

/// Sum of the sizes of a sequence of groups.
pub open spec fn sum_sizes(gs: Seq<Group>) -> int
    decreases gs.len(),
{
    if gs.len() == 0 {
        0
    } else {
        sum_sizes(gs.drop_last()) + gs.last().members@.len()
    }
}

/// Occupancy of a household: the total number of people in its placed groups.
pub open spec fn occupancy_of(m: HouseholdModel) -> int {
    sum_sizes(m.placed)
}

/// The household invariant: the occupancy never exceeds the capacity, and
/// every placed group is one the allocator could have worked on.
pub open spec fn household_inv(m: HouseholdModel) -> bool {
    &&& occupancy_of(m) <= m.capacity
    &&& forall|i: int| 0 <= i < m.placed.len() ==> group_wf(#[trigger] m.placed[i])
}

/// Whether a group fits: the occupancy plus the group size stays within the
/// capacity. The boundary is inclusive: a group that exactly fills the
/// remaining capacity fits.
pub open spec fn fits(m: HouseholdModel, g: Group) -> bool {
    occupancy_of(m) + g.members@.len() <= m.capacity
}

/// The household after admitting a group: the group is appended to the
/// placed groups; nothing else changes.
pub open spec fn after_placing(m: HouseholdModel, g: Group) -> HouseholdModel {
    HouseholdModel { placed: m.placed.push(g), ..m }
}

/// A fixed-capacity housing unit located in a building. Groups are admitted
/// through `attempt_to_add_group` only, which maintains the capacity
/// invariant.
#[derive(Debug)]
pub struct Household {
    pub name: String,
    pub capacity: u32,
    pub building: String,
    pub placed_groups: Vec<Group>,
}

/// The model of a household value.
pub open spec fn model_of(h: Household) -> HouseholdModel {
    HouseholdModel {
        name: h.name@,
        capacity: h.capacity,
        building: h.building@,
        placed: h.placed_groups@,
    }
}

proof fn lemma_sum_sizes_prefix(gs: Seq<Group>, i: int)
    requires
        0 <= i <= gs.len(),
    ensures
        sum_sizes(gs.take(i)) <= sum_sizes(gs),
    decreases gs.len(),
{
    if i < gs.len() {
        assert(gs.drop_last().take(i) =~= gs.take(i));
        lemma_sum_sizes_prefix(gs.drop_last(), i);
        assert(gs.last().members@.len() >= 0);
    } else {
        assert(gs.take(i) =~= gs);
    }
}

impl Household {
    /// A new household starts empty.
    pub fn new(name: String, capacity: u32, building: String) -> (h: Household)
        ensures
            model_of(h) == (HouseholdModel {
                name: name@,
                capacity: capacity,
                building: building@,
                placed: Seq::<Group>::empty(),
            }),
            household_inv(model_of(h)),
    {
        let h = Household { name, capacity, building, placed_groups: Vec::new() };
        proof {
            assert(h.placed_groups@ =~= Seq::<Group>::empty());
        }
        h
    }

    /// Current occupancy: the total number of people already placed.
    pub fn occupancy(&self) -> (n: u32)
        requires
            household_inv(model_of(*self)),
        ensures
            n == occupancy_of(model_of(*self)),
    {
        let ghost all = self.placed_groups@;
        let mut n: u32 = 0;
        let mut i: usize = 0;
        while i < self.placed_groups.len()
            invariant
                0 <= i <= all.len(),
                all == self.placed_groups@,
                household_inv(model_of(*self)),
                n == sum_sizes(all.take(i as int)),
            decreases all.len() - i,
        {
            proof {
                assert(all.take(i + 1).drop_last() =~= all.take(i as int));
                assert(all.take(i + 1).last() == all[i as int]);
                lemma_sum_sizes_prefix(all, i + 1);
            }
            let g: &Group = &self.placed_groups[i];
            n = n + g.size();
            i = i + 1;
        }
        proof {
            assert(all.take(all.len() as int) =~= all);
        }
        n
    }

    /// True iff the group fits in the remaining capacity, boundary inclusive.
    /// Pure: no side effects.
    pub fn can_fit(&self, new_group: &Group) -> (r: bool)
        requires
            household_inv(model_of(*self)),
            group_wf(*new_group),
        ensures
            r == fits(model_of(*self), *new_group),
    {
        let occ = self.occupancy();
        (occ as u64) + (new_group.size() as u64) <= self.capacity as u64
    }

    /// Appends the group without checking capacity; all placement goes
    /// through `attempt_to_add_group`, which checks first.
    fn add_group(&mut self, new_group: Group)
        ensures
            model_of(*final(self)) == after_placing(model_of(*old(self)), new_group),
    {
        self.placed_groups.push(new_group);
    }

    /// The only mutating entry point: admits the group if it fits, appending
    /// it to the placed groups; otherwise leaves the household unchanged and
    /// returns the group back as the capacity-exceeded failure. The capacity
    /// invariant holds afterwards in both cases.
    pub fn attempt_to_add_group(&mut self, new_group: Group) -> (r: Result<(), Group>)
        requires
            household_inv(model_of(*old(self))),
            group_wf(new_group),
        ensures
            fits(model_of(*old(self)), new_group) ==> {
                &&& r is Ok
                &&& model_of(*final(self)) == after_placing(model_of(*old(self)), new_group)
            },
            !fits(model_of(*old(self)), new_group) ==> {
                &&& r matches Err(g) && g == new_group
                &&& *final(self) == *old(self)
            },
            household_inv(model_of(*final(self))),
    {
        if self.can_fit(&new_group) {
            proof {
                assert(model_of(*self).placed.push(new_group).drop_last() =~= model_of(
                    *self,
                ).placed);
            }
            self.add_group(new_group);
            Ok(())
        } else {
            Err(new_group)
        }
    }

    /// All people placed in the household, in arrival order: the members of
    /// the placed groups, flattened.
    pub fn occupants(&self) -> (ps: Vec<Person>)
        ensures
            ps@.len() == all_members(self.placed_groups@).len(),
            forall|i: int|
                0 <= i < ps@.len() ==> {
                    &&& (#[trigger] ps@[i]).name@ == all_members(self.placed_groups@)[i].name@
                    &&& ps@[i].score == all_members(self.placed_groups@)[i].score
                },
    {
        let ghost all = self.placed_groups@;
        let mut ps: Vec<Person> = Vec::new();
        let mut i: usize = 0;
        while i < self.placed_groups.len()
            invariant
                0 <= i <= all.len(),
                all == self.placed_groups@,
                ps@.len() == all_members(all.take(i as int)).len(),
                forall|k: int|
                    0 <= k < ps@.len() ==> {
                        &&& (#[trigger] ps@[k]).name@ == all_members(all.take(i as int))[k].name@
                        &&& ps@[k].score == all_members(all.take(i as int))[k].score
                    },
            decreases all.len() - i,
        {
            proof {
                lemma_all_members_push(all.take(i as int), all[i as int]);
                assert(all.take(i as int).push(all[i as int]) =~= all.take(i + 1));
            }
            let g: &Group = &self.placed_groups[i];
            let mut j: usize = 0;
            while j < g.members.len()
                invariant
                    0 <= j <= g.members@.len(),
                    g == &self.placed_groups@[i as int],
                    0 <= i < all.len(),
                    all == self.placed_groups@,
                    all_members(all.take(i + 1)) == all_members(all.take(i as int))
                        + all[i as int].members@,
                    ps@.len() == all_members(all.take(i as int)).len() + j,
                    forall|k: int|
                        0 <= k < ps@.len() ==> {
                            &&& (#[trigger] ps@[k]).name@ == all_members(all.take(i + 1))[k].name@
                            &&& ps@[k].score == all_members(all.take(i + 1))[k].score
                        },
                decreases g.members@.len() - j,
            {
                ps.push(g.members[j].clone());
                j = j + 1;
            }
            i = i + 1;
        }
        proof {
            assert(all.take(all.len() as int) =~= all);
        }
        ps
    }
}

/// The members of a sequence of groups, flattened in order.
pub open spec fn all_members(gs: Seq<Group>) -> Seq<Person>
    decreases gs.len(),
{
    if gs.len() == 0 {
        Seq::empty()
    } else {
        gs[0].members@ + all_members(gs.drop_first())
    }
}

proof fn lemma_all_members_push(gs: Seq<Group>, g: Group)
    ensures
        all_members(gs.push(g)) == all_members(gs) + g.members@,
    decreases gs.len(),
{
    if gs.len() == 0 {
        assert(gs.push(g).drop_first() =~= Seq::<Group>::empty());
        assert(gs.push(g)[0] == g);
        assert(all_members(gs.push(g)) == g.members@ + all_members(Seq::<Group>::empty()));
        assert(g.members@ + all_members(Seq::<Group>::empty()) =~= all_members(gs) + g.members@);
    } else {
        assert(gs.push(g).drop_first() =~= gs.drop_first().push(g));
        lemma_all_members_push(gs.drop_first(), g);
        assert(gs.push(g)[0] == gs[0]);
        assert(all_members(gs.push(g)) == gs[0].members@ + (all_members(gs.drop_first())
            + g.members@));
        assert(gs[0].members@ + (all_members(gs.drop_first()) + g.members@) =~= (gs[0].members@
            + all_members(gs.drop_first())) + g.members@);
    }
}

} // verus!
