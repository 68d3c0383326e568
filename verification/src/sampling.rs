use vstd::prelude::*;

use vstd::string::StringExecFns;

use rand::Rng;

use crate::engine::Ballot;
use crate::engine::ballot_wf;
use crate::engine::pre_allocation;
use crate::export::decimal_rep;
use crate::export::decimal_string;
use crate::model::Group;
use crate::model::Household;
use crate::model::Person;
use crate::model::group_wf;

verus! {

#[verifier::external_type_specification]
#[verifier::external_body]
pub struct ExThreadRng(rand::rngs::ThreadRng);

/// Relies on rand's Rng::gen_range over an inclusive range: the sample lies
/// within the bounds. It panics only on an empty range, which the requires
/// excludes; nothing more can be said of a random draw.
#[verifier::external_body]
fn random_in_range(rng: &mut rand::rngs::ThreadRng, lo: u32, hi: u32) -> (r: u32)
    requires
        lo <= hi,
    ensures
        lo <= r <= hi,
{
    rng.gen_range(lo..=hi)
}

/// The name of the sample building with the given number.
pub open spec fn building_label(i: int) -> Seq<char> {
    "Building "@ + decimal_rep(i)
}

/// The name of the sample household with the given number.
pub open spec fn household_label(i: int) -> Seq<char> {
    "Household "@ + decimal_rep(i)
}

/// The name of sample person `j` of sample group `i`.
pub open spec fn person_name_label(j: int, i: int) -> Seq<char> {
    "Person "@ + decimal_rep(j) + " in group "@ + decimal_rep(i)
}

/// Builds a sample ballot ready for allocation: numbered buildings,
/// households with the given capacities in randomly drawn buildings, and
/// groups of the given sizes whose members carry random scores between 1
/// and 200. The caller supplies the sizes, drawn from whatever
/// distribution it likes; everything else is constructed here.
pub fn generate_sample_ballot(
    rng: &mut rand::rngs::ThreadRng,
    group_sizes: &Vec<u32>,
    household_capacities: &Vec<u32>,
    building_number: u32,
) -> (b: Ballot)
    requires
        building_number >= 1,
        group_sizes@.len() <= u32::MAX,
        household_capacities@.len() <= u32::MAX,
        forall|i: int| 0 <= i < group_sizes@.len() ==> 1 <= #[trigger] group_sizes@[i],
    ensures
        b.buildings@.len() == building_number,
        forall|i: int|
            0 <= i < b.buildings@.len() ==> (#[trigger] b.buildings@[i])@ == building_label(
                i + 1,
            ),
        b.accommodation@.len() == household_capacities@.len(),
        forall|i: int|
            0 <= i < b.accommodation@.len() ==> {
                let h = #[trigger] b.accommodation@[i];
                &&& h.name@ == household_label(i + 1)
                &&& h.capacity == household_capacities@[i]
                &&& h.placed_groups@.len() == 0
                &&& exists|k: int| 1 <= k <= building_number && h.building@ == building_label(k)
            },
        b.pending_groups@.len() == group_sizes@.len(),
        forall|i: int|
            0 <= i < b.pending_groups@.len() ==> {
                let g = #[trigger] b.pending_groups@[i];
                &&& group_wf(g)
                &&& g.members@.len() == group_sizes@[i]
                &&& g.household_preferences@.len() == 0
                &&& g.building_preferences is None
                &&& forall|j: int|
                    0 <= j < g.members@.len() ==> {
                        &&& (#[trigger] g.members@[j]).name@ == person_name_label(j + 1, i + 1)
                        &&& 1 <= g.members@[j].score <= 200
                    }
            },
        ballot_wf(b),
        pre_allocation(b),
{
    let mut buildings: Vec<String> = Vec::new();
    let mut bi: u32 = 0;
    while bi < building_number
        invariant
            0 <= bi <= building_number,
            buildings@.len() == bi,
            forall|k: int|
                0 <= k < bi ==> (#[trigger] buildings@[k])@ == building_label(k + 1),
        decreases building_number - bi,
    {
        let mut name = String::from_str("Building ");
        let num = decimal_string(bi + 1);
        name.append(num.as_str());
        buildings.push(name);
        bi = bi + 1;
    }

    let mut groups: Vec<Group> = Vec::new();
    let mut gi: usize = 0;
    while gi < group_sizes.len()
        invariant
            0 <= gi <= group_sizes@.len() <= u32::MAX,
            forall|i: int| 0 <= i < group_sizes@.len() ==> 1 <= #[trigger] group_sizes@[i],
            groups@.len() == gi,
            forall|i: int|
                0 <= i < gi ==> {
                    let g = #[trigger] groups@[i];
                    &&& group_wf(g)
                    &&& g.members@.len() == group_sizes@[i]
                    &&& g.household_preferences@.len() == 0
                    &&& g.building_preferences is None
                    &&& forall|j: int|
                        0 <= j < g.members@.len() ==> {
                            &&& (#[trigger] g.members@[j]).name@ == person_name_label(
                                j + 1,
                                i + 1,
                            )
                            &&& 1 <= g.members@[j].score <= 200
                        }
                },
        decreases group_sizes@.len() - gi,
    {
        let size = group_sizes[gi];
        let mut members: Vec<Person> = Vec::new();
        let mut j: u32 = 0;
        while j < size
            invariant
                0 <= j <= size,
                0 <= gi < group_sizes@.len() <= u32::MAX,
                size == group_sizes@[gi as int],
                members@.len() == j,
                forall|m: int|
                    0 <= m < j ==> {
                        &&& (#[trigger] members@[m]).name@ == person_name_label(
                            m + 1,
                            gi + 1,
                        )
                        &&& 1 <= members@[m].score <= 200
                    },
            decreases size - j,
        {
            let mut pname = String::from_str("Person ");
            let jnum = decimal_string(j + 1);
            pname.append(jnum.as_str());
            pname.append(" in group ");
            let ginum = decimal_string((gi as u32) + 1);
            pname.append(ginum.as_str());
            let score = random_in_range(rng, 1, 200);
            members.push(Person { name: pname, score });
            j = j + 1;
        }
        groups.push(
            Group { members, household_preferences: Vec::new(), building_preferences: None },
        );
        gi = gi + 1;
    }

    let mut accommodation: Vec<Household> = Vec::new();
    let mut hi: usize = 0;
    while hi < household_capacities.len()
        invariant
            0 <= hi <= household_capacities@.len() <= u32::MAX,
            building_number >= 1,
            accommodation@.len() == hi,
            forall|i: int|
                0 <= i < hi ==> {
                    let h = #[trigger] accommodation@[i];
                    &&& h.name@ == household_label(i + 1)
                    &&& h.capacity == household_capacities@[i]
                    &&& h.placed_groups@.len() == 0
                    &&& exists|k: int|
                        1 <= k <= building_number && h.building@ == building_label(k)
                },
        decreases household_capacities@.len() - hi,
    {
        let mut hname = String::from_str("Household ");
        let hnum = decimal_string((hi as u32) + 1);
        hname.append(hnum.as_str());
        let drawn = random_in_range(rng, 1, building_number);
        let mut bname = String::from_str("Building ");
        let bnum = decimal_string(drawn);
        bname.append(bnum.as_str());
        let capacity = household_capacities[hi];
        accommodation.push(
            Household { name: hname, capacity, building: bname, placed_groups: Vec::new() },
        );
        proof {
            let h = accommodation@[hi as int];
            assert(1 <= drawn as int <= building_number && h.building@ == building_label(
                drawn as int,
            ));
        }
        hi = hi + 1;
    }

    let b = Ballot { buildings, accommodation, pending_groups: groups };
    proof {
        assert(ballot_wf(b));
        assert(pre_allocation(b));
    }
    b
}

} // verus!
