use housing_ballot::engine::are_permutations;
use housing_ballot::priority::sort_groups;
use housing_ballot::Ballot;
use housing_ballot::ConfigurationInconsistency;
use housing_ballot::Group;
use housing_ballot::Household;
use housing_ballot::Person;

fn person(name: &str, score: u32) -> Person {
    Person::new(String::from(name), score)
}

fn group(names_scores: &[(&str, u32)]) -> Group {
    let members: Vec<Person> = names_scores.iter().map(|(n, s)| person(n, *s)).collect();
    Group {
        members,
        household_preferences: Vec::new(),
        building_preferences: None,
    }
}

fn household(name: &str, capacity: u32, building: &str) -> Household {
    Household::new(String::from(name), capacity, String::from(building))
}

fn strings(names: &[&str]) -> Vec<String> {
    names.iter().map(|n| String::from(*n)).collect()
}

fn first_member_name(g: &Group) -> String {
    g.members[0].name.clone()
}

#[test]
fn capacity_invariant_holds_across_admissions() {
    let mut h = household("H", 3, "A");
    assert!(h.attempt_to_add_group(group(&[("a", 1), ("b", 1)])).is_ok());
    assert_eq!(h.occupancy(), 2);
    // a group of two no longer fits: the call fails and changes nothing
    let rejected = h.attempt_to_add_group(group(&[("c", 1), ("d", 1)]));
    assert!(rejected.is_err());
    assert_eq!(h.occupancy(), 2);
    assert_eq!(h.placed_groups.len(), 1);
    // a group of one exactly fills the household
    assert!(h.attempt_to_add_group(group(&[("e", 1)])).is_ok());
    assert_eq!(h.occupancy(), 3);
    assert!(h.occupancy() <= h.capacity);
}

#[test]
fn exact_fit_boundary_is_inclusive() {
    let mut h = household("H", 4, "A");
    assert!(h.attempt_to_add_group(group(&[("a", 1), ("b", 1)])).is_ok());
    assert_eq!(h.occupancy(), 2);
    let r = h.attempt_to_add_group(group(&[("c", 1), ("d", 1)]));
    assert!(r.is_ok());
    assert_eq!(h.occupancy(), 4);
}

#[test]
fn rejected_group_is_returned_unchanged() {
    let mut h = household("H", 1, "A");
    let g = group(&[("a", 7), ("b", 9)]);
    match h.attempt_to_add_group(g) {
        Ok(()) => panic!("a group of two cannot fit in capacity one"),
        Err(back) => {
            assert_eq!(back.members.len(), 2);
            assert_eq!(back.members[0].name, "a");
            assert_eq!(back.members[1].score, 9);
        }
    }
}

#[test]
fn can_fit_is_pure() {
    let h = household("H", 2, "A");
    let g = group(&[("a", 1)]);
    assert!(h.can_fit(&g));
    assert_eq!(h.occupancy(), 0);
    let big = group(&[("a", 1), ("b", 1), ("c", 1)]);
    assert!(!h.can_fit(&big));
}

#[test]
fn processing_order_is_ascending_by_average() {
    // averages 10, 5 and 7.5; the processing order must be 5, 7.5, 10
    let mut groups = vec![
        group(&[("ten", 10)]),
        group(&[("five", 5)]),
        group(&[("sevenfive-a", 10), ("sevenfive-b", 5)]),
    ];
    sort_groups(&mut groups);
    assert_eq!(first_member_name(&groups[0]), "five");
    assert_eq!(first_member_name(&groups[1]), "sevenfive-a");
    assert_eq!(first_member_name(&groups[2]), "ten");
}

#[test]
fn equal_averages_keep_input_order() {
    let mut groups = vec![
        group(&[("first", 5)]),
        group(&[("second", 10), ("third", 0)]),
        group(&[("fourth", 5)]),
    ];
    sort_groups(&mut groups);
    assert_eq!(first_member_name(&groups[0]), "first");
    assert_eq!(first_member_name(&groups[1]), "second");
    assert_eq!(first_member_name(&groups[2]), "fourth");
}

#[test]
fn household_preference_beats_building_preference() {
    // the group prefers household "far" in building B; building A is ranked
    // first in its building preferences and has room, but the household
    // preference must win
    let mut g = group(&[("p", 1)]);
    g.household_preferences = vec![Some(String::from("far"))];
    g.building_preferences = Some(strings(&["A", "B"]));
    let mut ballot = Ballot {
        buildings: strings(&["A", "B"]),
        accommodation: vec![household("near", 10, "A"), household("far", 10, "B")],
        pending_groups: vec![g],
    };
    let r = ballot.allocate_rooms(&strings(&["A", "B"]));
    assert!(r.is_ok());
    assert_eq!(ballot.accommodation[0].placed_groups.len(), 0);
    assert_eq!(ballot.accommodation[1].placed_groups.len(), 1);
    assert!(ballot.pending_groups.is_empty());
}

#[test]
fn full_preferred_household_falls_through_to_next_rank() {
    let mut g = group(&[("p", 1), ("q", 1)]);
    g.household_preferences = vec![
        Some(String::from("tiny")),
        None,
        Some(String::from("roomy")),
    ];
    let mut ballot = Ballot {
        buildings: strings(&["A"]),
        accommodation: vec![household("tiny", 1, "A"), household("roomy", 5, "A")],
        pending_groups: vec![g],
    };
    let r = ballot.allocate_rooms(&strings(&["A"]));
    assert!(r.is_ok());
    assert_eq!(ballot.accommodation[0].placed_groups.len(), 0);
    assert_eq!(ballot.accommodation[1].placed_groups.len(), 1);
}

#[test]
fn fallback_follows_default_order() {
    // no preferences at all: the default order [B, A] must be obeyed, so the
    // group lands in building B although building A's household comes first
    let g = group(&[("p", 1)]);
    let mut ballot = Ballot {
        buildings: strings(&["A", "B"]),
        accommodation: vec![household("hA", 10, "A"), household("hB", 10, "B")],
        pending_groups: vec![g],
    };
    let r = ballot.allocate_rooms(&strings(&["B", "A"]));
    assert!(r.is_ok());
    assert_eq!(ballot.accommodation[0].placed_groups.len(), 0);
    assert_eq!(ballot.accommodation[1].placed_groups.len(), 1);
}

#[test]
fn fallback_stops_at_first_building_with_room() {
    // building A is first in the default order but its household is full;
    // the group must end in building B
    let g = group(&[("p", 1), ("q", 1), ("r", 1)]);
    let mut ballot = Ballot {
        buildings: strings(&["A", "B"]),
        accommodation: vec![household("hA", 1, "A"), household("hB", 5, "B")],
        pending_groups: vec![g],
    };
    let r = ballot.allocate_rooms(&strings(&["A", "B"]));
    assert!(r.is_ok());
    assert_eq!(ballot.accommodation[0].placed_groups.len(), 0);
    assert_eq!(ballot.accommodation[1].placed_groups.len(), 1);
}

#[test]
fn own_building_preferences_override_default_order() {
    let mut g = group(&[("p", 1)]);
    g.building_preferences = Some(strings(&["B"]));
    let mut ballot = Ballot {
        buildings: strings(&["A", "B"]),
        accommodation: vec![household("hA", 10, "A"), household("hB", 10, "B")],
        pending_groups: vec![g],
    };
    let r = ballot.allocate_rooms(&strings(&["A", "B"]));
    assert!(r.is_ok());
    assert_eq!(ballot.accommodation[1].placed_groups.len(), 1);
}

#[test]
fn order_mismatch_aborts_without_mutation() {
    // Ballot buildings {A, B}, default order [A, C]: allocation must abort
    // with a configuration inconsistency and touch nothing
    let g = group(&[("p", 1)]);
    let mut ballot = Ballot {
        buildings: strings(&["A", "B"]),
        accommodation: vec![household("H1", 3, "A")],
        pending_groups: vec![g],
    };
    let r = ballot.allocate_rooms(&strings(&["A", "C"]));
    match r {
        Err(ConfigurationInconsistency::OrderMismatch) => {}
        _ => panic!("expected an order mismatch"),
    }
    assert_eq!(ballot.accommodation[0].placed_groups.len(), 0);
    assert_eq!(ballot.pending_groups.len(), 1);
    assert_eq!(first_member_name(&ballot.pending_groups[0]), "p");
}

#[test]
fn unknown_household_building_is_fatal() {
    let mut ballot = Ballot {
        buildings: strings(&["A"]),
        accommodation: vec![household("H1", 3, "A"), household("H2", 3, "Z")],
        pending_groups: vec![group(&[("p", 1)])],
    };
    let r = ballot.allocate_rooms(&strings(&["A"]));
    match r {
        Err(ConfigurationInconsistency::UnknownHouseholdBuilding { household, building }) => {
            assert_eq!(household, "H2");
            assert_eq!(building, "Z");
        }
        _ => panic!("expected an unknown household building"),
    }
    assert_eq!(ballot.accommodation[0].placed_groups.len(), 0);
}

#[test]
fn unknown_preferred_building_is_fatal() {
    let mut g = group(&[("p", 1)]);
    g.building_preferences = Some(strings(&["Q"]));
    let mut ballot = Ballot {
        buildings: strings(&["A"]),
        accommodation: vec![household("H1", 3, "A")],
        pending_groups: vec![g],
    };
    let r = ballot.allocate_rooms(&strings(&["A"]));
    match r {
        Err(ConfigurationInconsistency::UnknownPreferredBuilding { building }) => {
            assert_eq!(building, "Q");
        }
        _ => panic!("expected an unknown preferred building"),
    }
    assert_eq!(ballot.accommodation[0].placed_groups.len(), 0);
}

#[test]
fn concrete_scenario_fills_h1() {
    // one household H1 in building A with capacity 3, one group of two with
    // no preferences, default order [A]: the group is admitted, occupancy
    // becomes 2 and the residual is empty
    let g = group(&[("m1", 1), ("m2", 1)]);
    let mut ballot = Ballot {
        buildings: strings(&["A"]),
        accommodation: vec![household("H1", 3, "A")],
        pending_groups: vec![g],
    };
    let r = ballot.allocate_rooms(&strings(&["A"]));
    assert!(r.is_ok());
    assert_eq!(ballot.accommodation[0].occupancy(), 2);
    assert!(ballot.pending_groups.is_empty());
}

#[test]
fn group_too_large_everywhere_ends_in_residual() {
    let g = group(&[("p", 1), ("q", 1)]);
    let mut ballot = Ballot {
        buildings: strings(&["A"]),
        accommodation: vec![household("H1", 1, "A")],
        pending_groups: vec![g],
    };
    let r = ballot.allocate_rooms(&strings(&["A"]));
    assert!(r.is_ok());
    assert_eq!(ballot.accommodation[0].placed_groups.len(), 0);
    assert_eq!(ballot.pending_groups.len(), 1);
    assert_eq!(first_member_name(&ballot.pending_groups[0]), "p");
}

#[test]
fn no_buildings_means_no_tier_b_candidates() {
    let g = group(&[("p", 1)]);
    let mut ballot = Ballot {
        buildings: Vec::new(),
        accommodation: Vec::new(),
        pending_groups: vec![g],
    };
    let r = ballot.allocate_rooms(&Vec::new());
    assert!(r.is_ok());
    assert_eq!(ballot.pending_groups.len(), 1);
}

#[test]
fn conservation_every_group_ends_in_exactly_one_place() {
    let names = ["g1", "g2", "g3", "g4", "g5"];
    let groups: Vec<Group> = names
        .iter()
        .enumerate()
        .map(|(i, n)| group(&[(*n, (i as u32 + 1) * 10), (*n, 1)]))
        .collect();
    let mut ballot = Ballot {
        buildings: strings(&["A", "B"]),
        accommodation: vec![
            household("hA", 4, "A"),
            household("hB", 3, "B"),
            household("hC", 2, "A"),
        ],
        pending_groups: groups,
    };
    let r = ballot.allocate_rooms(&strings(&["A", "B"]));
    assert!(r.is_ok());
    let mut seen: Vec<String> = Vec::new();
    for h in &ballot.accommodation {
        assert!(h.occupancy() <= h.capacity);
        for g in &h.placed_groups {
            seen.push(first_member_name(g));
        }
    }
    for g in &ballot.pending_groups {
        seen.push(first_member_name(g));
    }
    seen.sort();
    let mut expected: Vec<String> = names.iter().map(|n| String::from(*n)).collect();
    expected.sort();
    assert_eq!(seen, expected);
}

#[test]
fn residual_keeps_processing_order() {
    // nothing fits anywhere: the residual is the groups in ascending order
    // of average score
    let groups = vec![
        group(&[("high", 30)]),
        group(&[("low", 10)]),
        group(&[("mid", 20)]),
    ];
    let mut ballot = Ballot {
        buildings: strings(&["A"]),
        accommodation: vec![household("H", 0, "A")],
        pending_groups: groups,
    };
    let r = ballot.allocate_rooms(&strings(&["A"]));
    assert!(r.is_ok());
    let order: Vec<String> = ballot.pending_groups.iter().map(first_member_name).collect();
    assert_eq!(order, vec!["low", "mid", "high"]);
}

#[test]
fn degenerate_group_is_rejected_at_construction() {
    let r = Group::new(Vec::new(), Vec::new(), None);
    assert!(r.is_err());
    let ok = Group::new(vec![person("a", 1)], Vec::new(), None);
    assert!(ok.is_ok());
}

#[test]
fn group_derived_metrics() {
    let g = group(&[("a", 10), ("b", 20)]);
    assert_eq!(g.score(), 30);
    assert_eq!(g.size(), 2);
}

#[test]
fn permutation_check_cases() {
    assert!(are_permutations(&strings(&["A", "B"]), &strings(&["B", "A"])));
    assert!(are_permutations(&Vec::new(), &Vec::new()));
    assert!(!are_permutations(&strings(&["A", "B"]), &strings(&["A", "C"])));
    assert!(!are_permutations(&strings(&["A"]), &strings(&["A", "B"])));
    assert!(!are_permutations(&strings(&["A", "B"]), &strings(&["A"])));
    // duplicates are not permitted on either side
    assert!(!are_permutations(&strings(&["A", "A"]), &strings(&["A", "A"])));
    assert!(!are_permutations(&strings(&["A", "B", "B"]), &strings(&["A", "B"])));
}

#[test]
fn later_groups_see_earlier_placements() {
    // capacity is checked fresh on every admission: once the first group
    // fills the household, the second must overflow to the next one
    let groups = vec![group(&[("a", 1), ("b", 1)]), group(&[("c", 2), ("d", 2)])];
    let mut ballot = Ballot {
        buildings: strings(&["A"]),
        accommodation: vec![household("h1", 2, "A"), household("h2", 2, "A")],
        pending_groups: groups,
    };
    let r = ballot.allocate_rooms(&strings(&["A"]));
    assert!(r.is_ok());
    assert_eq!(ballot.accommodation[0].placed_groups.len(), 1);
    assert_eq!(ballot.accommodation[1].placed_groups.len(), 1);
    assert_eq!(first_member_name(&ballot.accommodation[0].placed_groups[0]), "a");
    assert_eq!(first_member_name(&ballot.accommodation[1].placed_groups[0]), "c");
}
