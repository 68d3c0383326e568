use housing_ballot::sampling::generate_sample_ballot;

#[test]
fn sample_ballot_has_the_documented_shape() {
    let mut rng = rand::thread_rng();
    let group_sizes = vec![2, 3, 1];
    let capacities = vec![5, 4];
    let ballot = generate_sample_ballot(&mut rng, &group_sizes, &capacities, 2);

    assert_eq!(ballot.buildings, vec![String::from("Building 1"), String::from("Building 2")]);

    assert_eq!(ballot.accommodation.len(), 2);
    assert_eq!(ballot.accommodation[0].name, "Household 1");
    assert_eq!(ballot.accommodation[1].name, "Household 2");
    assert_eq!(ballot.accommodation[0].capacity, 5);
    assert_eq!(ballot.accommodation[1].capacity, 4);
    for h in &ballot.accommodation {
        assert!(ballot.buildings.contains(&h.building));
        assert!(h.placed_groups.is_empty());
    }

    assert_eq!(ballot.pending_groups.len(), 3);
    assert_eq!(ballot.pending_groups[0].members.len(), 2);
    assert_eq!(ballot.pending_groups[1].members.len(), 3);
    assert_eq!(ballot.pending_groups[2].members.len(), 1);
    assert_eq!(ballot.pending_groups[0].members[0].name, "Person 1 in group 1");
    assert_eq!(ballot.pending_groups[0].members[1].name, "Person 2 in group 1");
    assert_eq!(ballot.pending_groups[1].members[2].name, "Person 3 in group 2");
    for g in &ballot.pending_groups {
        assert!(g.household_preferences.is_empty());
        assert!(g.building_preferences.is_none());
        for p in &g.members {
            assert!(1 <= p.score && p.score <= 200);
        }
    }
}

#[test]
fn sample_ballot_allocates_cleanly() {
    let mut rng = rand::thread_rng();
    let group_sizes = vec![3, 2, 4, 1, 2];
    let capacities = vec![6, 6, 6];
    let mut ballot = generate_sample_ballot(&mut rng, &group_sizes, &capacities, 3);
    let default_order = ballot.buildings.clone();
    let r = ballot.allocate_rooms(&default_order);
    assert!(r.is_ok());
    let placed: u32 = ballot
        .accommodation
        .iter()
        .map(|h| h.placed_groups.len() as u32)
        .sum();
    assert_eq!(placed as usize + ballot.pending_groups.len(), group_sizes.len());
    for h in &ballot.accommodation {
        assert!(h.occupancy() <= h.capacity);
    }
}

#[test]
fn random_scores_stay_in_range_across_runs() {
    let mut rng = rand::thread_rng();
    for _ in 0..20 {
        let ballot = generate_sample_ballot(&mut rng, &vec![5], &vec![1], 1);
        for p in &ballot.pending_groups[0].members {
            assert!(1 <= p.score && p.score <= 200);
        }
    }
}
