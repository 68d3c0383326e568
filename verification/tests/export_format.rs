use housing_ballot::export::export_table;
use housing_ballot::export::group_string;
use housing_ballot::export::person_string;
use housing_ballot::export::roster_string;
use housing_ballot::Ballot;
use housing_ballot::Group;
use housing_ballot::Household;
use housing_ballot::Person;

fn person(name: &str, score: u32) -> Person {
    Person::new(String::from(name), score)
}

#[test]
fn person_label_format() {
    assert_eq!(person_string(&person("Alice", 10)), "Alice [10]");
    assert_eq!(person_string(&person("Zed", 0)), "Zed [0]");
    assert_eq!(person_string(&person("Max", 4294967295)), "Max [4294967295]");
    assert_eq!(person_string(&person("Deci", 12345)), "Deci [12345]");
}

#[test]
fn roster_joins_with_comma_and_space() {
    let ps = vec![person("Alice", 10), person("Bob", 20), person("Cara", 3)];
    assert_eq!(roster_string(&ps), "Alice [10], Bob [20], Cara [3]");
    assert_eq!(roster_string(&Vec::new()), "");
    assert_eq!(roster_string(&vec![person("Solo", 7)]), "Solo [7]");
}

#[test]
fn group_renders_as_member_roster() {
    let g = Group {
        members: vec![person("a", 1), person("b", 2)],
        household_preferences: Vec::new(),
        building_preferences: None,
    };
    assert_eq!(group_string(&g), "a [1], b [2]");
}

#[test]
fn export_round_trip_occupants_field() {
    // a household containing Alice(10) and Bob(20) must export the literal
    // occupants string "Alice [10], Bob [20]"
    let mut h = Household::new(String::from("H1"), 5, String::from("A"));
    let g = Group {
        members: vec![person("Alice", 10), person("Bob", 20)],
        household_preferences: Vec::new(),
        building_preferences: None,
    };
    assert!(h.attempt_to_add_group(g).is_ok());
    let ballot = Ballot {
        buildings: vec![String::from("A")],
        accommodation: vec![h],
        pending_groups: Vec::new(),
    };
    let t = export_table(&ballot);
    assert_eq!(t.household_names, vec![String::from("H1")]);
    assert_eq!(t.buildings, vec![String::from("A")]);
    assert_eq!(t.capacities, vec![5]);
    assert_eq!(t.occupants, vec![String::from("Alice [10], Bob [20]")]);
}

#[test]
fn export_after_allocation() {
    let g = Group {
        members: vec![person("Alice", 10), person("Bob", 20)],
        household_preferences: Vec::new(),
        building_preferences: None,
    };
    let mut ballot = Ballot {
        buildings: vec![String::from("A")],
        accommodation: vec![Household::new(String::from("H1"), 5, String::from("A"))],
        pending_groups: vec![g],
    };
    assert!(ballot.allocate_rooms(&vec![String::from("A")]).is_ok());
    let t = export_table(&ballot);
    assert_eq!(t.occupants, vec![String::from("Alice [10], Bob [20]")]);
}

#[test]
fn export_flattens_groups_in_arrival_order() {
    let mut h = Household::new(String::from("H"), 10, String::from("A"));
    let g1 = Group {
        members: vec![person("a", 1)],
        household_preferences: Vec::new(),
        building_preferences: None,
    };
    let g2 = Group {
        members: vec![person("b", 2), person("c", 3)],
        household_preferences: Vec::new(),
        building_preferences: None,
    };
    assert!(h.attempt_to_add_group(g1).is_ok());
    assert!(h.attempt_to_add_group(g2).is_ok());
    let ps = h.occupants();
    assert_eq!(roster_string(&ps), "a [1], b [2], c [3]");
}
