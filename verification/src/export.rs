use vstd::prelude::*;

use vstd::string::StringExecFns;

use crate::engine::Ballot;
use crate::model::Person;
use crate::model::all_members;

verus! {

/// The character for one decimal digit value.
pub open spec fn decimal_digit(d: int) -> char {
    if d == 0 {
        '0'
    } else if d == 1 {
        '1'
    } else if d == 2 {
        '2'
    } else if d == 3 {
        '3'
    } else if d == 4 {
        '4'
    } else if d == 5 {
        '5'
    } else if d == 6 {
        '6'
    } else if d == 7 {
        '7'
    } else if d == 8 {
        '8'
    } else {
        '9'
    }
}

/// The decimal numeral of a non-negative integer, most significant digit
/// first, without leading zeroes; zero reads "0".
pub open spec fn decimal_rep(n: int) -> Seq<char>
    recommends
        n >= 0,
    decreases n,
{
    if n < 10 {
        seq![decimal_digit(n)]
    } else {
        decimal_rep(n / 10).push(decimal_digit(n % 10))
    }
}

fn digit_str(d: u32) -> (s: &'static str)
    requires
        d < 10,
    ensures
        s@ == seq![decimal_digit(d as int)],
{
    proof {
        reveal_strlit("0");
        reveal_strlit("1");
        reveal_strlit("2");
        reveal_strlit("3");
        reveal_strlit("4");
        reveal_strlit("5");
        reveal_strlit("6");
        reveal_strlit("7");
        reveal_strlit("8");
        reveal_strlit("9");
        assert("0"@ =~= seq![decimal_digit(0)]);
        assert("1"@ =~= seq![decimal_digit(1)]);
        assert("2"@ =~= seq![decimal_digit(2)]);
        assert("3"@ =~= seq![decimal_digit(3)]);
        assert("4"@ =~= seq![decimal_digit(4)]);
        assert("5"@ =~= seq![decimal_digit(5)]);
        assert("6"@ =~= seq![decimal_digit(6)]);
        assert("7"@ =~= seq![decimal_digit(7)]);
        assert("8"@ =~= seq![decimal_digit(8)]);
        assert("9"@ =~= seq![decimal_digit(9)]);
    }
    match d {
        0 => "0",
        1 => "1",
        2 => "2",
        3 => "3",
        4 => "4",
        5 => "5",
        6 => "6",
        7 => "7",
        8 => "8",
        _ => "9",
    }
}

/// Renders `n` in decimal, exactly `decimal_rep`.
pub fn decimal_string(n: u32) -> (s: String)
    ensures
        s@ == decimal_rep(n as int),
    decreases n,
{
    if n < 10 {
        let s = String::from_str(digit_str(n));
        proof {
            assert(s@ =~= decimal_rep(n as int));
        }
        s
    } else {
        let mut s = decimal_string(n / 10);
        s.append(digit_str(n % 10));
        proof {
            assert(decimal_rep((n / 10) as int).push(decimal_digit((n % 10) as int))
                =~= decimal_rep((n / 10) as int) + seq![decimal_digit((n % 10) as int)]);
            assert(s@ =~= decimal_rep(n as int));
        }
        s
    }
}

/// One person's entry in the export roster: the name, a space, and the
/// score in square brackets.
pub open spec fn person_label(p: Person) -> Seq<char> {
    p.name@ + " ["@ + decimal_rep(p.score as int) + "]"@
}

/// Renders one person exactly as the export format demands.
pub fn person_string(p: &Person) -> (s: String)
    ensures
        s@ == person_label(*p),
{
    let mut s = p.name.clone();
    s.append(" [");
    let num = decimal_string(p.score);
    s.append(num.as_str());
    s.append("]");
    s
}

/// The roster of a sequence of people: their labels joined with a comma
/// and a space.
pub open spec fn roster_label(ps: Seq<Person>) -> Seq<char>
    decreases ps.len(),
{
    if ps.len() == 0 {
        Seq::empty()
    } else if ps.len() == 1 {
        person_label(ps[0])
    } else {
        person_label(ps[0]) + ", "@ + roster_label(ps.drop_first())
    }
}

proof fn lemma_roster_push(ps: Seq<Person>, p: Person)
    ensures
        ps.len() == 0 ==> roster_label(ps.push(p)) == person_label(p),
        ps.len() > 0 ==> roster_label(ps.push(p)) == roster_label(ps) + ", "@ + person_label(p),
    decreases ps.len(),
{
    if ps.len() == 0 {
        assert(roster_label(ps.push(p)) == person_label(ps.push(p)[0]));
        assert(ps.push(p)[0] == p);
    } else if ps.len() == 1 {
        assert(ps.push(p)[0] == ps[0]);
        assert(ps.push(p).drop_first() =~= seq![p]);
        assert(roster_label(seq![p]) == person_label(p));
        assert(roster_label(ps) == person_label(ps[0]));
    } else {
        assert(ps.push(p)[0] == ps[0]);
        assert(ps.push(p).drop_first() =~= ps.drop_first().push(p));
        lemma_roster_push(ps.drop_first(), p);
        assert(roster_label(ps.push(p)) == person_label(ps[0]) + ", "@ + (roster_label(
            ps.drop_first(),
        ) + ", "@ + person_label(p)));
        assert(person_label(ps[0]) + ", "@ + (roster_label(ps.drop_first()) + ", "@
            + person_label(p)) =~= (person_label(ps[0]) + ", "@ + roster_label(
            ps.drop_first(),
        )) + ", "@ + person_label(p));
    }
}

/// The roster depends only on the names and scores of the people.
proof fn lemma_roster_views(a: Seq<Person>, b: Seq<Person>)
    requires
        a.len() == b.len(),
        forall|i: int|
            0 <= i < a.len() ==> (#[trigger] a[i]).name@ == b[i].name@ && a[i].score
                == b[i].score,
    ensures
        roster_label(a) == roster_label(b),
    decreases a.len(),
{
    if a.len() > 0 {
        assert(person_label(a[0]) == person_label(b[0]));
        if a.len() > 1 {
            assert(forall|i: int|
                0 <= i < a.drop_first().len() ==> (#[trigger] a.drop_first()[i]).name@
                    == b.drop_first()[i].name@ && a.drop_first()[i].score == b.drop_first()[
                    i
                ].score);
            lemma_roster_views(a.drop_first(), b.drop_first());
        }
    }
}

/// Renders a whole roster exactly as the export format demands: labels
/// joined with a comma and a space.
pub fn roster_string(ps: &Vec<Person>) -> (s: String)
    ensures
        s@ == roster_label(ps@),
{
    let mut s = String::new();
    let mut i: usize = 0;
    while i < ps.len()
        invariant
            0 <= i <= ps@.len(),
            s@ == roster_label(ps@.take(i as int)),
        decreases ps@.len() - i,
    {
        proof {
            lemma_roster_push(ps@.take(i as int), ps@[i as int]);
            assert(ps@.take(i as int).push(ps@[i as int]) =~= ps@.take(i + 1));
        }
        if i > 0 {
            s.append(", ");
        }
        let one = person_string(&ps[i]);
        s.append(one.as_str());
        i = i + 1;
    }
    proof {
        assert(ps@.take(ps@.len() as int) =~= ps@);
    }
    s
}

/// Renders a group as the export format renders its members: the roster of
/// the members in order.
pub fn group_string(g: &crate::model::Group) -> (s: String)
    ensures
        s@ == roster_label(g.members@),
{
    roster_string(&g.members)
}

/// The tabular form of a post-allocation ballot: one row per household,
/// with the household name, its building, its capacity, and the roster of
/// its occupants.
pub struct ExportTable {
    pub household_names: Vec<String>,
    pub buildings: Vec<String>,
    pub capacities: Vec<u32>,
    pub occupants: Vec<String>,
}

/// Computes the four export columns. Row `i` describes household `i`: its
/// name, its building, its capacity, and its occupants as
/// `name [score], name [score], ...` in arrival order.
pub fn export_table(b: &Ballot) -> (t: ExportTable)
    ensures
        t.household_names@.len() == b.accommodation@.len(),
        t.buildings@.len() == b.accommodation@.len(),
        t.capacities@.len() == b.accommodation@.len(),
        t.occupants@.len() == b.accommodation@.len(),
        forall|i: int|
            0 <= i < b.accommodation@.len() ==> {
                &&& (#[trigger] t.household_names@[i])@ == b.accommodation@[i].name@
                &&& t.buildings@[i]@ == b.accommodation@[i].building@
                &&& t.capacities@[i] == b.accommodation@[i].capacity
                &&& t.occupants@[i]@ == roster_label(
                    all_members(b.accommodation@[i].placed_groups@),
                )
            },
{
    let mut household_names: Vec<String> = Vec::new();
    let mut buildings: Vec<String> = Vec::new();
    let mut capacities: Vec<u32> = Vec::new();
    let mut occupants: Vec<String> = Vec::new();
    let mut i: usize = 0;
    while i < b.accommodation.len()
        invariant
            0 <= i <= b.accommodation@.len(),
            household_names@.len() == i,
            buildings@.len() == i,
            capacities@.len() == i,
            occupants@.len() == i,
            forall|j: int|
                0 <= j < i ==> {
                    &&& (#[trigger] household_names@[j])@ == b.accommodation@[j].name@
                    &&& buildings@[j]@ == b.accommodation@[j].building@
                    &&& capacities@[j] == b.accommodation@[j].capacity
                    &&& occupants@[j]@ == roster_label(
                        all_members(b.accommodation@[j].placed_groups@),
                    )
                },
        decreases b.accommodation@.len() - i,
    {
        let h = &b.accommodation[i];
        household_names.push(h.name.clone());
        buildings.push(h.building.clone());
        capacities.push(h.capacity);
        let ps = h.occupants();
        proof {
            lemma_roster_views(ps@, all_members(h.placed_groups@));
        }
        occupants.push(roster_string(&ps));
        i = i + 1;
    }
    ExportTable { household_names, buildings, capacities, occupants }
}

} // verus!
