use vstd::prelude::*;

use crate::model::Group;
use crate::model::group_wf;
use crate::model::sum_scores;
use crate::model::lemma_sum_scores_bounds;

verus! {

/// Total score of a group, as a mathematical integer.
pub open spec fn total_of(g: Group) -> int {
    sum_scores(g.members@)
}

/// Size of a group, as a mathematical integer.
pub open spec fn size_of(g: Group) -> int {
    g.members@.len() as int
}

/// The average score of `a` is at most that of `b`. Averages are compared
/// exactly by cross-multiplication, so no rounding is involved:
/// total(a)/size(a) <= total(b)/size(b) iff total(a)*size(b) <= total(b)*size(a)
/// whenever both sizes are positive.
pub open spec fn avg_le(a: Group, b: Group) -> bool {
    total_of(a) * size_of(b) <= total_of(b) * size_of(a)
}

/// The average score of `a` is strictly below that of `b`.
pub open spec fn avg_lt(a: Group, b: Group) -> bool {
    total_of(a) * size_of(b) < total_of(b) * size_of(a)
}

/// The two groups have exactly equal average scores.
pub open spec fn avg_eq(a: Group, b: Group) -> bool {
    avg_le(a, b) && avg_le(b, a)
}

/// Strictly-below on the left of at-most is still strictly below.
pub proof fn lemma_avg_lt_le_trans(a: Group, b: Group, c: Group)
    requires
        group_wf(a),
        group_wf(b),
        group_wf(c),
        avg_lt(a, b),
        avg_le(b, c),
    ensures
        avg_lt(a, c),
{
    let ta = total_of(a);
    let tb = total_of(b);
    let tc = total_of(c);
    let sa = size_of(a);
    let sb = size_of(b);
    let sc = size_of(c);
    assert(ta * sc < tc * sa) by (nonlinear_arith)
        requires
            ta * sb < tb * sa,
            tb * sc <= tc * sb,
            sa >= 1,
            sb >= 1,
            sc >= 1,
    ;
}

/// At-most is transitive.
pub proof fn lemma_avg_le_trans(a: Group, b: Group, c: Group)
    requires
        group_wf(a),
        group_wf(b),
        group_wf(c),
        avg_le(a, b),
        avg_le(b, c),
    ensures
        avg_le(a, c),
{
    let ta = total_of(a);
    let tb = total_of(b);
    let tc = total_of(c);
    let sa = size_of(a);
    let sb = size_of(b);
    let sc = size_of(c);
    assert(ta * sc <= tc * sa) by (nonlinear_arith)
        requires
            ta * sb <= tb * sa,
            tb * sc <= tc * sb,
            sa >= 1,
            sb >= 1,
            sc >= 1,
    ;
}

/// True iff the average score of `a` is strictly below that of `b`.
/// The products fit in 128 bits: a total is at most 2^32 * 2^32 and a size
/// at most 2^32.
pub fn avg_less(a: &Group, b: &Group) -> (r: bool)
    requires
        group_wf(*a),
        group_wf(*b),
    ensures
        r == avg_lt(*a, *b),
{
    proof {
        lemma_sum_scores_bounds(a.members@);
        lemma_sum_scores_bounds(b.members@);
    }
    let ta = a.score();
    let sa = a.size();
    let tb = b.score();
    let sb = b.size();
    proof {
        assert((ta as int) * (sb as int) <= u128::MAX && (tb as int) * (sa as int)
            <= u128::MAX) by (nonlinear_arith)
            requires
                0 <= ta as int <= u64::MAX,
                0 <= tb as int <= u64::MAX,
                0 <= sa as int <= u32::MAX,
                0 <= sb as int <= u32::MAX,
        ;
    }
    (ta as u128) * (sb as u128) < (tb as u128) * (sa as u128)
}

/// Ascending by average score, pairwise.
pub open spec fn sorted_by_avg(s: Seq<Group>) -> bool {
    forall|i: int, j: int| 0 <= i < j < s.len() ==> avg_le(#[trigger] s[i], #[trigger] s[j])
}

/// The position where a stable insertion puts `g`: after every leading
/// element whose average does not exceed that of `g`.
pub open spec fn insert_pos(s: Seq<Group>, g: Group) -> int
    decreases s.len(),
{
    if s.len() == 0 {
        0
    } else if avg_lt(g, s[0]) {
        0
    } else {
        1 + insert_pos(s.drop_first(), g)
    }
}

/// Stable insertion of `g` into `s`: `g` goes before the first element with
/// a strictly greater average, hence after every element that ties with it.
pub open spec fn insert_by_avg(s: Seq<Group>, g: Group) -> Seq<Group>
    decreases s.len(),
{
    if s.len() == 0 {
        seq![g]
    } else if avg_lt(g, s[0]) {
        seq![g] + s
    } else {
        seq![s[0]] + insert_by_avg(s.drop_first(), g)
    }
}

/// Stable insertion sort, ascending by average score. This is the processing
/// order of the allocation pass: lower-scoring groups are served first, and
/// ties keep their original relative order.
pub open spec fn sort_by_avg(s: Seq<Group>) -> Seq<Group>
    decreases s.len(),
{
    if s.len() == 0 {
        s
    } else {
        insert_by_avg(sort_by_avg(s.drop_last()), s.last())
    }
}

proof fn lemma_insert_pos_props(s: Seq<Group>, g: Group)
    ensures
        0 <= insert_pos(s, g) <= s.len(),
        forall|i: int| 0 <= i < insert_pos(s, g) ==> !avg_lt(g, #[trigger] s[i]),
        insert_pos(s, g) < s.len() ==> avg_lt(g, s[insert_pos(s, g)]),
        insert_by_avg(s, g) == s.take(insert_pos(s, g)) + seq![g] + s.skip(insert_pos(s, g)),
    decreases s.len(),
{
    if s.len() == 0 {
        assert(insert_by_avg(s, g) =~= s.take(0) + seq![g] + s.skip(0));
    } else if avg_lt(g, s[0]) {
        assert(insert_by_avg(s, g) =~= s.take(0) + seq![g] + s.skip(0));
    } else {
        let rest = s.drop_first();
        lemma_insert_pos_props(rest, g);
        let p = 1 + insert_pos(rest, g);
        assert forall|i: int| 0 <= i < p implies !avg_lt(g, #[trigger] s[i]) by {
            if i > 0 {
                assert(s[i] == rest[i - 1]);
            }
        }
        assert(p < s.len() ==> avg_lt(g, s[p]));
        assert(insert_by_avg(s, g) == seq![s[0]] + insert_by_avg(rest, g));
        assert(seq![s[0]] + (rest.take(p - 1) + seq![g] + rest.skip(p - 1)) =~= s.take(p)
            + seq![g] + s.skip(p));
    }
}

/// The position the exec scan finds is the insertion position.
proof fn lemma_insert_pos_unique(s: Seq<Group>, g: Group, j: int)
    requires
        0 <= j <= s.len(),
        forall|k: int| 0 <= k < j ==> !avg_lt(g, #[trigger] s[k]),
        j < s.len() ==> avg_lt(g, s[j]),
    ensures
        insert_pos(s, g) == j,
    decreases s.len(),
{
    if s.len() > 0 && !avg_lt(g, s[0]) {
        let rest = s.drop_first();
        assert forall|k: int| 0 <= k < j - 1 implies !avg_lt(g, #[trigger] rest[k]) by {
            assert(rest[k] == s[k + 1]);
        }
        lemma_insert_pos_unique(rest, g, j - 1);
    }
}

/// Inserting into a sorted sequence keeps it sorted.
proof fn lemma_insert_sorted(s: Seq<Group>, g: Group)
    requires
        sorted_by_avg(s),
        group_wf(g),
        forall|i: int| 0 <= i < s.len() ==> group_wf(#[trigger] s[i]),
    ensures
        sorted_by_avg(insert_by_avg(s, g)),
{
    lemma_insert_pos_props(s, g);
    let p = insert_pos(s, g);
    let t = insert_by_avg(s, g);
    assert forall|i: int, j: int| 0 <= i < j < t.len() implies avg_le(
        #[trigger] t[i],
        #[trigger] t[j],
    ) by {
        if i < p {
            assert(t[i] == s[i]);
        }
        if j < p {
            assert(t[j] == s[j]);
        }
        if i > p {
            assert(t[i] == s[i - 1]);
        }
        if j > p {
            assert(t[j] == s[j - 1]);
        }
        if i == p && j > p {
            // g precedes a strictly greater element and everything after it.
            assert(avg_lt(g, s[p]));
            if j - 1 > p {
                lemma_avg_lt_le_trans(g, s[p], s[j - 1]);
            }
        } else if i < p && j == p {
            // a leading element does not exceed g.
            assert(!avg_lt(g, s[i]));
        }
    }
}

/// Insertion adds exactly the inserted element, as a multiset.
proof fn lemma_insert_multiset(s: Seq<Group>, g: Group)
    ensures
        insert_by_avg(s, g).to_multiset() == s.to_multiset().insert(g),
{
    broadcast use vstd::seq_lib::group_to_multiset_ensures;

    lemma_insert_pos_props(s, g);
    let p = insert_pos(s, g);
    assert(insert_by_avg(s, g) =~= (s.take(p) + s.skip(p)).insert(p, g));
    assert(s.take(p) + s.skip(p) =~= s);
    assert(insert_by_avg(s, g) == s.insert(p, g));
}

/// Sorting permutes the input: nothing is added, lost or duplicated.
pub proof fn lemma_sort_multiset(s: Seq<Group>)
    ensures
        sort_by_avg(s).to_multiset() == s.to_multiset(),
    decreases s.len(),
{
    broadcast use vstd::seq_lib::group_to_multiset_ensures;

    if s.len() > 0 {
        lemma_sort_multiset(s.drop_last());
        lemma_insert_multiset(sort_by_avg(s.drop_last()), s.last());
        assert(s.drop_last().push(s.last()) =~= s);
    }
}

/// Every element of the sorted sequence is an element of the input.
pub proof fn lemma_sort_wf(s: Seq<Group>)
    requires
        forall|i: int| 0 <= i < s.len() ==> group_wf(#[trigger] s[i]),
    ensures
        sort_by_avg(s).len() == s.len(),
        forall|i: int|
            0 <= i < sort_by_avg(s).len() ==> group_wf(#[trigger] sort_by_avg(s)[i]),
{
    broadcast use vstd::seq_lib::group_to_multiset_ensures;

    lemma_sort_multiset(s);
    let t = sort_by_avg(s);
    assert(t.to_multiset().len() == t.len());
    assert(s.to_multiset().len() == s.len());
    assert forall|i: int| 0 <= i < t.len() implies group_wf(#[trigger] t[i]) by {
        assert(t.to_multiset().contains(t[i]));
        assert(s.contains(t[i]));
    }
}

/// The processing order is ascending by average score.
///
/// Law: groups with lower average score are served first; with averages
/// 10, 5 and 7.5 the processing order is 5, 7.5, 10.
pub proof fn lemma_sort_sorted(s: Seq<Group>)
    requires
        forall|i: int| 0 <= i < s.len() ==> group_wf(#[trigger] s[i]),
    ensures
        sorted_by_avg(sort_by_avg(s)),
    decreases s.len(),
{
    if s.len() > 0 {
        lemma_sort_sorted(s.drop_last());
        lemma_sort_wf(s.drop_last());
        lemma_insert_sorted(sort_by_avg(s.drop_last()), s.last());
    }
}

/// A filter that keeps nothing yields the empty sequence.
proof fn lemma_filter_none(s: Seq<Group>, pred: spec_fn(Group) -> bool)
    requires
        forall|i: int| 0 <= i < s.len() ==> !pred(#[trigger] s[i]),
    ensures
        s.filter(pred) == Seq::<Group>::empty(),
    decreases s.len(),
{
    reveal(Seq::filter);
    if s.len() > 0 {
        lemma_filter_none(s.drop_last(), pred);
    }
}

proof fn lemma_filter_one(g: Group, pred: spec_fn(Group) -> bool)
    ensures
        pred(g) ==> seq![g].filter(pred) == seq![g],
        !pred(g) ==> seq![g].filter(pred) == Seq::<Group>::empty(),
{
    reveal(Seq::filter);
    assert(seq![g].drop_last() =~= Seq::<Group>::empty());
    assert(seq![g].last() == g);
    assert(Seq::<Group>::empty().filter(pred) == Seq::<Group>::empty());
    if pred(g) {
        assert(seq![g].filter(pred) =~= seq![g]);
    } else {
        assert(seq![g].filter(pred) == seq![g].drop_last().filter(pred));
    }
}

/// Sorting is stable: the subsequence of groups whose average ties with any
/// fixed group is exactly the same, in the same order, before and after
/// sorting. Together with `lemma_sort_sorted` this pins the processing
/// order: ascending averages, ties in input order.
pub proof fn lemma_sort_stable(s: Seq<Group>, g0: Group)
    requires
        group_wf(g0),
        forall|i: int| 0 <= i < s.len() ==> group_wf(#[trigger] s[i]),
    ensures
        sort_by_avg(s).filter(|x: Group| avg_eq(x, g0)) == s.filter(|x: Group| avg_eq(x, g0)),
    decreases s.len(),
{
    broadcast use vstd::prelude::Seq::filter_distributes_over_add;

    reveal(Seq::filter);
    let pred = |x: Group| avg_eq(x, g0);
    if s.len() > 0 {
        let init = s.drop_last();
        let g = s.last();
        let t = sort_by_avg(init);
        lemma_sort_stable(init, g0);
        lemma_sort_sorted(init);
        lemma_sort_wf(init);
        lemma_insert_pos_props(t, g);
        let p = insert_pos(t, g);
        assert(sort_by_avg(s) == t.take(p) + seq![g] + t.skip(p));
        assert((t.take(p) + seq![g] + t.skip(p)).filter(pred) == t.take(p).filter(pred)
            + seq![g].filter(pred) + t.skip(p).filter(pred));
        lemma_filter_one(g, pred);
        if pred(g) {
            // nothing behind the insertion point ties with g0: it is all
            // strictly above g, which itself ties with g0.
            assert forall|k: int| 0 <= k < t.skip(p).len() implies !pred(
                #[trigger] t.skip(p)[k],
            ) by {
                let x = t.skip(p)[k];
                assert(x == t[p + k]);
                assert(avg_lt(g, t[p]));
                if k > 0 {
                    lemma_avg_lt_le_trans(g, t[p], t[p + k]);
                } else {
                    assert(avg_lt(g, x));
                }
                if pred(x) {
                    assert(avg_le(x, g0));
                    assert(avg_le(g0, g));
                    lemma_avg_le_trans(x, g0, g);
                    assert(avg_le(x, g));
                    assert(false);
                }
            }
            lemma_filter_none(t.skip(p), pred);
            assert(t.take(p) + t.skip(p) =~= t);
            assert(sort_by_avg(s).filter(pred) == t.take(p).filter(pred) + seq![g]
                + Seq::<Group>::empty());
            assert(t.take(p).filter(pred) + t.skip(p).filter(pred) == t.filter(pred));
            assert(t.take(p).filter(pred) == t.filter(pred));
            assert(sort_by_avg(s).filter(pred) =~= t.filter(pred).push(g));
            assert(s.filter(pred) == init.filter(pred).push(g));
        } else {
            assert(t.take(p) + t.skip(p) =~= t);
            assert(sort_by_avg(s).filter(pred) =~= t.take(p).filter(pred) + t.skip(p).filter(
                pred,
            ));
            assert(sort_by_avg(s).filter(pred) == t.filter(pred));
            assert(s.filter(pred) == init.filter(pred));
        }
    }
}

/// Sorts the pending groups in place: ascending by average score, stable.
pub fn sort_groups(groups: &mut Vec<Group>)
    requires
        forall|i: int| 0 <= i < old(groups)@.len() ==> group_wf(#[trigger] old(groups)@[i]),
    ensures
        final(groups)@ == sort_by_avg(old(groups)@),
        forall|i: int| 0 <= i < final(groups)@.len() ==> group_wf(#[trigger] final(groups)@[i]),
{
    let ghost orig = groups@;
    proof {
        assert(orig.take(0) =~= Seq::<Group>::empty());
        assert(sort_by_avg(orig.take(0)) + orig.skip(0) =~= orig);
    }
    let mut i: usize = 0;
    while i < groups.len()
        invariant
            0 <= i <= orig.len(),
            groups@.len() == orig.len(),
            groups@ == sort_by_avg(orig.take(i as int)) + orig.skip(i as int),
            sorted_by_avg(groups@.take(i as int)),
            forall|k: int| 0 <= k < orig.len() ==> group_wf(#[trigger] orig[k]),
            forall|k: int| 0 <= k < groups@.len() ==> group_wf(#[trigger] groups@[k]),
        decreases orig.len() - i,
    {
        let ghost prefix = groups@.take(i as int);
        proof {
            assert(forall|k: int|
                0 <= k < i ==> #[trigger] orig.take(i as int)[k] == orig[k]);
            lemma_sort_wf(orig.take(i as int));
            assert(prefix =~= sort_by_avg(orig.take(i as int)));
            assert(groups@[i as int] == orig.skip(i as int)[0]);
            assert(groups@[i as int] == orig[i as int]);
        }
        let mut j: usize = 0;
        while j < i && !avg_less(&groups[i], &groups[j])
            invariant
                0 <= j <= i < groups@.len(),
                groups@.len() == orig.len(),
                prefix == groups@.take(i as int),
                groups@[i as int] == orig[i as int],
                forall|k: int| 0 <= k < groups@.len() ==> group_wf(#[trigger] groups@[k]),
                forall|k: int| 0 <= k < j ==> !avg_lt(orig[i as int], #[trigger] prefix[k]),
            decreases i - j,
        {
            proof {
                assert(groups@[j as int] == prefix[j as int]);
            }
            j = j + 1;
        }
        proof {
            assert(j < i ==> groups@[j as int] == prefix[j as int]);
            assert(j < i ==> avg_lt(orig[i as int], prefix[j as int]));
            lemma_insert_pos_unique(prefix, orig[i as int], j as int);
            lemma_insert_pos_props(prefix, orig[i as int]);
            lemma_insert_sorted(prefix, orig[i as int]);
        }
        let g = groups.remove(i);
        groups.insert(j, g);
        proof {
            let gg = orig[i as int];
            assert(sort_by_avg(orig.take(i + 1)) == insert_by_avg(
                sort_by_avg(orig.take(i + 1).drop_last()),
                orig.take(i + 1).last(),
            ));
            assert(orig.take(i + 1).drop_last() =~= orig.take(i as int));
            assert(orig.take(i + 1).last() == gg);
            assert(groups@ =~= (prefix.take(j as int) + seq![gg] + prefix.skip(j as int))
                + orig.skip(i + 1));
            assert(groups@ == insert_by_avg(prefix, gg) + orig.skip(i + 1));
            assert(groups@.take(i + 1) =~= insert_by_avg(prefix, gg));
        }
        i = i + 1;
    }
    proof {
        assert(orig.take(orig.len() as int) =~= orig);
        assert(orig.skip(orig.len() as int) =~= Seq::<Group>::empty());
        assert(groups@ =~= sort_by_avg(orig));
    }
}

} // verus!
