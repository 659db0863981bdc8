use vstd::prelude::*;
use vstd::multiset::Multiset;
use vstd::relations::{sorted_by, total_ordering};
use vstd::seq_lib::lemma_multiset_commutative;
use vstd::seq_lib::lemma_sorted_unique;
use crate::record::{Observation, ObsV, canonical_le, lemma_canonical_le_connected,
    lemma_canonical_le_total_ordering, lemma_canonical_le_transitive, obs_le, obs_views,
    same_group};

verus! {

/// The canonical order as a relation value.
pub open spec fn canonical_leq() -> spec_fn(ObsV, ObsV) -> bool {
    |a: ObsV, b: ObsV| canonical_le(a, b)
}

/// The canonical sort: records ordered by deployment, then tag, then time,
/// then path.
pub open spec fn sort_spec(s: Seq<ObsV>) -> Seq<ObsV> {
    s.sort_by(canonical_leq())
}

proof fn lemma_views_insert(v: Seq<Observation>, j: int, x: Observation)
    requires
        0 <= j <= v.len(),
    ensures
        obs_views(v.insert(j, x)) == obs_views(v).insert(j, x@),
{
    assert(obs_views(v.insert(j, x)) =~= obs_views(v).insert(j, x@));
}

proof fn lemma_multiset_insert(s: Seq<ObsV>, j: int, x: ObsV)
    requires
        0 <= j <= s.len(),
    ensures
        s.insert(j, x).to_multiset() == s.to_multiset().insert(x),
{
    broadcast use vstd::seq_lib::group_to_multiset_ensures;
    broadcast use vstd::multiset::group_multiset_axioms;

    let left = s.take(j);
    let right = s.skip(j);
    assert(s.insert(j, x) =~= left + (seq![x] + right));
    assert(s =~= left + right);
    lemma_multiset_commutative(left, seq![x] + right);
    lemma_multiset_commutative(seq![x], right);
    lemma_multiset_commutative(left, right);
    assert(seq![x].to_multiset() =~= Multiset::<ObsV>::empty().insert(x)) by {
        assert(seq![x].drop_first() =~= Seq::<ObsV>::empty());
    }
    assert(s.insert(j, x).to_multiset() =~= s.to_multiset().insert(x));
}

/// Finds where a record belongs in a vector that is sorted canonically:
/// everything from the returned index on lies strictly above `x`.
fn insertion_point(out: &Vec<Observation>, x: &Observation) -> (j: usize)
    ensures
        j <= out.len(),
        j > 0 ==> canonical_le(obs_views(out@)[j - 1], x@),
        forall|k: int|
            j <= k < out@.len() ==> !canonical_le(#[trigger] obs_views(out@)[k], x@),
{
    let mut j: usize = out.len();
    while j > 0
        invariant
            0 <= j <= out.len(),
            forall|k: int|
                j <= k < out@.len() ==> !canonical_le(#[trigger] obs_views(out@)[k], x@),
        decreases j,
    {
        if obs_le(&out[j - 1], x) {
            proof {
                assert(obs_views(out@)[j - 1] == out@[j - 1]@);
            }
            return j;
        }
        proof {
            assert(obs_views(out@)[j - 1] == out@[j - 1]@);
        }
        j = j - 1;
    }
    j
}

/// Sorts the records into the canonical order.
pub fn sort_records(v: &Vec<Observation>) -> (r: Vec<Observation>)
    ensures
        obs_views(r@) == sort_spec(obs_views(v@)),
{
    let ghost leq = canonical_leq();
    let mut out: Vec<Observation> = Vec::new();
    let mut i: usize = 0;
    proof {
        assert(obs_views(out@) =~= obs_views(v@).take(0));
    }
    while i < v.len()
        invariant
            0 <= i <= v.len(),
            leq == canonical_leq(),
            obs_views(out@).to_multiset() == obs_views(v@).take(i as int).to_multiset(),
            sorted_by(obs_views(out@), leq),
        decreases v.len() - i,
    {
        let x = v[i].duplicate();
        let ghost old_out = obs_views(out@);
        let j = insertion_point(&out, &x);
        proof {
            broadcast use vstd::seq_lib::group_to_multiset_ensures;

            assert(obs_views(v@).take(i + 1) =~= obs_views(v@).take(i as int).push(x@));
            assert(obs_views(v@).take(i as int).push(x@).to_multiset() == obs_views(v@).take(
                i as int,
            ).to_multiset().insert(x@));
            lemma_views_insert(out@, j as int, x);
            lemma_multiset_insert(old_out, j as int, x@);
            // The insertion point keeps the order: everything before index j
            // is at most x, everything from j on lies strictly above it.
            let inserted = old_out.insert(j as int, x@);
            assert forall|a: int, b: int| 0 <= a < b < inserted.len() implies #[trigger] leq(
                inserted[a],
                inserted[b],
            ) by {
                if b < j {
                    assert(leq(old_out[a], old_out[b]));
                } else if a < j && b == j {
                    assert(canonical_le(old_out[j - 1], x@));
                    if a < j - 1 {
                        assert(leq(old_out[a], old_out[j - 1]));
                        lemma_canonical_le_transitive(old_out[a], old_out[j - 1], x@);
                    }
                } else if a == j && b > j {
                    assert(!canonical_le(old_out[b - 1], x@));
                    lemma_canonical_le_connected(x@, old_out[b - 1]);
                } else if a < j && b > j {
                    assert(leq(old_out[a], old_out[b - 1]));
                } else {
                    assert(leq(old_out[a - 1], old_out[b - 1]));
                }
            }
        }
        out.insert(j, x);
        i = i + 1;
    }
    proof {
        assert(obs_views(v@).take(v@.len() as int) =~= obs_views(v@));
        lemma_canonical_le_total_ordering();
        obs_views(v@).lemma_sort_by_ensures(leq);
        lemma_sorted_unique(obs_views(out@), sort_spec(obs_views(v@)), leq);
        assert(obs_views(out@) == sort_spec(obs_views(v@)));
    }
    out
}

/// The canonical sort leaves the records unchanged as a multiset, and
/// leaves them sorted.
pub proof fn lemma_sort_spec_ensures(s: Seq<ObsV>)
    ensures
        sort_spec(s).to_multiset() == s.to_multiset(),
        sorted_by(sort_spec(s), canonical_leq()),
{
    lemma_canonical_le_total_ordering();
    s.lemma_sort_by_ensures(canonical_leq());
}

/// The sort precondition of the classifier: in a canonically sorted
/// sequence, any two records of the same (deployment, tag) group stand in
/// ascending time order.
pub proof fn lemma_sorted_groups_by_time(s: Seq<ObsV>, i: int, j: int)
    requires
        sorted_by(s, canonical_leq()),
        0 <= i < j < s.len(),
        same_group(s[i], s[j]),
    ensures
        s[i].time <= s[j].time,
{
    let leq = canonical_leq();
    assert(leq(s[i], s[j]));
    assert(canonical_le(s[i], s[j]));
}

} // verus!
