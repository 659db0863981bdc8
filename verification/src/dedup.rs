use vstd::prelude::*;
use crate::filter::{exclude_stage, passes_exclusion};
use crate::record::{Observation, ObsV, obs_views, obs_same_triple, same_triple};

verus! {

/// Whether some record in `s` has the same (deployment, time, tag) triple
/// as `o`.
pub open spec fn has_triple(s: Seq<ObsV>, o: ObsV) -> bool {
    exists|j: int| 0 <= j < s.len() && same_triple(s[j], o)
}

/// Removes exact duplicates of the (deployment, time, tag) triple, keeping
/// the first record of each.
pub open spec fn dedup_spec(s: Seq<ObsV>) -> Seq<ObsV>
    decreases s.len(),
{
    if s.len() == 0 {
        Seq::empty()
    } else {
        let prefix = dedup_spec(s.drop_last());
        if has_triple(s.drop_last(), s.last()) {
            prefix
        } else {
            prefix.push(s.last())
        }
    }
}

/// No two records in `s` share the analysis triple.
pub open spec fn distinct_triples(s: Seq<ObsV>) -> bool {
    forall|i: int, j: int| 0 <= i < j < s.len() ==> !same_triple(#[trigger] s[i], #[trigger] s[j])
}

/// Deduplication keeps exactly the triples that were present.
pub proof fn lemma_dedup_preserves_triples(s: Seq<ObsV>, o: ObsV)
    ensures
        has_triple(dedup_spec(s), o) == has_triple(s, o),
    decreases s.len(),
{
    if s.len() > 0 {
        lemma_dedup_preserves_triples(s.drop_last(), o);
        let d = dedup_spec(s);
        let dp = dedup_spec(s.drop_last());
        if has_triple(s, o) {
            let j = choose|j: int| 0 <= j < s.len() && same_triple(s[j], o);
            if j < s.len() - 1 {
                assert(s.drop_last()[j] == s[j]);
                assert(has_triple(s.drop_last(), o));
            } else {
                if has_triple(s.drop_last(), s.last()) {
                    let k = choose|k: int|
                        0 <= k < s.drop_last().len() && same_triple(s.drop_last()[k], s.last());
                    assert(same_triple(s.drop_last()[k], o));
                    assert(has_triple(s.drop_last(), o));
                } else {
                    assert(d[d.len() - 1] == s.last());
                    assert(same_triple(d[d.len() - 1], o));
                    assert(has_triple(d, o));
                }
            }
            if has_triple(s.drop_last(), o) {
                let k = choose|k: int|
                    0 <= k < s.drop_last().len() && same_triple(s.drop_last()[k], o);
                assert(has_triple(dp, o));
                let m = choose|m: int| 0 <= m < dp.len() && same_triple(dp[m], o);
                assert(d[m] == dp[m]);
                assert(has_triple(d, o));
            }
        }
        if has_triple(d, o) {
            let j = choose|j: int| 0 <= j < d.len() && same_triple(d[j], o);
            if has_triple(s.drop_last(), s.last()) {
                assert(has_triple(dp, o));
            } else {
                if j < d.len() - 1 {
                    assert(dp[j] == d[j]);
                    assert(has_triple(dp, o));
                } else {
                    assert(d[j] == s.last());
                    assert(same_triple(s[s.len() - 1], o));
                }
            }
            if has_triple(s.drop_last(), o) {
                let k = choose|k: int|
                    0 <= k < s.drop_last().len() && same_triple(s.drop_last()[k], o);
                assert(s[k] == s.drop_last()[k]);
            }
        }
    }
}

/// Every record of the deduplicated sequence stands in the original.
pub proof fn lemma_dedup_elements(s: Seq<ObsV>)
    ensures
        forall|i: int|
            0 <= i < dedup_spec(s).len() ==> s.contains(#[trigger] dedup_spec(s)[i]),
    decreases s.len(),
{
    if s.len() > 0 {
        lemma_dedup_elements(s.drop_last());
        assert forall|i: int|
            0 <= i < dedup_spec(s).len() implies s.contains(#[trigger] dedup_spec(s)[i]) by {
            let d = dedup_spec(s);
            let dp = dedup_spec(s.drop_last());
            if i < dp.len() {
                assert(dp[i] == d[i]);
                let k = choose|k: int| 0 <= k < s.drop_last().len() && s.drop_last()[k] == dp[i];
                assert(s[k] == dp[i]);
            } else {
                assert(d[i] == s.last());
                assert(s[s.len() - 1] == s.last());
            }
        }
    }
}

/// The deduplicated sequence has no duplicate triples.
pub proof fn lemma_dedup_distinct(s: Seq<ObsV>)
    ensures
        distinct_triples(dedup_spec(s)),
    decreases s.len(),
{
    if s.len() > 0 {
        lemma_dedup_distinct(s.drop_last());
        let d = dedup_spec(s);
        let dp = dedup_spec(s.drop_last());
        if !has_triple(s.drop_last(), s.last()) {
            lemma_dedup_preserves_triples(s.drop_last(), s.last());
            assert(!has_triple(dp, s.last()));
            assert forall|i: int, j: int|
                0 <= i < j < d.len() implies !same_triple(#[trigger] d[i], #[trigger] d[j]) by {
                if j < dp.len() {
                    assert(d[i] == dp[i] && d[j] == dp[j]);
                } else {
                    assert(d[j] == s.last());
                    assert(d[i] == dp[i]);
                    if same_triple(dp[i], s.last()) {
                        assert(has_triple(dp, s.last()));
                    }
                }
            }
        }
    }
}

/// Deduplicating a sequence without duplicate triples changes nothing.
pub proof fn lemma_dedup_of_distinct(s: Seq<ObsV>)
    requires
        distinct_triples(s),
    ensures
        dedup_spec(s) == s,
    decreases s.len(),
{
    if s.len() == 0 {
        assert(dedup_spec(s) =~= s);
    } else {
        assert(distinct_triples(s.drop_last()));
        lemma_dedup_of_distinct(s.drop_last());
        if has_triple(s.drop_last(), s.last()) {
            let k = choose|k: int|
                0 <= k < s.drop_last().len() && same_triple(s.drop_last()[k], s.last());
            assert(same_triple(s[k], s[s.len() - 1]));
            assert(false);
        }
        assert(dedup_spec(s) =~= s);
    }
}

proof fn lemma_filter_all_true(s: Seq<ObsV>, pred: spec_fn(ObsV) -> bool)
    requires
        forall|k: int| 0 <= k < s.len() ==> pred(#[trigger] s[k]),
    ensures
        s.filter(pred) == s,
    decreases s.len(),
{
    reveal(Seq::filter);
    if s.len() == 0 {
        assert(s.filter(pred) =~= s);
    } else {
        assert(forall|k: int| 0 <= k < s.drop_last().len() ==> pred(#[trigger] s.drop_last()[k]));
        lemma_filter_all_true(s.drop_last(), pred);
        assert(pred(s.last()));
        assert(s.filter(pred) =~= s);
    }
}

/// Idempotence of filtering and deduplication: applying the exclusion
/// filter and the deduplication a second time to their own output changes
/// nothing.
pub proof fn lemma_filter_dedup_idempotent(s: Seq<ObsV>, excl: Seq<Seq<char>>, no_exclude: bool)
    ensures
        dedup_spec(
            exclude_stage(dedup_spec(exclude_stage(s, excl, no_exclude)), excl, no_exclude),
        ) == dedup_spec(exclude_stage(s, excl, no_exclude)),
{
    let x = exclude_stage(s, excl, no_exclude);
    let y = dedup_spec(x);
    // A second exclusion pass keeps every record: each already passed.
    assert(exclude_stage(y, excl, no_exclude) == y) by {
        if !no_exclude {
            let pass = |o: ObsV| passes_exclusion(o, excl);
            lemma_dedup_elements(x);
            assert forall|k: int| 0 <= k < y.len() implies pass(#[trigger] y[k]) by {
                assert(x.contains(y[k]));
                let w = choose|w: int| 0 <= w < x.len() && x[w] == y[k];
                Seq::lemma_filter_pred(s, pass, w);
            }
            lemma_filter_all_true(y, pass);
        }
    }
    // A second deduplication pass keeps every record: the triples are
    // already distinct.
    lemma_dedup_distinct(x);
    lemma_dedup_of_distinct(y);
}

/// Checks whether the vector holds a record with the same analysis triple.
fn vec_has_triple(v: &Vec<Observation>, o: &Observation) -> (r: bool)
    ensures
        r == has_triple(obs_views(v@), o@),
{
    let mut i: usize = 0;
    while i < v.len()
        invariant
            0 <= i <= v.len(),
            forall|j: int| 0 <= j < i ==> !same_triple(obs_views(v@)[j], o@),
        decreases v.len() - i,
    {
        if obs_same_triple(&v[i], o) {
            proof {
                assert(obs_views(v@)[i as int] == v@[i as int]@);
            }
            return true;
        }
        i = i + 1;
    }
    false
}

/// Removes exact duplicates of the (deployment, time, tag) triple, keeping
/// the first record of each.
pub fn dedup_records(v: &Vec<Observation>) -> (r: Vec<Observation>)
    ensures
        obs_views(r@) == dedup_spec(obs_views(v@)),
{
    let mut out: Vec<Observation> = Vec::new();
    let mut i: usize = 0;
    while i < v.len()
        invariant
            0 <= i <= v.len(),
            obs_views(out@) == dedup_spec(obs_views(v@).take(i as int)),
        decreases v.len() - i,
    {
        proof {
            assert(obs_views(v@).take(i + 1).drop_last() =~= obs_views(v@).take(i as int));
            assert(obs_views(v@).take(i + 1).last() == v@[i as int]@);
            lemma_dedup_preserves_triples(obs_views(v@).take(i as int), v@[i as int]@);
        }
        if !vec_has_triple(&out, &v[i]) {
            out.push(v[i].duplicate());
            proof {
                assert(obs_views(out@) =~= dedup_spec(obs_views(v@).take(i + 1)));
            }
        }
        i = i + 1;
    }
    proof {
        assert(obs_views(v@).take(v@.len() as int) =~= obs_views(v@));
    }
    out
}

} // verus!
