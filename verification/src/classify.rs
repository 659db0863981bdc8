use vstd::prelude::*;
use vstd::relations::sorted_by;
use crate::dedup::distinct_triples;
use crate::record::{Observation, ObsV, obs_same_group, obs_views, same_group, same_triple};
use crate::sort::canonical_leq;
use crate::strutil::str_eq;

verus! {

// ---------------------------------------------------------------------
// Policy `LastRecord`: a fixed trailing window.
// ---------------------------------------------------------------------

/// No other record of the same (deployment, tag) group lies in the
/// half-open window `(s[i].time - m minutes, s[i].time]`. A record whose
/// window is clear is independent under policy `LastRecord`; the test is
/// memoryless and does not depend on how other records were classified.
pub open spec fn window_clear(s: Seq<ObsV>, m: int, i: int) -> bool {
    forall|j: int|
        0 <= j < s.len() && j != i && same_group(#[trigger] s[j], s[i]) ==> !(s[i].time - m * 60
            < s[j].time <= s[i].time)
}

/// The records among the first `upto` whose window is clear, in order.
pub open spec fn a_select(s: Seq<ObsV>, m: int, upto: int) -> Seq<ObsV>
    decreases upto,
{
    if upto <= 0 {
        Seq::empty()
    } else {
        let prefix = a_select(s, m, upto - 1);
        if window_clear(s, m, upto - 1) {
            prefix.push(s[upto - 1])
        } else {
            prefix
        }
    }
}

/// The independent records under policy `LastRecord`.
pub open spec fn policy_a_spec(s: Seq<ObsV>, m: int) -> Seq<ObsV> {
    a_select(s, m, s.len() as int)
}

/// Checks whether any other record of the same group lies in the trailing
/// window of record `i`.
fn window_clear_exec(v: &Vec<Observation>, i: usize, m: i32) -> (r: bool)
    requires
        i < v.len(),
    ensures
        r == window_clear(obs_views(v@), m as int, i as int),
{
    let ghost s = obs_views(v@);
    let lo: i128 = v[i].time as i128 - m as i128 * 60;
    let hi: i128 = v[i].time as i128;
    let mut j: usize = 0;
    while j < v.len()
        invariant
            0 <= j <= v.len(),
            i < v.len(),
            s == obs_views(v@),
            lo == s[i as int].time - m as int * 60,
            hi == s[i as int].time,
            forall|k: int|
                0 <= k < j && k != i && same_group(#[trigger] s[k], s[i as int])
                    ==> !(s[i as int].time - m as int * 60 < s[k].time <= s[i as int].time),
        decreases v.len() - j,
    {
        if j != i && obs_same_group(&v[j], &v[i]) {
            let t = v[j].time as i128;
            if lo < t && t <= hi {
                proof {
                    assert(s[j as int] == v@[j as int]@);
                    assert(same_group(s[j as int], s[i as int]));
                    assert(!window_clear(s, m as int, i as int));
                }
                return false;
            }
        }
        proof {
            assert(s[j as int] == v@[j as int]@);
        }
        j = j + 1;
    }
    true
}

/// Classifies under policy `LastRecord`: keeps exactly the records with no
/// other record of the same (deployment, tag) in the trailing window of
/// `min_delta_time` minutes ending at their own time.
pub fn classify_last_record(v: &Vec<Observation>, min_delta_time: i32) -> (r: Vec<Observation>)
    ensures
        obs_views(r@) == policy_a_spec(obs_views(v@), min_delta_time as int),
{
    let ghost s = obs_views(v@);
    let mut out: Vec<Observation> = Vec::new();
    let mut i: usize = 0;
    while i < v.len()
        invariant
            0 <= i <= v.len(),
            s == obs_views(v@),
            obs_views(out@) == a_select(s, min_delta_time as int, i as int),
        decreases v.len() - i,
    {
        if window_clear_exec(v, i, min_delta_time) {
            out.push(v[i].duplicate());
            proof {
                assert(obs_views(out@) =~= a_select(s, min_delta_time as int, i + 1));
            }
        }
        i = i + 1;
    }
    out
}

// ---------------------------------------------------------------------
// Policy `LastIndependentRecord`: a stateful sequential scan.
// ---------------------------------------------------------------------

/// The scan starts a new independent event at `cur` when the group changes
/// or the time since the last independent record exceeds `m` minutes
/// (strictly).
pub open spec fn b_breaks(last: ObsV, cur: ObsV, m: int) -> bool {
    cur.tag != last.tag || cur.deployment != last.deployment || cur.time - last.time > m * 60
}

/// The index of the record marked independent most recently at or before
/// position `i` of the scan.
pub open spec fn b_last(s: Seq<ObsV>, m: int, i: int) -> int
    decreases i,
{
    if i <= 0 {
        0
    } else {
        let l = b_last(s, m, i - 1);
        if b_breaks(s[l], s[i], m) {
            i
        } else {
            l
        }
    }
}

/// Whether the record at position `i` is independent under policy
/// `LastIndependentRecord`: the first record is, and a later one is exactly
/// when it breaks from the record marked independent most recently.
pub open spec fn b_indep(s: Seq<ObsV>, m: int, i: int) -> bool {
    b_last(s, m, i) == i
}

/// The records among the first `upto` that the scan marks independent.
pub open spec fn b_select(s: Seq<ObsV>, m: int, upto: int) -> Seq<ObsV>
    decreases upto,
{
    if upto <= 0 {
        Seq::empty()
    } else {
        let prefix = b_select(s, m, upto - 1);
        if b_indep(s, m, upto - 1) {
            prefix.push(s[upto - 1])
        } else {
            prefix
        }
    }
}

/// The independent records under policy `LastIndependentRecord`.
pub open spec fn policy_b_spec(s: Seq<ObsV>, m: int) -> Seq<ObsV> {
    b_select(s, m, s.len() as int)
}

proof fn lemma_a_select_members(s: Seq<ObsV>, m: int, upto: int, k: int)
    requires
        0 <= upto <= s.len(),
        0 <= k < a_select(s, m, upto).len(),
    ensures
        exists|i: int|
            #![trigger s[i], window_clear(s, m, i)]
            0 <= i < upto && s[i] == a_select(s, m, upto)[k] && window_clear(s, m, i),
    decreases upto,
{
    let sel = a_select(s, m, upto - 1);
    let sel2 = a_select(s, m, upto);
    if k < sel.len() {
        lemma_a_select_members(s, m, upto - 1, k);
        assert(sel2[k] == sel[k]);
        let i = choose|i: int|
            #![trigger s[i], window_clear(s, m, i)]
            0 <= i < upto - 1 && s[i] == sel[k] && window_clear(s, m, i);
        assert(0 <= i < upto && s[i] == sel2[k] && window_clear(s, m, i));
    } else {
        assert(window_clear(s, m, upto - 1));
        assert(sel2[k] == s[upto - 1]);
        assert(0 <= upto - 1 < upto && s[upto - 1] == sel2[k] && window_clear(s, m, upto - 1));
    }
}

/// The window property of policy `LastRecord`: every record of the result
/// comes from a position whose trailing window holds no other record of
/// the same (deployment, tag) group — no such record has its time in
/// `(t - m minutes, t]` where `t` is the result record's time.
pub proof fn lemma_policy_a_window(s: Seq<ObsV>, m: int, k: int)
    requires
        0 <= k < policy_a_spec(s, m).len(),
    ensures
        exists|i: int|
            #![trigger s[i], window_clear(s, m, i)]
            0 <= i < s.len() && s[i] == policy_a_spec(s, m)[k] && window_clear(s, m, i),
{
    lemma_a_select_members(s, m, s.len() as int, k);
}

/// The last-independent index lies in `[0, i]` and points at an
/// independent record.
pub proof fn lemma_b_last_props(s: Seq<ObsV>, m: int, i: int)
    requires
        0 <= i,
    ensures
        0 <= b_last(s, m, i) <= i,
        b_indep(s, m, b_last(s, m, i)),
    decreases i,
{
    if i > 0 {
        lemma_b_last_props(s, m, i - 1);
    }
}

proof fn lemma_b_last_stable(s: Seq<ObsV>, m: int, i: int, t: int)
    requires
        0 <= i <= t < s.len(),
        b_indep(s, m, i),
        forall|k: int| i < k <= t ==> !b_indep(s, m, k),
    ensures
        b_last(s, m, t) == i,
    decreases t - i,
{
    if t > i {
        lemma_b_last_stable(s, m, i, t - 1);
        if b_breaks(s[i], s[t], m) {
            assert(b_indep(s, m, t));
        }
    }
}

/// The monotonic gap property of policy `LastIndependentRecord`: two
/// consecutive independent records of the same (deployment, tag) group lie
/// strictly more than `m` minutes apart.
pub proof fn lemma_policy_b_gap(s: Seq<ObsV>, m: int, i: int, j: int)
    requires
        0 <= i < j < s.len(),
        b_indep(s, m, i),
        b_indep(s, m, j),
        forall|k: int| i < k < j ==> !b_indep(s, m, k),
        same_group(s[i], s[j]),
    ensures
        s[j].time - s[i].time > m * 60,
{
    lemma_b_last_stable(s, m, i, j - 1);
    assert(b_last(s, m, j - 1) == i);
    if !b_breaks(s[i], s[j], m) {
        assert(b_last(s, m, j) == i);
    }
    assert(b_breaks(s[i], s[j], m));
}

/// The first record of a (deployment, tag) group is always independent
/// under policy `LastIndependentRecord`: the scan can only have a last
/// independent record of another group before it.
pub proof fn lemma_first_of_group_independent_b(s: Seq<ObsV>, m: int, i: int)
    requires
        0 <= i < s.len(),
        forall|j: int| 0 <= j < i ==> !same_group(#[trigger] s[j], s[i]),
    ensures
        b_indep(s, m, i),
{
    if i > 0 {
        lemma_b_last_props(s, m, i - 1);
        let l = b_last(s, m, i - 1);
        assert(!same_group(s[l], s[i]));
        assert(b_breaks(s[l], s[i], m));
    }
}

/// The first record of a (deployment, tag) group is always independent
/// under policy `LastRecord`, provided the records are canonically sorted
/// and deduplicated: every later record of the group lies strictly after
/// it in time, outside its trailing window.
pub proof fn lemma_first_of_group_independent_a(s: Seq<ObsV>, m: int, i: int)
    requires
        0 <= i < s.len(),
        forall|j: int| 0 <= j < i ==> !same_group(#[trigger] s[j], s[i]),
        sorted_by(s, canonical_leq()),
        distinct_triples(s),
    ensures
        window_clear(s, m, i),
{
    let leq = canonical_leq();
    assert forall|j: int|
        0 <= j < s.len() && j != i && same_group(#[trigger] s[j], s[i]) implies !(s[i].time - m
        * 60 < s[j].time <= s[i].time) by {
        assert(j > i);
        assert(leq(s[i], s[j]));
        if s[j].time == s[i].time {
            assert(same_triple(s[i], s[j]));
        }
        assert(s[j].time > s[i].time);
    }
}

/// Decides whether `cur` starts a new independent event after `last`.
fn obs_breaks(last: &Observation, cur: &Observation, m: i32) -> (r: bool)
    ensures
        r == b_breaks(last@, cur@, m as int),
{
    if !str_eq(&cur.tag, &last.tag) {
        true
    } else if !str_eq(&cur.deployment, &last.deployment) {
        true
    } else {
        cur.time as i128 - last.time as i128 > m as i128 * 60
    }
}

/// Classifies under policy `LastIndependentRecord`: scans the canonically
/// sorted records once, keeping a record exactly when it is the first, its
/// group differs from the last independent record's, or more than
/// `min_delta_time` minutes passed since the last independent record.
pub fn classify_last_independent(v: &Vec<Observation>, min_delta_time: i32) -> (r: Vec<
    Observation,
>)
    ensures
        obs_views(r@) == policy_b_spec(obs_views(v@), min_delta_time as int),
{
    let ghost s = obs_views(v@);
    let ghost m = min_delta_time as int;
    let mut out: Vec<Observation> = Vec::new();
    let mut last: usize = 0;
    let mut i: usize = 0;
    while i < v.len()
        invariant
            0 <= i <= v.len(),
            s == obs_views(v@),
            m == min_delta_time as int,
            obs_views(out@) == b_select(s, m, i as int),
            i > 0 ==> last < i && last == b_last(s, m, i - 1),
        decreases v.len() - i,
    {
        let indep: bool = if i == 0 {
            true
        } else {
            obs_breaks(&v[last], &v[i], min_delta_time)
        };
        proof {
            assert(s[i as int] == v@[i as int]@);
            if i > 0 {
                assert(s[last as int] == v@[last as int]@);
                assert(indep == b_breaks(s[b_last(s, m, i - 1)], s[i as int], m));
                assert(indep == b_indep(s, m, i as int));
            } else {
                assert(b_indep(s, m, 0));
            }
        }
        if indep {
            out.push(v[i].duplicate());
            last = i;
            proof {
                assert(obs_views(out@) =~= b_select(s, m, i + 1));
                assert(b_last(s, m, i as int) == i as int);
            }
        } else {
            proof {
                assert(obs_views(out@) =~= b_select(s, m, i + 1));
                assert(b_last(s, m, i as int) == last as int);
            }
        }
        i = i + 1;
    }
    out
}

} // verus!
