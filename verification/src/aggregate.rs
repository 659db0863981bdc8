use vstd::prelude::*;
use crate::record::{Observation, ObsV, obs_views};
use crate::strutil::str_eq;

verus! {

/// One row of the count-by-deployment-and-tag summary.
#[derive(Debug)]
pub struct DeploymentCount {
    pub deployment: String,
    pub tag: String,
    pub count: u64,
}

/// Mathematical model of a `DeploymentCount`.
pub ghost struct DepCountV {
    pub deployment: Seq<char>,
    pub tag: Seq<char>,
    pub count: int,
}

impl View for DeploymentCount {
    type V = DepCountV;

    open spec fn view(&self) -> DepCountV {
        DepCountV { deployment: self.deployment@, tag: self.tag@, count: self.count as int }
    }
}

/// The views of a sequence of deployment-count rows.
pub open spec fn dep_views(s: Seq<DeploymentCount>) -> Seq<DepCountV> {
    s.map_values(|r: DeploymentCount| r@)
}

/// One row of the count-by-tag summary.
#[derive(Debug)]
pub struct TagCount {
    pub tag: String,
    pub count: u64,
}

/// Mathematical model of a `TagCount`.
pub ghost struct TagCountV {
    pub tag: Seq<char>,
    pub count: int,
}

impl View for TagCount {
    type V = TagCountV;

    open spec fn view(&self) -> TagCountV {
        TagCountV { tag: self.tag@, count: self.count as int }
    }
}

/// The views of a sequence of tag-count rows.
pub open spec fn tag_views(s: Seq<TagCount>) -> Seq<TagCountV> {
    s.map_values(|r: TagCount| r@)
}

/// How many records carry the given (deployment, tag) key.
pub open spec fn count_dep_tag(s: Seq<ObsV>, dep: Seq<char>, tag: Seq<char>) -> nat {
    s.filter(|o: ObsV| o.deployment == dep && o.tag == tag).len()
}

/// How many records carry the given tag.
pub open spec fn count_tag(s: Seq<ObsV>, tag: Seq<char>) -> nat {
    s.filter(|o: ObsV| o.tag == tag).len()
}

/// Whether a summary row with the given key exists.
pub open spec fn dep_rows_has(rows: Seq<DepCountV>, dep: Seq<char>, tag: Seq<char>) -> bool {
    exists|j: int|
        0 <= j < rows.len() && (#[trigger] rows[j]).deployment == dep && rows[j].tag == tag
}

/// Adds one record with key (dep, tag) to the summary: the matching row's
/// count rises by one, or a fresh row with count 1 is appended.
pub open spec fn bump_dep(rows: Seq<DepCountV>, dep: Seq<char>, tag: Seq<char>) -> Seq<
    DepCountV,
> {
    if dep_rows_has(rows, dep, tag) {
        rows.map_values(
            |r: DepCountV|
                if r.deployment == dep && r.tag == tag {
                    DepCountV { deployment: r.deployment, tag: r.tag, count: r.count + 1 }
                } else {
                    r
                },
        )
    } else {
        rows.push(DepCountV { deployment: dep, tag: tag, count: 1 })
    }
}

/// The count-by-deployment-and-tag summary: one row per key, in first-seen
/// order.
pub open spec fn group_by_deployment(s: Seq<ObsV>) -> Seq<DepCountV>
    decreases s.len(),
{
    if s.len() == 0 {
        Seq::empty()
    } else {
        bump_dep(group_by_deployment(s.drop_last()), s.last().deployment, s.last().tag)
    }
}

/// No two summary rows share a key.
pub open spec fn dep_keys_distinct(rows: Seq<DepCountV>) -> bool {
    forall|i: int, j: int|
        0 <= i < j < rows.len() ==> !((#[trigger] rows[i]).deployment == (
        #[trigger] rows[j]).deployment && rows[i].tag == rows[j].tag)
}

/// Whether some record in `s` carries the given (deployment, tag) key.
pub open spec fn has_key(s: Seq<ObsV>, dep: Seq<char>, tag: Seq<char>) -> bool {
    exists|i: int| 0 <= i < s.len() && (#[trigger] s[i]).deployment == dep && s[i].tag == tag
}

proof fn lemma_count_dep_tag_push(s: Seq<ObsV>, o: ObsV, dep: Seq<char>, tag: Seq<char>)
    ensures
        count_dep_tag(s.push(o), dep, tag) == count_dep_tag(s, dep, tag) + (
        if o.deployment == dep && o.tag == tag {
            1int
        } else {
            0int
        }),
{
    let pred = |x: ObsV| x.deployment == dep && x.tag == tag;
    Seq::lemma_filter_push(s, o, pred);
}

proof fn lemma_no_key_count_zero(s: Seq<ObsV>, dep: Seq<char>, tag: Seq<char>)
    requires
        !has_key(s, dep, tag),
    ensures
        count_dep_tag(s, dep, tag) == 0,
{
    let pred = |x: ObsV| x.deployment == dep && x.tag == tag;
    let f = s.filter(pred);
    if f.len() > 0 {
        Seq::lemma_filter_pred(s, pred, 0);
        Seq::lemma_filter_contains_rev(s, pred, f[0]);
        let w = choose|w: int| 0 <= w < s.len() && s[w] == f[0];
        assert(s[w].deployment == dep && s[w].tag == tag);
    }
}

/// The summary has distinct keys, every row counts exactly the records
/// that carry its key, and a key has a row exactly when some record
/// carries it.
pub proof fn lemma_group_dep_props(s: Seq<ObsV>)
    ensures
        dep_keys_distinct(group_by_deployment(s)),
        forall|k: int|
            0 <= k < group_by_deployment(s).len() ==> (#[trigger] group_by_deployment(s)[k]).count
                == count_dep_tag(
                s,
                group_by_deployment(s)[k].deployment,
                group_by_deployment(s)[k].tag,
            ),
        forall|d: Seq<char>, t: Seq<char>|
            #[trigger] dep_rows_has(group_by_deployment(s), d, t) == has_key(s, d, t),
    decreases s.len(),
{
    if s.len() == 0 {
    } else {
        let prefix = s.drop_last();
        let o = s.last();
        let rows = group_by_deployment(prefix);
        let rows2 = group_by_deployment(s);
        lemma_group_dep_props(prefix);
        assert(prefix.push(o) =~= s);
        assert(s[s.len() - 1] == o);
        assert forall|d: Seq<char>, t: Seq<char>| #[trigger] has_key(s, d, t) == (has_key(
            prefix,
            d,
            t,
        ) || (o.deployment == d && o.tag == t)) by {
            if has_key(s, d, t) {
                let w = choose|w: int|
                    0 <= w < s.len() && (#[trigger] s[w]).deployment == d && s[w].tag == t;
                if w < s.len() - 1 {
                    assert(prefix[w] == s[w]);
                    assert(has_key(prefix, d, t));
                }
            }
            if has_key(prefix, d, t) {
                let w = choose|w: int|
                    0 <= w < prefix.len() && (#[trigger] prefix[w]).deployment == d
                        && prefix[w].tag == t;
                assert(s[w] == prefix[w]);
            }
        }
        if dep_rows_has(rows, o.deployment, o.tag) {
            // An existing row absorbs the new record.
            assert(rows2.len() == rows.len());
            assert forall|k: int| 0 <= k < rows2.len() implies (rows2[k].deployment
                == rows[k].deployment && rows2[k].tag == rows[k].tag) by {}
            assert forall|i: int, j: int| 0 <= i < j < rows2.len() implies !((
            #[trigger] rows2[i]).deployment == (#[trigger] rows2[j]).deployment && rows2[i].tag
                == rows2[j].tag) by {
                assert(!(rows[i].deployment == rows[j].deployment && rows[i].tag == rows[j].tag));
            }
            assert forall|k: int| 0 <= k < rows2.len() implies (#[trigger] rows2[k]).count
                == count_dep_tag(s, rows2[k].deployment, rows2[k].tag) by {
                assert(rows[k].count == count_dep_tag(prefix, rows[k].deployment, rows[k].tag));
                lemma_count_dep_tag_push(prefix, o, rows[k].deployment, rows[k].tag);
                if rows[k].deployment == o.deployment && rows[k].tag == o.tag {
                    assert(rows2[k].count == rows[k].count + 1);
                } else {
                    assert(rows2[k] == rows[k]);
                }
            }
            assert forall|d: Seq<char>, t: Seq<char>| #[trigger] dep_rows_has(rows2, d, t)
                == has_key(s, d, t) by {
                if dep_rows_has(rows2, d, t) {
                    let j = choose|j: int|
                        0 <= j < rows2.len() && (#[trigger] rows2[j]).deployment == d
                            && rows2[j].tag == t;
                    assert(rows[j].deployment == d && rows[j].tag == t);
                    assert(dep_rows_has(rows, d, t));
                }
                if has_key(s, d, t) {
                    if has_key(prefix, d, t) {
                        assert(dep_rows_has(rows, d, t));
                        let j = choose|j: int|
                            0 <= j < rows.len() && (#[trigger] rows[j]).deployment == d
                                && rows[j].tag == t;
                        assert(rows2[j].deployment == d && rows2[j].tag == t);
                        assert(dep_rows_has(rows2, d, t));
                    } else {
                        assert(o.deployment == d && o.tag == t);
                        let j = choose|j: int|
                            0 <= j < rows.len() && (#[trigger] rows[j]).deployment == d
                                && rows[j].tag == t;
                        assert(rows2[j].deployment == d && rows2[j].tag == t);
                        assert(dep_rows_has(rows2, d, t));
                    }
                }
            }
        } else {
            // A fresh row is appended with count 1.
            let fresh = DepCountV { deployment: o.deployment, tag: o.tag, count: 1 };
            assert(rows2 == rows.push(fresh));
            assert forall|i: int, j: int| 0 <= i < j < rows2.len() implies !((
            #[trigger] rows2[i]).deployment == (#[trigger] rows2[j]).deployment && rows2[i].tag
                == rows2[j].tag) by {
                if j < rows.len() {
                    assert(rows2[i] == rows[i] && rows2[j] == rows[j]);
                } else {
                    assert(rows2[j] == fresh);
                    assert(rows2[i] == rows[i]);
                    if rows[i].deployment == o.deployment && rows[i].tag == o.tag {
                        assert(dep_rows_has(rows, o.deployment, o.tag));
                    }
                }
            }
            assert forall|k: int| 0 <= k < rows2.len() implies (#[trigger] rows2[k]).count
                == count_dep_tag(s, rows2[k].deployment, rows2[k].tag) by {
                if k < rows.len() {
                    assert(rows2[k] == rows[k]);
                    lemma_count_dep_tag_push(prefix, o, rows[k].deployment, rows[k].tag);
                    if rows[k].deployment == o.deployment && rows[k].tag == o.tag {
                        assert(dep_rows_has(rows, o.deployment, o.tag));
                    }
                } else {
                    assert(rows2[k] == fresh);
                    assert(!has_key(prefix, o.deployment, o.tag));
                    lemma_no_key_count_zero(prefix, o.deployment, o.tag);
                    lemma_count_dep_tag_push(prefix, o, o.deployment, o.tag);
                }
            }
            assert forall|d: Seq<char>, t: Seq<char>| #[trigger] dep_rows_has(rows2, d, t)
                == has_key(s, d, t) by {
                if dep_rows_has(rows2, d, t) {
                    let j = choose|j: int|
                        0 <= j < rows2.len() && (#[trigger] rows2[j]).deployment == d
                            && rows2[j].tag == t;
                    if j < rows.len() {
                        assert(rows[j].deployment == d && rows[j].tag == t);
                        assert(dep_rows_has(rows, d, t));
                    } else {
                        assert(rows2[j] == fresh);
                    }
                }
                if has_key(s, d, t) {
                    if has_key(prefix, d, t) {
                        assert(dep_rows_has(rows, d, t));
                        let j = choose|j: int|
                            0 <= j < rows.len() && (#[trigger] rows[j]).deployment == d
                                && rows[j].tag == t;
                        assert(rows2[j] == rows[j]);
                        assert(dep_rows_has(rows2, d, t));
                    } else {
                        assert(o.deployment == d && o.tag == t);
                        assert(rows2[rows2.len() - 1] == fresh);
                        assert(dep_rows_has(rows2, d, t));
                    }
                }
            }
        }
    }
}

/// Finds the summary row with the given key, if one exists.
fn find_dep_row(out: &Vec<DeploymentCount>, dep: &String, tag: &String) -> (r: Option<usize>)
    ensures
        r matches Some(j) ==> j < out@.len() && dep_views(out@)[j as int].deployment == dep@
            && dep_views(out@)[j as int].tag == tag@,
        r is None ==> !dep_rows_has(dep_views(out@), dep@, tag@),
{
    let mut j: usize = 0;
    while j < out.len()
        invariant
            0 <= j <= out.len(),
            forall|k: int|
                0 <= k < j ==> !((#[trigger] dep_views(out@)[k]).deployment == dep@ && dep_views(
                    out@,
                )[k].tag == tag@),
        decreases out.len() - j,
    {
        if str_eq(&out[j].deployment, dep) && str_eq(&out[j].tag, tag) {
            proof {
                assert(dep_views(out@)[j as int] == out@[j as int]@);
            }
            return Some(j);
        }
        proof {
            assert(dep_views(out@)[j as int] == out@[j as int]@);
        }
        j = j + 1;
    }
    None
}

/// Counts independent events grouped by (deployment, tag), one row per
/// key, in first-seen order.
pub fn count_by_deployment(v: &Vec<Observation>) -> (r: Vec<DeploymentCount>)
    ensures
        dep_views(r@) == group_by_deployment(obs_views(v@)),
{
    let ghost svs = obs_views(v@);
    let mut out: Vec<DeploymentCount> = Vec::new();
    let mut i: usize = 0;
    proof {
        assert(dep_views(out@) =~= group_by_deployment(svs.take(0)));
    }
    while i < v.len()
        invariant
            0 <= i <= v.len(),
            svs == obs_views(v@),
            dep_views(out@) == group_by_deployment(svs.take(i as int)),
        decreases v.len() - i,
    {
        let ghost prefix = svs.take(i as int);
        let ghost rows = group_by_deployment(prefix);
        let o = &v[i];
        proof {
            assert(svs.take(i + 1).drop_last() =~= prefix);
            assert(svs.take(i + 1).last() == v@[i as int]@);
            assert(group_by_deployment(svs.take(i + 1)) == bump_dep(rows, o@.deployment, o@.tag));
            lemma_group_dep_props(prefix);
        }
        match find_dep_row(&out, &o.deployment, &o.tag) {
            Some(j) => {
                proof {
                    assert(dep_rows_has(rows, o@.deployment, o@.tag));
                    assert(rows[j as int].count == count_dep_tag(
                        prefix,
                        rows[j as int].deployment,
                        rows[j as int].tag,
                    ));
                    Seq::lemma_filter_len(
                        prefix,
                        |x: ObsV| x.deployment == o@.deployment && x.tag == o@.tag,
                    );
                    assert(rows[j as int].count <= prefix.len());
                }
                let c = out[j].count;
                out[j].count = c + 1;
                proof {
                    assert forall|k: int| 0 <= k < out@.len() implies dep_views(out@)[k]
                        == bump_dep(rows, o@.deployment, o@.tag)[k] by {
                        if k != j {
                            assert(dep_views(out@)[k] == rows[k]);
                            if rows[k].deployment == o@.deployment && rows[k].tag == o@.tag {
                                assert(!(rows[j as int].deployment == rows[k].deployment
                                    && rows[j as int].tag == rows[k].tag));
                            }
                        }
                    }
                    assert(dep_views(out@) =~= bump_dep(rows, o@.deployment, o@.tag));
                }
            },
            None => {
                out.push(
                    DeploymentCount {
                        deployment: o.deployment.clone(),
                        tag: o.tag.clone(),
                        count: 1,
                    },
                );
                proof {
                    assert(dep_views(out@) =~= bump_dep(rows, o@.deployment, o@.tag));
                }
            },
        }
        i = i + 1;
    }
    proof {
        assert(svs.take(v@.len() as int) =~= svs);
    }
    out
}

/// Whether a tag-summary row for the tag exists.
pub open spec fn tag_rows_has(rows: Seq<TagCountV>, tag: Seq<char>) -> bool {
    exists|j: int| 0 <= j < rows.len() && (#[trigger] rows[j]).tag == tag
}

/// Adds one record with the tag to the tag summary.
pub open spec fn bump_tag(rows: Seq<TagCountV>, tag: Seq<char>) -> Seq<TagCountV> {
    if tag_rows_has(rows, tag) {
        rows.map_values(
            |r: TagCountV|
                if r.tag == tag {
                    TagCountV { tag: r.tag, count: r.count + 1 }
                } else {
                    r
                },
        )
    } else {
        rows.push(TagCountV { tag: tag, count: 1 })
    }
}

/// The count-by-tag summary: one row per tag, in first-seen order.
pub open spec fn group_by_tag(s: Seq<ObsV>) -> Seq<TagCountV>
    decreases s.len(),
{
    if s.len() == 0 {
        Seq::empty()
    } else {
        bump_tag(group_by_tag(s.drop_last()), s.last().tag)
    }
}

/// No two tag-summary rows share a tag.
pub open spec fn tag_keys_distinct(rows: Seq<TagCountV>) -> bool {
    forall|i: int, j: int|
        0 <= i < j < rows.len() ==> (#[trigger] rows[i]).tag != (#[trigger] rows[j]).tag
}

/// Whether some record in `s` carries the tag.
pub open spec fn has_tag(s: Seq<ObsV>, tag: Seq<char>) -> bool {
    exists|i: int| 0 <= i < s.len() && (#[trigger] s[i]).tag == tag
}

proof fn lemma_count_tag_push(s: Seq<ObsV>, o: ObsV, tag: Seq<char>)
    ensures
        count_tag(s.push(o), tag) == count_tag(s, tag) + (
        if o.tag == tag {
            1int
        } else {
            0int
        }),
{
    let pred = |x: ObsV| x.tag == tag;
    Seq::lemma_filter_push(s, o, pred);
}

proof fn lemma_no_tag_count_zero(s: Seq<ObsV>, tag: Seq<char>)
    requires
        !has_tag(s, tag),
    ensures
        count_tag(s, tag) == 0,
{
    let pred = |x: ObsV| x.tag == tag;
    let f = s.filter(pred);
    if f.len() > 0 {
        Seq::lemma_filter_pred(s, pred, 0);
        Seq::lemma_filter_contains_rev(s, pred, f[0]);
        let w = choose|w: int| 0 <= w < s.len() && s[w] == f[0];
        assert(s[w].tag == tag);
    }
}

/// The tag summary has distinct tags, every row counts exactly the records
/// that carry its tag, and a tag has a row exactly when some record
/// carries it.
pub proof fn lemma_group_tag_props(s: Seq<ObsV>)
    ensures
        tag_keys_distinct(group_by_tag(s)),
        forall|k: int|
            0 <= k < group_by_tag(s).len() ==> (#[trigger] group_by_tag(s)[k]).count == count_tag(
                s,
                group_by_tag(s)[k].tag,
            ),
        forall|t: Seq<char>| #[trigger] tag_rows_has(group_by_tag(s), t) == has_tag(s, t),
    decreases s.len(),
{
    if s.len() == 0 {
    } else {
        let prefix = s.drop_last();
        let o = s.last();
        let rows = group_by_tag(prefix);
        let rows2 = group_by_tag(s);
        lemma_group_tag_props(prefix);
        assert(prefix.push(o) =~= s);
        assert(s[s.len() - 1] == o);
        assert forall|t: Seq<char>| #[trigger] has_tag(s, t) == (has_tag(prefix, t) || o.tag
            == t) by {
            if has_tag(s, t) {
                let w = choose|w: int| 0 <= w < s.len() && (#[trigger] s[w]).tag == t;
                if w < s.len() - 1 {
                    assert(prefix[w] == s[w]);
                    assert(has_tag(prefix, t));
                }
            }
            if has_tag(prefix, t) {
                let w = choose|w: int| 0 <= w < prefix.len() && (#[trigger] prefix[w]).tag == t;
                assert(s[w] == prefix[w]);
            }
        }
        if tag_rows_has(rows, o.tag) {
            assert(rows2.len() == rows.len());
            assert forall|i: int, j: int| 0 <= i < j < rows2.len() implies (
            #[trigger] rows2[i]).tag != (#[trigger] rows2[j]).tag by {
                assert(rows[i].tag != rows[j].tag);
            }
            assert forall|k: int| 0 <= k < rows2.len() implies (#[trigger] rows2[k]).count
                == count_tag(s, rows2[k].tag) by {
                assert(rows[k].count == count_tag(prefix, rows[k].tag));
                lemma_count_tag_push(prefix, o, rows[k].tag);
                if rows[k].tag == o.tag {
                    assert(rows2[k].count == rows[k].count + 1);
                } else {
                    assert(rows2[k] == rows[k]);
                }
            }
            assert forall|t: Seq<char>| #[trigger] tag_rows_has(rows2, t) == has_tag(s, t) by {
                if tag_rows_has(rows2, t) {
                    let j = choose|j: int|
                        0 <= j < rows2.len() && (#[trigger] rows2[j]).tag == t;
                    assert(rows[j].tag == t);
                    assert(tag_rows_has(rows, t));
                }
                if has_tag(s, t) {
                    assert(tag_rows_has(rows, t));
                    let j = choose|j: int| 0 <= j < rows.len() && (#[trigger] rows[j]).tag == t;
                    assert(rows2[j].tag == t);
                    assert(tag_rows_has(rows2, t));
                }
            }
        } else {
            let fresh = TagCountV { tag: o.tag, count: 1 };
            assert(rows2 == rows.push(fresh));
            assert forall|i: int, j: int| 0 <= i < j < rows2.len() implies (
            #[trigger] rows2[i]).tag != (#[trigger] rows2[j]).tag by {
                if j < rows.len() {
                    assert(rows2[i] == rows[i] && rows2[j] == rows[j]);
                } else {
                    assert(rows2[j] == fresh);
                    assert(rows2[i] == rows[i]);
                    if rows[i].tag == o.tag {
                        assert(tag_rows_has(rows, o.tag));
                    }
                }
            }
            assert forall|k: int| 0 <= k < rows2.len() implies (#[trigger] rows2[k]).count
                == count_tag(s, rows2[k].tag) by {
                if k < rows.len() {
                    assert(rows2[k] == rows[k]);
                    lemma_count_tag_push(prefix, o, rows[k].tag);
                    if rows[k].tag == o.tag {
                        assert(tag_rows_has(rows, o.tag));
                    }
                } else {
                    assert(rows2[k] == fresh);
                    assert(!has_tag(prefix, o.tag));
                    lemma_no_tag_count_zero(prefix, o.tag);
                    lemma_count_tag_push(prefix, o, o.tag);
                }
            }
            assert forall|t: Seq<char>| #[trigger] tag_rows_has(rows2, t) == has_tag(s, t) by {
                if tag_rows_has(rows2, t) {
                    let j = choose|j: int|
                        0 <= j < rows2.len() && (#[trigger] rows2[j]).tag == t;
                    if j < rows.len() {
                        assert(rows[j].tag == t);
                        assert(tag_rows_has(rows, t));
                    } else {
                        assert(rows2[j] == fresh);
                    }
                }
                if has_tag(s, t) {
                    if has_tag(prefix, t) {
                        assert(tag_rows_has(rows, t));
                        let j = choose|j: int|
                            0 <= j < rows.len() && (#[trigger] rows[j]).tag == t;
                        assert(rows2[j] == rows[j]);
                        assert(tag_rows_has(rows2, t));
                    } else {
                        assert(o.tag == t);
                        assert(rows2[rows2.len() - 1] == fresh);
                        assert(tag_rows_has(rows2, t));
                    }
                }
            }
        }
    }
}

/// The sum of the counts of the deployment-summary rows that carry the
/// given tag.
pub open spec fn sum_dep_counts_for_tag(rows: Seq<DepCountV>, tag: Seq<char>) -> int
    decreases rows.len(),
{
    if rows.len() == 0 {
        0
    } else {
        sum_dep_counts_for_tag(rows.drop_last(), tag) + (
        if rows.last().tag == tag {
            rows.last().count
        } else {
            0int
        })
    }
}

/// At most one summary row carries the key (dep, t0).
pub open spec fn at_most_one_dep_key(rows: Seq<DepCountV>, dep: Seq<char>, t0: Seq<char>) -> bool {
    forall|i: int, j: int|
        0 <= i < j < rows.len() ==> !((#[trigger] rows[i]).deployment == dep && rows[i].tag == t0
            && (#[trigger] rows[j]).deployment == dep && rows[j].tag == t0)
}

proof fn lemma_sum_map_dep(rows: Seq<DepCountV>, dep: Seq<char>, t0: Seq<char>, tag: Seq<char>)
    requires
        at_most_one_dep_key(rows, dep, t0),
    ensures
        sum_dep_counts_for_tag(
            rows.map_values(
                |r: DepCountV|
                    if r.deployment == dep && r.tag == t0 {
                        DepCountV { deployment: r.deployment, tag: r.tag, count: r.count + 1 }
                    } else {
                        r
                    },
            ),
            tag,
        ) == sum_dep_counts_for_tag(rows, tag) + (
        if dep_rows_has(rows, dep, t0) && t0 == tag {
            1int
        } else {
            0int
        }),
    decreases rows.len(),
{
    let f = |r: DepCountV|
        if r.deployment == dep && r.tag == t0 {
            DepCountV { deployment: r.deployment, tag: r.tag, count: r.count + 1 }
        } else {
            r
        };
    if rows.len() == 0 {
        assert(rows.map_values(f) =~= Seq::<DepCountV>::empty());
        assert(!dep_rows_has(rows, dep, t0));
    } else {
        let rest = rows.drop_last();
        let last = rows.last();
        assert(rows.map_values(f).drop_last() =~= rest.map_values(f));
        assert(rows.map_values(f).last() == f(last));
        assert(at_most_one_dep_key(rest, dep, t0)) by {
            assert forall|i: int, j: int| 0 <= i < j < rest.len() implies !((
            #[trigger] rest[i]).deployment == dep && rest[i].tag == t0 && (
            #[trigger] rest[j]).deployment == dep && rest[j].tag == t0) by {
                assert(rest[i] == rows[i] && rest[j] == rows[j]);
            }
        }
        lemma_sum_map_dep(rest, dep, t0, tag);
        if last.deployment == dep && last.tag == t0 {
            assert(!dep_rows_has(rest, dep, t0)) by {
                if dep_rows_has(rest, dep, t0) {
                    let w = choose|w: int|
                        0 <= w < rest.len() && (#[trigger] rest[w]).deployment == dep
                            && rest[w].tag == t0;
                    assert(rows[w] == rest[w]);
                    assert(rows[rows.len() - 1] == last);
                }
            }
            assert(dep_rows_has(rows, dep, t0)) by {
                assert(rows[rows.len() - 1] == last);
            }
        } else {
            assert(f(last) == last);
            assert(dep_rows_has(rows, dep, t0) == dep_rows_has(rest, dep, t0)) by {
                if dep_rows_has(rows, dep, t0) {
                    let w = choose|w: int|
                        0 <= w < rows.len() && (#[trigger] rows[w]).deployment == dep
                            && rows[w].tag == t0;
                    assert(w < rest.len() && rest[w] == rows[w]);
                }
                if dep_rows_has(rest, dep, t0) {
                    let w = choose|w: int|
                        0 <= w < rest.len() && (#[trigger] rest[w]).deployment == dep
                            && rest[w].tag == t0;
                    assert(rows[w] == rest[w]);
                }
            }
        }
    }
}

proof fn lemma_sum_bump_dep(rows: Seq<DepCountV>, dep: Seq<char>, t0: Seq<char>, tag: Seq<char>)
    requires
        at_most_one_dep_key(rows, dep, t0),
    ensures
        sum_dep_counts_for_tag(bump_dep(rows, dep, t0), tag) == sum_dep_counts_for_tag(rows, tag)
            + (
        if t0 == tag {
            1int
        } else {
            0int
        }),
{
    if dep_rows_has(rows, dep, t0) {
        lemma_sum_map_dep(rows, dep, t0, tag);
    } else {
        let fresh = DepCountV { deployment: dep, tag: t0, count: 1 };
        assert(bump_dep(rows, dep, t0) == rows.push(fresh));
        assert(rows.push(fresh).drop_last() =~= rows);
        assert(rows.push(fresh).last() == fresh);
    }
}

/// The deployment summary is consistent with per-tag totals: for any tag,
/// the counts of its deployment-summary rows sum to the number of records
/// that carry the tag.
pub proof fn lemma_sum_group_dep(s: Seq<ObsV>, tag: Seq<char>)
    ensures
        sum_dep_counts_for_tag(group_by_deployment(s), tag) == count_tag(s, tag),
    decreases s.len(),
{
    if s.len() == 0 {
        let pred = |x: ObsV| x.tag == tag;
        assert(s.filter(pred) =~= Seq::<ObsV>::empty()) by {
            Seq::lemma_filter_len(s, pred);
        }
    } else {
        let prefix = s.drop_last();
        let o = s.last();
        lemma_sum_group_dep(prefix, tag);
        lemma_group_dep_props(prefix);
        assert(at_most_one_dep_key(group_by_deployment(prefix), o.deployment, o.tag)) by {
            let rows = group_by_deployment(prefix);
            assert forall|i: int, j: int| 0 <= i < j < rows.len() implies !((
            #[trigger] rows[i]).deployment == o.deployment && rows[i].tag == o.tag && (
            #[trigger] rows[j]).deployment == o.deployment && rows[j].tag == o.tag) by {
                assert(!(rows[i].deployment == rows[j].deployment && rows[i].tag == rows[j].tag));
            }
        }
        lemma_sum_bump_dep(group_by_deployment(prefix), o.deployment, o.tag, tag);
        lemma_count_tag_push(prefix, o, tag);
        assert(prefix.push(o) =~= s);
    }
}

/// Aggregation consistency: every row of the count-by-tag summary equals
/// the sum of the count-by-deployment rows that carry its tag.
pub proof fn lemma_aggregation_consistent(s: Seq<ObsV>, k: int)
    requires
        0 <= k < group_by_tag(s).len(),
    ensures
        sum_dep_counts_for_tag(group_by_deployment(s), group_by_tag(s)[k].tag) == group_by_tag(
            s,
        )[k].count,
{
    lemma_group_tag_props(s);
    lemma_sum_group_dep(s, group_by_tag(s)[k].tag);
}

/// Finds the tag-summary row for the tag, if one exists.
fn find_tag_row(out: &Vec<TagCount>, tag: &String) -> (r: Option<usize>)
    ensures
        r matches Some(j) ==> j < out@.len() && tag_views(out@)[j as int].tag == tag@,
        r is None ==> !tag_rows_has(tag_views(out@), tag@),
{
    let mut j: usize = 0;
    while j < out.len()
        invariant
            0 <= j <= out.len(),
            forall|k: int| 0 <= k < j ==> (#[trigger] tag_views(out@)[k]).tag != tag@,
        decreases out.len() - j,
    {
        if str_eq(&out[j].tag, tag) {
            proof {
                assert(tag_views(out@)[j as int] == out@[j as int]@);
            }
            return Some(j);
        }
        proof {
            assert(tag_views(out@)[j as int] == out@[j as int]@);
        }
        j = j + 1;
    }
    None
}

/// Counts independent events grouped by tag alone, one row per tag, in
/// first-seen order.
pub fn count_all(v: &Vec<Observation>) -> (r: Vec<TagCount>)
    ensures
        tag_views(r@) == group_by_tag(obs_views(v@)),
{
    let ghost svs = obs_views(v@);
    let mut out: Vec<TagCount> = Vec::new();
    let mut i: usize = 0;
    proof {
        assert(tag_views(out@) =~= group_by_tag(svs.take(0)));
    }
    while i < v.len()
        invariant
            0 <= i <= v.len(),
            svs == obs_views(v@),
            tag_views(out@) == group_by_tag(svs.take(i as int)),
        decreases v.len() - i,
    {
        let ghost prefix = svs.take(i as int);
        let ghost rows = group_by_tag(prefix);
        let o = &v[i];
        proof {
            assert(svs.take(i + 1).drop_last() =~= prefix);
            assert(svs.take(i + 1).last() == v@[i as int]@);
            assert(group_by_tag(svs.take(i + 1)) == bump_tag(rows, o@.tag));
            lemma_group_tag_props(prefix);
        }
        match find_tag_row(&out, &o.tag) {
            Some(j) => {
                proof {
                    assert(tag_rows_has(rows, o@.tag));
                    assert(rows[j as int].count == count_tag(prefix, rows[j as int].tag));
                    Seq::lemma_filter_len(prefix, |x: ObsV| x.tag == o@.tag);
                    assert(rows[j as int].count <= prefix.len());
                }
                let c = out[j].count;
                out[j].count = c + 1;
                proof {
                    assert forall|k: int| 0 <= k < out@.len() implies tag_views(out@)[k]
                        == bump_tag(rows, o@.tag)[k] by {
                        if k != j {
                            assert(tag_views(out@)[k] == rows[k]);
                            if rows[k].tag == o@.tag {
                                assert(rows[j as int].tag == rows[k].tag);
                            }
                        }
                    }
                    assert(tag_views(out@) =~= bump_tag(rows, o@.tag));
                }
            },
            None => {
                out.push(TagCount { tag: o.tag.clone(), count: 1 });
                proof {
                    assert(tag_views(out@) =~= bump_tag(rows, o@.tag));
                }
            },
        }
        i = i + 1;
    }
    proof {
        assert(svs.take(v@.len() as int) =~= svs);
    }
    out
}

} // verus!
