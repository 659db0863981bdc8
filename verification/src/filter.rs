use vstd::prelude::*;
use crate::errors::Error;
use crate::record::{Observation, ObsV, RawRecord, RawV, TimedV, obs_views, raw_views};
use crate::strutil::{contains_str, seq_contains_str};
use crate::timeparse::{parse_datetime, parsed_datetime};

verus! {

/// Every non-null time text in the rows parses as `yyyy-MM-dd HH:mm:ss`.
pub open spec fn parse_ok(rows: Seq<RawV>) -> bool {
    forall|i: int|
        0 <= i < rows.len() ==> ((#[trigger] rows[i]).time is Some ==> parsed_datetime(
            rows[i].time.unwrap(),
        ) is Some)
}

/// A raw record with its time text resolved to seconds.
pub open spec fn timed_of(r: RawV) -> TimedV {
    TimedV {
        path: r.path,
        deployment: r.deployment,
        tag: r.tag,
        time: match r.time {
            Some(s) => parsed_datetime(s),
            None => None,
        },
    }
}

/// Resolves every row's time text to seconds.
pub open spec fn parse_stage(rows: Seq<RawV>) -> Seq<TimedV> {
    rows.map_values(|r: RawV| timed_of(r))
}

/// A record is kept only when deployment, tag and time are all present.
pub open spec fn keep_record(t: TimedV) -> bool {
    t.deployment is Some && t.tag is Some && t.time is Some
}

pub open spec fn obs_of(t: TimedV) -> ObsV {
    ObsV {
        path: t.path,
        deployment: t.deployment.unwrap(),
        tag: t.tag.unwrap(),
        time: t.time.unwrap(),
    }
}

/// Drops every record with a null deployment, tag or time.
pub open spec fn drop_nulls_stage(ts: Seq<TimedV>) -> Seq<ObsV> {
    ts.filter(|t: TimedV| keep_record(t)).map_values(|t: TimedV| obs_of(t))
}

/// An observation passes the exclusion set when its tag is not a member.
pub open spec fn passes_exclusion(o: ObsV, excl: Seq<Seq<char>>) -> bool {
    !seq_contains_str(excl, o.tag)
}

/// Removes every observation whose tag is in the exclusion set, unless
/// `no_exclude` is set.
pub open spec fn exclude_stage(s: Seq<ObsV>, excl: Seq<Seq<char>>, no_exclude: bool) -> Seq<
    ObsV,
> {
    if no_exclude {
        s
    } else {
        s.filter(|o: ObsV| passes_exclusion(o, excl))
    }
}

/// The whole filtering step: resolve times, drop null key fields, apply the
/// exclusion set.
pub open spec fn filtered_records(
    rows: Seq<RawV>,
    excl: Seq<Seq<char>>,
    no_exclude: bool,
) -> Seq<ObsV> {
    exclude_stage(drop_nulls_stage(parse_stage(rows)), excl, no_exclude)
}

/// Whether one raw record survives filtering (given that its time parses).
pub open spec fn raw_kept(r: RawV, excl: Seq<Seq<char>>, no_exclude: bool) -> bool {
    keep_record(timed_of(r)) && (no_exclude || passes_exclusion(obs_of(timed_of(r)), excl))
}

proof fn lemma_filtered_records_push(
    rows: Seq<RawV>,
    r: RawV,
    excl: Seq<Seq<char>>,
    no_exclude: bool,
)
    ensures
        filtered_records(rows.push(r), excl, no_exclude) == if raw_kept(r, excl, no_exclude) {
            filtered_records(rows, excl, no_exclude).push(obs_of(timed_of(r)))
        } else {
            filtered_records(rows, excl, no_exclude)
        },
{
    broadcast use vstd::seq_lib::group_seq_properties;

    let keep = |t: TimedV| keep_record(t);
    let to_obs = |t: TimedV| obs_of(t);
    let pass = |o: ObsV| passes_exclusion(o, excl);
    let t = timed_of(r);
    assert(parse_stage(rows.push(r)) =~= parse_stage(rows).push(t));
    Seq::lemma_filter_push(parse_stage(rows), t, keep);
    if keep_record(t) {
        assert(parse_stage(rows).push(t).filter(keep) == parse_stage(rows).filter(keep).push(t));
        assert(drop_nulls_stage(parse_stage(rows.push(r))) =~= drop_nulls_stage(
            parse_stage(rows),
        ).push(obs_of(t)));
        if !no_exclude {
            Seq::lemma_filter_push(drop_nulls_stage(parse_stage(rows)), obs_of(t), pass);
        }
    } else {
        assert(drop_nulls_stage(parse_stage(rows.push(r))) =~= drop_nulls_stage(
            parse_stage(rows),
        ));
    }
}

/// The default exclusion set: administrative and non-biological tags.
pub open spec fn default_exclusion_spec() -> Seq<Seq<char>> {
    seq![""@, "Blank"@, "Useless data"@, "Unidentified"@, "Human"@, "Unknown"@, "Blur"@]
}

/// Builds the default exclusion set.
pub fn default_exclusion() -> (r: Vec<String>)
    ensures
        r@.map_values(|s: String| s@) == default_exclusion_spec(),
{
    let mut r: Vec<String> = Vec::new();
    r.push(String::from_str(""));
    r.push(String::from_str("Blank"));
    r.push(String::from_str("Useless data"));
    r.push(String::from_str("Unidentified"));
    r.push(String::from_str("Human"));
    r.push(String::from_str("Unknown"));
    r.push(String::from_str("Blur"));
    proof {
        assert(r@.map_values(|s: String| s@) =~= default_exclusion_spec());
    }
    r
}

/// The time text of the first row whose non-null time does not parse, so
/// that a failure report can name the offending value; `None` when every
/// time parses.
pub fn first_bad_time(rows: &Vec<RawRecord>) -> (r: Option<String>)
    ensures
        (r is Some) == !parse_ok(raw_views(rows@)),
        r matches Some(t) ==> exists|i: int|
            #![trigger raw_views(rows@)[i]]
            0 <= i < rows@.len() && raw_views(rows@)[i].time is Some && parsed_datetime(
                raw_views(rows@)[i].time.unwrap(),
            ) is None && t@ == raw_views(rows@)[i].time.unwrap() && parse_ok(
                raw_views(rows@).take(i),
            ),
{
    let mut i: usize = 0;
    while i < rows.len()
        invariant
            0 <= i <= rows.len(),
            parse_ok(raw_views(rows@).take(i as int)),
        decreases rows.len() - i,
    {
        let ghost rv = raw_views(rows@)[i as int];
        proof {
            assert(rv == rows@[i as int]@);
        }
        let row = &rows[i];
        if let Some(s) = &row.time {
            if parse_datetime(s).is_none() {
                proof {
                    assert(rv.time is Some && parsed_datetime(rv.time.unwrap()) is None);
                    assert(!parse_ok(raw_views(rows@)));
                }
                return Some(s.clone());
            }
        }
        proof {
            assert(rv.time is Some ==> parsed_datetime(rv.time.unwrap()) is Some);
            assert(raw_views(rows@).take(i + 1) =~= raw_views(rows@).take(i as int).push(rv));
            assert(parse_ok(raw_views(rows@).take(i + 1)));
        }
        i = i + 1;
    }
    proof {
        assert(raw_views(rows@).take(rows@.len() as int) =~= raw_views(rows@));
    }
    None
}

/// Filters the raw rows: resolves each non-null time text (failing with
/// [`Error::BadTimeFormat`] if any does not parse), drops records with null
/// deployment, tag or time, and, unless `no_exclude` is set, drops records
/// whose tag is in the exclusion set.
pub fn filter_records(rows: &Vec<RawRecord>, excl: &Vec<String>, no_exclude: bool) -> (r: Result<
    Vec<Observation>,
    Error,
>)
    ensures
        (r is Ok) == parse_ok(raw_views(rows@)),
        r matches Ok(v) ==> obs_views(v@) == filtered_records(
            raw_views(rows@),
            excl@.map_values(|s: String| s@),
            no_exclude,
        ),
        r is Err ==> r == Err::<Vec<Observation>, Error>(Error::BadTimeFormat),
{
    let ghost excl_v = excl@.map_values(|s: String| s@);
    let mut out: Vec<Observation> = Vec::new();
    let mut i: usize = 0;
    while i < rows.len()
        invariant
            0 <= i <= rows.len(),
            excl_v == excl@.map_values(|s: String| s@),
            parse_ok(raw_views(rows@).take(i as int)),
            obs_views(out@) == filtered_records(
                raw_views(rows@).take(i as int),
                excl_v,
                no_exclude,
            ),
        decreases rows.len() - i,
    {
        let ghost rv = raw_views(rows@)[i as int];
        let row = &rows[i];
        proof {
            assert(rv == row@);
        }
        let time_val: Option<i64> = match &row.time {
            Some(s) => {
                match parse_datetime(s) {
                    Some(t) => Some(t),
                    None => {
                        proof {
                            assert(!parse_ok(raw_views(rows@)));
                        }
                        return Err(Error::BadTimeFormat);
                    },
                }
            },
            None => None,
        };
        proof {
            assert(rv.time is Some ==> parsed_datetime(rv.time.unwrap()) is Some);
            assert(raw_views(rows@).take(i + 1) =~= raw_views(rows@).take(i as int).push(rv));
            assert(parse_ok(raw_views(rows@).take(i + 1)));
            lemma_filtered_records_push(
                raw_views(rows@).take(i as int),
                rv,
                excl_v,
                no_exclude,
            );
        }
        match (time_val, &row.deployment, &row.tag) {
            (Some(t), Some(dep), Some(tag)) => {
                proof {
                    assert(keep_record(timed_of(rv)));
                }
                if no_exclude || !contains_str(excl, tag) {
                    let kept = Observation {
                        path: row.path.clone(),
                        deployment: dep.clone(),
                        tag: tag.clone(),
                        time: t,
                    };
                    proof {
                        assert(kept@ == obs_of(timed_of(rv)));
                        assert(raw_kept(rv, excl_v, no_exclude));
                    }
                    out.push(kept);
                    proof {
                        assert(obs_views(out@) =~= filtered_records(
                            raw_views(rows@).take(i + 1),
                            excl_v,
                            no_exclude,
                        ));
                    }
                } else {
                    proof {
                        assert(!raw_kept(rv, excl_v, no_exclude));
                    }
                }
            },
            _ => {
                proof {
                    assert(!keep_record(timed_of(rv)));
                }
            },
        }
        i = i + 1;
    }
    proof {
        assert(raw_views(rows@).take(rows@.len() as int) =~= raw_views(rows@));
    }
    Ok(out)
}

} // verus!
