use vstd::prelude::*;
use crate::aggregate::{DeploymentCount, TagCount, count_all, count_by_deployment, dep_views,
    group_by_deployment, group_by_tag, tag_views};
use crate::classify::{classify_last_independent, classify_last_record, policy_a_spec,
    policy_b_spec};
use crate::dedup::{dedup_records, dedup_spec};
use crate::errors::Error;
use crate::events::{AssignedRecord, assign_event_ids, assign_events, assign_events_spec,
    assigned_views, ev_views, events_of};
use crate::filter::{filter_records, filtered_records, parse_ok};
use crate::record::{Observation, ObsV, Policy, RawRecord, RawV, TagType, obs_views, raw_views};
use crate::sort::{sort_records, sort_spec};

verus! {

/// The parameters of one temporal-independence run.
#[derive(Debug)]
pub struct Config {
    /// The minimum time difference, in minutes; must be positive.
    pub min_delta_time: i32,
    /// How the minimum time difference is compared.
    pub policy: Policy,
    /// Which tag column is analysed; species or individual.
    pub target: TagType,
    /// Skip the exclusion set (null key fields are still dropped).
    pub no_exclude: bool,
    /// Also compute event numbers for every filtered record.
    pub event: bool,
    /// Tags to drop before the analysis.
    pub exclude: Vec<String>,
}

impl Config {
    /// The parameters a run demands: a positive minimum time difference
    /// and a species or individual target.
    pub open spec fn valid(&self) -> bool {
        &&& self.min_delta_time >= 1
        &&& (self.target == TagType::Species || self.target == TagType::Individual)
    }

    /// Builds a validated configuration; a non-positive minimum time
    /// difference or a target other than species or individual is refused.
    pub fn new(
        min_delta_time: i32,
        policy: Policy,
        target: TagType,
        no_exclude: bool,
        event: bool,
        exclude: Vec<String>,
    ) -> (r: Result<Config, Error>)
        ensures
            min_delta_time < 1 ==> r == Err::<Config, Error>(Error::InvalidMinDeltaTime),
            min_delta_time >= 1 && !(target == TagType::Species || target == TagType::Individual)
                ==> r == Err::<Config, Error>(Error::InvalidTarget),
            (r is Ok) == (min_delta_time >= 1 && (target == TagType::Species || target
                == TagType::Individual)),
            r matches Ok(c) ==> c.valid() && c.min_delta_time == min_delta_time && c.policy
                == policy && c.target == target && c.no_exclude == no_exclude && c.event == event
                && c.exclude == exclude,
    {
        if min_delta_time < 1 {
            return Err(Error::InvalidMinDeltaTime);
        }
        match target {
            TagType::Species | TagType::Individual => {},
            _ => {
                return Err(Error::InvalidTarget);
            },
        }
        Ok(Config { min_delta_time, policy, target, no_exclude, event, exclude })
    }

    /// A minimum time difference over one week (10080 minutes) is accepted
    /// but unusual.
    pub fn unusual_delta(&self) -> (r: bool)
        ensures
            r == (self.min_delta_time > 10080),
    {
        self.min_delta_time > 10080
    }
}

/// The canonically sorted, deduplicated, filtered table that the
/// classifier consumes.
pub open spec fn prepared_spec(rows: Seq<RawV>, excl: Seq<Seq<char>>, no_exclude: bool) -> Seq<
    ObsV,
> {
    sort_spec(dedup_spec(filtered_records(rows, excl, no_exclude)))
}

/// The independence result of one run: the filtered, deduplicated, sorted
/// records that the selected policy keeps.
pub open spec fn independent_spec(
    rows: Seq<RawV>,
    excl: Seq<Seq<char>>,
    no_exclude: bool,
    policy: Policy,
    m: int,
) -> Seq<ObsV> {
    let sorted = prepared_spec(rows, excl, no_exclude);
    match policy {
        Policy::LastRecord => policy_a_spec(sorted, m),
        Policy::LastIndependentRecord => policy_b_spec(sorted, m),
    }
}

/// Everything one run produces.
#[derive(Debug)]
pub struct Analysis {
    /// The independence result: path, deployment, time, tag.
    pub independent: Vec<Observation>,
    /// Every filtered record with the event it belongs to; present when
    /// event numbers were requested.
    pub assigned: Option<Vec<AssignedRecord>>,
    /// Independent events counted by (deployment, tag), in first-seen
    /// order.
    pub by_deployment: Vec<DeploymentCount>,
    /// Independent events counted by tag alone; present when the target is
    /// species.
    pub by_tag: Option<Vec<TagCount>>,
}

/// Runs the whole temporal-independence analysis: validates the
/// parameters, resolves timestamps, filters, deduplicates, sorts,
/// classifies under the selected policy, and aggregates. Fails fast, with
/// nothing computed, on a non-positive minimum time difference, a target
/// other than species or individual, a time text that does not parse, or
/// an empty table after filtering.
pub fn analyze(rows: &Vec<RawRecord>, config: &Config) -> (r: Result<Analysis, Error>)
    ensures
        config.min_delta_time < 1 ==> r == Err::<Analysis, Error>(Error::InvalidMinDeltaTime),
        config.min_delta_time >= 1 && !(config.target == TagType::Species || config.target
            == TagType::Individual) ==> r == Err::<Analysis, Error>(Error::InvalidTarget),
        config.valid() && !parse_ok(raw_views(rows@)) ==> r == Err::<Analysis, Error>(
            Error::BadTimeFormat,
        ),
        config.valid() && parse_ok(raw_views(rows@)) && filtered_records(
            raw_views(rows@),
            config.exclude@.map_values(|s: String| s@),
            config.no_exclude,
        ).len() == 0 ==> r == Err::<Analysis, Error>(Error::NoData),
        (r is Ok) == (config.valid() && parse_ok(raw_views(rows@)) && filtered_records(
            raw_views(rows@),
            config.exclude@.map_values(|s: String| s@),
            config.no_exclude,
        ).len() > 0),
        r matches Ok(a) ==> {
            let excl = config.exclude@.map_values(|s: String| s@);
            let indep = independent_spec(
                raw_views(rows@),
                excl,
                config.no_exclude,
                config.policy,
                config.min_delta_time as int,
            );
            &&& obs_views(a.independent@) == indep
            &&& dep_views(a.by_deployment@) == group_by_deployment(indep)
            &&& (a.by_tag is Some) == (config.target == TagType::Species)
            &&& (a.by_tag matches Some(t) ==> tag_views(t@) == group_by_tag(indep))
            &&& (a.assigned is Some) == config.event
            &&& (a.assigned matches Some(v) ==> assigned_views(v@) == assign_events_spec(
                sort_spec(filtered_records(raw_views(rows@), excl, config.no_exclude)),
                events_of(indep),
            ))
        },
{
    if config.min_delta_time < 1 {
        return Err(Error::InvalidMinDeltaTime);
    }
    match config.target {
        TagType::Species | TagType::Individual => {},
        _ => {
            return Err(Error::InvalidTarget);
        },
    }
    let filtered = match filter_records(rows, &config.exclude, config.no_exclude) {
        Ok(v) => v,
        Err(e) => {
            return Err(e);
        },
    };
    let ghost excl = config.exclude@.map_values(|s: String| s@);
    proof {
        assert(obs_views(filtered@).len() == filtered@.len());
    }
    if filtered.len() == 0 {
        return Err(Error::NoData);
    }
    let deduped = dedup_records(&filtered);
    let sorted = sort_records(&deduped);
    let indep = match config.policy {
        Policy::LastRecord => classify_last_record(&sorted, config.min_delta_time),
        Policy::LastIndependentRecord => classify_last_independent(
            &sorted,
            config.min_delta_time,
        ),
    };
    let by_deployment = count_by_deployment(&indep);
    let by_tag = if matches!(config.target, TagType::Species) {
        Some(count_all(&indep))
    } else {
        None
    };
    let assigned = if config.event {
        let sorted_all = sort_records(&filtered);
        let ev = assign_event_ids(&indep);
        Some(assign_events(&sorted_all, &ev))
    } else {
        None
    };
    Ok(Analysis { independent: indep, assigned, by_deployment, by_tag })
}

} // verus!
