use vstd::prelude::*;
use crate::record::{Observation, ObsV, obs_views};
use crate::strutil::str_eq;

verus! {

/// An independent record labelled with its sequential event number.
#[derive(Debug)]
pub struct EventRecord {
    pub path: String,
    pub deployment: String,
    pub tag: String,
    pub time: i64,
    pub event_id: u64,
}

/// Mathematical model of an `EventRecord`.
pub ghost struct EvV {
    pub path: Seq<char>,
    pub deployment: Seq<char>,
    pub tag: Seq<char>,
    pub time: int,
    pub event_id: int,
}

impl View for EventRecord {
    type V = EvV;

    open spec fn view(&self) -> EvV {
        EvV {
            path: self.path@,
            deployment: self.deployment@,
            tag: self.tag@,
            time: self.time as int,
            event_id: self.event_id as int,
        }
    }
}

/// The views of a sequence of event records.
pub open spec fn ev_views(s: Seq<EventRecord>) -> Seq<EvV> {
    s.map_values(|e: EventRecord| e@)
}

/// The independence result labelled with event numbers `1, 2, 3, ...` in
/// row order.
pub open spec fn events_of(s: Seq<ObsV>) -> Seq<EvV> {
    s.map(
        |i: int, o: ObsV|
            EvV {
                path: o.path,
                deployment: o.deployment,
                tag: o.tag,
                time: o.time,
                event_id: i + 1,
            },
    )
}

/// Labels each independent record with a sequential event number, starting
/// at 1, in the row order already established.
pub fn assign_event_ids(v: &Vec<Observation>) -> (r: Vec<EventRecord>)
    ensures
        ev_views(r@) == events_of(obs_views(v@)),
{
    let mut out: Vec<EventRecord> = Vec::new();
    let mut i: usize = 0;
    proof {
        assert(ev_views(out@) =~= events_of(obs_views(v@)).take(0));
    }
    while i < v.len()
        invariant
            0 <= i <= v.len(),
            out@.len() == i,
            ev_views(out@) == events_of(obs_views(v@)).take(i as int),
        decreases v.len() - i,
    {
        let o = &v[i];
        out.push(
            EventRecord {
                path: o.path.clone(),
                deployment: o.deployment.clone(),
                tag: o.tag.clone(),
                time: o.time,
                event_id: (i as u64) + 1,
            },
        );
        proof {
            assert(obs_views(v@)[i as int] == v@[i as int]@);
            assert(out@[i as int]@ == events_of(obs_views(v@))[i as int]);
            assert(ev_views(out@) =~= events_of(obs_views(v@)).take(i + 1));
        }
        i = i + 1;
    }
    proof {
        assert(events_of(obs_views(v@)).take(v@.len() as int) =~= events_of(obs_views(v@)));
    }
    out
}

/// Event numbers are strictly increasing in row order and start at 1: the
/// record at row `i` carries event number `i + 1`.
pub proof fn lemma_event_ids_monotonic(s: Seq<ObsV>)
    ensures
        forall|i: int| 0 <= i < s.len() ==> (#[trigger] events_of(s)[i]).event_id == i + 1,
        forall|i: int, j: int|
            0 <= i < j < s.len() ==> (#[trigger] events_of(s)[i]).event_id < (
            #[trigger] events_of(s)[j]).event_id,
        s.len() > 0 ==> events_of(s)[0].event_id == 1,
{
}

/// A raw record together with the event it belongs to, or `None` where no
/// independent record of its group lies at or before its time.
#[derive(Debug)]
pub struct AssignedRecord {
    pub path: String,
    pub deployment: String,
    pub tag: String,
    pub time: i64,
    pub event_id: Option<u64>,
}

/// Mathematical model of an `AssignedRecord`.
pub ghost struct AssignedV {
    pub path: Seq<char>,
    pub deployment: Seq<char>,
    pub tag: Seq<char>,
    pub time: int,
    pub event_id: Option<int>,
}

impl View for AssignedRecord {
    type V = AssignedV;

    open spec fn view(&self) -> AssignedV {
        AssignedV {
            path: self.path@,
            deployment: self.deployment@,
            tag: self.tag@,
            time: self.time as int,
            event_id: match self.event_id {
                Some(e) => Some(e as int),
                None => None,
            },
        }
    }
}

/// The views of a sequence of assigned records.
pub open spec fn assigned_views(s: Seq<AssignedRecord>) -> Seq<AssignedV> {
    s.map_values(|a: AssignedRecord| a@)
}

/// The event number of the last row of `ind` with the same (deployment,
/// tag) as `o` and time at or before `o`'s, or `None` where there is none.
/// On the canonically sorted independence result the last such row is the
/// most recent qualifying event.
pub open spec fn asof_find(ind: Seq<EvV>, o: ObsV) -> Option<int>
    decreases ind.len(),
{
    if ind.len() == 0 {
        None
    } else if ind.last().deployment == o.deployment && ind.last().tag == o.tag && ind.last().time
        <= o.time {
        Some(ind.last().event_id)
    } else {
        asof_find(ind.drop_last(), o)
    }
}

/// Every filtered record labelled with the event it belongs to: a backward
/// as-of match on (deployment, tag) and time.
pub open spec fn assign_events_spec(s: Seq<ObsV>, ind: Seq<EvV>) -> Seq<AssignedV> {
    s.map_values(
        |o: ObsV|
            AssignedV {
                path: o.path,
                deployment: o.deployment,
                tag: o.tag,
                time: o.time,
                event_id: asof_find(ind, o),
            },
    )
}

/// Finds the most recent event row matching the record, scanning backward.
fn asof_exec(ind: &Vec<EventRecord>, o: &Observation) -> (r: Option<u64>)
    ensures
        (r is Some) == (asof_find(ev_views(ind@), o@) is Some),
        r matches Some(e) ==> asof_find(ev_views(ind@), o@) == Some(e as int),
{
    let ghost iv = ev_views(ind@);
    let mut j: usize = ind.len();
    proof {
        assert(iv.take(ind@.len() as int) =~= iv);
    }
    while j > 0
        invariant
            0 <= j <= ind.len(),
            iv == ev_views(ind@),
            asof_find(iv, o@) == asof_find(iv.take(j as int), o@),
        decreases j,
    {
        let e = &ind[j - 1];
        proof {
            assert(iv.take(j as int).last() == ind@[j - 1]@);
            assert(iv.take(j as int).drop_last() =~= iv.take(j - 1));
        }
        if str_eq(&e.deployment, &o.deployment) && str_eq(&e.tag, &o.tag) && e.time <= o.time {
            return Some(e.event_id);
        }
        j = j - 1;
    }
    proof {
        assert(iv.take(0) =~= Seq::<EvV>::empty());
    }
    None
}

/// Labels every record of the filtered (not deduplicated) table with the
/// event number of the most recent independent record of its (deployment,
/// tag) group at or before its time, or `None` where no event qualifies.
pub fn assign_events(all: &Vec<Observation>, ind: &Vec<EventRecord>) -> (r: Vec<AssignedRecord>)
    ensures
        assigned_views(r@) == assign_events_spec(obs_views(all@), ev_views(ind@)),
{
    let mut out: Vec<AssignedRecord> = Vec::new();
    let mut i: usize = 0;
    proof {
        assert(assigned_views(out@) =~= assign_events_spec(obs_views(all@), ev_views(ind@)).take(
            0,
        ));
    }
    while i < all.len()
        invariant
            0 <= i <= all.len(),
            out@.len() == i,
            assigned_views(out@) == assign_events_spec(obs_views(all@), ev_views(ind@)).take(
                i as int,
            ),
        decreases all.len() - i,
    {
        let o = &all[i];
        let e = asof_exec(ind, o);
        out.push(
            AssignedRecord {
                path: o.path.clone(),
                deployment: o.deployment.clone(),
                tag: o.tag.clone(),
                time: o.time,
                event_id: e,
            },
        );
        proof {
            assert(obs_views(all@)[i as int] == all@[i as int]@);
            assert(out@[i as int]@.event_id == asof_find(ev_views(ind@), all@[i as int]@));
            assert(out@[i as int]@ == assign_events_spec(obs_views(all@), ev_views(ind@))[
                i as int]);
            assert(assigned_views(out@) =~= assign_events_spec(
                obs_views(all@),
                ev_views(ind@),
            ).take(i + 1));
        }
        i = i + 1;
    }
    proof {
        assert(assign_events_spec(obs_views(all@), ev_views(ind@)).take(all@.len() as int)
            =~= assign_events_spec(obs_views(all@), ev_views(ind@)));
    }
    out
}

} // verus!
