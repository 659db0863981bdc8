use serval::errors::Error;
use serval::filter::default_exclusion;
use serval::pipeline::{analyze, Config};
use serval::record::{Policy, RawRecord, TagType};

fn row(path: &str, dep: &str, tag: &str, time: &str) -> RawRecord {
    RawRecord {
        path: path.to_string(),
        deployment: Some(dep.to_string()),
        tag: Some(tag.to_string()),
        time: Some(time.to_string()),
    }
}

fn secs(t: &str) -> i64 {
    chrono::NaiveDateTime::parse_from_str(t, "%Y-%m-%d %H:%M:%S")
        .unwrap()
        .and_utc()
        .timestamp()
}

fn config(m: i32, policy: Policy, event: bool) -> Config {
    Config::new(m, policy, TagType::Species, false, event, default_exclusion()).unwrap()
}

#[test]
fn three_records_policy_last_independent() {
    let rows = vec![
        row("p/site1/a.jpg", "site1", "Fox", "2024-06-01 10:00:00"),
        row("p/site1/b.jpg", "site1", "Fox", "2024-06-01 10:15:00"),
        row("p/site1/c.jpg", "site1", "Fox", "2024-06-01 10:50:00"),
    ];
    let a = analyze(&rows, &config(30, Policy::LastIndependentRecord, true)).unwrap();
    assert_eq!(a.independent.len(), 2);
    assert_eq!(a.independent[0].time, secs("2024-06-01 10:00:00"));
    assert_eq!(a.independent[1].time, secs("2024-06-01 10:50:00"));
    // Event numbers 1 and 2, recovered for every raw record by the
    // backward as-of match.
    let assigned = a.assigned.unwrap();
    assert_eq!(assigned.len(), 3);
    assert_eq!(assigned[0].time, secs("2024-06-01 10:00:00"));
    assert_eq!(assigned[0].event_id, Some(1));
    assert_eq!(assigned[1].time, secs("2024-06-01 10:15:00"));
    assert_eq!(assigned[1].event_id, Some(1));
    assert_eq!(assigned[2].time, secs("2024-06-01 10:50:00"));
    assert_eq!(assigned[2].event_id, Some(2));
}

#[test]
fn three_records_policy_last_record() {
    let rows = vec![
        row("p/site1/a.jpg", "site1", "Fox", "2024-06-01 10:00:00"),
        row("p/site1/b.jpg", "site1", "Fox", "2024-06-01 10:15:00"),
        row("p/site1/c.jpg", "site1", "Fox", "2024-06-01 10:50:00"),
    ];
    let a = analyze(&rows, &config(30, Policy::LastRecord, false)).unwrap();
    // 10:00 has no prior record in its window; 10:15 sees 10:00; 10:50 sees
    // no record of the same tag in (10:20, 10:50].
    assert_eq!(a.independent.len(), 2);
    assert_eq!(a.independent[0].time, secs("2024-06-01 10:00:00"));
    assert_eq!(a.independent[1].time, secs("2024-06-01 10:50:00"));
    assert!(a.assigned.is_none());
}

#[test]
fn blank_rows_are_excluded() {
    let rows = vec![
        row("p/site1/a.jpg", "site1", "Fox", "2024-06-01 10:00:00"),
        row("p/site1/b.jpg", "site1", "Blank", "2024-06-01 10:05:00"),
        row("p/site1/c.jpg", "site1", "Fox", "2024-06-01 10:15:00"),
        row("p/site1/d.jpg", "site1", "Blank", "2024-06-01 10:20:00"),
    ];
    let a = analyze(&rows, &config(30, Policy::LastIndependentRecord, false)).unwrap();
    for o in &a.independent {
        assert_eq!(o.tag, "Fox");
    }
    // Only the Fox rows are analysed: 10:15 is 15 minutes after the last
    // independent Fox record, so one event remains.
    assert_eq!(a.independent.len(), 1);
    assert_eq!(a.independent[0].time, secs("2024-06-01 10:00:00"));
}

#[test]
fn null_time_row_is_dropped_without_error() {
    let rows = vec![
        row("p/site1/a.jpg", "site1", "Fox", "2024-06-01 10:00:00"),
        RawRecord {
            path: "p/site1/b.jpg".to_string(),
            deployment: Some("site1".to_string()),
            tag: Some("Fox".to_string()),
            time: None,
        },
    ];
    let a = analyze(&rows, &config(30, Policy::LastIndependentRecord, false)).unwrap();
    assert_eq!(a.independent.len(), 1);
    assert_eq!(a.independent[0].path, "p/site1/a.jpg");
}

#[test]
fn non_positive_min_delta_time_is_rejected() {
    assert_eq!(
        Config::new(
            0,
            Policy::LastIndependentRecord,
            TagType::Species,
            false,
            false,
            default_exclusion(),
        )
        .unwrap_err(),
        Error::InvalidMinDeltaTime
    );
    assert_eq!(
        Config::new(
            -5,
            Policy::LastIndependentRecord,
            TagType::Species,
            false,
            false,
            default_exclusion(),
        )
        .unwrap_err(),
        Error::InvalidMinDeltaTime
    );
    // The analysis itself also refuses such a configuration before any work.
    let bad = Config {
        min_delta_time: 0,
        policy: Policy::LastIndependentRecord,
        target: TagType::Species,
        no_exclude: false,
        event: false,
        exclude: default_exclusion(),
    };
    let rows = vec![row("p/site1/a.jpg", "site1", "Fox", "2024-06-01 10:00:00")];
    assert_eq!(analyze(&rows, &bad).unwrap_err(), Error::InvalidMinDeltaTime);
}

#[test]
fn exact_duplicates_collapse_to_one() {
    let rows = vec![
        row("p/site1/a.jpg", "site1", "Fox", "2024-06-01 10:00:00"),
        row("p/site1/a2.jpg", "site1", "Fox", "2024-06-01 10:00:00"),
    ];
    let a = analyze(&rows, &config(30, Policy::LastIndependentRecord, false)).unwrap();
    assert_eq!(a.independent.len(), 1);
    assert_eq!(a.by_deployment.len(), 1);
    assert_eq!(a.by_deployment[0].count, 1);
    let by_tag = a.by_tag.unwrap();
    assert_eq!(by_tag.len(), 1);
    assert_eq!(by_tag[0].count, 1);
}
