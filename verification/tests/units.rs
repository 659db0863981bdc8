use serval::aggregate::{count_all, count_by_deployment};
use serval::classify::{classify_last_independent, classify_last_record};
use serval::dedup::dedup_records;
use serval::errors::Error;
use serval::events::{assign_event_ids, assign_events};
use serval::filter::default_exclusion;
use serval::paths::{derive_deployment, get_path_levels};
use serval::pipeline::{analyze, Config};
use serval::record::{Observation, Policy, RawRecord, TagType};
use serval::sort::sort_records;
use serval::timeparse::{ignore_timezone, is_temporal_independent};

fn row(path: &str, dep: &str, tag: &str, time: &str) -> RawRecord {
    RawRecord {
        path: path.to_string(),
        deployment: Some(dep.to_string()),
        tag: Some(tag.to_string()),
        time: Some(time.to_string()),
    }
}

fn obs(path: &str, dep: &str, tag: &str, time: &str) -> Observation {
    Observation {
        path: path.to_string(),
        deployment: dep.to_string(),
        tag: tag.to_string(),
        time: secs(time),
    }
}

fn secs(t: &str) -> i64 {
    chrono::NaiveDateTime::parse_from_str(t, "%Y-%m-%d %H:%M:%S")
        .unwrap()
        .and_utc()
        .timestamp()
}

fn config(m: i32, policy: Policy, target: TagType, event: bool) -> Config {
    Config::new(m, policy, target, false, event, default_exclusion()).unwrap()
}

#[test]
fn bad_time_format_fails_fast() {
    let rows = vec![row("p/s/a.jpg", "s", "Fox", "01-06-2024 10:00")];
    let a = analyze(&rows, &config(30, Policy::LastIndependentRecord, TagType::Species, false));
    assert_eq!(a.unwrap_err(), Error::BadTimeFormat);
}

#[test]
fn the_offending_time_text_can_be_named() {
    let rows = vec![
        row("p/s/a.jpg", "s", "Fox", "2024-06-01 10:00:00"),
        row("p/s/b.jpg", "s", "Fox", "01-06-2024 10:00"),
        row("p/s/c.jpg", "s", "Fox", "also bad"),
    ];
    assert_eq!(
        serval::filter::first_bad_time(&rows),
        Some("01-06-2024 10:00".to_string())
    );
    let good = vec![row("p/s/a.jpg", "s", "Fox", "2024-06-01 10:00:00")];
    assert_eq!(serval::filter::first_bad_time(&good), None);
}

#[test]
fn empty_after_filtering_is_an_error() {
    let rows = vec![
        row("p/s/a.jpg", "s", "Blank", "2024-06-01 10:00:00"),
        row("p/s/b.jpg", "s", "Human", "2024-06-01 10:05:00"),
    ];
    let a = analyze(&rows, &config(30, Policy::LastIndependentRecord, TagType::Species, false));
    assert_eq!(a.unwrap_err(), Error::NoData);
}

#[test]
fn invalid_target_is_rejected() {
    let r = Config::new(
        30,
        Policy::LastIndependentRecord,
        TagType::Count,
        false,
        false,
        default_exclusion(),
    );
    assert_eq!(r.unwrap_err(), Error::InvalidTarget);
}

#[test]
fn no_exclude_keeps_administrative_tags() {
    let rows = vec![
        row("p/s/a.jpg", "s", "Blank", "2024-06-01 10:00:00"),
        RawRecord {
            path: "p/s/b.jpg".to_string(),
            deployment: None,
            tag: Some("Fox".to_string()),
            time: Some("2024-06-01 10:05:00".to_string()),
        },
    ];
    let cfg = Config::new(
        30,
        Policy::LastIndependentRecord,
        TagType::Species,
        true,
        false,
        default_exclusion(),
    )
    .unwrap();
    let a = analyze(&rows, &cfg).unwrap();
    // The Blank row stays; the row with a null deployment is still dropped.
    assert_eq!(a.independent.len(), 1);
    assert_eq!(a.independent[0].tag, "Blank");
}

#[test]
fn unusual_delta_is_flagged_but_accepted() {
    let c = config(10081, Policy::LastIndependentRecord, TagType::Species, false);
    assert!(c.unusual_delta());
    let c = config(10080, Policy::LastIndependentRecord, TagType::Species, false);
    assert!(!c.unusual_delta());
}

#[test]
fn error_messages_name_the_fix() {
    assert_eq!(
        Error::InvalidMinDeltaTime.message(),
        "the minimum time difference must be a positive number of minutes"
    );
    assert_eq!(
        Error::InvalidTarget.message(),
        "the analysis target must be species or individual"
    );
    assert_eq!(
        Error::BadTimeFormat.message(),
        "a time value did not match the expected format yyyy-MM-dd HH:mm:ss"
    );
    assert_eq!(Error::NoData.message(), "no records to analyze after filtering");
}

#[test]
fn temporal_independence_compares_full_timestamps() {
    // The comparison is strict: a gap of exactly the minimum is not
    // independent, one second more is.
    let ok = is_temporal_independent(
        "2024-06-01 10:00:00".to_string(),
        "2024-06-01 10:30:00".to_string(),
        30,
    );
    assert_eq!(ok.unwrap(), false);
    let ok = is_temporal_independent(
        "2024-06-01 10:00:00".to_string(),
        "2024-06-01 10:30:01".to_string(),
        30,
    );
    assert_eq!(ok.unwrap(), true);
    let ok = is_temporal_independent(
        "2024-06-01 10:00:00".to_string(),
        "2024-06-01 10:29:59".to_string(),
        30,
    );
    assert_eq!(ok.unwrap(), false);
    // A month boundary: 31 minutes across midnight.
    let ok = is_temporal_independent(
        "2024-01-31 23:50:00".to_string(),
        "2024-02-01 00:21:00".to_string(),
        30,
    );
    assert_eq!(ok.unwrap(), true);
    // A leap day parses in a leap year and not otherwise.
    let ok = is_temporal_independent(
        "2024-02-29 10:00:00".to_string(),
        "2024-02-29 10:45:00".to_string(),
        30,
    );
    assert_eq!(ok.unwrap(), true);
    let bad = is_temporal_independent(
        "2023-02-29 10:00:00".to_string(),
        "2023-02-29 10:45:00".to_string(),
        30,
    );
    assert_eq!(bad.unwrap_err(), Error::BadTimeFormat);
}

#[test]
fn timezone_designators_are_stripped() {
    assert_eq!(
        ignore_timezone("2024-06-01T10:00:00Z".to_string()),
        "2024-06-01T10:00:00"
    );
    assert_eq!(
        ignore_timezone("2024-06-01T10:00:00+08:00".to_string()),
        "2024-06-01T10:00:00"
    );
    assert_eq!(
        ignore_timezone("2024-06-01T10:00:00Z+08:00".to_string()),
        "2024-06-01T10:00:00"
    );
    assert_eq!(
        ignore_timezone("2024-06-01 10:00:00".to_string()),
        "2024-06-01 10:00:00"
    );
}

#[test]
fn default_exclusion_holds_the_administrative_tags() {
    let e = default_exclusion();
    assert_eq!(
        e,
        vec![
            "".to_string(),
            "Blank".to_string(),
            "Useless data".to_string(),
            "Unidentified".to_string(),
            "Human".to_string(),
            "Unknown".to_string(),
            "Blur".to_string(),
        ]
    );
}

#[test]
fn deployment_is_the_path_component_at_the_index() {
    assert_eq!(
        derive_deployment("/data/proj/site1/IMG.jpg", 3),
        Some("site1".to_string())
    );
    assert_eq!(
        derive_deployment("C:\\data\\site2\\img.jpg", 2),
        Some("site2".to_string())
    );
    assert_eq!(derive_deployment("a/b", 5), None);
}

#[test]
fn path_levels_drop_the_first_and_last_components() {
    let levels = get_path_levels("/data/proj/site1/IMG.jpg".to_string());
    assert_eq!(
        levels,
        vec!["data".to_string(), "proj".to_string(), "site1".to_string()]
    );
}

#[test]
fn window_boundary_differs_between_policies() {
    // A gap of exactly 30 minutes: the trailing window is open on the left,
    // so policy LastRecord keeps both records; policy LastIndependentRecord
    // compares strictly and keeps only the first.
    let rows = vec![
        row("p/s/a.jpg", "s", "Fox", "2024-06-01 10:00:00"),
        row("p/s/b.jpg", "s", "Fox", "2024-06-01 10:30:00"),
    ];
    let a = analyze(&rows, &config(30, Policy::LastRecord, TagType::Species, false)).unwrap();
    assert_eq!(a.independent.len(), 2);
    let b = analyze(
        &rows,
        &config(30, Policy::LastIndependentRecord, TagType::Species, false),
    )
    .unwrap();
    assert_eq!(b.independent.len(), 1);
}

#[test]
fn independence_result_is_canonically_sorted() {
    let rows = vec![
        row("p/zeta/a.jpg", "zeta", "Fox", "2024-06-01 12:00:00"),
        row("p/alpha/b.jpg", "alpha", "Wolf", "2024-06-01 11:00:00"),
        row("p/alpha/c.jpg", "alpha", "Fox", "2024-06-01 10:00:00"),
        row("p/alpha/d.jpg", "alpha", "Fox", "2024-06-01 09:00:00"),
    ];
    let a = analyze(
        &rows,
        &config(30, Policy::LastIndependentRecord, TagType::Species, false),
    )
    .unwrap();
    // Grouped by deployment, then tag, then ascending time.
    let keys: Vec<(String, String, i64)> = a
        .independent
        .iter()
        .map(|o| (o.deployment.clone(), o.tag.clone(), o.time))
        .collect();
    assert_eq!(
        keys,
        vec![
            ("alpha".to_string(), "Fox".to_string(), secs("2024-06-01 09:00:00")),
            ("alpha".to_string(), "Fox".to_string(), secs("2024-06-01 10:00:00")),
            ("alpha".to_string(), "Wolf".to_string(), secs("2024-06-01 11:00:00")),
            ("zeta".to_string(), "Fox".to_string(), secs("2024-06-01 12:00:00")),
        ]
    );
}

#[test]
fn aggregation_sums_are_consistent() {
    let rows = vec![
        row("p/site1/a.jpg", "site1", "Fox", "2024-06-01 10:00:00"),
        row("p/site1/b.jpg", "site1", "Fox", "2024-06-01 11:00:00"),
        row("p/site2/c.jpg", "site2", "Fox", "2024-06-01 10:00:00"),
        row("p/site1/d.jpg", "site1", "Wolf", "2024-06-01 10:00:00"),
    ];
    let a = analyze(
        &rows,
        &config(30, Policy::LastIndependentRecord, TagType::Species, false),
    )
    .unwrap();
    assert_eq!(a.independent.len(), 4);
    let dep_rows: Vec<(String, String, u64)> = a
        .by_deployment
        .iter()
        .map(|r| (r.deployment.clone(), r.tag.clone(), r.count))
        .collect();
    assert_eq!(
        dep_rows,
        vec![
            ("site1".to_string(), "Fox".to_string(), 2),
            ("site1".to_string(), "Wolf".to_string(), 1),
            ("site2".to_string(), "Fox".to_string(), 1),
        ]
    );
    let tag_rows: Vec<(String, u64)> = a
        .by_tag
        .unwrap()
        .iter()
        .map(|r| (r.tag.clone(), r.count))
        .collect();
    // For each tag, the by-deployment counts sum to the by-tag count.
    assert_eq!(tag_rows, vec![("Fox".to_string(), 3), ("Wolf".to_string(), 1)]);
}

#[test]
fn individual_target_omits_the_global_table() {
    let rows = vec![row("p/s/a.jpg", "s", "ind-07", "2024-06-01 10:00:00")];
    let a = analyze(
        &rows,
        &config(30, Policy::LastIndependentRecord, TagType::Individual, false),
    )
    .unwrap();
    assert!(a.by_tag.is_none());
    assert!(a.assigned.is_none());
}

#[test]
fn event_ids_start_at_one_and_increase() {
    let v = vec![
        obs("a", "s", "Fox", "2024-06-01 10:00:00"),
        obs("b", "s", "Fox", "2024-06-01 11:00:00"),
        obs("c", "s", "Wolf", "2024-06-01 10:30:00"),
    ];
    let ev = assign_event_ids(&v);
    let ids: Vec<u64> = ev.iter().map(|e| e.event_id).collect();
    assert_eq!(ids, vec![1, 2, 3]);
}

#[test]
fn a_record_without_a_qualifying_event_gets_none() {
    let raw = vec![obs("a", "s", "Fox", "2024-06-01 10:00:00")];
    let none_assigned = assign_events(&raw, &vec![]);
    assert_eq!(none_assigned[0].event_id, None);
    // An event after the record's time does not qualify either.
    let late = assign_event_ids(&vec![obs("b", "s", "Fox", "2024-06-01 11:00:00")]);
    let assigned = assign_events(&raw, &late);
    assert_eq!(assigned[0].event_id, None);
}

#[test]
fn dedup_keeps_the_first_of_each_triple() {
    let v = vec![
        obs("a", "s", "Fox", "2024-06-01 10:00:00"),
        obs("b", "s", "Fox", "2024-06-01 10:00:00"),
        obs("c", "s", "Fox", "2024-06-01 11:00:00"),
    ];
    let d = dedup_records(&v);
    let paths: Vec<String> = d.iter().map(|o| o.path.clone()).collect();
    assert_eq!(paths, vec!["a".to_string(), "c".to_string()]);
}

#[test]
fn sort_orders_numeric_names_lexicographically() {
    let v = vec![
        obs("a", "site2", "Fox", "2024-06-01 10:00:00"),
        obs("b", "site10", "Fox", "2024-06-01 10:00:00"),
    ];
    let s = sort_records(&v);
    assert_eq!(s[0].deployment, "site10");
    assert_eq!(s[1].deployment, "site2");
}

#[test]
fn classifiers_agree_on_well_separated_records() {
    let v = sort_records(&vec![
        obs("a", "s", "Fox", "2024-06-01 10:00:00"),
        obs("b", "s", "Fox", "2024-06-01 12:00:00"),
    ]);
    let a = classify_last_record(&v, 30);
    let b = classify_last_independent(&v, 30);
    assert_eq!(a.len(), 2);
    assert_eq!(b.len(), 2);
    let c1 = count_by_deployment(&a);
    assert_eq!(c1[0].count, 2);
    let c2 = count_all(&b);
    assert_eq!(c2[0].count, 2);
}

#[test]
fn filtering_and_dedup_are_idempotent() {
    let rows = vec![
        row("p/s/a.jpg", "s", "Fox", "2024-06-01 10:00:00"),
        row("p/s/b.jpg", "s", "Fox", "2024-06-01 10:00:00"),
        row("p/s/c.jpg", "s", "Blank", "2024-06-01 10:05:00"),
        row("p/s/d.jpg", "s", "Wolf", "2024-06-01 10:10:00"),
    ];
    let once = serval::filter::filter_records(&rows, &default_exclusion(), false).unwrap();
    let once = dedup_records(&once);
    // Feed the result through the same filtering and deduplication again.
    let back: Vec<RawRecord> = once
        .iter()
        .map(|o| RawRecord {
            path: o.path.clone(),
            deployment: Some(o.deployment.clone()),
            tag: Some(o.tag.clone()),
            time: Some(format_secs(o.time)),
        })
        .collect();
    let twice = serval::filter::filter_records(&back, &default_exclusion(), false).unwrap();
    let twice = dedup_records(&twice);
    let key = |v: &Vec<Observation>| -> Vec<(String, String, String, i64)> {
        v.iter()
            .map(|o| (o.path.clone(), o.deployment.clone(), o.tag.clone(), o.time))
            .collect()
    };
    assert_eq!(key(&once), key(&twice));
    assert_eq!(once.len(), 2);
}

fn format_secs(t: i64) -> String {
    chrono::DateTime::from_timestamp(t, 0)
        .unwrap()
        .naive_utc()
        .format("%Y-%m-%d %H:%M:%S")
        .to_string()
}

#[test]
fn empty_input_is_no_data() {
    let rows: Vec<RawRecord> = vec![];
    let a = analyze(&rows, &config(30, Policy::LastIndependentRecord, TagType::Species, false));
    assert_eq!(a.unwrap_err(), Error::NoData);
}

#[test]
fn extreme_min_delta_time_does_not_overflow() {
    let rows = vec![
        row("p/s/a.jpg", "s", "Fox", "2024-06-01 10:00:00"),
        row("p/s/b.jpg", "s", "Fox", "2024-06-01 10:01:00"),
    ];
    let a = analyze(
        &rows,
        &config(i32::MAX, Policy::LastIndependentRecord, TagType::Species, false),
    )
    .unwrap();
    assert_eq!(a.independent.len(), 1);
    let b = analyze(&rows, &config(i32::MAX, Policy::LastRecord, TagType::Species, false)).unwrap();
    assert_eq!(b.independent.len(), 1);
}

#[test]
fn tag_names_and_labels() {
    assert_eq!(TagType::Species.col_name(), "species");
    assert_eq!(TagType::Individual.col_name(), "individual");
    assert_eq!(TagType::Species.digikam_tag_prefix(), "Species/");
    assert_eq!(TagType::Species.adobe_tag_prefix(), "Species|");
    assert_eq!(Policy::LastIndependentRecord.abbrev(), "LIR");
    assert_eq!(Policy::LastRecord.abbrev(), "LR");
}
