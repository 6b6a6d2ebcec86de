use nixos_metrics::date::{to_date, MAX_DATED_MS};
use nixos_metrics::error::{Error, Section};
use nixos_metrics::merge::{merge_points, merge_snapshot, Conflict};
use nixos_metrics::series::Store;

const DAY: u64 = 86_400_000;

fn store_of(points: &[(u64, u64)]) -> Store {
    let mut store = Store::new();
    for (time, value) in points {
        store.insert(*time, *value);
    }
    store
}

#[test]
fn new_store_is_empty() {
    let store = Store::new();
    assert!(store.is_empty());
    assert_eq!(store.len(), 0);
    assert_eq!(store.get(0), None);
}

#[test]
fn insert_keeps_timestamps_ascending() {
    let store = store_of(&[(3 * DAY, 30), (DAY, 10), (2 * DAY, 20)]);
    assert_eq!(store.points(), &vec![(DAY, 10), (2 * DAY, 20), (3 * DAY, 30)]);
    assert_eq!(store.len(), 3);
    assert_eq!(store.get(2 * DAY), Some(20));
    assert_eq!(store.get(4 * DAY), None);
}

#[test]
fn insert_replaces_the_value_of_a_known_day() {
    let mut store = store_of(&[(DAY, 10), (2 * DAY, 20)]);
    store.insert(DAY, 11);
    assert_eq!(store.points(), &vec![(DAY, 11), (2 * DAY, 20)]);
}

#[test]
fn duplicate_is_equal_and_independent() {
    let store = store_of(&[(DAY, 10), (2 * DAY, 20)]);
    let mut copy = store.duplicate();
    copy.insert(3 * DAY, 30);
    assert_eq!(store.points(), &vec![(DAY, 10), (2 * DAY, 20)]);
    assert_eq!(copy.points(), &vec![(DAY, 10), (2 * DAY, 20), (3 * DAY, 30)]);
}

#[test]
fn merge_records_a_new_day() {
    let mut store = store_of(&[(DAY, 10)]);
    assert_eq!(store.merge(2 * DAY, 20), Ok(()));
    assert_eq!(store.points(), &vec![(DAY, 10), (2 * DAY, 20)]);
}

#[test]
fn merge_accepts_the_same_value_again() {
    let mut store = store_of(&[(DAY, 10)]);
    assert_eq!(store.merge(DAY, 10), Ok(()));
    assert_eq!(store.points(), &vec![(DAY, 10)]);
}

#[test]
fn merge_refuses_another_value_and_leaves_the_store() {
    let mut store = store_of(&[(DAY, 10), (2 * DAY, 20)]);
    assert_eq!(store.merge(DAY, 11), Err(Conflict { time: DAY, previous: 10, found: 11 }));
    assert_eq!(store.points(), &vec![(DAY, 10), (2 * DAY, 20)]);
}

#[test]
fn snapshots_merge_to_the_same_store_in_either_order() {
    let first = vec![(DAY, 10), (2 * DAY, 20), (3 * DAY, 30), (4 * DAY, 1)];
    let second = vec![(2 * DAY, 20), (3 * DAY, 30), (4 * DAY, 40), (5 * DAY, 2)];
    let third = vec![(3 * DAY, 30), (4 * DAY, 40), (5 * DAY, 50), (6 * DAY, 3)];

    let mut forward = Store::new();
    for snapshot in [&first, &second, &third] {
        merge_snapshot(&mut forward, snapshot, Section::Pageviews, "pageviews", "f").unwrap();
    }
    let mut backward = Store::new();
    for snapshot in [&third, &second, &first] {
        merge_snapshot(&mut backward, snapshot, Section::Pageviews, "pageviews", "f").unwrap();
    }
    let expected = vec![(DAY, 10), (2 * DAY, 20), (3 * DAY, 30), (4 * DAY, 40), (5 * DAY, 50)];
    assert_eq!(forward.points(), &expected);
    assert_eq!(backward.points(), &expected);
}

#[test]
fn merge_snapshot_returns_the_current_day_and_does_not_merge_it() {
    let mut store = Store::new();
    let snapshot = vec![(DAY, 10), (2 * DAY, 20), (3 * DAY, 7)];
    let current = merge_snapshot(&mut store, &snapshot, Section::Visitors, "visitors", "a.json");
    assert_eq!(current, Ok(3 * DAY));
    assert_eq!(store.points(), &vec![(DAY, 10), (2 * DAY, 20)]);
}

#[test]
fn merge_snapshot_of_one_point_merges_nothing() {
    let mut store = Store::new();
    let current = merge_snapshot(&mut store, &vec![(DAY, 10)], Section::Visitors, "visitors", "a");
    assert_eq!(current, Ok(DAY));
    assert!(store.is_empty());
}

#[test]
fn merge_snapshot_refuses_an_empty_section() {
    let mut store = store_of(&[(DAY, 10)]);
    let outcome = merge_snapshot(&mut store, &vec![], Section::Pageviews, "pageviews", "a.json");
    assert_eq!(
        outcome,
        Err(Error::EmptySection { section: Section::Pageviews, file: "a.json".to_string() })
    );
    assert_eq!(store.points(), &vec![(DAY, 10)]);
}

#[test]
fn conflicting_snapshot_fails_and_does_not_change_the_store() {
    let mut store = Store::new();
    let first = vec![(19_000 * DAY, 10), (19_001 * DAY, 20), (19_002 * DAY, 5)];
    merge_snapshot(&mut store, &first, Section::Pageviews, "pageviews", "one.json").unwrap();
    let before = store.points().clone();

    // The new day comes before the conflict in the snapshot: it must not stay.
    let second = vec![(19_002 * DAY, 30), (19_001 * DAY, 21), (19_003 * DAY, 0)];
    let outcome = merge_snapshot(&mut store, &second, Section::Pageviews, "pageviews", "two.json");
    assert_eq!(
        outcome,
        Err(Error::DataConflict {
            series: "pageviews".to_string(),
            time: 19_001 * DAY,
            date: Some("2022-01-09".to_string()),
            previous: 20,
            found: 21,
            file: "two.json".to_string(),
        })
    );
    assert_eq!(store.points(), &before);
}

#[test]
fn conflict_within_one_list_is_found() {
    let mut store = Store::new();
    let outcome = merge_points(&mut store, &vec![(DAY, 1), (2 * DAY, 2), (DAY, 3)], "s", "f");
    assert_eq!(
        outcome,
        Err(Error::DataConflict {
            series: "s".to_string(),
            time: DAY,
            date: Some("1970-01-02".to_string()),
            previous: 1,
            found: 3,
            file: "f".to_string(),
        })
    );
    assert!(store.is_empty());
}

#[test]
fn merge_points_takes_every_point() {
    let mut store = Store::new();
    assert_eq!(merge_points(&mut store, &vec![(2 * DAY, 2), (DAY, 1), (2 * DAY, 2)], "s", "f"), Ok(()));
    assert_eq!(store.points(), &vec![(DAY, 1), (2 * DAY, 2)]);
}

#[test]
fn conflict_beyond_the_calendar_has_no_date() {
    let mut store = store_of(&[(u64::MAX, 1)]);
    let outcome = merge_points(&mut store, &vec![(u64::MAX, 2)], "s", "f");
    assert_eq!(
        outcome,
        Err(Error::DataConflict {
            series: "s".to_string(),
            time: u64::MAX,
            date: None,
            previous: 1,
            found: 2,
            file: "f".to_string(),
        })
    );
}

#[test]
fn to_date_formats_the_utc_day() {
    assert_eq!(to_date(0), Some("1970-01-01".to_string()));
    assert_eq!(to_date(DAY - 1), Some("1970-01-01".to_string()));
    assert_eq!(to_date(DAY), Some("1970-01-02".to_string()));
    assert_eq!(to_date(1_700_000_000_000), Some("2023-11-14".to_string()));
    assert_eq!(to_date(951_782_400_000), Some("2000-02-29".to_string()));
}

#[test]
fn to_date_ends_with_the_year_9999() {
    assert_eq!(to_date(MAX_DATED_MS), Some("9999-12-31".to_string()));
    assert_eq!(to_date(MAX_DATED_MS + 1), None);
    assert_eq!(to_date(u64::MAX), None);
}
