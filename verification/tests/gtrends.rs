use nixos_metrics::collection::Collection;
use nixos_metrics::error::Error;
use nixos_metrics::gtrends::process::{graphs, ingest, victoria_metrics};
use nixos_metrics::gtrends::{pick, readings, GtrendsData, Picked, TimelineDatum};
use nixos_metrics::process::{Line, MetricKey, Unit};
use nixos_metrics::series::Store;

const UNIT: u64 = 1_000_000_000;
const DAY_S: u64 = 86_400;
const DAY: u64 = 86_400_000;

fn day(seconds: u64, value: Vec<u64>, has_data: Vec<bool>, is_partial: Option<bool>) -> TimelineDatum {
    TimelineDatum { has_data, is_partial, time: seconds.to_string(), value }
}

fn snapshot(query: &[&str], timeline_data: Vec<TimelineDatum>) -> GtrendsData {
    GtrendsData { query: query.iter().map(|name| name.to_string()).collect(), timeline_data }
}

fn points_of(series: &Collection, name: &str) -> Option<Vec<(u64, u64)>> {
    series.position(name).map(|at| series.store(at).points().clone())
}

#[test]
fn pick_reads_the_time_in_milliseconds() {
    let datum = day(3 * DAY_S, vec![10, 20], vec![true, true], None);
    assert_eq!(pick(&datum, 0), Picked::Reading(3 * DAY, 10));
    assert_eq!(pick(&datum, 1), Picked::Reading(3 * DAY, 20));
}

#[test]
fn pick_skips_a_partial_day_for_every_keyword() {
    let datum = day(3 * DAY_S, vec![10, 20], vec![true, true], Some(true));
    assert_eq!(pick(&datum, 0), Picked::Skipped);
    assert_eq!(pick(&datum, 1), Picked::Skipped);
    assert_eq!(pick(&datum, 7), Picked::Skipped);
}

#[test]
fn pick_takes_a_day_that_is_flagged_not_partial() {
    let datum = day(3 * DAY_S, vec![10], vec![true], Some(false));
    assert_eq!(pick(&datum, 0), Picked::Reading(3 * DAY, 10));
}

#[test]
fn pick_skips_a_day_without_data_for_that_keyword_only() {
    let datum = day(3 * DAY_S, vec![10, 20], vec![false, true], None);
    assert_eq!(pick(&datum, 0), Picked::Skipped);
    assert_eq!(pick(&datum, 1), Picked::Reading(3 * DAY, 20));
}

#[test]
fn pick_does_not_read_the_time_of_a_skipped_day() {
    let partial = TimelineDatum { has_data: vec![true], is_partial: Some(true), time: "soon".to_string(), value: vec![1] };
    assert_eq!(pick(&partial, 0), Picked::Skipped);
    let silent = TimelineDatum { has_data: vec![false], is_partial: None, time: "".to_string(), value: vec![] };
    assert_eq!(pick(&silent, 0), Picked::Skipped);
}

#[test]
fn pick_finds_malformed_days() {
    let text = |time: &str| TimelineDatum { has_data: vec![true], is_partial: None, time: time.to_string(), value: vec![1] };
    assert_eq!(pick(&text("12"), 0), Picked::Reading(12_000, 1));
    assert_eq!(pick(&text("+12"), 0), Picked::Reading(12_000, 1));
    assert_eq!(pick(&text("0012"), 0), Picked::Reading(12_000, 1));
    assert_eq!(pick(&text(""), 0), Picked::Malformed);
    assert_eq!(pick(&text("+"), 0), Picked::Malformed);
    assert_eq!(pick(&text("-12"), 0), Picked::Malformed);
    assert_eq!(pick(&text("12 "), 0), Picked::Malformed);
    assert_eq!(pick(&text("1_2"), 0), Picked::Malformed);
    assert_eq!(pick(&text("12.0"), 0), Picked::Malformed);
    assert_eq!(pick(&text("١٢"), 0), Picked::Malformed);
    assert_eq!(pick(&text("18446744073709551615"), 0), Picked::Malformed);
    assert_eq!(pick(&text("18446744073709551616"), 0), Picked::Malformed);
    assert_eq!(pick(&text("18446744073709551"), 0), Picked::Reading(18_446_744_073_709_551_000, 1));
    assert_eq!(pick(&text("18446744073709552"), 0), Picked::Malformed);
    assert_eq!(pick(&text("12"), 1), Picked::Malformed);
    let short = TimelineDatum { has_data: vec![true, true], is_partial: None, time: "12".to_string(), value: vec![1] };
    assert_eq!(pick(&short, 1), Picked::Malformed);
}

#[test]
fn readings_leave_out_partial_days_and_days_without_data() {
    let data = snapshot(
        &["nixos", "nixpkgs"],
        vec![
            day(DAY_S, vec![10, 1], vec![true, true], None),
            day(2 * DAY_S, vec![0, 2], vec![false, true], None),
            day(3 * DAY_S, vec![30, 0], vec![true, false], Some(false)),
            day(4 * DAY_S, vec![40, 4], vec![true, true], Some(true)),
        ],
    );
    assert_eq!(readings(&data, 0, "f"), Ok(vec![(DAY, 10), (3 * DAY, 30)]));
    assert_eq!(readings(&data, 1, "f"), Ok(vec![(DAY, 1), (2 * DAY, 2)]));
}

#[test]
fn readings_are_the_same_without_the_excluded_days() {
    let kept = vec![
        day(DAY_S, vec![10, 1], vec![true, true], None),
        day(3 * DAY_S, vec![30, 3], vec![true, true], None),
    ];
    let mut with_partial = kept.clone();
    with_partial.insert(1, day(2 * DAY_S, vec![99, 99], vec![true, true], Some(true)));
    let mut with_silent = kept.clone();
    with_silent.insert(1, day(2 * DAY_S, vec![99, 2], vec![false, true], None));

    let plain = snapshot(&["a", "b"], kept);
    let partial = snapshot(&["a", "b"], with_partial);
    let silent = snapshot(&["a", "b"], with_silent);
    assert_eq!(readings(&partial, 0, "f"), readings(&plain, 0, "f"));
    assert_eq!(readings(&partial, 1, "f"), readings(&plain, 1, "f"));
    assert_eq!(readings(&silent, 0, "f"), readings(&plain, 0, "f"));
    assert_eq!(readings(&silent, 1, "f"), Ok(vec![(DAY, 1), (2 * DAY, 2), (3 * DAY, 3)]));
}

#[test]
fn readings_refuse_the_first_malformed_day() {
    let mut bad = day(2 * DAY_S, vec![20], vec![true], None);
    bad.time = "yesterday".to_string();
    let data = snapshot(
        &["nixos"],
        vec![day(DAY_S, vec![10], vec![true], None), bad.clone(), bad],
    );
    assert_eq!(
        readings(&data, 0, "g.json"),
        Err(Error::Parse { entry: 1, file: "g.json".to_string() })
    );
}

#[test]
fn ingest_starts_each_keyword_on_its_own_scale() {
    let mut series = Collection::new();
    let data = snapshot(
        &["nixos", "nixpkgs"],
        vec![
            day(DAY_S, vec![40, 4], vec![true, true], None),
            day(2 * DAY_S, vec![50, 5], vec![true, true], None),
        ],
    );
    assert_eq!(ingest(&mut series, &data, "a.json"), Ok(()));
    assert_eq!(series.len(), 2);
    assert_eq!(series.name(0), "nixos");
    assert_eq!(series.name(1), "nixpkgs");
    assert_eq!(points_of(&series, "nixos"), Some(vec![(DAY, 40 * UNIT), (2 * DAY, 50 * UNIT)]));
    assert_eq!(points_of(&series, "nixpkgs"), Some(vec![(DAY, 4 * UNIT), (2 * DAY, 5 * UNIT)]));
}

#[test]
fn ingest_rescales_each_keyword_by_its_own_overlap() {
    let mut series = Collection::new();
    let first = snapshot(
        &["nixos", "nixpkgs"],
        vec![
            day(DAY_S, vec![40, 4], vec![true, true], None),
            day(2 * DAY_S, vec![50, 5], vec![true, true], None),
        ],
    );
    let second = snapshot(
        &["nixos", "nixpkgs"],
        vec![
            day(2 * DAY_S, vec![75, 10], vec![true, true], None),
            day(3 * DAY_S, vec![90, 30], vec![true, true], None),
            day(4 * DAY_S, vec![1, 1], vec![true, true], Some(true)),
        ],
    );
    ingest(&mut series, &first, "a.json").unwrap();
    assert_eq!(ingest(&mut series, &second, "b.json"), Ok(()));
    assert_eq!(
        points_of(&series, "nixos"),
        Some(vec![(DAY, 40 * UNIT), (2 * DAY, 50 * UNIT), (3 * DAY, 60 * UNIT)])
    );
    assert_eq!(
        points_of(&series, "nixpkgs"),
        Some(vec![(DAY, 4 * UNIT), (2 * DAY, 5 * UNIT), (3 * DAY, 15 * UNIT)])
    );
}

#[test]
fn ingest_does_not_use_an_excluded_day_as_the_overlap() {
    let mut series = Collection::new();
    let first = snapshot(
        &["nixos"],
        vec![
            day(DAY_S, vec![40], vec![true], None),
            day(2 * DAY_S, vec![50], vec![true], None),
        ],
    );
    // Day 1 would give the factor 2, but has no data; day 2 gives 1.5.
    let second = snapshot(
        &["nixos"],
        vec![
            day(DAY_S, vec![80], vec![false], None),
            day(2 * DAY_S, vec![75], vec![true], None),
            day(3 * DAY_S, vec![90], vec![true], None),
        ],
    );
    ingest(&mut series, &first, "a.json").unwrap();
    assert_eq!(ingest(&mut series, &second, "b.json"), Ok(()));
    assert_eq!(
        points_of(&series, "nixos"),
        Some(vec![(DAY, 40 * UNIT), (2 * DAY, 50 * UNIT), (3 * DAY, 60 * UNIT)])
    );
}

#[test]
fn ingest_fails_without_overlap_and_changes_nothing() {
    let mut series = Collection::new();
    let first = snapshot(
        &["nixos", "nixpkgs"],
        vec![day(DAY_S, vec![40, 4], vec![true, true], None)],
    );
    // The only shared day is partial; the first keyword alone would be taken.
    let second = snapshot(
        &["fresh", "nixpkgs"],
        vec![
            day(DAY_S, vec![80, 8], vec![true, true], Some(true)),
            day(2 * DAY_S, vec![75, 10], vec![true, true], None),
        ],
    );
    ingest(&mut series, &first, "a.json").unwrap();
    assert_eq!(
        ingest(&mut series, &second, "b.json"),
        Err(Error::NoOverlap { series: "nixpkgs".to_string(), file: "b.json".to_string() })
    );
    assert_eq!(series.len(), 2);
    assert_eq!(points_of(&series, "fresh"), None);
    assert_eq!(points_of(&series, "nixpkgs"), Some(vec![(DAY, 4 * UNIT)]));
}

#[test]
fn ingest_leaves_a_keyword_without_readings_unknown() {
    let mut series = Collection::new();
    let data = snapshot(
        &["nixos", "quiet"],
        vec![day(DAY_S, vec![40, 0], vec![true, false], None)],
    );
    assert_eq!(ingest(&mut series, &data, "a.json"), Ok(()));
    assert_eq!(series.len(), 1);
    assert_eq!(points_of(&series, "quiet"), None);
}

#[test]
fn ingest_refuses_a_malformed_day() {
    let mut series = Collection::new();
    let data = snapshot(
        &["nixos", "nixpkgs"],
        vec![
            day(DAY_S, vec![40, 4], vec![true, true], None),
            day(2 * DAY_S, vec![50], vec![true, true], None),
        ],
    );
    assert_eq!(
        ingest(&mut series, &data, "a.json"),
        Err(Error::Parse { entry: 1, file: "a.json".to_string() })
    );
    assert_eq!(series.len(), 0);
}

#[test]
fn graphs_have_one_line_for_each_keyword_in_billionths() {
    let mut series = Collection::new();
    let data = snapshot(
        &["nixos", ""],
        vec![
            day(DAY_S, vec![40, 4], vec![true, true], None),
            day(2 * DAY_S, vec![50, 5], vec![true, true], None),
        ],
    );
    ingest(&mut series, &data, "a.json").unwrap();
    let lines = graphs(&series).unwrap();
    assert_eq!(
        lines,
        vec![
            Line { label: "nixos".to_string(), x: vec![DAY, 2 * DAY], y: vec![40 * UNIT, 50 * UNIT], unit: Unit::Billionths },
            Line { label: "".to_string(), x: vec![DAY, 2 * DAY], y: vec![4 * UNIT, 5 * UNIT], unit: Unit::Billionths },
        ]
    );
    let value = lines[0].y[1] as f64 / lines[0].unit.divisor() as f64;
    assert_eq!(value, 50.0);
}

#[test]
fn records_are_named_gtrends_and_labelled_with_the_keyword() {
    let lines = vec![Line { label: "nixos".to_string(), x: vec![DAY], y: vec![40 * UNIT], unit: Unit::Billionths }];
    let records = victoria_metrics(&lines).unwrap();
    assert_eq!(records.len(), 1);
    assert_eq!(
        records[0].metric,
        MetricKey { name: "gtrends".to_string(), label: Some(("search_term".to_string(), "nixos".to_string())) }
    );
    assert_eq!(records[0].timestamps, vec![DAY]);
    assert_eq!(records[0].values, vec![40 * UNIT]);
}

#[test]
fn graphs_refuse_a_number_that_no_double_holds() {
    let mut series = Collection::new();
    let mut store = Store::new();
    store.insert(DAY, (1 << 53) + 1);
    series.put("nixos", store);
    assert_eq!(graphs(&series), Err(Error::Cast { value: (1u128 << 53) + 1 }));
}

#[test]
fn put_replaces_in_place_and_appends_new_names() {
    let mut series = Collection::new();
    let mut one = Store::new();
    one.insert(DAY, 1);
    series.put("b", one);
    series.put("a", Store::new());
    let mut two = Store::new();
    two.insert(DAY, 2);
    series.put("b", two);
    assert_eq!(series.len(), 2);
    assert_eq!(series.name(0), "b");
    assert_eq!(series.name(1), "a");
    assert_eq!(series.position("a"), Some(1));
    assert_eq!(series.position("c"), None);
    assert_eq!(series.store(0).points(), &vec![(DAY, 2)]);
    let copy = series.duplicate();
    assert_eq!(copy.len(), 2);
    assert_eq!(copy.store(0).points(), &vec![(DAY, 2)]);
}
