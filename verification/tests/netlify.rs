use nixos_metrics::error::{Error, Section};
use nixos_metrics::netlify::process::{averages, graphs, ingest, record_sources, victoria_metrics, Data};
use nixos_metrics::netlify::{
    check_days, get_metrics_url_for, parse_days, BandwidthDataItemResult, BandwidthResult,
    DaysError, Metric, MetricRange, MetricsResult, PathItemResult, PathResult, Payload,
    TupleResult, MAX_DAYS, MIN_DAYS,
};
use nixos_metrics::collection::Collection;
use nixos_metrics::process::{Line, MetricKey, Unit};

const DAY: u64 = 86_400_000;

fn paths(items: &[(&str, u64)]) -> PathResult {
    PathResult {
        data: items.iter().map(|(path, count)| PathItemResult { path: path.to_string(), count: *count }).collect(),
    }
}

fn snapshot(pageviews: &[(u64, u64)], visitors: &[(u64, u64)], sources: &[(&str, u64)]) -> MetricsResult {
    let mut result = MetricsResult::new();
    result.pageviews = Some(TupleResult { data: pageviews.to_vec() });
    result.visitors = Some(TupleResult { data: visitors.to_vec() });
    result.sources = Some(paths(sources));
    result
}

#[test]
fn parse_days_accepts_one_to_thirty() {
    assert_eq!((MIN_DAYS, MAX_DAYS), (1, 30));
    assert_eq!(parse_days("1"), Ok(1));
    assert_eq!(parse_days("30"), Ok(30));
    assert_eq!(parse_days("+7"), Ok(7));
    assert_eq!(parse_days("007"), Ok(7));
}

#[test]
fn parse_days_refuses_what_is_out_of_range() {
    assert_eq!(parse_days("31"), Err(DaysError::TooMany));
    assert_eq!(parse_days("9223372036854775807"), Err(DaysError::TooMany));
    assert_eq!(parse_days("0"), Err(DaysError::TooFew));
    assert_eq!(parse_days("-0"), Err(DaysError::TooFew));
    assert_eq!(parse_days("-5"), Err(DaysError::TooFew));
    assert_eq!(parse_days("-9223372036854775808"), Err(DaysError::TooFew));
}

#[test]
fn parse_days_refuses_what_is_no_number() {
    for text in ["", "+", "-", "seven", "7 ", " 7", "7.0", "1_0", "٧", "--7", "+-7", "9223372036854775808", "-9223372036854775809"] {
        assert_eq!(parse_days(text), Err(DaysError::NotANumber), "{:?}", text);
    }
}

#[test]
fn check_days_tells_the_side() {
    assert_eq!(check_days(15), Ok(15));
    assert_eq!(check_days(31), Err(DaysError::TooMany));
    assert_eq!(check_days(0), Err(DaysError::TooFew));
    assert_eq!(check_days(i64::MIN), Err(DaysError::TooFew));
}

#[test]
fn metrics_have_their_names() {
    assert_eq!(Metric::Pageviews.name(), "pageviews");
    assert_eq!(Metric::Visitors.name(), "visitors");
    assert_eq!(Metric::Pages.name(), "pages");
    assert_eq!(Metric::Bandwidth.name(), "bandwidth");
    assert_eq!(Metric::NotFound.name(), "not_found");
    assert_eq!(Metric::Sources.name(), "sources");
}

#[test]
fn range_starts_days_before_today() {
    let range = MetricRange::new(30, 1_700_000_000_000, 1_700_086_399_999, "+02:00");
    assert_eq!(
        range,
        Some(MetricRange {
            start: 1_700_000_000_000 - 30 * 86_400_000,
            end: 1_700_086_399_999,
            timezone: "+0200".to_string(),
        })
    );
}

#[test]
fn range_strips_every_colon_of_the_offset() {
    let range = MetricRange::new(1, 0, 1, "-05:30:15").unwrap();
    assert_eq!(range.timezone, "-053015");
    assert_eq!(range.start, -86_400_000);
    assert_eq!(MetricRange::new(1, 0, 1, ":").unwrap().timezone, "");
}

#[test]
fn range_needs_a_start_within_i64() {
    assert_eq!(MetricRange::new(1, i64::MIN, 0, "+00:00"), None);
    assert_eq!(MetricRange::new(-1, i64::MAX, 0, "+00:00"), None);
    assert_eq!(MetricRange::new(i64::MAX, 0, 0, "+00:00"), None);
    let edge = MetricRange::new(1, i64::MIN + 86_400_000, 0, "+00:00").unwrap();
    assert_eq!(edge.start, i64::MIN);
}

#[test]
fn url_names_site_metric_range_and_zone() {
    let range = MetricRange { start: -5, end: 1_700_086_399_999, timezone: "+0200".to_string() };
    assert_eq!(
        get_metrics_url_for("abc-123", &range, Metric::NotFound),
        "https://analytics.services.netlify.com/v2/abc-123/not_found?from=-5&to=1700086399999&timezone=+0200&resolution=day"
    );
}

#[test]
fn new_result_has_no_section() {
    let result = MetricsResult::new();
    assert_eq!(
        result,
        MetricsResult { pageviews: None, visitors: None, pages: None, bandwidth: None, not_found: None, sources: None }
    );
}

#[test]
fn update_sets_the_section_of_the_metric() {
    let mut result = MetricsResult::new();
    let tuples = TupleResult { data: vec![(DAY, 1)] };
    let bandwidth = BandwidthResult {
        data: vec![BandwidthDataItemResult { start: 0, end: DAY, site_bandwidth: 5, account_bandwidth: 9 }],
    };
    result.update(Metric::Visitors, Some(Payload::Tuples(tuples.clone())));
    result.update(Metric::NotFound, Some(Payload::Paths(paths(&[("/x", 2)]))));
    result.update(Metric::Bandwidth, Some(Payload::Bandwidth(bandwidth.clone())));
    assert_eq!(result.visitors, Some(tuples));
    assert_eq!(result.not_found, Some(paths(&[("/x", 2)])));
    assert_eq!(result.bandwidth, Some(bandwidth));
    assert_eq!(result.pageviews, None);
    assert_eq!(result.pages, None);
    assert_eq!(result.sources, None);
}

#[test]
fn update_empties_the_section_without_a_fitting_answer() {
    let mut result = snapshot(&[(DAY, 1)], &[(DAY, 1)], &[("a", 1)]);
    result.update(Metric::Pageviews, None);
    result.update(Metric::Sources, Some(Payload::Tuples(TupleResult { data: vec![] })));
    assert_eq!(result.pageviews, None);
    assert_eq!(result.sources, None);
    assert_eq!(result.visitors, Some(TupleResult { data: vec![(DAY, 1)] }));
}

#[test]
fn ingest_merges_settled_days_and_dates_the_sources() {
    let mut data = Data::new();
    let first = snapshot(
        &[(DAY, 10), (2 * DAY, 20), (3 * DAY, 3)],
        &[(DAY, 1), (2 * DAY, 2), (3 * DAY, 0)],
        &[("", 7), ("https://a.example/", 2)],
    );
    let second = snapshot(
        &[(2 * DAY, 20), (3 * DAY, 30), (4 * DAY, 4)],
        &[(2 * DAY, 2), (3 * DAY, 3), (4 * DAY, 0)],
        &[("https://a.example/", 5), ("https://b.example/", 1)],
    );
    assert_eq!(ingest(&mut data, &first, "1.json"), Ok(()));
    assert_eq!(ingest(&mut data, &second, "2.json"), Ok(()));
    assert_eq!(data.pageviews.points(), &vec![(DAY, 10), (2 * DAY, 20), (3 * DAY, 30)]);
    assert_eq!(data.visitors.points(), &vec![(DAY, 1), (2 * DAY, 2), (3 * DAY, 3)]);
    assert_eq!(data.sources.len(), 3);
    assert_eq!(data.sources.name(0), "");
    assert_eq!(data.sources.store(0).points(), &vec![(3 * DAY, 7)]);
    assert_eq!(data.sources.name(1), "https://a.example/");
    assert_eq!(data.sources.store(1).points(), &vec![(3 * DAY, 2), (4 * DAY, 5)]);
    assert_eq!(data.sources.name(2), "https://b.example/");
    assert_eq!(data.sources.store(2).points(), &vec![(4 * DAY, 1)]);
    assert!(data.pageviews_7day.is_empty());
}

#[test]
fn a_later_count_for_the_same_path_and_day_replaces_the_earlier() {
    let mut sources = Collection::new();
    let items = paths(&[("a", 1), ("b", 2), ("a", 3)]).data;
    record_sources(&mut sources, &items, DAY);
    assert_eq!(sources.len(), 2);
    assert_eq!(sources.store(0).points(), &vec![(DAY, 3)]);
    assert_eq!(sources.store(1).points(), &vec![(DAY, 2)]);
}

#[test]
fn ingest_fails_on_a_conflict_and_changes_nothing() {
    let mut data = Data::new();
    let first = snapshot(&[(DAY, 10), (2 * DAY, 3)], &[(DAY, 1), (2 * DAY, 0)], &[("a", 7)]);
    ingest(&mut data, &first, "1.json").unwrap();
    let second = snapshot(
        &[(DAY, 10), (2 * DAY, 20), (3 * DAY, 4)],
        &[(2 * DAY, 2), (DAY, 9), (3 * DAY, 0)],
        &[("b", 1)],
    );
    assert_eq!(
        ingest(&mut data, &second, "2.json"),
        Err(Error::DataConflict {
            series: "visitors".to_string(),
            time: DAY,
            date: Some("1970-01-02".to_string()),
            previous: 1,
            found: 9,
            file: "2.json".to_string(),
        })
    );
    assert_eq!(data.pageviews.points(), &vec![(DAY, 10)]);
    assert_eq!(data.visitors.points(), &vec![(DAY, 1)]);
    assert_eq!(data.sources.len(), 1);
}

#[test]
fn ingest_names_the_series_of_a_pageview_conflict() {
    let mut data = Data::new();
    ingest(&mut data, &snapshot(&[(DAY, 10), (2 * DAY, 3)], &[(DAY, 1)], &[]), "1.json").unwrap();
    let outcome = ingest(&mut data, &snapshot(&[(DAY, 11), (2 * DAY, 3)], &[(DAY, 1)], &[]), "2.json");
    assert_eq!(
        outcome,
        Err(Error::DataConflict {
            series: "pageviews".to_string(),
            time: DAY,
            date: Some("1970-01-02".to_string()),
            previous: 10,
            found: 11,
            file: "2.json".to_string(),
        })
    );
}

#[test]
fn ingest_needs_every_section() {
    let full = snapshot(&[(DAY, 1)], &[(DAY, 1)], &[]);
    let missing = |section: Section| Err(Error::MissingSection { section, file: "f".to_string() });

    let mut without = full.clone();
    without.pageviews = None;
    assert_eq!(ingest(&mut Data::new(), &without, "f"), missing(Section::Pageviews));
    let mut without = full.clone();
    without.visitors = None;
    assert_eq!(ingest(&mut Data::new(), &without, "f"), missing(Section::Visitors));
    let mut without = full.clone();
    without.sources = None;
    let mut data = Data::new();
    assert_eq!(ingest(&mut data, &without, "f"), missing(Section::Sources));
    assert!(data.pageviews.is_empty());
    assert_eq!(ingest(&mut Data::new(), &full, "f"), Ok(()));
}

#[test]
fn ingest_refuses_empty_sections() {
    let empty = |section: Section| Err(Error::EmptySection { section, file: "f".to_string() });
    assert_eq!(ingest(&mut Data::new(), &snapshot(&[], &[(DAY, 1)], &[]), "f"), empty(Section::Pageviews));
    assert_eq!(ingest(&mut Data::new(), &snapshot(&[(DAY, 1)], &[], &[]), "f"), empty(Section::Visitors));
}

fn week() -> Data {
    let mut data = Data::new();
    let views: Vec<(u64, u64)> = (0..8).map(|day| (day * DAY, day + 1)).collect();
    let visits: Vec<(u64, u64)> = (0..8).map(|day| (day * DAY, 2 * (day + 1))).collect();
    ingest(&mut data, &snapshot(&views, &visits, &[("", 4), ("x", 1)]), "w.json").unwrap();
    data
}

#[test]
fn averages_fill_both_seven_day_series() {
    let mut data = week();
    assert_eq!(averages(&mut data), Ok(()));
    assert_eq!(data.pageviews_7day.points(), &vec![(0, 28)]);
    assert_eq!(data.visitors_7day.points(), &vec![(0, 56)]);
    assert_eq!(data.pageviews.len(), 7);
}

#[test]
fn averages_refuse_a_total_beyond_u64() {
    let mut data = week();
    data.visitors.insert(0, u64::MAX);
    assert_eq!(averages(&mut data), Err(Error::Cast { value: u64::MAX as u128 + 54 }));
    assert!(data.pageviews_7day.is_empty());
    assert!(data.visitors_7day.is_empty());
}

#[test]
fn graphs_hold_the_groups_of_a_site() {
    let mut data = week();
    averages(&mut data).unwrap();
    let charts = graphs(&data).unwrap();
    let days: Vec<u64> = (0..7).map(|day| day * DAY).collect();
    assert_eq!(
        charts.pageviews,
        Line { label: "Pageviews".to_string(), x: days.clone(), y: (1..=7).collect(), unit: Unit::Ones }
    );
    assert_eq!(
        charts.pageviews_7day,
        Line { label: "7 day avg".to_string(), x: vec![0], y: vec![28], unit: Unit::Sevenths }
    );
    assert_eq!(charts.visitors.label, "Visitors");
    assert_eq!(charts.visitors.y, vec![2, 4, 6, 8, 10, 12, 14]);
    assert_eq!(
        charts.visitors_7day,
        Line { label: "7 day avg".to_string(), x: vec![0], y: vec![56], unit: Unit::Sevenths }
    );
    assert_eq!(
        charts.sources,
        vec![
            Line { label: "direct".to_string(), x: vec![7 * DAY], y: vec![4], unit: Unit::Ones },
            Line { label: "x".to_string(), x: vec![7 * DAY], y: vec![1], unit: Unit::Ones },
        ]
    );
    let average = charts.pageviews_7day.y[0] as f64 / charts.pageviews_7day.unit.divisor() as f64;
    assert_eq!(average, 4.0);
}

#[test]
fn records_hold_pageviews_visitors_and_sources() {
    let mut data = week();
    averages(&mut data).unwrap();
    let records = victoria_metrics(&graphs(&data).unwrap()).unwrap();
    assert_eq!(records.len(), 4);
    assert_eq!(records[0].metric, MetricKey { name: "netlify.pageviews".to_string(), label: None });
    assert_eq!(records[0].values, vec![1, 2, 3, 4, 5, 6, 7]);
    assert_eq!(records[1].metric, MetricKey { name: "netlify.visitors".to_string(), label: None });
    assert_eq!(
        records[2].metric,
        MetricKey { name: "netlify.sources".to_string(), label: Some(("source".to_string(), "direct".to_string())) }
    );
    assert_eq!(
        records[3].metric,
        MetricKey { name: "netlify.sources".to_string(), label: Some(("source".to_string(), "x".to_string())) }
    );
    assert_eq!(records[3].timestamps, vec![7 * DAY]);
    assert_eq!(records[3].values, vec![1]);
}

#[test]
fn graphs_refuse_the_first_number_that_no_double_holds() {
    let mut data = week();
    data.visitors.insert(DAY, (1 << 53) + 3);
    data.pageviews_7day.insert(5, (1 << 53) + 1);
    assert_eq!(graphs(&data).err(), Some(Error::Cast { value: (1u128 << 53) + 1 }));
}
