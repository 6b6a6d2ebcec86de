//! The exporter: chart lines and metric records made from stores.
//!
//! A chart or a metrics database reads numbers as doubles. The library holds
//! integers only: a value of a line stands for its integer divided by the
//! divisor of the line's unit, and every integer that is exported is one that a
//! double holds exactly, so that reading it back gives the same integer.

use crate::error::Error;
use crate::normalize::INDEX_UNIT;
use crate::rolling::WINDOW_DAYS;
use crate::collection::Collection;
use crate::series::{ascending, lemma_ascending_unique, lemma_point_in_map, to_map, Store};
use vstd::prelude::*;
use vstd::string::StringExecFns;

verus! {

/// The first integer that not every double below it separates: `2^53`.
pub const DOUBLE_EXACT_BELOW: u64 = 9_007_199_254_740_992;

/// Whether a double holds `n` exactly: `n` has at most 53 significant bits.
pub open spec fn fits_double(n: nat) -> bool
    decreases n,
{
    n < DOUBLE_EXACT_BELOW || (n % 2 == 0 && fits_double(n / 2))
}

/// Whether a double holds `n` exactly.
pub fn is_exact_double(n: u64) -> (fits: bool)
    ensures
        fits == fits_double(n as nat),
{
    let mut rest: u64 = n;
    while rest >= DOUBLE_EXACT_BELOW && rest % 2 == 0
        invariant
            fits_double(n as nat) == fits_double(rest as nat),
        decreases rest,
    {
        rest = rest / 2;
    }
    rest < DOUBLE_EXACT_BELOW
}

/// What the integers of a series count.
#[derive(Debug, Clone, Copy, PartialEq, Eq, Structural)]
pub enum Unit {
    /// Whole numbers, such as page views.
    Ones,
    /// Sevenths: the total of a window of seven days stands for its average.
    Sevenths,
    /// Billionths: the fixed-point form of rescaled index values.
    Billionths,
}

impl Unit {
    /// The number that an integer of this unit is divided by to give the value.
    pub open spec fn spec_divisor(self) -> u64 {
        match self {
            Unit::Ones => 1,
            Unit::Sevenths => WINDOW_DAYS,
            Unit::Billionths => INDEX_UNIT,
        }
    }

    /// The number that an integer of this unit is divided by to give the value.
    #[verifier::when_used_as_spec(spec_divisor)]
    pub fn divisor(self) -> (d: u64)
        ensures
            d == self.spec_divisor(),
            d > 0,
    {
        match self {
            Unit::Ones => 1,
            Unit::Sevenths => WINDOW_DAYS,
            Unit::Billionths => INDEX_UNIT,
        }
    }
}

/// One line of a chart: for each place a timestamp in `x` and the value at that
/// time in `y`, in ascending order of the timestamps.
#[derive(Debug, Clone, PartialEq, Eq)]
pub struct Line {
    pub label: String,
    pub x: Vec<u64>,
    pub y: Vec<u64>,
    pub unit: Unit,
}

/// A chart line as plain values.
pub struct LineView {
    pub label: Seq<char>,
    pub x: Seq<u64>,
    pub y: Seq<u64>,
    pub unit: Unit,
}

impl View for Line {
    type V = LineView;

    open spec fn view(&self) -> LineView {
        LineView { label: self.label@, x: self.x@, y: self.y@, unit: self.unit }
    }
}

/// The chart line of a list of points.
pub open spec fn chart_line(label: Seq<char>, points: Seq<(u64, u64)>, unit: Unit) -> LineView {
    LineView {
        label,
        x: Seq::new(points.len(), |i: int| points[i].0),
        y: Seq::new(points.len(), |i: int| points[i].1),
        unit,
    }
}

/// The points that a chart line gives back when it is read place by place.
pub open spec fn line_points(line: LineView) -> Seq<(u64, u64)> {
    Seq::new(line.x.len(), |i: int| (line.x[i], line.y[i]))
}

/// The number of a point that no double holds exactly, its timestamp before its value.
pub open spec fn unfit_of(point: (u64, u64)) -> Option<u64> {
    if !fits_double(point.0 as nat) {
        Some(point.0)
    } else if !fits_double(point.1 as nat) {
        Some(point.1)
    } else {
        None
    }
}

/// The first number of a list of points that no double holds exactly.
pub open spec fn first_unfit(points: Seq<(u64, u64)>) -> Option<u64>
    decreases points.len(),
{
    if points.len() == 0 {
        None
    } else {
        match first_unfit(points.drop_last()) {
            Some(number) => Some(number),
            None => unfit_of(points.last()),
        }
    }
}

/// The first number of a list that no double holds exactly.
pub open spec fn first_unfit_number(numbers: Seq<u64>) -> Option<u64>
    decreases numbers.len(),
{
    if numbers.len() == 0 {
        None
    } else {
        match first_unfit_number(numbers.drop_last()) {
            Some(number) => Some(number),
            None => if fits_double(numbers.last() as nat) {
                None
            } else {
                Some(numbers.last())
            },
        }
    }
}

impl Line {
    /// The chart line of a store: its timestamps in ascending order and the value
    /// of each. A store with a timestamp or a value that no double holds exactly
    /// is refused with the first such number.
    pub fn try_new(label: &str, store: &Store, unit: Unit) -> (outcome: Result<Line, Error>)
        ensures
            match outcome {
                Ok(line) => {
                    &&& first_unfit(store.ordered()) is None
                    &&& line@ == chart_line(label@, store.ordered(), unit)
                    &&& line_points(line@) == store.ordered()
                    &&& is_line_of(line@, label@, store@, unit)
                },
                Err(error) => refused_with(error, first_unfit(store.ordered())),
            },
    {
        let points = store.points();
        let mut x: Vec<u64> = Vec::new();
        let mut y: Vec<u64> = Vec::new();
        let mut i: usize = 0;
        while i < points.len()
            invariant
                i <= points@.len(),
                points@ == store.ordered(),
                first_unfit(points@.take(i as int)) is None,
                x@ == chart_line(label@, points@.take(i as int), unit).x,
                y@ == chart_line(label@, points@.take(i as int), unit).y,
            decreases points@.len() - i,
        {
            let point = points[i];
            proof {
                assert(points@.take(i + 1).drop_last() =~= points@.take(i as int));
                assert(points@.take(i + 1).last() == point);
            }
            if !is_exact_double(point.0) {
                proof {
                    lemma_unfit_stays(points@, i + 1);
                }
                return Err(Error::Cast { value: point.0 as u128 });
            }
            if !is_exact_double(point.1) {
                proof {
                    lemma_unfit_stays(points@, i + 1);
                }
                return Err(Error::Cast { value: point.1 as u128 });
            }
            x.push(point.0);
            y.push(point.1);
            assert(x@ =~= chart_line(label@, points@.take(i + 1), unit).x);
            assert(y@ =~= chart_line(label@, points@.take(i + 1), unit).y);
            i += 1;
        }
        assert(points@.take(i as int) =~= points@);
        proof {
            lemma_chart_round_trip(label@, points@, unit);
        }
        Ok(Line { label: String::from_str(label), x, y, unit })
    }
}

/// A number found unfit among the first `count` points is the first unfit number
/// of the whole list.
proof fn lemma_unfit_stays(points: Seq<(u64, u64)>, count: int)
    requires
        0 <= count <= points.len(),
        first_unfit(points.take(count)) is Some,
    ensures
        first_unfit(points) == first_unfit(points.take(count)),
    decreases points.len() - count,
{
    if count < points.len() {
        assert(points.take(count + 1).drop_last() =~= points.take(count));
        lemma_unfit_stays(points, count + 1);
    } else {
        assert(points.take(count) =~= points);
    }
}

/// Reading a chart line back place by place gives the points it was made from:
/// as many places as points, the timestamps strictly ascending, so none twice
/// and none out of order, and at each timestamp the value that the map of the
/// points has for it.
pub proof fn lemma_chart_round_trip(label: Seq<char>, points: Seq<(u64, u64)>, unit: Unit)
    requires
        ascending(points),
    ensures
        line_points(chart_line(label, points, unit)) == points,
        to_map(line_points(chart_line(label, points, unit))) == to_map(points),
        chart_line(label, points, unit).x.len() == points.len(),
        chart_line(label, points, unit).y.len() == points.len(),
        forall|i: int, j: int|
            0 <= i < j < points.len() ==> chart_line(label, points, unit).x[i] < chart_line(
                label,
                points,
                unit,
            ).x[j],
        forall|i: int|
            0 <= i < points.len() ==> to_map(points).contains_key(
                #[trigger] chart_line(label, points, unit).x[i],
            ) && to_map(points)[chart_line(label, points, unit).x[i]] == chart_line(
                label,
                points,
                unit,
            ).y[i],
{
    let line = chart_line(label, points, unit);
    assert(line_points(line) =~= points);
    assert forall|i: int| 0 <= i < points.len() implies to_map(points).contains_key(
        #[trigger] line.x[i],
    ) && to_map(points)[line.x[i]] == line.y[i] by {
        lemma_point_in_map(points, i);
    }
}

/// A history has one chart line only: two ascending lists of points that stand
/// for the same history give the same line, so exporting the same history
/// twice gives the same line, place by place.
pub proof fn lemma_same_history_same_line(
    label: Seq<char>,
    first: Seq<(u64, u64)>,
    second: Seq<(u64, u64)>,
    unit: Unit,
)
    requires
        ascending(first),
        ascending(second),
        to_map(first) == to_map(second),
    ensures
        chart_line(label, first, unit) == chart_line(label, second, unit),
{
    lemma_ascending_unique(first, second);
}

/// The label of a traffic source: unattributed traffic has an empty path and is
/// shown as `direct`; every other path is its own label.
pub fn source_label(path: &str) -> (label: String)
    ensures
        label@ == (if path@.len() == 0 {
            "direct"@
        } else {
            path@
        }),
{
    if path.is_empty() {
        String::from_str("direct")
    } else {
        String::from_str(path)
    }
}

/// What a metric record is filed under: a name, and at most one label that tells
/// the series apart from the others of that name.
#[derive(Debug, Clone, PartialEq, Eq)]
pub struct MetricKey {
    pub name: String,
    pub label: Option<(String, String)>,
}

/// One record for a metrics database.
#[derive(Debug, Clone, PartialEq, Eq)]
pub struct VictoriaMetric {
    pub metric: MetricKey,
    pub values: Vec<u64>,
    pub unit: Unit,
    pub timestamps: Vec<u64>,
}

/// Whether `key` is the key with the name `name` and, unless `label` is empty,
/// the label `label` with the value `series`.
pub open spec fn is_metric_key(
    key: MetricKey,
    name: Seq<char>,
    label: Seq<char>,
    series: Seq<char>,
) -> bool {
    &&& key.name@ == name
    &&& match key.label {
        Some((k, v)) => label.len() > 0 && k@ == label && v@ == series,
        None => label.len() == 0,
    }
}

impl VictoriaMetric {
    /// The metric record of a chart line: its values as they are, and its
    /// timestamps read back as integers. A timestamp that no double holds
    /// exactly would not come back as it was: the line is refused with the
    /// first such timestamp.
    pub fn try_new(name: &str, label: &str, line: &Line) -> (outcome: Result<
        VictoriaMetric,
        Error,
    >)
        ensures
            match outcome {
                Ok(record) => {
                    &&& first_unfit_number(line.x@) is None
                    &&& is_metric_key(record.metric, name@, label@, line.label@)
                    &&& record.values@ == line.y@
                    &&& record.unit == line.unit
                    &&& record.timestamps@ == line.x@
                },
                Err(error) => refused_with(error, first_unfit_number(line.x@)),
            },
    {
        let mut timestamps: Vec<u64> = Vec::new();
        let mut i: usize = 0;
        while i < line.x.len()
            invariant
                i <= line.x@.len(),
                first_unfit_number(line.x@.take(i as int)) is None,
                timestamps@ == line.x@.take(i as int),
            decreases line.x@.len() - i,
        {
            let time = line.x[i];
            proof {
                assert(line.x@.take(i + 1).drop_last() =~= line.x@.take(i as int));
                assert(line.x@.take(i + 1).last() == time);
            }
            if !is_exact_double(time) {
                proof {
                    lemma_unfit_number_stays(line.x@, i + 1);
                }
                return Err(Error::Cast { value: time as u128 });
            }
            timestamps.push(time);
            assert(timestamps@ =~= line.x@.take(i + 1));
            i += 1;
        }
        assert(line.x@.take(i as int) =~= line.x@);
        let key_label = if label.is_empty() {
            None
        } else {
            Some((String::from_str(label), line.label.clone()))
        };
        let metric = MetricKey { name: String::from_str(name), label: key_label };
        Ok(VictoriaMetric { metric, values: line.y.clone(), unit: line.unit, timestamps })
    }
}

/// A number found unfit among the first `count` numbers is the first unfit
/// number of the whole list.
proof fn lemma_unfit_number_stays(numbers: Seq<u64>, count: int)
    requires
        0 <= count <= numbers.len(),
        first_unfit_number(numbers.take(count)) is Some,
    ensures
        first_unfit_number(numbers) == first_unfit_number(numbers.take(count)),
    decreases numbers.len() - count,
{
    if count < numbers.len() {
        assert(numbers.take(count + 1).drop_last() =~= numbers.take(count));
        lemma_unfit_number_stays(numbers, count + 1);
    } else {
        assert(numbers.take(count) =~= numbers);
    }
}

/// Whether `record` is the metric record of `line` under `name` and `label`.
pub open spec fn is_record_of(
    record: VictoriaMetric,
    name: Seq<char>,
    label: Seq<char>,
    line: Line,
) -> bool {
    &&& is_metric_key(record.metric, name, label, line.label@)
    &&& record.values@ == line.y@
    &&& record.unit == line.unit
    &&& record.timestamps@ == line.x@
}

/// Whether `error` is the refusal of the number, where there is one.
pub open spec fn refused_with(error: Error, number: Option<u64>) -> bool {
    match number {
        Some(unfit) => error == (Error::Cast { value: unfit as u128 }),
        None => false,
    }
}

/// The first timestamp among the first `count` lines that no double holds exactly.
pub open spec fn first_unfit_timestamp(lines: Seq<Line>, count: int) -> Option<u64>
    decreases count,
{
    if count <= 0 {
        None
    } else {
        match first_unfit_timestamp(lines, count - 1) {
            Some(number) => Some(number),
            None => first_unfit_number(lines[count - 1].x@),
        }
    }
}

/// An unfit timestamp found among the first `count` lines is the first of all lines.
proof fn lemma_unfit_timestamp_stays(lines: Seq<Line>, count: int, all: int)
    requires
        0 <= count <= all,
        first_unfit_timestamp(lines, count) is Some,
    ensures
        first_unfit_timestamp(lines, all) == first_unfit_timestamp(lines, count),
    decreases all - count,
{
    if count < all {
        lemma_unfit_timestamp_stays(lines, count, all - 1);
    }
}

/// One metric record for each chart line, all under `name`, each labelled
/// `label` with its line's label. A timestamp that no double holds exactly is
/// refused, the first of the first such line.
pub fn records_of(name: &str, label: &str, lines: &Vec<Line>) -> (outcome: Result<
    Vec<VictoriaMetric>,
    Error,
>)
    ensures
        match outcome {
            Ok(records) => {
                &&& first_unfit_timestamp(lines@, lines@.len() as int) is None
                &&& records@.len() == lines@.len()
                &&& forall|place: int|
                    0 <= place < records@.len() ==> is_record_of(
                        #[trigger] records@[place],
                        name@,
                        label@,
                        lines@[place],
                    )
            },
            Err(error) => refused_with(error, first_unfit_timestamp(lines@, lines@.len() as int)),
        },
{
    let mut records: Vec<VictoriaMetric> = Vec::new();
    let mut i: usize = 0;
    while i < lines.len()
        invariant
            i <= lines@.len(),
            first_unfit_timestamp(lines@, i as int) is None,
            records@.len() == i,
            forall|place: int|
                0 <= place < i ==> is_record_of(
                    #[trigger] records@[place],
                    name@,
                    label@,
                    lines@[place],
                ),
        decreases lines@.len() - i,
    {
        let record = match VictoriaMetric::try_new(name, label, &lines[i]) {
            Ok(record) => record,
            Err(error) => {
                proof {
                    lemma_unfit_timestamp_stays(lines@, i + 1, lines@.len() as int);
                }
                return Err(error);
            },
        };
        records.push(record);
        i += 1;
    }
    Ok(records)
}

/// Whether `line` is the chart line of the history `history` under `label`: its
/// places read back in strictly ascending order of the timestamps, and they
/// hold the days of the history, each with its value, and no other.
pub open spec fn is_line_of(line: LineView, label: Seq<char>, history: Map<u64, u64>, unit: Unit)
    -> bool {
    &&& line.label == label
    &&& line.unit == unit
    &&& line.x.len() == line.y.len()
    &&& ascending(line_points(line))
    &&& to_map(line_points(line)) == history
}

/// The label of a series: its name, or, for traffic sources, its source label.
pub open spec fn label_of(name: Seq<char>, sources: bool) -> Seq<char> {
    if sources && name.len() == 0 {
        "direct"@
    } else {
        name
    }
}

/// The first number among the first `count` series that no double holds exactly.
pub open spec fn first_unfit_series(series: &Collection, count: int) -> Option<u64>
    decreases count,
{
    if count <= 0 {
        None
    } else {
        match first_unfit_series(series, count - 1) {
            Some(number) => Some(number),
            None => first_unfit(series.points_at(count - 1)),
        }
    }
}

/// An unfit number found among the first `count` series is the first of all series.
proof fn lemma_unfit_series_stays(series: &Collection, count: int, all: int)
    requires
        0 <= count <= all,
        first_unfit_series(series, count) is Some,
    ensures
        first_unfit_series(series, all) == first_unfit_series(series, count),
    decreases all - count,
{
    if count < all {
        lemma_unfit_series_stays(series, count, all - 1);
    }
}

/// One chart line for each series of a collection, in the order of the series,
/// each labelled with its name, or, where `sources` is set, with its source
/// label. A number that no double holds exactly is refused, the first of the
/// first such series.
pub fn lines_of(series: &Collection, unit: Unit, sources: bool) -> (outcome: Result<
    Vec<Line>,
    Error,
>)
    ensures
        match outcome {
            Ok(lines) => {
                &&& first_unfit_series(series, series@.len() as int) is None
                &&& lines@.len() == series@.len()
                &&& forall|place: int|
                    0 <= place < lines@.len() ==> (#[trigger] lines@[place])@ == chart_line(
                        label_of(series@[place].0, sources),
                        series.points_at(place),
                        unit,
                    ) && is_line_of(
                        lines@[place]@,
                        label_of(series@[place].0, sources),
                        series@[place].1,
                        unit,
                    )
            },
            Err(error) => refused_with(error, first_unfit_series(series, series@.len() as int)),
        },
{
    let mut lines: Vec<Line> = Vec::new();
    let mut i: usize = 0;
    while i < series.len()
        invariant
            i <= series@.len(),
            first_unfit_series(series, i as int) is None,
            lines@.len() == i,
            forall|place: int|
                0 <= place < i ==> (#[trigger] lines@[place])@ == chart_line(
                    label_of(series@[place].0, sources),
                    series.points_at(place),
                    unit,
                ) && is_line_of(
                    lines@[place]@,
                    label_of(series@[place].0, sources),
                    series@[place].1,
                    unit,
                ),
        decreases series@.len() - i,
    {
        let name = series.name(i).as_str();
        let made = if sources {
            let label = source_label(name);
            Line::try_new(label.as_str(), series.store(i), unit)
        } else {
            Line::try_new(name, series.store(i), unit)
        };
        let line = match made {
            Ok(line) => line,
            Err(error) => {
                proof {
                    lemma_unfit_series_stays(series, i + 1, series@.len() as int);
                }
                return Err(error);
            },
        };
        lines.push(line);
        i += 1;
    }
    Ok(lines)
}

} // verus!
