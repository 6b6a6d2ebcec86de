//! Absolute counts from snapshots to exports: settled days are merged with a
//! check for conflicts, the sources are dated by the snapshot's current day,
//! and the histories become chart lines and metric records.

use crate::collection::{history_of, with_series, Collection};
use crate::error::{Error, Section};
use crate::merge::{merge_snapshot, merged, reports_conflict, settled};
use crate::netlify::{MetricsResult, PathItemResult};
use crate::process::{
    chart_line, first_unfit, first_unfit_number, first_unfit_series, first_unfit_timestamp,
    is_line_of, is_record_of, label_of, lines_of, records_of, refused_with, Line, Unit,
    VictoriaMetric,
};
use crate::rolling::{avg_7day, has_window, reports_overflow, totals_fit, window_total};
use crate::series::Store;
use vstd::prelude::*;
use vstd::string::StringExecFns;

verus! {

/// The histories of one site.
pub struct Data {
    pub pageviews: Store,
    pub pageviews_7day: Store,
    pub visitors: Store,
    pub visitors_7day: Store,
    pub sources: Collection,
}

/// Why a snapshot of absolute counts is refused.
pub enum Refusal {
    Missing(Section),
    Empty(Section),
    Conflict(Section),
}

/// Why the snapshot is refused against the histories, if it is.
pub open spec fn refusal(
    pageviews: Map<u64, u64>,
    visitors: Map<u64, u64>,
    snapshot: MetricsResult,
) -> Option<Refusal> {
    match snapshot.pageviews {
        None => Some(Refusal::Missing(Section::Pageviews)),
        Some(views) => if views.data@.len() == 0 {
            Some(Refusal::Empty(Section::Pageviews))
        } else if merged(pageviews, settled(views.data@)) is None {
            Some(Refusal::Conflict(Section::Pageviews))
        } else {
            match snapshot.visitors {
                None => Some(Refusal::Missing(Section::Visitors)),
                Some(visits) => if visits.data@.len() == 0 {
                    Some(Refusal::Empty(Section::Visitors))
                } else if merged(visitors, settled(visits.data@)) is None {
                    Some(Refusal::Conflict(Section::Visitors))
                } else if snapshot.sources is None {
                    Some(Refusal::Missing(Section::Sources))
                } else {
                    None
                },
            }
        },
    }
}

/// The sources after the counts of one snapshot are recorded under its current
/// day: each path gets the count at that day, a later count for the same path
/// replacing an earlier one.
pub open spec fn recorded(
    entries: Seq<(Seq<char>, Map<u64, u64>)>,
    items: Seq<PathItemResult>,
    current: u64,
) -> Seq<(Seq<char>, Map<u64, u64>)>
    decreases items.len(),
{
    if items.len() == 0 {
        entries
    } else {
        let earlier = recorded(entries, items.drop_last(), current);
        let item = items.last();
        with_series(earlier, item.path@, history_of(earlier, item.path@).insert(current, item.count))
    }
}

/// Whether `error` reports `refusal` of `snapshot` read from `file`.
pub open spec fn reports_refusal(
    error: Error,
    refusal: Refusal,
    pageviews: Map<u64, u64>,
    visitors: Map<u64, u64>,
    snapshot: MetricsResult,
    file: Seq<char>,
) -> bool {
    match refusal {
        Refusal::Missing(section) => error matches Error::MissingSection { section: s, file: f }
            && s == section && f@ == file,
        Refusal::Empty(section) => error matches Error::EmptySection { section: s, file: f } && s
            == section && f@ == file,
        Refusal::Conflict(section) => if section == Section::Pageviews {
            reports_conflict(
                error,
                pageviews,
                settled(snapshot.pageviews->Some_0.data@),
                "pageviews"@,
                file,
            )
        } else {
            reports_conflict(
                error,
                visitors,
                settled(snapshot.visitors->Some_0.data@),
                "visitors"@,
                file,
            )
        },
    }
}

impl Data {
    /// Histories without any point.
    pub fn new() -> (data: Data)
        ensures
            data.pageviews@ == Map::<u64, u64>::empty(),
            data.pageviews_7day@ == Map::<u64, u64>::empty(),
            data.visitors@ == Map::<u64, u64>::empty(),
            data.visitors_7day@ == Map::<u64, u64>::empty(),
            data.sources@ == Seq::<(Seq<char>, Map<u64, u64>)>::empty(),
    {
        Data {
            pageviews: Store::new(),
            pageviews_7day: Store::new(),
            visitors: Store::new(),
            visitors_7day: Store::new(),
            sources: Collection::new(),
        }
    }
}

/// Records the counts of one snapshot under its current day.
pub fn record_sources(sources: &mut Collection, items: &Vec<PathItemResult>, current: u64)
    ensures
        final(sources)@ == recorded(old(sources)@, items@, current),
{
    let mut i: usize = 0;
    while i < items.len()
        invariant
            i <= items@.len(),
            sources@ == recorded(old(sources)@, items@.take(i as int), current),
        decreases items@.len() - i,
    {
        proof {
            assert(items@.take(i + 1).drop_last() =~= items@.take(i as int));
            assert(items@.take(i + 1).last() == items@[i as int]);
        }
        let path = items[i].path.as_str();
        let mut store = match sources.position(path) {
            Some(at) => sources.store(at).duplicate(),
            None => Store::new(),
        };
        store.insert(current, items[i].count);
        sources.put(path, store);
        i += 1;
    }
    assert(items@.take(i as int) =~= items@);
}

/// Takes one snapshot into the histories, all of it or nothing. The settled
/// days of page views and of visitors are merged; the last point of the page
/// views is the current day, which is not merged and dates the counts of the
/// sources. A missing or empty section, or a settled day with another value
/// than before, refuses the snapshot and leaves the histories as they were.
pub fn ingest(data: &mut Data, snapshot: &MetricsResult, file: &str) -> (outcome: Result<(), Error>)
    ensures
        final(data).pageviews_7day == old(data).pageviews_7day,
        final(data).visitors_7day == old(data).visitors_7day,
        match refusal(old(data).pageviews@, old(data).visitors@, *snapshot) {
            None => {
                &&& outcome is Ok
                &&& Some(final(data).pageviews@) == merged(
                    old(data).pageviews@,
                    settled(snapshot.pageviews->Some_0.data@),
                )
                &&& Some(final(data).visitors@) == merged(
                    old(data).visitors@,
                    settled(snapshot.visitors->Some_0.data@),
                )
                &&& final(data).sources@ == recorded(
                    old(data).sources@,
                    snapshot.sources->Some_0.data@,
                    snapshot.pageviews->Some_0.data@.last().0,
                )
            },
            Some(reason) => {
                &&& outcome matches Err(error) && reports_refusal(
                    error,
                    reason,
                    old(data).pageviews@,
                    old(data).visitors@,
                    *snapshot,
                    file@,
                )
                &&& final(data).pageviews@ == old(data).pageviews@
                &&& final(data).visitors@ == old(data).visitors@
                &&& final(data).sources@ == old(data).sources@
            },
        },
{
    let views = match &snapshot.pageviews {
        Some(views) => views,
        None => {
            return Err(
                Error::MissingSection { section: Section::Pageviews, file: String::from_str(file) },
            );
        },
    };
    let mut pageviews = data.pageviews.duplicate();
    let current = match merge_snapshot(
        &mut pageviews,
        &views.data,
        Section::Pageviews,
        "pageviews",
        file,
    ) {
        Ok(current) => current,
        Err(error) => {
            return Err(error);
        },
    };
    let visits = match &snapshot.visitors {
        Some(visits) => visits,
        None => {
            return Err(
                Error::MissingSection { section: Section::Visitors, file: String::from_str(file) },
            );
        },
    };
    let mut visitors = data.visitors.duplicate();
    match merge_snapshot(&mut visitors, &visits.data, Section::Visitors, "visitors", file) {
        Ok(_) => {},
        Err(error) => {
            return Err(error);
        },
    }
    let paths = match &snapshot.sources {
        Some(paths) => paths,
        None => {
            return Err(
                Error::MissingSection { section: Section::Sources, file: String::from_str(file) },
            );
        },
    };
    record_sources(&mut data.sources, &paths.data, current);
    data.pageviews = pageviews;
    data.visitors = visitors;
    Ok(())
}

/// Sets the seven-day totals of page views and of visitors from their
/// histories, both or neither.
pub fn averages(data: &mut Data) -> (outcome: Result<(), Error>)
    ensures
        final(data).pageviews == old(data).pageviews,
        final(data).visitors == old(data).visitors,
        final(data).sources == old(data).sources,
        match outcome {
            Ok(()) => {
                &&& totals_fit(old(data).pageviews@)
                &&& totals_fit(old(data).visitors@)
                &&& is_totals_of(final(data).pageviews_7day@, old(data).pageviews@)
                &&& is_totals_of(final(data).visitors_7day@, old(data).visitors@)
            },
            Err(error) => {
                &&& if totals_fit(old(data).pageviews@) {
                    !totals_fit(old(data).visitors@) && reports_overflow(error, old(data).visitors@)
                } else {
                    reports_overflow(error, old(data).pageviews@)
                }
                &&& final(data).pageviews_7day == old(data).pageviews_7day
                &&& final(data).visitors_7day == old(data).visitors_7day
            },
        },
{
    let pageviews = match avg_7day(&data.pageviews) {
        Ok(totals) => totals,
        Err(error) => {
            return Err(error);
        },
    };
    let visitors = match avg_7day(&data.visitors) {
        Ok(totals) => totals,
        Err(error) => {
            return Err(error);
        },
    };
    data.pageviews_7day = pageviews;
    data.visitors_7day = visitors;
    Ok(())
}

/// Whether `totals` holds the seven-day totals of `history`: a point for each
/// day that opens a covered window, and no other.
pub open spec fn is_totals_of(totals: Map<u64, u64>, history: Map<u64, u64>) -> bool {
    &&& forall|start: u64| #![trigger totals.contains_key(start)]
        totals.contains_key(start) <==> has_window(history, start)
    &&& forall|start: u64| #![trigger totals[start]]
        totals.contains_key(start) ==> totals[start] == window_total(history, start)
}

/// The chart lines of one site, group by group.
pub struct Graphs {
    pub pageviews: Line,
    pub pageviews_7day: Line,
    pub visitors: Line,
    pub visitors_7day: Line,
    pub sources: Vec<Line>,
}

/// The first of two numbers that is there.
pub open spec fn or_else(first: Option<u64>, second: Option<u64>) -> Option<u64> {
    if first is Some {
        first
    } else {
        second
    }
}

/// The first number of the histories that no double holds exactly, in the order
/// in which the lines are made.
pub open spec fn first_unfit_of(data: &Data) -> Option<u64> {
    or_else(
        first_unfit(data.pageviews.ordered()),
        or_else(
            first_unfit(data.pageviews_7day.ordered()),
            or_else(
                first_unfit(data.visitors.ordered()),
                or_else(
                    first_unfit(data.visitors_7day.ordered()),
                    first_unfit_series(&data.sources, data.sources@.len() as int),
                ),
            ),
        ),
    )
}

/// The chart lines of the histories: page views and visitors with their
/// seven-day averages, and one line for each source, an empty path labelled
/// `direct`. A number that no double holds exactly is refused.
pub fn graphs(data: &Data) -> (outcome: Result<Graphs, Error>)
    ensures
        match outcome {
            Ok(charts) => {
                &&& first_unfit_of(data) is None
                &&& charts.pageviews@ == chart_line(
                    "Pageviews"@,
                    data.pageviews.ordered(),
                    Unit::Ones,
                )
                &&& charts.pageviews_7day@ == chart_line(
                    "7 day avg"@,
                    data.pageviews_7day.ordered(),
                    Unit::Sevenths,
                )
                &&& charts.visitors@ == chart_line("Visitors"@, data.visitors.ordered(), Unit::Ones)
                &&& charts.visitors_7day@ == chart_line(
                    "7 day avg"@,
                    data.visitors_7day.ordered(),
                    Unit::Sevenths,
                )
                &&& is_line_of(charts.pageviews@, "Pageviews"@, data.pageviews@, Unit::Ones)
                &&& is_line_of(
                    charts.pageviews_7day@,
                    "7 day avg"@,
                    data.pageviews_7day@,
                    Unit::Sevenths,
                )
                &&& is_line_of(charts.visitors@, "Visitors"@, data.visitors@, Unit::Ones)
                &&& is_line_of(
                    charts.visitors_7day@,
                    "7 day avg"@,
                    data.visitors_7day@,
                    Unit::Sevenths,
                )
                &&& charts.sources@.len() == data.sources@.len()
                &&& forall|place: int|
                    0 <= place < charts.sources@.len() ==> (#[trigger] charts.sources@[place])@
                        == chart_line(
                        label_of(data.sources@[place].0, true),
                        data.sources.points_at(place),
                        Unit::Ones,
                    ) && is_line_of(
                        charts.sources@[place]@,
                        label_of(data.sources@[place].0, true),
                        data.sources@[place].1,
                        Unit::Ones,
                    )
            },
            Err(error) => refused_with(error, first_unfit_of(data)),
        },
{
    let pageviews = match Line::try_new("Pageviews", &data.pageviews, Unit::Ones) {
        Ok(line) => line,
        Err(error) => {
            return Err(error);
        },
    };
    let pageviews_7day = match Line::try_new("7 day avg", &data.pageviews_7day, Unit::Sevenths) {
        Ok(line) => line,
        Err(error) => {
            return Err(error);
        },
    };
    let visitors = match Line::try_new("Visitors", &data.visitors, Unit::Ones) {
        Ok(line) => line,
        Err(error) => {
            return Err(error);
        },
    };
    let visitors_7day = match Line::try_new("7 day avg", &data.visitors_7day, Unit::Sevenths) {
        Ok(line) => line,
        Err(error) => {
            return Err(error);
        },
    };
    let sources = match lines_of(&data.sources, Unit::Ones, true) {
        Ok(lines) => lines,
        Err(error) => {
            return Err(error);
        },
    };
    Ok(Graphs { pageviews, pageviews_7day, visitors, visitors_7day, sources })
}

/// The first timestamp of the exported lines that no double holds exactly.
pub open spec fn first_unfit_exported(charts: &Graphs) -> Option<u64> {
    or_else(
        first_unfit_number(charts.pageviews.x@),
        or_else(
            first_unfit_number(charts.visitors.x@),
            first_unfit_timestamp(charts.sources@, charts.sources@.len() as int),
        ),
    )
}

/// The metric records of one site: page views, visitors, and one record for
/// each source, labelled with the source. The averages are not exported.
pub fn victoria_metrics(charts: &Graphs) -> (outcome: Result<Vec<VictoriaMetric>, Error>)
    ensures
        match outcome {
            Ok(records) => {
                &&& first_unfit_exported(charts) is None
                &&& records@.len() == charts.sources@.len() + 2
                &&& is_record_of(records@[0], "netlify.pageviews"@, ""@, charts.pageviews)
                &&& is_record_of(records@[1], "netlify.visitors"@, ""@, charts.visitors)
                &&& forall|place: int|
                    0 <= place < charts.sources@.len() ==> is_record_of(
                        #[trigger] records@[place + 2],
                        "netlify.sources"@,
                        "source"@,
                        charts.sources@[place],
                    )
            },
            Err(error) => refused_with(error, first_unfit_exported(charts)),
        },
{
    let pageviews = match VictoriaMetric::try_new("netlify.pageviews", "", &charts.pageviews) {
        Ok(record) => record,
        Err(error) => {
            return Err(error);
        },
    };
    let visitors = match VictoriaMetric::try_new("netlify.visitors", "", &charts.visitors) {
        Ok(record) => record,
        Err(error) => {
            return Err(error);
        },
    };
    let mut sources = match records_of("netlify.sources", "source", &charts.sources) {
        Ok(records) => records,
        Err(error) => {
            return Err(error);
        },
    };
    let mut records: Vec<VictoriaMetric> = Vec::new();
    records.push(pageviews);
    records.push(visitors);
    let ghost labelled = sources@;
    records.append(&mut sources);
    assert forall|place: int| 0 <= place < charts.sources@.len() implies is_record_of(
        #[trigger] records@[place + 2],
        "netlify.sources"@,
        "source"@,
        charts.sources@[place],
    ) by {
        assert(records@[place + 2] == labelled[place]);
    }
    Ok(records)
}

} // verus!
