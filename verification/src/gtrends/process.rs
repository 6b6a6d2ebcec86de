//! Search interest from snapshots to exports: each snapshot is rescaled to the
//! history keyword by keyword, and the histories become chart lines and metric
//! records.

use crate::collection::{history_of, names_of, place_of_name, with_series, Collection};
use crate::error::Error;
use crate::gtrends::{first_malformed, readings, readings_of, GtrendsData, TimelineDatum};
use crate::normalize::{error_of, normalized, normalized_store, reports_failure, Failure};
use crate::process::{
    chart_line, first_unfit_series, first_unfit_timestamp, is_line_of, is_record_of, lines_of,
    records_of,
    refused_with, Line, Unit, VictoriaMetric,
};
use crate::series::Store;
use vstd::prelude::*;

verus! {

/// Why a snapshot is refused, and at which keyword.
pub enum Rejection {
    /// The day at place `entry` counts for the keyword but cannot be read.
    Malformed { keyword: int, entry: int },
    /// The readings of the keyword cannot be brought to the scale of its history.
    Scale { keyword: int, failure: Failure },
}

/// The keywords of a snapshot as plain text.
pub open spec fn keywords(snapshot: GtrendsData) -> Seq<Seq<char>> {
    Seq::new(snapshot.query@.len(), |i: int| snapshot.query@[i]@)
}

/// The histories after one keyword of a snapshot. A keyword without readings
/// and without a history stays unknown.
pub open spec fn keyword_step(
    entries: Seq<(Seq<char>, Map<u64, u64>)>,
    name: Seq<char>,
    timeline: Seq<TimelineDatum>,
    keyword: int,
) -> Result<Seq<(Seq<char>, Map<u64, u64>)>, Rejection> {
    match readings_of(timeline, keyword) {
        None => Err(Rejection::Malformed { keyword, entry: first_malformed(timeline, keyword) }),
        Some(found) => if found.len() == 0 && place_of_name(names_of(entries), name) is None {
            Ok(entries)
        } else {
            match normalized(history_of(entries, name), found) {
                Ok(history) => Ok(with_series(entries, name, history)),
                Err(failure) => Err(Rejection::Scale { keyword, failure }),
            }
        },
    }
}

/// The histories after the first `count` keywords of a snapshot, or the first
/// rejection.
pub open spec fn ingested(
    entries: Seq<(Seq<char>, Map<u64, u64>)>,
    names: Seq<Seq<char>>,
    timeline: Seq<TimelineDatum>,
    count: int,
) -> Result<Seq<(Seq<char>, Map<u64, u64>)>, Rejection>
    decreases count,
{
    if count <= 0 {
        Ok(entries)
    } else {
        match ingested(entries, names, timeline, count - 1) {
            Ok(earlier) => keyword_step(earlier, names[count - 1], timeline, count - 1),
            Err(rejection) => Err(rejection),
        }
    }
}

/// Whether `error` reports `rejection` for a snapshot with the keywords `names`
/// read from `file`.
pub open spec fn reports_rejection(
    error: Error,
    rejection: Rejection,
    names: Seq<Seq<char>>,
    file: Seq<char>,
) -> bool {
    match rejection {
        Rejection::Malformed { keyword, entry } => error matches Error::Parse {
            entry: e,
            file: f,
        } && e == entry && f@ == file,
        Rejection::Scale { keyword, failure } => reports_failure(
            error,
            failure,
            names[keyword],
            file,
        ),
    }
}

/// Takes a snapshot into the histories, all of it or nothing. Each keyword's
/// readings are rescaled to the history of that keyword and merged into it; a
/// keyword that is new starts its history on the snapshot's own scale.
pub fn ingest(series: &mut Collection, snapshot: &GtrendsData, file: &str) -> (outcome: Result<
    (),
    Error,
>)
    ensures
        match ingested(
            old(series)@,
            keywords(*snapshot),
            snapshot.timeline_data@,
            snapshot.query@.len() as int,
        ) {
            Ok(entries) => outcome is Ok && final(series)@ == entries,
            Err(rejection) => {
                &&& outcome matches Err(error) && reports_rejection(
                    error,
                    rejection,
                    keywords(*snapshot),
                    file@,
                )
                &&& final(series)@ == old(series)@
            },
        },
{
    let mut work = series.duplicate();
    let ghost names = keywords(*snapshot);
    let ghost timeline = snapshot.timeline_data@;
    let mut k: usize = 0;
    while k < snapshot.query.len()
        invariant
            k <= snapshot.query@.len(),
            names == keywords(*snapshot),
            timeline == snapshot.timeline_data@,
            *series == *old(series),
            ingested(old(series)@, names, timeline, k as int) == Ok::<
                Seq<(Seq<char>, Map<u64, u64>)>,
                Rejection,
            >(work@),
        decreases snapshot.query@.len() - k,
    {
        let name = snapshot.query[k].as_str();
        assert(name@ == names[k as int]);
        let found = match readings(snapshot, k, file) {
            Ok(found) => found,
            Err(error) => {
                proof {
                    lemma_rejection_stays(
                        old(series)@,
                        names,
                        timeline,
                        k + 1,
                        snapshot.query@.len() as int,
                    );
                }
                return Err(error);
            },
        };
        let place = work.position(name);
        if found.len() > 0 || place.is_some() {
            let scaled = match place {
                Some(at) => normalized_store(work.store(at), &found),
                None => {
                    let fresh = Store::new();
                    normalized_store(&fresh, &found)
                },
            };
            match scaled {
                Ok(next) => {
                    work.put(name, next);
                },
                Err(failure) => {
                    proof {
                        lemma_rejection_stays(
                            old(series)@,
                            names,
                            timeline,
                            k + 1,
                            snapshot.query@.len() as int,
                        );
                    }
                    return Err(error_of(failure, name, file));
                },
            }
        }
        k += 1;
    }
    *series = work;
    Ok(())
}

/// A rejection met among the first `count` keywords is the rejection of the
/// whole snapshot.
proof fn lemma_rejection_stays(
    entries: Seq<(Seq<char>, Map<u64, u64>)>,
    names: Seq<Seq<char>>,
    timeline: Seq<TimelineDatum>,
    count: int,
    all: int,
)
    requires
        0 <= count <= all,
        ingested(entries, names, timeline, count) is Err,
    ensures
        ingested(entries, names, timeline, all) == ingested(entries, names, timeline, count),
    decreases all - count,
{
    if count < all {
        lemma_rejection_stays(entries, names, timeline, count, all - 1);
    }
}

/// One chart line for each keyword, in the order of the keywords' first
/// appearance, labelled with the keyword and holding its values in billionths.
/// A number that no double holds exactly is refused, the first of the first
/// such series.
pub fn graphs(series: &Collection) -> (outcome: Result<Vec<Line>, Error>)
    ensures
        match outcome {
            Ok(lines) => {
                &&& first_unfit_series(series, series@.len() as int) is None
                &&& lines@.len() == series@.len()
                &&& forall|place: int|
                    0 <= place < lines@.len() ==> (#[trigger] lines@[place])@ == chart_line(
                        series@[place].0,
                        series.points_at(place),
                        Unit::Billionths,
                    ) && is_line_of(
                        lines@[place]@,
                        series@[place].0,
                        series@[place].1,
                        Unit::Billionths,
                    )
            },
            Err(error) => refused_with(error, first_unfit_series(series, series@.len() as int)),
        },
{
    lines_of(series, Unit::Billionths, false)
}

/// One metric record for each chart line, named `gtrends` and labelled with the
/// line's keyword as `search_term`.
pub fn victoria_metrics(lines: &Vec<Line>) -> (outcome: Result<Vec<VictoriaMetric>, Error>)
    ensures
        match outcome {
            Ok(records) => {
                &&& first_unfit_timestamp(lines@, lines@.len() as int) is None
                &&& records@.len() == lines@.len()
                &&& forall|place: int|
                    0 <= place < records@.len() ==> is_record_of(
                        #[trigger] records@[place],
                        "gtrends"@,
                        "search_term"@,
                        lines@[place],
                    )
            },
            Err(error) => refused_with(error, first_unfit_timestamp(lines@, lines@.len() as int)),
        },
{
    records_of("gtrends", "search_term", lines)
}

} // verus!
