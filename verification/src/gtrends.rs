//! Snapshots of search interest: for each day one raw index value per keyword,
//! with flags that say which of them count.

use crate::error::Error;
use crate::text::{parse_u64, parsed_u64};
use vstd::prelude::*;
use vstd::string::StringExecFns;

pub mod process;

verus! {

/// One day of a snapshot. `time` is a number of seconds since the Unix epoch,
/// written in decimal; `value` and `has_data` hold one place for each keyword.
#[derive(Debug, Clone, PartialEq, Eq)]
pub struct TimelineDatum {
    pub has_data: Vec<bool>,
    pub is_partial: Option<bool>,
    pub time: String,
    pub value: Vec<u64>,
}

/// One snapshot: the keywords that were asked for and the days that came back.
#[derive(Debug, Clone, PartialEq, Eq)]
pub struct GtrendsData {
    pub query: Vec<String>,
    pub timeline_data: Vec<TimelineDatum>,
}

/// What one day of a snapshot gives for one keyword.
#[derive(Debug, Clone, Copy, PartialEq, Eq, Structural)]
pub enum Picked {
    /// Nothing: the day is still partial, or the source has no data for the
    /// keyword on that day.
    Skipped,
    /// A reading: the day in milliseconds and the raw value.
    Reading(u64, u64),
    /// The day counts for the keyword but cannot be read.
    Malformed,
}

/// The milliseconds of a time written as seconds, where it is a number and the
/// milliseconds fit.
pub open spec fn time_ms(text: Seq<char>) -> Option<u64> {
    match parsed_u64(text) {
        Some(seconds) => if seconds * 1000 <= u64::MAX {
            Some((seconds * 1000) as u64)
        } else {
            None
        },
        None => None,
    }
}

/// What the day `datum` gives for the keyword at place `keyword`.
pub open spec fn picked(datum: TimelineDatum, keyword: int) -> Picked {
    if datum.is_partial == Some(true) {
        Picked::Skipped
    } else if keyword >= datum.has_data@.len() {
        Picked::Malformed
    } else if !datum.has_data@[keyword] {
        Picked::Skipped
    } else if keyword >= datum.value@.len() {
        Picked::Malformed
    } else {
        match time_ms(datum.time@) {
            Some(ms) => Picked::Reading(ms, datum.value@[keyword]),
            None => Picked::Malformed,
        }
    }
}

/// The readings of a keyword: what its days give, without the skipped ones, or
/// nothing where a day is malformed.
pub open spec fn readings_of(timeline: Seq<TimelineDatum>, keyword: int) -> Option<Seq<(u64, u64)>>
    decreases timeline.len(),
{
    if timeline.len() == 0 {
        Some(Seq::empty())
    } else {
        match readings_of(timeline.drop_last(), keyword) {
            None => None,
            Some(earlier) => match picked(timeline.last(), keyword) {
                Picked::Skipped => Some(earlier),
                Picked::Reading(time, value) => Some(earlier.push((time, value))),
                Picked::Malformed => None,
            },
        }
    }
}

/// The place of the first day that is malformed for the keyword, where one is.
pub open spec fn first_malformed(timeline: Seq<TimelineDatum>, keyword: int) -> int
    decreases timeline.len(),
{
    if timeline.len() == 0 {
        0
    } else if readings_of(timeline.drop_last(), keyword) is None {
        first_malformed(timeline.drop_last(), keyword)
    } else {
        timeline.len() - 1
    }
}

/// What the day `datum` gives for the keyword at place `keyword`.
pub fn pick(datum: &TimelineDatum, keyword: usize) -> (choice: Picked)
    ensures
        choice == picked(*datum, keyword as int),
{
    match datum.is_partial {
        Some(true) => {
            return Picked::Skipped;
        },
        _ => {},
    }
    if keyword >= datum.has_data.len() {
        return Picked::Malformed;
    }
    if !datum.has_data[keyword] {
        return Picked::Skipped;
    }
    if keyword >= datum.value.len() {
        return Picked::Malformed;
    }
    let seconds = match parse_u64(datum.time.as_str()) {
        Some(seconds) => seconds,
        None => {
            return Picked::Malformed;
        },
    };
    match seconds.checked_mul(1000) {
        Some(ms) => Picked::Reading(ms, datum.value[keyword]),
        None => Picked::Malformed,
    }
}

/// The readings of the keyword at place `keyword`, in the order of the days. A
/// day that is partial, or that has no data for the keyword, gives none. A day
/// that counts but cannot be read is refused, the first such day by its place.
pub fn readings(snapshot: &GtrendsData, keyword: usize, file: &str) -> (outcome: Result<
    Vec<(u64, u64)>,
    Error,
>)
    ensures
        match outcome {
            Ok(list) => readings_of(snapshot.timeline_data@, keyword as int) == Some(list@),
            Err(error) => {
                &&& readings_of(snapshot.timeline_data@, keyword as int) is None
                &&& error matches Error::Parse { entry, file: f }
                &&& entry == first_malformed(snapshot.timeline_data@, keyword as int)
                &&& f@ == file@
            },
        },
{
    let timeline = &snapshot.timeline_data;
    let mut list: Vec<(u64, u64)> = Vec::new();
    let mut i: usize = 0;
    while i < timeline.len()
        invariant
            i <= timeline@.len(),
            timeline@ == snapshot.timeline_data@,
            readings_of(timeline@.take(i as int), keyword as int) == Some(list@),
        decreases timeline@.len() - i,
    {
        proof {
            assert(timeline@.take(i + 1).drop_last() =~= timeline@.take(i as int));
            assert(timeline@.take(i + 1).last() == timeline@[i as int]);
        }
        match pick(&timeline[i], keyword) {
            Picked::Skipped => {},
            Picked::Reading(time, value) => {
                list.push((time, value));
            },
            Picked::Malformed => {
                proof {
                    lemma_malformed_found(timeline@, keyword as int, i as int);
                }
                return Err(Error::Parse { entry: i, file: String::from_str(file) });
            },
        }
        i += 1;
    }
    assert(timeline@.take(i as int) =~= timeline@);
    Ok(list)
}

/// Where the days before place `at` can be read and the day at `at` cannot, the
/// whole timeline cannot, and its first malformed day is at `at`.
proof fn lemma_malformed_found(timeline: Seq<TimelineDatum>, keyword: int, at: int)
    requires
        0 <= at < timeline.len(),
        readings_of(timeline.take(at), keyword) is Some,
        readings_of(timeline.take(at + 1), keyword) is None,
    ensures
        readings_of(timeline, keyword) is None,
        first_malformed(timeline, keyword) == at,
    decreases timeline.len(),
{
    if timeline.len() == at + 1 {
        assert(timeline.take(at + 1) =~= timeline);
        assert(timeline.drop_last() =~= timeline.take(at));
    } else {
        let shorter = timeline.drop_last();
        assert(shorter.take(at) =~= timeline.take(at));
        assert(shorter.take(at + 1) =~= timeline.take(at + 1));
        lemma_malformed_found(shorter, keyword, at);
    }
}

/// A day that is skipped for a keyword leaves no trace: the readings of the
/// keyword are those of the timeline without that day. This holds of each
/// keyword by itself, whatever the day gives for the others.
pub proof fn lemma_skipped_day_ignored(timeline: Seq<TimelineDatum>, keyword: int, day: int)
    requires
        0 <= day < timeline.len(),
        picked(timeline[day], keyword) is Skipped,
    ensures
        readings_of(timeline.remove(day), keyword) == readings_of(timeline, keyword),
    decreases timeline.len(),
{
    if day == timeline.len() - 1 {
        assert(timeline.remove(day) =~= timeline.drop_last());
    } else {
        let shorter = timeline.drop_last();
        assert(timeline.remove(day).drop_last() =~= shorter.remove(day));
        assert(timeline.remove(day).last() == timeline.last());
        lemma_skipped_day_ignored(shorter, keyword, day);
    }
}

/// A partial day is skipped for every keyword, and a day without data for a
/// keyword is skipped for that keyword.
pub proof fn lemma_flags_skip(datum: TimelineDatum, keyword: int)
    ensures
        datum.is_partial == Some(true) ==> picked(datum, keyword) is Skipped,
        0 <= keyword < datum.has_data@.len() && !datum.has_data@[keyword] ==> picked(
            datum,
            keyword,
        ) is Skipped,
{
}

} // verus!
