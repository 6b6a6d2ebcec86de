//! The conflict-checked merger: a settled day keeps the value it was first
//! recorded with, and a different value for it stops the run.

use crate::date::{is_date_of, to_date};
use crate::error::{Error, Section};
use crate::series::Store;
use vstd::prelude::*;
use vstd::string::StringExecFns;

verus! {

/// Whether `history` records `time` with another value than `value`.
pub open spec fn conflicts(history: Map<u64, u64>, time: u64, value: u64) -> bool {
    history.contains_key(time) && history[time] != value
}

/// The history after one observation, unless the observation conflicts with it.
pub open spec fn merged_point(history: Map<u64, u64>, time: u64, value: u64) -> Option<
    Map<u64, u64>,
> {
    if conflicts(history, time, value) {
        None
    } else {
        Some(history.insert(time, value))
    }
}

/// The history after the observations `points`, taken one after the other, unless
/// one of them conflicts with what is recorded when its turn comes.
pub open spec fn merged(history: Map<u64, u64>, points: Seq<(u64, u64)>) -> Option<
    Map<u64, u64>,
>
    decreases points.len(),
{
    if points.len() == 0 {
        Some(history)
    } else {
        match merged(history, points.drop_last()) {
            Some(earlier) => merged_point(earlier, points.last().0, points.last().1),
            None => None,
        }
    }
}

/// The place of the first observation of `points` that conflicts, where one does.
pub open spec fn first_conflict(history: Map<u64, u64>, points: Seq<(u64, u64)>) -> int
    decreases points.len(),
{
    if points.len() == 0 {
        0
    } else if merged(history, points.drop_last()) is None {
        first_conflict(history, points.drop_last())
    } else {
        points.len() - 1
    }
}

/// The settled days of a snapshot: all its points but the last, which is the
/// current day and still changes.
pub open spec fn settled(snapshot: Seq<(u64, u64)>) -> Seq<(u64, u64)> {
    if snapshot.len() == 0 {
        snapshot
    } else {
        snapshot.drop_last()
    }
}

/// One observation that the history contradicts.
#[derive(Debug, Clone, Copy, PartialEq, Eq, Structural)]
pub struct Conflict {
    pub time: u64,
    pub previous: u64,
    pub found: u64,
}

impl Store {
    /// Takes one observation into the store: a new day is recorded, a day that is
    /// recorded with the same value changes nothing, and a day that is recorded
    /// with another value is refused and the store stays as it was.
    pub fn merge(&mut self, time: u64, value: u64) -> (outcome: Result<(), Conflict>)
        ensures
            match outcome {
                Ok(()) => merged_point(old(self)@, time, value) == Some(final(self)@),
                Err(conflict) => {
                    &&& conflicts(old(self)@, time, value)
                    &&& conflict == (Conflict { time, previous: old(self)@[time], found: value })
                    &&& final(self)@ == old(self)@
                    &&& final(self).ordered() == old(self).ordered()
                },
            },
    {
        match self.get(time) {
            Some(previous) => {
                if previous == value {
                    assert(self@.insert(time, value) =~= self@);
                    Ok(())
                } else {
                    Err(Conflict { time, previous, found: value })
                }
            },
            None => {
                self.insert(time, value);
                Ok(())
            },
        }
    }
}

/// Whether `error` reports the first conflict between `history` and `points`, for
/// the series `series` read from `file`.
pub open spec fn reports_conflict(
    error: Error,
    history: Map<u64, u64>,
    points: Seq<(u64, u64)>,
    series: Seq<char>,
    file: Seq<char>,
) -> bool {
    let at = first_conflict(history, points);
    let earlier = merged(history, points.take(at))->Some_0;
    match error {
        Error::DataConflict { series: s, time, date, previous, found, file: f } => {
            &&& s@ == series
            &&& f@ == file
            &&& time == points[at].0
            &&& is_date_of(date, time)
            &&& previous == earlier[time]
            &&& found == points[at].1
        },
        _ => false,
    }
}

/// Takes the first `count` observations of `points` into the store, all or none.
fn merge_first(
    store: &mut Store,
    points: &Vec<(u64, u64)>,
    count: usize,
    series: &str,
    file: &str,
) -> (outcome: Result<(), Error>)
    requires
        count <= points@.len(),
    ensures
        match outcome {
            Ok(()) => merged(old(store)@, points@.take(count as int)) == Some(final(store)@),
            Err(error) => {
                &&& merged(old(store)@, points@.take(count as int)) is None
                &&& reports_conflict(
                    error,
                    old(store)@,
                    points@.take(count as int),
                    series@,
                    file@,
                )
                &&& final(store)@ == old(store)@
                &&& final(store).ordered() == old(store).ordered()
            },
        },
{
    let mut work = store.duplicate();
    let ghost history = store@;
    let ghost taken = points@.take(count as int);
    let mut i: usize = 0;
    while i < count
        invariant
            i <= count <= points@.len(),
            taken == points@.take(count as int),
            merged(history, taken.take(i as int)) == Some(work@),
            history == store@,
            *store == *old(store),
        decreases count - i,
    {
        let time = points[i].0;
        let value = points[i].1;
        proof {
            assert(taken.take(i + 1).drop_last() =~= taken.take(i as int));
            assert(taken.take(i + 1).last() == points@[i as int]);
        }
        match work.merge(time, value) {
            Ok(()) => {},
            Err(conflict) => {
                proof {
                    lemma_conflict_found(history, taken, i as int);
                }
                return Err(
                    Error::DataConflict {
                        series: String::from_str(series),
                        time,
                        date: to_date(time),
                        previous: conflict.previous,
                        found: value,
                        file: String::from_str(file),
                    },
                );
            },
        }
        i += 1;
    }
    assert(taken.take(count as int) =~= taken);
    *store = work;
    Ok(())
}

/// Takes the observations `points` into the store, all or none: if one of them
/// conflicts, the store stays as it was and the error names the first conflict.
pub fn merge_points(
    store: &mut Store,
    points: &Vec<(u64, u64)>,
    series: &str,
    file: &str,
) -> (outcome: Result<(), Error>)
    ensures
        match outcome {
            Ok(()) => merged(old(store)@, points@) == Some(final(store)@),
            Err(error) => {
                &&& merged(old(store)@, points@) is None
                &&& reports_conflict(error, old(store)@, points@, series@, file@)
                &&& final(store)@ == old(store)@
                &&& final(store).ordered() == old(store).ordered()
            },
        },
{
    assert(points@.take(points@.len() as int) =~= points@);
    merge_first(store, points, points.len(), series, file)
}

/// Where the observations before place `at` merge and the one at `at` conflicts,
/// the whole list does not merge and its first conflict is at `at`.
proof fn lemma_conflict_found(history: Map<u64, u64>, points: Seq<(u64, u64)>, at: int)
    requires
        0 <= at < points.len(),
        merged(history, points.take(at)) is Some,
        merged(history, points.take(at + 1)) is None,
    ensures
        merged(history, points) is None,
        first_conflict(history, points) == at,
    decreases points.len(),
{
    if points.len() == at + 1 {
        assert(points.take(at + 1) =~= points);
        assert(points.drop_last() =~= points.take(at));
    } else {
        let shorter = points.drop_last();
        assert(shorter.take(at) =~= points.take(at));
        assert(shorter.take(at + 1) =~= points.take(at + 1));
        lemma_conflict_found(history, shorter, at);
    }
}

/// Takes the settled days of a snapshot into the store and returns the snapshot's
/// current day, which is the time of its last point and is not merged. An empty
/// snapshot is refused; on any failure the store stays as it was.
pub fn merge_snapshot(
    store: &mut Store,
    snapshot: &Vec<(u64, u64)>,
    section: Section,
    series: &str,
    file: &str,
) -> (outcome: Result<u64, Error>)
    ensures
        match outcome {
            Ok(current) => {
                &&& snapshot@.len() > 0
                &&& current == snapshot@.last().0
                &&& merged(old(store)@, settled(snapshot@)) == Some(final(store)@)
            },
            Err(error) => {
                &&& final(store)@ == old(store)@
                &&& final(store).ordered() == old(store).ordered()
                &&& if snapshot@.len() == 0 {
                    error matches Error::EmptySection { section: s, file: f } && s == section
                        && f@ == file@
                } else {
                    merged(old(store)@, settled(snapshot@)) is None && reports_conflict(
                        error,
                        old(store)@,
                        settled(snapshot@),
                        series@,
                        file@,
                    )
                }
            },
        },
{
    if snapshot.len() == 0 {
        return Err(Error::EmptySection { section, file: String::from_str(file) });
    }
    let last = snapshot.len() - 1;
    let current = snapshot[last].0;
    assert(snapshot@.take(last as int) =~= settled(snapshot@));
    match merge_first(store, snapshot, last, series, file) {
        Ok(()) => Ok(current),
        Err(error) => Err(error),
    }
}

} // verus!
