//! The rolling average: for each day the total of the window of days that
//! starts with it, where the history covers the whole window.

use crate::error::Error;
use crate::series::{ascending, has_time, lemma_point_in_map, place_of, to_map, Store};
use vstd::prelude::*;

verus! {

/// The milliseconds of one day.
pub const MS_PER_DAY: u64 = 86_400_000;

/// The days of one window.
pub const WINDOW_DAYS: u64 = 7;

/// The timestamp `offset` days after `start`.
pub open spec fn day_after(start: u64, offset: int) -> int {
    start + offset * MS_PER_DAY
}

/// Whether the history has a value for each of the `days` days from `start` on.
pub open spec fn covered(data: Map<u64, u64>, start: u64, days: int) -> bool {
    forall|k: int|
        0 <= k < days ==> #[trigger] day_after(start, k) <= u64::MAX && data.contains_key(
            day_after(start, k) as u64,
        )
}

/// The total of the values of the `days` days from `start` on.
pub open spec fn window_sum(data: Map<u64, u64>, start: u64, days: int) -> int
    decreases days,
{
    if days <= 0 {
        0
    } else {
        window_sum(data, start, days - 1) + data[day_after(start, days - 1) as u64]
    }
}

/// Whether `start` opens a window that the history covers wholly.
pub open spec fn has_window(data: Map<u64, u64>, start: u64) -> bool {
    covered(data, start, WINDOW_DAYS as int)
}

/// The total of the window that `start` opens; a seventh of it is the average.
pub open spec fn window_total(data: Map<u64, u64>, start: u64) -> int {
    window_sum(data, start, WINDOW_DAYS as int)
}

/// The total of the window that `start` opens, if the history covers it.
pub fn total_from(data: &Store, start: u64) -> (total: Option<u128>)
    ensures
        total is Some == has_window(data@, start),
        total matches Some(sum) ==> sum == window_total(data@, start),
{
    let mut sum: u128 = 0;
    let mut day: u64 = start;
    let mut k: u64 = 0;
    while k < WINDOW_DAYS
        invariant
            k <= WINDOW_DAYS,
            k < WINDOW_DAYS ==> day == day_after(start, k as int),
            covered(data@, start, k as int),
            sum == window_sum(data@, start, k as int),
            sum <= k * u64::MAX,
        decreases WINDOW_DAYS - k,
    {
        match data.get(day) {
            Some(value) => {
                sum = sum + value as u128;
            },
            None => {
                assert(!has_window(data@, start)) by {
                    assert(day_after(start, k as int) == day);
                }
                return None;
            },
        }
        k += 1;
        if k < WINDOW_DAYS {
            match day.checked_add(MS_PER_DAY) {
                Some(next) => {
                    day = next;
                },
                None => {
                    assert(!has_window(data@, start)) by {
                        assert(day_after(start, k as int) > u64::MAX);
                    }
                    return None;
                },
            }
        }
    }
    Some(sum)
}

/// Whether every window of the history has a total that fits a `u64`.
pub open spec fn totals_fit(data: Map<u64, u64>) -> bool {
    forall|start: u64| has_window(data, start) ==> window_total(data, start) <= u64::MAX
}

/// The first day whose window has a total beyond a `u64`, where there is one.
pub open spec fn overflows_first_at(data: Map<u64, u64>, start: u64) -> bool {
    &&& has_window(data, start)
    &&& window_total(data, start) > u64::MAX
    &&& forall|earlier: u64|
        earlier < start && has_window(data, earlier) ==> window_total(data, earlier) <= u64::MAX
}

/// Whether `error` reports the total of the first window that is beyond `u64`.
pub open spec fn reports_overflow(error: Error, data: Map<u64, u64>) -> bool {
    exists|start: u64|
        overflows_first_at(data, start) && error == (Error::Cast {
            value: window_total(data, start) as u128,
        })
}

/// The seven-day totals of a history of daily values. The result has a point at
/// a day exactly when the history has values for that day and the six days after
/// it, and the point is the total of those seven values (seven times their
/// average). A window that misses a day gives no point. A total beyond `u64` is
/// refused with the total of the first such window.
pub fn avg_7day(data: &Store) -> (outcome: Result<Store, Error>)
    ensures
        match outcome {
            Ok(totals) => {
                &&& totals_fit(data@)
                &&& forall|start: u64| totals@.contains_key(start) <==> has_window(data@, start)
                &&& forall|start: u64|
                    totals@.contains_key(start) ==> totals@[start] == window_total(data@, start)
            },
            Err(error) => !totals_fit(data@) && reports_overflow(error, data@),
        },
{
    let list = data.points();
    let mut totals = Store::new();
    let mut i: usize = 0;
    while i < list.len()
        invariant
            i <= list@.len(),
            ascending(list@),
            data@ == to_map(list@),
            forall|start: u64|
                totals@.contains_key(start) <==> has_window(data@, start) && has_time(
                    list@.take(i as int),
                    start,
                ),
            forall|start: u64|
                totals@.contains_key(start) ==> totals@[start] == window_total(data@, start),
            forall|start: u64|
                has_window(data@, start) && has_time(list@.take(i as int), start)
                    ==> window_total(data@, start) <= u64::MAX,
        decreases list@.len() - i,
    {
        let start = list[i].0;
        let ghost before = list@.take(i as int);
        let ghost after = list@.take(i + 1);
        proof {
            assert(after =~= before.push(list@[i as int]));
            assert forall|time: u64| has_time(after, time) == (has_time(before, time) || time
                == start) by {
                if has_time(before, time) {
                    let j = place_of(before, time);
                    assert(after[j].0 == time);
                }
                if time == start {
                    assert(after[i as int].0 == time);
                }
                if has_time(after, time) {
                    let j = place_of(after, time);
                    if j < i {
                        assert(before[j].0 == time);
                    }
                }
            }
        }
        match total_from(data, start) {
            Some(sum) => {
                if sum > u64::MAX as u128 {
                    proof {
                        assert forall|earlier: u64|
                            earlier < start && has_window(data@, earlier) implies window_total(
                            data@,
                            earlier,
                        ) <= u64::MAX by {
                            lemma_window_starts_in_history(list@, earlier);
                            let j = place_of(list@, earlier);
                            if j >= i {
                                assert(list@[i as int].0 <= list@[j].0);
                            }
                            assert(before[j].0 == earlier);
                        }
                        assert(overflows_first_at(data@, start));
                    }
                    return Err(Error::Cast { value: sum });
                }
                totals.insert(start, sum as u64);
            },
            None => {},
        }
        i += 1;
    }
    proof {
        assert(list@.take(i as int) =~= list@);
        assert forall|start: u64| has_window(data@, start) implies has_time(list@, start) by {
            lemma_window_starts_in_history(list@, start);
        }
    }
    Ok(totals)
}

/// A day that opens a covered window is itself a day of the history.
proof fn lemma_window_starts_in_history(points: Seq<(u64, u64)>, start: u64)
    requires
        has_window(to_map(points), start),
    ensures
        has_time(points, start),
        0 <= place_of(points, start) < points.len(),
        points[place_of(points, start)].0 == start,
{
    assert(day_after(start, 0) == start);
    assert(to_map(points).contains_key(day_after(start, 0) as u64));
}

/// The days of a covered window stand in the history one after the other, so a
/// history covers `days` days from `start` only if it has that many points.
proof fn lemma_window_needs_points(points: Seq<(u64, u64)>, start: u64, days: int)
    requires
        ascending(points),
        days >= 1,
        covered(to_map(points), start, days),
    ensures
        has_time(points, day_after(start, days - 1) as u64),
        place_of(points, day_after(start, days - 1) as u64) >= days - 1,
    decreases days,
{
    let last = day_after(start, days - 1);
    assert(last <= u64::MAX && to_map(points).contains_key(last as u64));
    let at = place_of(points, last as u64);
    assert(0 <= at < points.len() && points[at].0 == last);
    if days > 1 {
        assert(covered(to_map(points), start, days - 1)) by {
            assert forall|k: int| 0 <= k < days - 1 implies #[trigger] day_after(start, k)
                <= u64::MAX && to_map(points).contains_key(day_after(start, k) as u64) by {}
        }
        lemma_window_needs_points(points, start, days - 1);
        let previous = day_after(start, days - 2);
        let before = place_of(points, previous as u64);
        assert(0 <= before < points.len() && points[before].0 == previous);
        assert(previous < last);
        if at <= before {
            if at < before {
                assert(points[at].0 < points[before].0);
            }
        }
    }
}

/// A history of fewer days than a window has gives no total at all.
pub proof fn lemma_short_history_has_no_window(points: Seq<(u64, u64)>, start: u64)
    requires
        ascending(points),
        points.len() < WINDOW_DAYS,
    ensures
        !has_window(to_map(points), start),
{
    if has_window(to_map(points), start) {
        lemma_window_needs_points(points, start, WINDOW_DAYS as int);
        let last = day_after(start, WINDOW_DAYS - 1) as u64;
        lemma_point_in_map(points, place_of(points, last));
    }
}

} // verus!
