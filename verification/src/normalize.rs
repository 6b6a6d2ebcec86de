//! The overlap normalizer: index values come on a scale of their own with every
//! snapshot, and are brought to the scale of the history by the first day that
//! the snapshot shares with it.
//!
//! The history holds index values in billionths. The factor of a snapshot is the
//! snapshot's value on the shared day over the history's value on that day; to
//! bring a value of the snapshot to the history's scale it is divided by the
//! factor, which leaves the shared day itself as the history has it.

use crate::error::Error;
use crate::series::Store;
use vstd::prelude::*;
use vstd::string::StringExecFns;

verus! {

/// The fixed-point unit of an index value: a raw value of 1 is held as this number.
pub const INDEX_UNIT: u64 = 1_000_000_000;

/// How far, in billionths, a rescaled value may differ from the value that the
/// history has for the same day.
pub const TOLERANCE: u64 = 1_000;

/// The scale of a snapshot against the history: on the shared day the snapshot
/// reports `found` (a raw value) where the history has `recorded` (billionths).
/// The factor is `found * INDEX_UNIT / recorded`.
#[derive(Debug, Clone, Copy, PartialEq, Eq, Structural)]
pub struct Factor {
    pub found: u64,
    pub recorded: u64,
}

/// Why a snapshot cannot be brought to the scale of the history.
#[derive(Debug, Clone, Copy, PartialEq, Eq, Structural)]
pub enum Failure {
    /// The history is not empty and shares no day with the snapshot.
    NoOverlap,
    /// On the day `time` the history has `previous` and the snapshot, rescaled,
    /// has `found`, further apart than the tolerance; or the snapshot's raw value
    /// on the shared day is `found == 0`, which gives no scale.
    Clash { time: u64, previous: u64, found: u64 },
    /// A rescaled value is beyond `u64`.
    Overflow { value: u128 },
}

/// The factor of a snapshot that is taken as it is: the factor one.
pub open spec fn unit_factor() -> Factor {
    Factor { found: 1, recorded: INDEX_UNIT }
}

/// The place of the first reading whose day the history has, if there is one.
pub open spec fn first_shared(history: Map<u64, u64>, readings: Seq<(u64, u64)>) -> Option<int>
    decreases readings.len(),
{
    if readings.len() == 0 {
        None
    } else {
        match first_shared(history, readings.drop_last()) {
            Some(place) => Some(place),
            None => if history.contains_key(readings.last().0) {
                Some(readings.len() - 1)
            } else {
                None
            },
        }
    }
}

/// The factor of a snapshot: one for an empty history, else taken from the first
/// shared day, and none where no day is shared.
pub open spec fn factor_of(history: Map<u64, u64>, readings: Seq<(u64, u64)>) -> Option<Factor> {
    if history == Map::<u64, u64>::empty() {
        Some(unit_factor())
    } else {
        match first_shared(history, readings) {
            Some(place) => Some(
                Factor { found: readings[place].1, recorded: history[readings[place].0] },
            ),
            None => None,
        }
    }
}

/// A raw value of the snapshot on the scale of the history, in billionths,
/// rounded down.
pub open spec fn rescaled(raw: u64, factor: Factor) -> int
    recommends
        factor.found > 0,
{
    (raw * factor.recorded) / (factor.found as int)
}

/// How far two values are apart.
pub open spec fn distance(a: u64, b: u64) -> int {
    if a <= b {
        b - a
    } else {
        a - b
    }
}

/// The history after one reading: a day that is new is recorded with the rescaled
/// value, and a day that the history has must agree with it within the tolerance
/// and stays as it is.
pub open spec fn absorbed_reading(history: Map<u64, u64>, reading: (u64, u64), factor: Factor)
    -> Result<Map<u64, u64>, Failure> {
    let scaled = rescaled(reading.1, factor);
    if scaled > u64::MAX {
        Err(Failure::Overflow { value: scaled as u128 })
    } else if !history.contains_key(reading.0) {
        Ok(history.insert(reading.0, scaled as u64))
    } else if distance(history[reading.0], scaled as u64) <= TOLERANCE {
        Ok(history)
    } else {
        Err(Failure::Clash { time: reading.0, previous: history[reading.0], found: scaled as u64 })
    }
}

/// The history after the readings, one after the other, all rescaled by `factor`,
/// or the first failure.
pub open spec fn absorbed(history: Map<u64, u64>, readings: Seq<(u64, u64)>, factor: Factor)
    -> Result<Map<u64, u64>, Failure>
    decreases readings.len(),
{
    if readings.len() == 0 {
        Ok(history)
    } else {
        match absorbed(history, readings.drop_last(), factor) {
            Ok(earlier) => absorbed_reading(earlier, readings.last(), factor),
            Err(failure) => Err(failure),
        }
    }
}

/// The history after a snapshot: its factor is resolved once and applied to every
/// reading.
pub open spec fn normalized(history: Map<u64, u64>, readings: Seq<(u64, u64)>) -> Result<
    Map<u64, u64>,
    Failure,
> {
    match factor_of(history, readings) {
        None => Err(Failure::NoOverlap),
        Some(factor) => if factor.found == 0 {
            let shared = readings[first_shared(history, readings)->Some_0];
            Err(Failure::Clash { time: shared.0, previous: factor.recorded, found: 0 })
        } else {
            absorbed(history, readings, factor)
        },
    }
}

/// The place of the first reading whose day the store has.
pub fn shared_day(store: &Store, readings: &Vec<(u64, u64)>) -> (place: Option<usize>)
    ensures
        match place {
            Some(at) => first_shared(store@, readings@) == Some(at as int) && at < readings@.len()
                && store@.contains_key(readings@[at as int].0),
            None => first_shared(store@, readings@) is None,
        },
{
    let mut i: usize = 0;
    while i < readings.len()
        invariant
            i <= readings@.len(),
            first_shared(store@, readings@.take(i as int)) is None,
        decreases readings@.len() - i,
    {
        proof {
            assert(readings@.take(i + 1).drop_last() =~= readings@.take(i as int));
        }
        if store.get(readings[i].0).is_some() {
            proof {
                lemma_shared_stays(store@, readings@, i + 1);
            }
            return Some(i);
        }
        i += 1;
    }
    assert(readings@.take(i as int) =~= readings@);
    None
}

/// The factor of a snapshot against the store, if the store is empty or shares a
/// day with the snapshot.
pub fn resolve_factor(store: &Store, readings: &Vec<(u64, u64)>) -> (factor: Option<Factor>)
    ensures
        factor == factor_of(store@, readings@),
{
    if store.is_empty() {
        return Some(Factor { found: 1, recorded: INDEX_UNIT });
    }
    match shared_day(store, readings) {
        Some(at) => {
            let reading = readings[at];
            match store.get(reading.0) {
                Some(recorded) => Some(Factor { found: reading.1, recorded }),
                None => None,
            }
        },
        None => None,
    }
}

/// A shared day found among the first `count` readings is the first shared day
/// of the whole list.
proof fn lemma_shared_stays(history: Map<u64, u64>, readings: Seq<(u64, u64)>, count: int)
    requires
        0 <= count <= readings.len(),
        first_shared(history, readings.take(count)) is Some,
    ensures
        first_shared(history, readings) == first_shared(history, readings.take(count)),
    decreases readings.len() - count,
{
    if count < readings.len() {
        assert(readings.take(count + 1).drop_last() =~= readings.take(count));
        lemma_shared_stays(history, readings, count + 1);
    } else {
        assert(readings.take(count) =~= readings);
    }
}

/// A raw value on the scale of the history, or the number that is beyond `u64`.
pub fn rescale(raw: u64, factor: Factor) -> (scaled: Result<u64, u128>)
    requires
        factor.found > 0,
    ensures
        match scaled {
            Ok(value) => value == rescaled(raw, factor),
            Err(beyond) => beyond == rescaled(raw, factor) && beyond > u64::MAX,
        },
{
    assert(raw * factor.recorded <= u128::MAX) by (nonlinear_arith)
        requires
            raw <= u64::MAX,
            factor.recorded <= u64::MAX,
    ;
    let product: u128 = (raw as u128) * (factor.recorded as u128);
    let quotient: u128 = product / (factor.found as u128);
    if quotient > u64::MAX as u128 {
        Err(quotient)
    } else {
        Ok(quotient as u64)
    }
}

/// A raw value on the scale of the history, where the factor gives a scale and
/// the result fits.
pub fn try_rescale(raw: u64, factor: Factor) -> (scaled: Option<u64>)
    ensures
        scaled is Some == (factor.found > 0 && rescaled(raw, factor) <= u64::MAX),
        scaled matches Some(value) ==> value == rescaled(raw, factor),
{
    if factor.found == 0 {
        return None;
    }
    match rescale(raw, factor) {
        Ok(value) => Some(value),
        Err(_) => None,
    }
}

/// Whether `error` reports `failure` for the series `series` read from `file`.
pub open spec fn reports_failure(
    error: Error,
    failure: Failure,
    series: Seq<char>,
    file: Seq<char>,
) -> bool {
    match failure {
        Failure::NoOverlap => error matches Error::NoOverlap { series: s, file: f } && s@ == series
            && f@ == file,
        Failure::Clash { time, previous, found } => error matches Error::InconsistentNormalization {
            series: s,
            time: t,
            previous: p,
            found: n,
            file: f,
        } && s@ == series && f@ == file && t == time && p == previous && n == found,
        Failure::Overflow { value } => error == (Error::Cast { value }),
    }
}

/// The error that reports `failure`.
pub fn error_of(failure: Failure, series: &str, file: &str) -> (error: Error)
    ensures
        reports_failure(error, failure, series@, file@),
{
    match failure {
        Failure::NoOverlap => Error::NoOverlap {
            series: String::from_str(series),
            file: String::from_str(file),
        },
        Failure::Clash { time, previous, found } => Error::InconsistentNormalization {
            series: String::from_str(series),
            time,
            previous,
            found,
            file: String::from_str(file),
        },
        Failure::Overflow { value } => Error::Cast { value },
    }
}

/// The store after a snapshot, or why the snapshot cannot be taken.
pub fn normalized_store(store: &Store, readings: &Vec<(u64, u64)>) -> (outcome: Result<
    Store,
    Failure,
>)
    ensures
        match outcome {
            Ok(next) => normalized(store@, readings@) == Ok::<Map<u64, u64>, Failure>(next@),
            Err(failure) => normalized(store@, readings@) == Err::<Map<u64, u64>, Failure>(
                failure,
            ),
        },
{
    let factor = if store.is_empty() {
        Factor { found: 1, recorded: INDEX_UNIT }
    } else {
        match shared_day(store, readings) {
            None => {
                return Err(Failure::NoOverlap);
            },
            Some(at) => {
                let shared = readings[at];
                let recorded = match store.get(shared.0) {
                    Some(recorded) => recorded,
                    None => {
                        return Err(Failure::NoOverlap);
                    },
                };
                if shared.1 == 0 {
                    return Err(Failure::Clash { time: shared.0, previous: recorded, found: 0 });
                }
                Factor { found: shared.1, recorded }
            },
        }
    };
    let mut next = store.duplicate();
    let mut i: usize = 0;
    while i < readings.len()
        invariant
            i <= readings@.len(),
            factor.found > 0,
            factor_of(store@, readings@) == Some(factor),
            absorbed(store@, readings@.take(i as int), factor) == Ok::<Map<u64, u64>, Failure>(
                next@,
            ),
        decreases readings@.len() - i,
    {
        let reading = readings[i];
        proof {
            assert(readings@.take(i + 1).drop_last() =~= readings@.take(i as int));
            assert(readings@.take(i + 1).last() == reading);
        }
        let scaled = match rescale(reading.1, factor) {
            Ok(value) => value,
            Err(beyond) => {
                proof {
                    lemma_failure_stays(store@, readings@, factor, i + 1);
                }
                return Err(Failure::Overflow { value: beyond });
            },
        };
        match next.get(reading.0) {
            None => {
                next.insert(reading.0, scaled);
            },
            Some(previous) => {
                let apart = if previous <= scaled {
                    scaled - previous
                } else {
                    previous - scaled
                };
                if apart > TOLERANCE {
                    proof {
                        lemma_failure_stays(store@, readings@, factor, i + 1);
                    }
                    return Err(Failure::Clash { time: reading.0, previous, found: scaled });
                }
            },
        }
        i += 1;
    }
    assert(readings@.take(i as int) =~= readings@);
    Ok(next)
}

/// A failure met among the first `count` readings is the failure of the whole list.
proof fn lemma_failure_stays(
    history: Map<u64, u64>,
    readings: Seq<(u64, u64)>,
    factor: Factor,
    count: int,
)
    requires
        0 <= count <= readings.len(),
        absorbed(history, readings.take(count), factor) is Err,
    ensures
        absorbed(history, readings, factor) == absorbed(history, readings.take(count), factor),
    decreases readings.len() - count,
{
    if count < readings.len() {
        assert(readings.take(count + 1).drop_last() =~= readings.take(count));
        lemma_failure_stays(history, readings, factor, count + 1);
    } else {
        assert(readings.take(count) =~= readings);
    }
}

/// Takes a snapshot of index values into the store, all of it or nothing: its
/// factor is resolved against the store as it is before the call and applied to
/// every reading. On a failure the store stays as it was.
pub fn normalize(
    store: &mut Store,
    readings: &Vec<(u64, u64)>,
    series: &str,
    file: &str,
) -> (outcome: Result<(), Error>)
    ensures
        match outcome {
            Ok(()) => normalized(old(store)@, readings@) == Ok::<Map<u64, u64>, Failure>(
                final(store)@,
            ),
            Err(error) => {
                &&& normalized(old(store)@, readings@) matches Err(failure) && reports_failure(
                    error,
                    failure,
                    series@,
                    file@,
                )
                &&& final(store)@ == old(store)@
                &&& final(store).ordered() == old(store).ordered()
            },
        },
{
    match normalized_store(store, readings) {
        Ok(next) => {
            *store = next;
            Ok(())
        },
        Err(failure) => Err(error_of(failure, series, file)),
    }
}

} // verus!
