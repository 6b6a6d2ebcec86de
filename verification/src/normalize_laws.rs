//! What holds of every rescaled snapshot.

use crate::normalize::{
    absorbed, absorbed_reading, distance, factor_of, first_shared, normalized, rescaled, Factor,
    Failure, TOLERANCE,
};
use vstd::prelude::*;

verus! {

/// The first shared day is a day of the history, and no reading before it is.
pub proof fn lemma_first_shared(history: Map<u64, u64>, readings: Seq<(u64, u64)>)
    ensures
        match first_shared(history, readings) {
            Some(place) => {
                &&& 0 <= place < readings.len()
                &&& history.contains_key(readings[place].0)
                &&& forall|i: int| 0 <= i < place ==> !history.contains_key(readings[i].0)
            },
            None => forall|i: int| 0 <= i < readings.len() ==> !history.contains_key(readings[i].0),
        },
    decreases readings.len(),
{
    if readings.len() > 0 {
        lemma_first_shared(history, readings.drop_last());
        assert(forall|i: int|
            0 <= i < readings.len() - 1 ==> readings.drop_last()[i] == readings[i]);
    }
}

/// A snapshot that shares no day with a history that is not empty is refused for
/// want of an overlap.
pub proof fn lemma_no_overlap(history: Map<u64, u64>, readings: Seq<(u64, u64)>)
    requires
        history != Map::<u64, u64>::empty(),
        forall|i: int| 0 <= i < readings.len() ==> !history.contains_key(readings[i].0),
    ensures
        normalized(history, readings) == Err::<Map<u64, u64>, Failure>(Failure::NoOverlap),
{
    lemma_first_shared(history, readings);
}

/// Against an empty history every snapshot is taken with the factor one.
pub proof fn lemma_first_snapshot(readings: Seq<(u64, u64)>)
    ensures
        factor_of(Map::<u64, u64>::empty(), readings) == Some(crate::normalize::unit_factor()),
{
}

/// Rescaled by the factor that it gave, the shared day comes out as the history
/// has it.
pub proof fn lemma_shared_day_fixed(factor: Factor)
    requires
        factor.found > 0,
    ensures
        rescaled(factor.found, factor) == factor.recorded,
{
    let found = factor.found as int;
    let recorded = factor.recorded as int;
    assert((found * recorded) / found == recorded) by (nonlinear_arith)
        requires
            found > 0,
    ;
}

/// What a run of readings does to a history when all are rescaled by one factor:
/// the history keeps every day with its value, every reading's day is in the
/// result within the tolerance of the rescaled reading, and the result has no
/// other day.
pub proof fn lemma_absorbed(
    history: Map<u64, u64>,
    readings: Seq<(u64, u64)>,
    factor: Factor,
)
    requires
        factor.found > 0,
        absorbed(history, readings, factor) is Ok,
    ensures
        ({
            let result = absorbed(history, readings, factor)->Ok_0;
            &&& forall|time: u64| #![trigger history.contains_key(time)]
                history.contains_key(time) ==> result.contains_key(time) && result[time]
                    == history[time]
            &&& forall|i: int|
                0 <= i < readings.len() ==> result.contains_key((#[trigger] readings[i]).0)
                    && rescaled(readings[i].1, factor) <= u64::MAX && distance(
                    result[readings[i].0],
                    rescaled(readings[i].1, factor) as u64,
                ) <= TOLERANCE
            &&& forall|time: u64| #![trigger result.contains_key(time)]
                result.contains_key(time) ==> history.contains_key(time) || exists|i: int|
                    0 <= i < readings.len() && (#[trigger] readings[i]).0 == time
        }),
    decreases readings.len(),
{
    if readings.len() > 0 {
        let init = readings.drop_last();
        let last = readings.last();
        let n = readings.len() - 1;
        lemma_absorbed(history, init, factor);
        let earlier = absorbed(history, init, factor)->Ok_0;
        let result = absorbed(history, readings, factor)->Ok_0;
        assert(absorbed_reading(earlier, last, factor) == Ok::<Map<u64, u64>, Failure>(result));
        let scaled = rescaled(last.1, factor);
        assert(scaled <= u64::MAX);
        assert(result == earlier || (!earlier.contains_key(last.0) && result == earlier.insert(
            last.0,
            scaled as u64,
        )));
        assert(readings[n] == last);
        assert forall|time: u64| history.contains_key(time) implies result.contains_key(time)
            && result[time] == history[time] by {
            assert(earlier.contains_key(time) && earlier[time] == history[time]);
        }
        assert forall|i: int| 0 <= i < readings.len() implies result.contains_key(
            (#[trigger] readings[i]).0,
        ) && rescaled(readings[i].1, factor) <= u64::MAX && distance(
            result[readings[i].0],
            rescaled(readings[i].1, factor) as u64,
        ) <= TOLERANCE by {
            if i < n {
                assert(init[i] == readings[i]);
                assert(earlier.contains_key(init[i].0));
            } else if earlier.contains_key(last.0) {
                assert(distance(earlier[last.0], scaled as u64) <= TOLERANCE);
            }
        }
        assert forall|time: u64| result.contains_key(time) implies history.contains_key(time)
            || exists|i: int| 0 <= i < readings.len() && (#[trigger] readings[i]).0 == time by {
            if !history.contains_key(time) {
                if earlier.contains_key(time) {
                    let i = choose|i: int| 0 <= i < init.len() && (#[trigger] init[i]).0 == time;
                    assert(readings[i].0 == time);
                } else {
                    assert(readings[n].0 == time);
                }
            }
        }
    }
}

/// One factor for the whole snapshot: where a snapshot is taken, the history
/// keeps every day with its value, and every reading, divided by the factor that
/// the first shared day gave, is in the result within the tolerance.
pub proof fn lemma_uniform_factor(history: Map<u64, u64>, readings: Seq<(u64, u64)>)
    requires
        normalized(history, readings) is Ok,
    ensures
        factor_of(history, readings) is Some,
        ({
            let factor = factor_of(history, readings)->Some_0;
            let result = normalized(history, readings)->Ok_0;
            &&& factor.found > 0
            &&& forall|time: u64| #![trigger history.contains_key(time)]
                history.contains_key(time) ==> result.contains_key(time) && result[time]
                    == history[time]
            &&& forall|i: int|
                0 <= i < readings.len() ==> result.contains_key((#[trigger] readings[i]).0)
                    && rescaled(readings[i].1, factor) <= u64::MAX && distance(
                    result[readings[i].0],
                    rescaled(readings[i].1, factor) as u64,
                ) <= TOLERANCE
            &&& forall|i: int|
                0 <= i < readings.len() && !history.contains_key((#[trigger] readings[i]).0) && (
                forall|j: int| 0 <= j < i ==> readings[j].0 != readings[i].0) ==> result[readings[i].0]
                    == rescaled(readings[i].1, factor)
        }),
{
    let factor = factor_of(history, readings)->Some_0;
    assert(factor.found > 0);
    assert(normalized(history, readings) == absorbed(history, readings, factor));
    lemma_absorbed(history, readings, factor);
    assert forall|i: int|
        0 <= i < readings.len() && !history.contains_key((#[trigger] readings[i]).0) && (forall|
            j: int,
        | 0 <= j < i ==> readings[j].0 != readings[i].0) implies normalized(
        history,
        readings,
    )->Ok_0[readings[i].0] == rescaled(readings[i].1, factor) by {
        lemma_new_day(history, readings, factor, i);
    }
}

/// A day that neither the history nor an earlier reading has is recorded with
/// exactly the rescaled value.
proof fn lemma_new_day(history: Map<u64, u64>, readings: Seq<(u64, u64)>, factor: Factor, i: int)
    requires
        factor.found > 0,
        absorbed(history, readings, factor) is Ok,
        0 <= i < readings.len(),
        !history.contains_key(readings[i].0),
        forall|j: int| 0 <= j < i ==> readings[j].0 != readings[i].0,
    ensures
        absorbed(history, readings, factor)->Ok_0.contains_key(readings[i].0),
        absorbed(history, readings, factor)->Ok_0[readings[i].0] == rescaled(readings[i].1, factor),
    decreases readings.len(),
{
    let init = readings.drop_last();
    let n = readings.len() - 1;
    let earlier = absorbed(history, init, factor)->Ok_0;
    if i < n {
        assert(init[i] == readings[i]);
        assert(forall|j: int| 0 <= j < i ==> init[j] == readings[j]);
        lemma_new_day(history, init, factor, i);
        lemma_absorbed(history, init, factor);
        let result = absorbed(history, readings, factor)->Ok_0;
        assert(absorbed_reading(earlier, readings.last(), factor) == Ok::<Map<u64, u64>, Failure>(
            result,
        ));
        assert(earlier.contains_key(readings[i].0));
    } else {
        lemma_absorbed(history, init, factor);
        if earlier.contains_key(readings[i].0) {
            let j = choose|j: int|
                0 <= j < init.len() && (#[trigger] init[j]).0 == readings[i].0;
            assert(readings[j].0 == readings[i].0);
        }
        assert(absorbed_reading(earlier, readings.last(), factor) is Ok);
    }
}

} // verus!
