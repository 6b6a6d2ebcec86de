//! Merging does not depend on the order in which snapshots arrive.

use crate::merge::{conflicts, merged, merged_point, settled};
use vstd::prelude::*;

verus! {

/// Whether the observations contradict neither the history nor one another.
pub open spec fn agree(history: Map<u64, u64>, points: Seq<(u64, u64)>) -> bool {
    &&& forall|i: int|
        0 <= i < points.len() ==> !conflicts(history, (#[trigger] points[i]).0, points[i].1)
    &&& forall|i: int, j: int|
        0 <= i < points.len() && 0 <= j < points.len() && (#[trigger] points[i]).0 == (
        #[trigger] points[j]).0 ==> points[i].1 == points[j].1
}

/// Whether some observation of `points` is made at `time`.
pub open spec fn observed(points: Seq<(u64, u64)>, time: u64) -> bool {
    exists|i: int| 0 <= i < points.len() && (#[trigger] points[i]).0 == time
}

/// The history with every day added that the observations bring.
pub open spec fn overlay(history: Map<u64, u64>, points: Seq<(u64, u64)>) -> Map<u64, u64> {
    Map::new(
        |time: u64| history.contains_key(time) || observed(points, time),
        |time: u64|
            if history.contains_key(time) {
                history[time]
            } else {
                points[choose|i: int| 0 <= i < points.len() && (#[trigger] points[i]).0 == time].1
            },
    )
}

/// Merging succeeds exactly when the observations agree, and then gives the
/// history with their days added.
pub proof fn lemma_merged_is_overlay(history: Map<u64, u64>, points: Seq<(u64, u64)>)
    ensures
        merged(history, points) == (if agree(history, points) {
            Some(overlay(history, points))
        } else {
            None
        }),
    decreases points.len(),
{
    if points.len() == 0 {
        assert(overlay(history, points) =~= history);
    } else {
        let init = points.drop_last();
        let last = points.last();
        let n = points.len() - 1;
        lemma_merged_is_overlay(history, init);
        assert(forall|i: int| 0 <= i < n ==> init[i] == points[i]);
        if !agree(history, init) {
            if agree(history, points) {
                assert forall|i: int| 0 <= i < init.len() implies !conflicts(
                    history,
                    (#[trigger] init[i]).0,
                    init[i].1,
                ) by {
                    assert(init[i] == points[i]);
                }
                assert forall|i: int, j: int|
                    0 <= i < init.len() && 0 <= j < init.len() && (#[trigger] init[i]).0 == (
                    #[trigger] init[j]).0 implies init[i].1 == init[j].1 by {
                    assert(init[i] == points[i] && init[j] == points[j]);
                }
                assert(false);
            }
        } else {
            let earlier = overlay(history, init);
            if conflicts(earlier, last.0, last.1) {
                if agree(history, points) {
                    assert(points[n] == last);
                    if history.contains_key(last.0) {
                        assert(!conflicts(history, points[n].0, points[n].1));
                    } else {
                        let c = choose|i: int|
                            0 <= i < init.len() && (#[trigger] init[i]).0 == last.0;
                        assert(points[c].0 == points[n].0);
                    }
                    assert(false);
                }
            } else {
                assert(agree(history, points)) by {
                    assert forall|i: int| 0 <= i < points.len() implies !conflicts(
                        history,
                        (#[trigger] points[i]).0,
                        points[i].1,
                    ) by {
                        if i < n {
                            assert(init[i] == points[i]);
                        } else {
                            assert(earlier.contains_key(last.0) <== history.contains_key(last.0));
                        }
                    }
                    assert forall|i: int, j: int|
                        0 <= i < points.len() && 0 <= j < points.len() && (
                        #[trigger] points[i]).0 == (#[trigger] points[j]).0 implies points[i].1
                        == points[j].1 by {
                        if i < n && j < n {
                            assert(init[i] == points[i] && init[j] == points[j]);
                        } else if i < n || j < n {
                            let k = if i < n { i } else { j };
                            assert(init[k] == points[k]);
                            assert(observed(init, last.0));
                            assert(earlier.contains_key(last.0));
                            if history.contains_key(last.0) {
                                assert(!conflicts(history, init[k].0, init[k].1));
                            } else {
                                let c = choose|i: int|
                                    0 <= i < init.len() && (#[trigger] init[i]).0 == last.0;
                                assert(init[c].0 == init[k].0);
                            }
                        }
                    }
                }
                assert(overlay(history, points) =~= earlier.insert(last.0, last.1)) by {
                    assert forall|time: u64|
                        overlay(history, points).contains_key(time) == earlier.insert(
                            last.0,
                            last.1,
                        ).contains_key(time) by {
                        if observed(points, time) {
                            let i = choose|i: int|
                                0 <= i < points.len() && (#[trigger] points[i]).0 == time;
                            if i < n {
                                assert(init[i].0 == time);
                            }
                        }
                        if observed(init, time) {
                            let i = choose|i: int|
                                0 <= i < init.len() && (#[trigger] init[i]).0 == time;
                            assert(points[i].0 == time);
                        }
                        if time == last.0 {
                            assert(points[n].0 == time);
                        }
                    }
                    assert forall|time: u64|
                        overlay(history, points).contains_key(time) implies overlay(
                        history,
                        points,
                    )[time] == earlier.insert(last.0, last.1)[time] by {
                        if !history.contains_key(time) {
                            let c = choose|i: int|
                                0 <= i < points.len() && (#[trigger] points[i]).0 == time;
                            if time == last.0 {
                                assert(points[c].0 == points[n].0);
                            } else {
                                assert(init[c] == points[c]);
                                let d = choose|i: int|
                                    0 <= i < init.len() && (#[trigger] init[i]).0 == time;
                                assert(points[d] == init[d]);
                                assert(points[c].0 == points[d].0);
                            }
                        } else if time == last.0 {
                            assert(!conflicts(history, points[n].0, points[n].1));
                        }
                    }
                }
            }
        }
    }
}

/// A list with an observation that the history contradicts does not merge: a
/// settled day that is recorded with one value cannot be merged with another.
pub proof fn lemma_conflict_fails(history: Map<u64, u64>, points: Seq<(u64, u64)>, at: int)
    requires
        0 <= at < points.len(),
        conflicts(history, points[at].0, points[at].1),
    ensures
        merged(history, points) is None,
{
    lemma_merged_is_overlay(history, points);
}

/// What a successful merge keeps and adds: every day of the history stays with
/// its value, and every observation is in the result with its value.
pub proof fn lemma_merged_holds_all(history: Map<u64, u64>, points: Seq<(u64, u64)>)
    requires
        merged(history, points) is Some,
    ensures
        forall|time: u64| #![trigger history.contains_key(time)]
            history.contains_key(time) ==> merged(history, points)->Some_0.contains_key(time)
                && merged(history, points)->Some_0[time] == history[time],
        forall|i: int|
            0 <= i < points.len() ==> merged(history, points)->Some_0.contains_key(
                (#[trigger] points[i]).0,
            ) && merged(history, points)->Some_0[points[i].0] == points[i].1,
{
    lemma_merged_is_overlay(history, points);
    let result = overlay(history, points);
    assert forall|i: int| 0 <= i < points.len() implies result.contains_key(
        (#[trigger] points[i]).0,
    ) && result[points[i].0] == points[i].1 by {
        let time = points[i].0;
        assert(observed(points, time));
        if history.contains_key(time) {
            assert(!conflicts(history, points[i].0, points[i].1));
        } else {
            let c = choose|c: int| 0 <= c < points.len() && (#[trigger] points[c]).0 == time;
            assert(points[c].0 == points[i].0);
        }
    }
}

/// Two lists that hold the same observations, in whatever order and however
/// often, merge into the same history, or both fail to merge.
pub proof fn lemma_merge_any_order(
    history: Map<u64, u64>,
    first: Seq<(u64, u64)>,
    second: Seq<(u64, u64)>,
)
    requires
        forall|point: (u64, u64)| first.contains(point) <==> second.contains(point),
    ensures
        merged(history, first) == merged(history, second),
{
    lemma_merged_is_overlay(history, first);
    lemma_merged_is_overlay(history, second);
    lemma_same_points(history, first, second);
    lemma_same_points(history, second, first);
    if agree(history, first) {
        assert(overlay(history, first) =~= overlay(history, second)) by {
            assert forall|time: u64|
                overlay(history, first).contains_key(time) implies overlay(history, first)[time]
                == overlay(history, second)[time] by {
                if !history.contains_key(time) {
                    let c = choose|i: int|
                        0 <= i < first.len() && (#[trigger] first[i]).0 == time;
                    let d = choose|i: int|
                        0 <= i < second.len() && (#[trigger] second[i]).0 == time;
                    assert(first.contains(first[c]));
                    assert(second.contains(first[c]));
                    let e = choose|i: int| 0 <= i < second.len() && second[i] == first[c];
                    assert(second[e].0 == second[d].0);
                }
            }
        }
    }
}

/// What holds of every observation of `first` holds of those of `second`, where
/// `second` has no observation that `first` lacks.
proof fn lemma_same_points(
    history: Map<u64, u64>,
    first: Seq<(u64, u64)>,
    second: Seq<(u64, u64)>,
)
    requires
        forall|point: (u64, u64)| second.contains(point) ==> first.contains(point),
    ensures
        agree(history, first) ==> agree(history, second),
        forall|time: u64| observed(second, time) ==> observed(first, time),
{
    assert forall|time: u64| observed(second, time) implies observed(first, time) by {
        let i = choose|i: int| 0 <= i < second.len() && (#[trigger] second[i]).0 == time;
        assert(second.contains(second[i]));
        let j = choose|j: int| 0 <= j < first.len() && first[j] == second[i];
        assert(first[j].0 == time);
    }
    if agree(history, first) {
        assert forall|i: int| 0 <= i < second.len() implies !conflicts(
            history,
            (#[trigger] second[i]).0,
            second[i].1,
        ) by {
            assert(second.contains(second[i]));
            let j = choose|j: int| 0 <= j < first.len() && first[j] == second[i];
            assert(!conflicts(history, first[j].0, first[j].1));
        }
        assert forall|i: int, j: int|
            0 <= i < second.len() && 0 <= j < second.len() && (#[trigger] second[i]).0 == (
            #[trigger] second[j]).0 implies second[i].1 == second[j].1 by {
            assert(second.contains(second[i]));
            assert(second.contains(second[j]));
            let a = choose|a: int| 0 <= a < first.len() && first[a] == second[i];
            let b = choose|b: int| 0 <= b < first.len() && first[b] == second[j];
            assert(first[a].0 == first[b].0);
        }
    }
}

/// The history after a run of snapshots, each merged by its settled days, unless
/// one of them conflicts.
pub open spec fn merged_all(history: Map<u64, u64>, snapshots: Seq<Seq<(u64, u64)>>) -> Option<
    Map<u64, u64>,
>
    decreases snapshots.len(),
{
    if snapshots.len() == 0 {
        Some(history)
    } else {
        match merged_all(history, snapshots.drop_last()) {
            Some(earlier) => merged(earlier, settled(snapshots.last())),
            None => None,
        }
    }
}

/// The settled days of a run of snapshots, one snapshot after the other.
pub open spec fn settled_days(snapshots: Seq<Seq<(u64, u64)>>) -> Seq<(u64, u64)>
    decreases snapshots.len(),
{
    if snapshots.len() == 0 {
        Seq::empty()
    } else {
        settled_days(snapshots.drop_last()) + settled(snapshots.last())
    }
}

/// Merging one list after another is merging the two lists joined.
pub proof fn lemma_merged_joined(
    history: Map<u64, u64>,
    first: Seq<(u64, u64)>,
    second: Seq<(u64, u64)>,
)
    ensures
        merged(history, first + second) == (match merged(history, first) {
            Some(earlier) => merged(earlier, second),
            None => None,
        }),
    decreases second.len(),
{
    if second.len() == 0 {
        assert(first + second =~= first);
    } else {
        assert((first + second).drop_last() =~= first + second.drop_last());
        assert((first + second).last() == second.last());
        lemma_merged_joined(history, first, second.drop_last());
    }
}

/// Merging a run of snapshots is merging all their settled days in turn.
pub proof fn lemma_merged_all_is_merged(history: Map<u64, u64>, snapshots: Seq<Seq<(u64, u64)>>)
    ensures
        merged_all(history, snapshots) == merged(history, settled_days(snapshots)),
    decreases snapshots.len(),
{
    if snapshots.len() > 0 {
        lemma_merged_all_is_merged(history, snapshots.drop_last());
        lemma_merged_joined(
            history,
            settled_days(snapshots.drop_last()),
            settled(snapshots.last()),
        );
    }
}

/// A settled day of a run of snapshots is a settled day of one of them.
proof fn lemma_settled_day_source(snapshots: Seq<Seq<(u64, u64)>>, point: (u64, u64))
    ensures
        settled_days(snapshots).contains(point) <==> exists|k: int|
            0 <= k < snapshots.len() && settled(#[trigger] snapshots[k]).contains(point),
    decreases snapshots.len(),
{
    if snapshots.len() == 0 {
        assert(!settled_days(snapshots).contains(point));
    } else {
        let init = snapshots.drop_last();
        let days = settled_days(init);
        let tail = settled(snapshots.last());
        lemma_settled_day_source(init, point);
        if settled_days(snapshots).contains(point) {
            let i = choose|i: int| 0 <= i < (days + tail).len() && (days + tail)[i] == point;
            if i < days.len() {
                assert(days[i] == point);
                assert(days.contains(point));
                let k = choose|k: int|
                    0 <= k < init.len() && settled(#[trigger] init[k]).contains(point);
                assert(settled(snapshots[k]).contains(point));
            } else {
                assert(tail[i - days.len()] == point);
                assert(tail.contains(point));
                assert(settled(snapshots[snapshots.len() - 1]).contains(point));
            }
        }
        if exists|k: int|
            0 <= k < snapshots.len() && settled(#[trigger] snapshots[k]).contains(point) {
            let k = choose|k: int|
                0 <= k < snapshots.len() && settled(#[trigger] snapshots[k]).contains(point);
            if k < init.len() {
                assert(settled(init[k]).contains(point));
                assert(days.contains(point));
                let i = choose|i: int| 0 <= i < days.len() && days[i] == point;
                assert((days + tail)[i] == point);
            } else {
                let i = choose|i: int| 0 <= i < tail.len() && tail[i] == point;
                assert((days + tail)[days.len() + i] == point);
            }
        }
    }
}

/// Snapshots that do not conflict give the same history in whatever order they
/// are merged: two runs that hold the same snapshots end in the same history, and
/// if one run meets a conflict, so does the other.
pub proof fn lemma_merge_order_independent(
    history: Map<u64, u64>,
    first: Seq<Seq<(u64, u64)>>,
    second: Seq<Seq<(u64, u64)>>,
)
    requires
        forall|snapshot: Seq<(u64, u64)>| first.contains(snapshot) <==> second.contains(snapshot),
    ensures
        merged_all(history, first) == merged_all(history, second),
{
    lemma_merged_all_is_merged(history, first);
    lemma_merged_all_is_merged(history, second);
    assert forall|point: (u64, u64)|
        settled_days(first).contains(point) <==> settled_days(second).contains(point) by {
        lemma_settled_day_source(first, point);
        lemma_settled_day_source(second, point);
        if settled_days(first).contains(point) {
            let k = choose|k: int|
                0 <= k < first.len() && settled(#[trigger] first[k]).contains(point);
            assert(first.contains(first[k]));
            let j = choose|j: int| 0 <= j < second.len() && second[j] == first[k];
            assert(settled(second[j]).contains(point));
        }
        if settled_days(second).contains(point) {
            let k = choose|k: int|
                0 <= k < second.len() && settled(#[trigger] second[k]).contains(point);
            assert(second.contains(second[k]));
            let j = choose|j: int| 0 <= j < first.len() && first[j] == second[k];
            assert(settled(first[j]).contains(point));
        }
    }
    lemma_merge_any_order(history, settled_days(first), settled_days(second));
}

} // verus!
