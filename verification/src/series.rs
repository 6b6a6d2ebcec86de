//! The time-series store: an ordered map from a timestamp to a value.

use vstd::prelude::*;

verus! {

/// Whether the timestamps of `points` strictly increase.
pub open spec fn ascending(points: Seq<(u64, u64)>) -> bool {
    forall|i: int, j: int| 0 <= i < j < points.len() ==> points[i].0 < points[j].0
}

/// Whether some point of `points` carries the timestamp `time`.
pub open spec fn has_time(points: Seq<(u64, u64)>, time: u64) -> bool {
    exists|i: int| 0 <= i < points.len() && (#[trigger] points[i]).0 == time
}

/// The place of a point with timestamp `time` in `points`.
pub open spec fn place_of(points: Seq<(u64, u64)>, time: u64) -> int {
    choose|i: int| 0 <= i < points.len() && (#[trigger] points[i]).0 == time
}

/// The map that a list of points stands for.
pub open spec fn to_map(points: Seq<(u64, u64)>) -> Map<u64, u64> {
    Map::new(|time: u64| has_time(points, time), |time: u64| points[place_of(points, time)].1)
}

/// In an ascending list every point is found again under its timestamp.
pub proof fn lemma_point_in_map(points: Seq<(u64, u64)>, i: int)
    requires
        ascending(points),
        0 <= i < points.len(),
    ensures
        to_map(points).contains_key(points[i].0),
        to_map(points)[points[i].0] == points[i].1,
        place_of(points, points[i].0) == i,
{
    let time = points[i].0;
    assert(has_time(points, time));
    let found = place_of(points, time);
    assert(0 <= found < points.len() && points[found].0 == time);
    if found < i {
        assert(points[found].0 < points[i].0);
    } else if i < found {
        assert(points[i].0 < points[found].0);
    }
}

/// Two ascending lists that stand for the same map are the same list.
pub proof fn lemma_ascending_unique(a: Seq<(u64, u64)>, b: Seq<(u64, u64)>)
    requires
        ascending(a),
        ascending(b),
        to_map(a) == to_map(b),
    ensures
        a == b,
    decreases a.len(),
{
    if a.len() == 0 {
        if b.len() > 0 {
            lemma_point_in_map(b, 0);
            assert(to_map(a).contains_key(b[0].0));
            assert(has_time(a, b[0].0));
        }
        assert(a =~= b);
    } else {
        let last = a.last();
        lemma_point_in_map(a, a.len() - 1);
        assert(has_time(b, last.0));
        let at = place_of(b, last.0);
        lemma_point_in_map(b, at);
        if at < b.len() - 1 {
            let beyond = b.last();
            lemma_point_in_map(b, b.len() - 1);
            assert(has_time(a, beyond.0));
            let back = place_of(a, beyond.0);
            assert(a[back].0 <= last.0);
        }
        assert(b.last() == last);
        let a0 = a.drop_last();
        let b0 = b.drop_last();
        assert(to_map(a0) =~= to_map(b0)) by {
            assert forall|time: u64| has_time(a0, time) == has_time(b0, time) by {
                lemma_drop_last_times(a, time);
                lemma_drop_last_times(b, time);
                assert(to_map(a).contains_key(time) == has_time(a, time));
                assert(to_map(b).contains_key(time) == has_time(b, time));
            }
            assert forall|time: u64| has_time(a0, time) implies to_map(a0)[time] == to_map(
                b0,
            )[time] by {
                lemma_drop_last_times(a, time);
                lemma_drop_last_times(b, time);
                let i = place_of(a0, time);
                let j = place_of(b0, time);
                lemma_point_in_map(a0, i);
                lemma_point_in_map(b0, j);
                lemma_point_in_map(a, i);
                lemma_point_in_map(b, j);
            }
        }
        lemma_ascending_unique(a0, b0);
        assert(a =~= a0.push(last));
        assert(b =~= b0.push(last));
    }
}

/// Without its last point an ascending list holds the same timestamps but the last.
proof fn lemma_drop_last_times(points: Seq<(u64, u64)>, time: u64)
    requires
        ascending(points),
        points.len() > 0,
    ensures
        ascending(points.drop_last()),
        has_time(points.drop_last(), time) == (has_time(points, time) && time
            != points.last().0),
{
    let shorter = points.drop_last();
    if has_time(shorter, time) {
        let i = place_of(shorter, time);
        assert(points[i].0 == time);
        assert(points[i].0 < points[points.len() - 1].0);
    }
    if has_time(points, time) && time != points.last().0 {
        let i = place_of(points, time);
        assert(shorter[i].0 == time);
    }
}

/// One series: at most one value for each timestamp (milliseconds since the
/// Unix epoch), kept in ascending order of the timestamps.
pub struct Store {
    points: Vec<(u64, u64)>,
}

impl View for Store {
    type V = Map<u64, u64>;

    closed spec fn view(&self) -> Map<u64, u64> {
        to_map(self.points@)
    }
}

impl Store {
    #[verifier::type_invariant]
    spec fn in_order(self) -> bool {
        ascending(self.points@)
    }

    /// The points of the store in ascending order of their timestamps.
    pub closed spec fn ordered(&self) -> Seq<(u64, u64)> {
        self.points@
    }

    /// A store without any point.
    pub fn new() -> (store: Store)
        ensures
            store@ == Map::<u64, u64>::empty(),
            store.ordered() == Seq::<(u64, u64)>::empty(),
    {
        let store = Store { points: Vec::new() };
        assert(store@ =~= Map::<u64, u64>::empty());
        store
    }

    /// The number of points.
    pub fn len(&self) -> (count: usize)
        ensures
            count == self.ordered().len(),
    {
        self.points.len()
    }

    /// Whether the store holds no point.
    pub fn is_empty(&self) -> (empty: bool)
        ensures
            empty == (self.ordered().len() == 0),
            empty == (self@ == Map::<u64, u64>::empty()),
    {
        proof {
            use_type_invariant(self);
            if self.points@.len() > 0 {
                lemma_point_in_map(self.points@, 0);
            } else {
                assert(self@ =~= Map::<u64, u64>::empty());
            }
        }
        self.points.len() == 0
    }

    /// The points in ascending order of their timestamps.
    pub fn points(&self) -> (list: &Vec<(u64, u64)>)
        ensures
            list@ == self.ordered(),
            ascending(list@),
            self@ == to_map(list@),
    {
        proof {
            use_type_invariant(self);
        }
        &self.points
    }

    /// The store's map is the one that its ordered points stand for.
    pub proof fn lemma_view_of_ordered(&self)
        ensures
            self@ == to_map(self.ordered()),
    {
    }

    /// Adds a point whose timestamp is above every timestamp of the store.
    fn push_last(&mut self, time: u64, value: u64)
        requires
            old(self).ordered().len() > 0 ==> old(self).ordered().last().0 < time,
        ensures
            final(self).ordered() == old(self).ordered().push((time, value)),
    {
        proof {
            use_type_invariant(&*self);
        }
        let mut points: Vec<(u64, u64)> = Vec::new();
        std::mem::swap(&mut points, &mut self.points);
        points.push((time, value));
        self.points = points;
    }

    /// A copy of the store.
    pub fn duplicate(&self) -> (copy: Store)
        ensures
            copy@ == self@,
            copy.ordered() == self.ordered(),
    {
        let list = self.points();
        let mut copy = Store::new();
        let mut i: usize = 0;
        while i < list.len()
            invariant
                i <= list@.len(),
                ascending(list@),
                copy.ordered() == list@.take(i as int),
            decreases list@.len() - i,
        {
            copy.push_last(list[i].0, list[i].1);
            assert(list@.take(i as int).push(list@[i as int]) =~= list@.take(i + 1));
            i += 1;
        }
        assert(list@.take(list@.len() as int) =~= list@);
        proof {
            copy.lemma_view_of_ordered();
        }
        copy
    }

    /// The first place whose timestamp is not below `time`.
    fn lower_bound(&self, time: u64) -> (at: usize)
        ensures
            at <= self.points@.len(),
            forall|i: int| 0 <= i < at ==> self.points@[i].0 < time,
            forall|i: int| at <= i < self.points@.len() ==> self.points@[i].0 >= time,
    {
        proof {
            use_type_invariant(self);
        }
        let mut low: usize = 0;
        let mut high: usize = self.points.len();
        while low < high
            invariant
                low <= high <= self.points@.len(),
                ascending(self.points@),
                forall|i: int| 0 <= i < low ==> self.points@[i].0 < time,
                forall|i: int| high <= i < self.points@.len() ==> self.points@[i].0 >= time,
            decreases high - low,
        {
            let middle: usize = low + (high - low) / 2;
            if self.points[middle].0 < time {
                low = middle + 1;
            } else {
                high = middle;
            }
        }
        low
    }

    /// The value recorded for `time`, if there is one.
    pub fn get(&self, time: u64) -> (found: Option<u64>)
        ensures
            found == (if self@.contains_key(time) {
                Some(self@[time])
            } else {
                None
            }),
    {
        proof {
            use_type_invariant(self);
        }
        let at = self.lower_bound(time);
        if at < self.points.len() && self.points[at].0 == time {
            proof {
                lemma_point_in_map(self.points@, at as int);
            }
            Some(self.points[at].1)
        } else {
            proof {
                if has_time(self.points@, time) {
                    let i = place_of(self.points@, time);
                    assert(self.points@[i].0 == time);
                }
            }
            None
        }
    }

    /// Records `value` for `time`, replacing what was there.
    pub fn insert(&mut self, time: u64, value: u64)
        ensures
            final(self)@ == old(self)@.insert(time, value),
    {
        proof {
            use_type_invariant(&*self);
        }
        let at = self.lower_bound(time);
        let ghost before = self.points@;
        let mut points: Vec<(u64, u64)> = Vec::new();
        std::mem::swap(&mut points, &mut self.points);
        if at < points.len() && points[at].0 == time {
            points.set(at, (time, value));
        } else {
            points.insert(at, (time, value));
        }
        proof {
            lemma_placed(before, points@, at as int, time, value);
        }
        self.points = points;
    }
}

/// Putting a point at its place in an ascending list, over the point that
/// had its timestamp or between its neighbours, gives the map with that point added.
proof fn lemma_placed(
    before: Seq<(u64, u64)>,
    after: Seq<(u64, u64)>,
    at: int,
    time: u64,
    value: u64,
)
    requires
        ascending(before),
        0 <= at <= before.len(),
        forall|i: int| 0 <= i < at ==> before[i].0 < time,
        forall|i: int| at <= i < before.len() ==> before[i].0 >= time,
        after == (if at < before.len() && before[at].0 == time {
            before.update(at, (time, value))
        } else {
            before.insert(at, (time, value))
        }),
    ensures
        ascending(after),
        to_map(after) == to_map(before).insert(time, value),
{
    let replaced = at < before.len() && before[at].0 == time;
    assert(ascending(after)) by {
        assert forall|i: int, j: int| 0 <= i < j < after.len() implies after[i].0
            < after[j].0 by {
            if replaced {
                assert(before[i].0 < before[j].0);
            } else {
                let bi = if i < at { i } else { i - 1 };
                let bj = if j < at { j } else { j - 1 };
                if i != at && j != at {
                    assert(before[bi].0 < before[bj].0);
                }
            }
        }
    }
    assert(after[at] == (time, value));
    lemma_point_in_map(after, at);
    let target = to_map(before).insert(time, value);
    assert forall|t: u64| to_map(after).contains_key(t) == target.contains_key(t) by {
        if has_time(after, t) && t != time {
            let i = place_of(after, t);
            let bi = if replaced || i < at { i } else { i - 1 };
            assert(before[bi].0 == t);
        }
        if has_time(before, t) && t != time {
            let i = place_of(before, t);
            let ai = if replaced || i < at { i } else { i + 1 };
            assert(after[ai].0 == t);
        }
    }
    assert forall|t: u64| to_map(after).contains_key(t) implies to_map(after)[t]
        == target[t] by {
        if t != time {
            let i = place_of(after, t);
            let bi = if replaced || i < at { i } else { i - 1 };
            assert(before[bi] == after[i]);
            lemma_point_in_map(before, bi);
            lemma_point_in_map(after, i);
        }
    }
    assert(to_map(after) =~= target);
}

} // verus!
