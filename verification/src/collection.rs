//! Named series: one store for each name, in the order in which the names came.

use crate::series::{ascending, to_map, Store};
use vstd::prelude::*;
use vstd::string::StringExecFns;

verus! {

/// The place of the series called `name`, if there is one.
pub open spec fn place_of_name(names: Seq<Seq<char>>, name: Seq<char>) -> Option<int> {
    if exists|i: int| 0 <= i < names.len() && #[trigger] names[i] == name {
        Some(choose|i: int| 0 <= i < names.len() && #[trigger] names[i] == name)
    } else {
        None
    }
}

/// Whether no name occurs twice.
pub open spec fn distinct(names: Seq<Seq<char>>) -> bool {
    forall|i: int, j: int| 0 <= i < j < names.len() ==> names[i] != names[j]
}

/// The names of a list of named histories.
pub open spec fn names_of(entries: Seq<(Seq<char>, Map<u64, u64>)>) -> Seq<Seq<char>> {
    Seq::new(entries.len(), |i: int| entries[i].0)
}

/// The history of the series called `name`: empty where there is no such series.
pub open spec fn history_of(entries: Seq<(Seq<char>, Map<u64, u64>)>, name: Seq<char>) -> Map<
    u64,
    u64,
> {
    match place_of_name(names_of(entries), name) {
        Some(place) => entries[place].1,
        None => Map::empty(),
    }
}

/// The entries with the series called `name` set to `history`: in its place
/// where the name is known, else as a new last entry.
pub open spec fn with_series(
    entries: Seq<(Seq<char>, Map<u64, u64>)>,
    name: Seq<char>,
    history: Map<u64, u64>,
) -> Seq<(Seq<char>, Map<u64, u64>)> {
    match place_of_name(names_of(entries), name) {
        Some(place) => entries.update(place, (name, history)),
        None => entries.push((name, history)),
    }
}

/// A collection of named series. No name occurs twice, and a name keeps the
/// place at which it first came.
pub struct Collection {
    names: Vec<String>,
    stores: Vec<Store>,
}

impl View for Collection {
    type V = Seq<(Seq<char>, Map<u64, u64>)>;

    closed spec fn view(&self) -> Seq<(Seq<char>, Map<u64, u64>)> {
        Seq::new(self.names@.len(), |i: int| (self.names@[i]@, self.stores@[i]@))
    }
}

impl Collection {
    #[verifier::type_invariant]
    spec fn well_formed(self) -> bool {
        &&& self.names@.len() == self.stores@.len()
        &&& forall|i: int, j: int|
            0 <= i < j < self.names@.len() ==> self.names@[i]@ != self.names@[j]@
    }

    /// The points of the series at `place`, in ascending order of their timestamps.
    pub closed spec fn points_at(&self, place: int) -> Seq<(u64, u64)> {
        self.stores@[place].ordered()
    }

    /// A collection without any series.
    pub fn new() -> (collection: Collection)
        ensures
            collection@ == Seq::<(Seq<char>, Map<u64, u64>)>::empty(),
    {
        let collection = Collection { names: Vec::new(), stores: Vec::new() };
        assert(collection@ =~= Seq::<(Seq<char>, Map<u64, u64>)>::empty());
        collection
    }

    /// The number of series.
    pub fn len(&self) -> (count: usize)
        ensures
            count == self@.len(),
            distinct(names_of(self@)),
    {
        proof {
            use_type_invariant(self);
        }
        self.names.len()
    }

    /// The name of the series at `place`.
    pub fn name(&self, place: usize) -> (name: &String)
        requires
            place < self@.len(),
        ensures
            name@ == self@[place as int].0,
    {
        &self.names[place]
    }

    /// The store of the series at `place`.
    pub fn store(&self, place: usize) -> (store: &Store)
        requires
            place < self@.len(),
        ensures
            store@ == self@[place as int].1,
            store.ordered() == self.points_at(place as int),
            ascending(store.ordered()),
            store@ == to_map(store.ordered()),
    {
        proof {
            use_type_invariant(self);
        }
        let store = &self.stores[place];
        // Reading the points brings what the store promises of their order.
        let _ = store.points();
        store
    }

    /// The place of the series called `name`, if there is one.
    pub fn position(&self, name: &str) -> (place: Option<usize>)
        ensures
            match place {
                Some(at) => place_of_name(names_of(self@), name@) == Some(at as int) && at
                    < self@.len() && self@[at as int].0 == name@,
                None => place_of_name(names_of(self@), name@) is None,
            },
    {
        proof {
            use_type_invariant(self);
        }
        let wanted = String::from_str(name);
        let mut i: usize = 0;
        while i < self.names.len()
            invariant
                i <= self.names@.len(),
                self.names@.len() == self@.len(),
                wanted@ == name@,
                forall|k: int| 0 <= k < i ==> names_of(self@)[k] != name@,
                forall|a: int, b: int|
                    0 <= a < b < self.names@.len() ==> self.names@[a]@ != self.names@[b]@,
                forall|k: int| 0 <= k < self.names@.len() ==> names_of(self@)[k] == self.names@[k]@,
            decreases self.names@.len() - i,
        {
            if self.names[i] == wanted {
                proof {
                    let names = names_of(self@);
                    assert(names[i as int] == name@);
                    let found = choose|k: int| 0 <= k < names.len() && #[trigger] names[k] == name@;
                    if found != i {
                        assert(names[found] == self.names@[found]@);
                        assert(names[i as int] == self.names@[i as int]@);
                    }
                }
                return Some(i);
            }
            i += 1;
        }
        None
    }

    /// Sets the series called `name` to `store`: in its place where the name is
    /// known, else as a new last series.
    pub fn put(&mut self, name: &str, store: Store)
        ensures
            final(self)@ == with_series(old(self)@, name@, store@),
            distinct(names_of(final(self)@)),
    {
        proof {
            use_type_invariant(&*self);
        }
        let place = self.position(name);
        let ghost before = self@;
        let mut taken = Collection::new();
        std::mem::swap(&mut taken, self);
        let Collection { names: mut names, stores: mut stores } = taken;
        match place {
            Some(at) => {
                stores.set(at, store);
            },
            None => {
                names.push(String::from_str(name));
                stores.push(store);
                proof {
                    assert forall|i: int| 0 <= i < names@.len() - 1 implies names@[i]@
                        != name@ by {
                        assert(names_of(before)[i] == names@[i]@);
                    }
                }
            },
        }
        *self = Collection { names, stores };
        proof {
            assert(self@ =~= with_series(before, name@, store@));
            assert forall|i: int, j: int| 0 <= i < j < names_of(self@).len() implies names_of(
                self@,
            )[i] != names_of(self@)[j] by {
                assert(names_of(self@)[i] == self.names@[i]@);
                assert(names_of(self@)[j] == self.names@[j]@);
            }
        }
    }

    /// A copy of the collection.
    pub fn duplicate(&self) -> (copy: Collection)
        ensures
            copy@ == self@,
            forall|place: int| 0 <= place < self@.len() ==> copy.points_at(place) == self.points_at(
                place,
            ),
    {
        proof {
            use_type_invariant(self);
        }
        let mut names: Vec<String> = Vec::new();
        let mut stores: Vec<Store> = Vec::new();
        let mut i: usize = 0;
        while i < self.names.len()
            invariant
                i <= self.names@.len(),
                self.names@.len() == self.stores@.len(),
                names@.len() == i,
                stores@.len() == i,
                forall|k: int| 0 <= k < i ==> names@[k]@ == self.names@[k]@,
                forall|k: int| 0 <= k < i ==> stores@[k]@ == self.stores@[k]@,
                forall|k: int| 0 <= k < i ==> stores@[k].ordered() == self.stores@[k].ordered(),
            decreases self.names@.len() - i,
        {
            names.push(self.names[i].clone());
            stores.push(self.stores[i].duplicate());
            i += 1;
        }
        let copy = Collection { names, stores };
        assert(copy@ =~= self@);
        copy
    }
}

} // verus!
