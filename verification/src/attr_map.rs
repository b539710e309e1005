//! A map from names to values that remembers the order in which the names came.

use vstd::prelude::*;

use crate::text::same_text;

verus! {

/// A map whose keys are names. The names stand in the order in which they were
/// first put in, and none stands twice.
#[derive(Debug)]
pub struct AttrMap<V> {
    entries: Vec<(String, V)>,
}

/// The names and values of a list of entries.
pub open spec fn entry_texts<V>(entries: Seq<(String, V)>) -> Seq<(Seq<char>, V)> {
    entries.map_values(|e: (String, V)| (e.0@, e.1))
}

/// Whether no name stands twice in a list of entries.
pub open spec fn distinct_names<V>(entries: Seq<(Seq<char>, V)>) -> bool {
    forall|i: int, j: int|
        #![trigger entries[i], entries[j]]
        0 <= i < j < entries.len() ==> entries[i].0 != entries[j].0
}

/// The place of a name in a list of entries, at or after place `from`.
pub open spec fn place_from<V>(entries: Seq<(Seq<char>, V)>, name: Seq<char>, from: int) -> Option<
    int,
>
    decreases entries.len() - from,
{
    if from >= entries.len() {
        None
    } else if entries[from].0 == name {
        Some(from)
    } else {
        place_from(entries, name, from + 1)
    }
}

/// The place of a name in a list of entries.
pub open spec fn place_of<V>(entries: Seq<(Seq<char>, V)>, name: Seq<char>) -> Option<int> {
    place_from(entries, name, 0)
}

/// The value that a list of entries gives a name.
pub open spec fn lookup<V>(entries: Seq<(Seq<char>, V)>, name: Seq<char>) -> Option<V> {
    match place_of(entries, name) {
        Some(i) => Some(entries[i].1),
        None => None,
    }
}

/// The entries after a name was given a value: in its place where it has one,
/// else at the end.
pub open spec fn inserted<V>(entries: Seq<(Seq<char>, V)>, name: Seq<char>, value: V) -> Seq<
    (Seq<char>, V),
> {
    match place_of(entries, name) {
        Some(i) => entries.update(i, (name, value)),
        None => entries.push((name, value)),
    }
}

/// A place that was found is one at which the name stands, and it stands at none
/// before; where none was found the name does not stand at all.
pub proof fn lemma_place_from<V>(entries: Seq<(Seq<char>, V)>, name: Seq<char>, from: int)
    requires
        0 <= from <= entries.len(),
    ensures
        place_from(entries, name, from) matches Some(i) ==> from <= i < entries.len()
            && entries[i].0 == name && (forall|j: int|
            from <= j < i ==> (#[trigger] entries[j]).0 != name),
        place_from(entries, name, from) is None ==> (forall|j: int|
            from <= j < entries.len() ==> (#[trigger] entries[j]).0 != name),
    decreases entries.len() - from,
{
    if from < entries.len() && entries[from].0 != name {
        lemma_place_from(entries, name, from + 1);
    }
}

impl<V> View for AttrMap<V> {
    type V = Seq<(Seq<char>, V)>;

    closed spec fn view(&self) -> Seq<(Seq<char>, V)> {
        entry_texts(self.entries@)
    }
}

impl<V> AttrMap<V> {
    #[verifier::type_invariant]
    spec fn no_name_twice(self) -> bool {
        distinct_names(entry_texts(self.entries@))
    }

    /// An empty map.
    pub fn new() -> (map: Self)
        ensures
            map@ == Seq::<(Seq<char>, V)>::empty(),
    {
        let map = AttrMap { entries: Vec::new() };
        assert(map@ == Seq::<(Seq<char>, V)>::empty());
        map
    }

    fn find(&self, name: &str) -> (place: Option<usize>)
        ensures
            match place {
                Some(i) => place_of(self@, name@) == Some(i as int),
                None => place_of(self@, name@) is None,
            },
            place matches Some(i) ==> i < self.entries@.len(),
    {
        let n: usize = self.entries.len();
        let mut i: usize = 0;
        while i < n
            invariant
                i <= n,
                n == self.entries@.len(),
                place_of(self@, name@) == place_from(self@, name@, i as int),
            decreases n - i,
        {
            if same_text(self.entries[i].0.as_str(), name) {
                return Some(i);
            }
            i = i + 1;
        }
        None
    }

    /// Gives a name a value.
    pub fn insert(&mut self, name: String, value: V)
        ensures
            final(self)@ == inserted(old(self)@, name@, value),
    {
        proof {
            use_type_invariant(&*self);
            lemma_place_from(self@, name@, 0);
        }
        let ghost before = self@;
        let place = self.find(name.as_str());
        let mut entries: Vec<(String, V)> = Vec::new();
        std::mem::swap(&mut entries, &mut self.entries);
        let ghost was = entries@;
        let ghost what = (name@, value);
        match place {
            Some(i) => {
                entries.set(i, (name, value));
                assert(entry_texts(entries@) == before.update(i as int, what));
            },
            None => {
                entries.push((name, value));
                assert(entry_texts(entries@) == before.push(what));
            },
        }
        self.entries = entries;
    }

    /// The value of a name.
    pub fn get(&self, name: &str) -> (value: Option<&V>)
        ensures
            match value {
                Some(v) => lookup(self@, name@) == Some(*v),
                None => lookup(self@, name@) is None,
            },
    {
        match self.find(name) {
            Some(i) => Some(&self.entries[i].1),
            None => None,
        }
    }

    /// Tells whether the map has a name.
    pub fn contains_key(&self, name: &str) -> (yes: bool)
        ensures
            yes == (lookup(self@, name@) is Some),
    {
        self.find(name).is_some()
    }

    /// The number of names.
    pub fn len(&self) -> (n: usize)
        ensures
            n == self@.len(),
    {
        self.entries.len()
    }

    /// Tells whether the map is empty.
    pub fn is_empty(&self) -> (yes: bool)
        ensures
            yes == (self@.len() == 0),
    {
        self.entries.len() == 0
    }

    /// The name at a place.
    pub fn key_at(&self, i: usize) -> (name: &String)
        requires
            i < self@.len(),
        ensures
            name@ == self@[i as int].0,
    {
        &self.entries[i].0
    }

    /// The value at a place.
    pub fn value_at(&self, i: usize) -> (value: &V)
        requires
            i < self@.len(),
        ensures
            *value == self@[i as int].1,
    {
        &self.entries[i].1
    }

    /// No name stands twice.
    pub fn names_are_distinct(&self)
        ensures
            distinct_names(self@),
    {
        proof {
            use_type_invariant(self);
        }
    }
}

/// A name has the value that it was given last.
pub proof fn law_lookup_inserted<V>(
    entries: Seq<(Seq<char>, V)>,
    name: Seq<char>,
    value: V,
    other: Seq<char>,
)
    ensures
        lookup(inserted(entries, name, value), name) == Some(value),
        other != name ==> lookup(inserted(entries, name, value), other) == lookup(entries, other),
{
    let after = inserted(entries, name, value);
    lemma_place_from(entries, name, 0);
    lemma_place_from(after, name, 0);
    lemma_place_from(entries, other, 0);
    lemma_place_from(after, other, 0);
    match place_of(entries, name) {
        Some(i) => {
            assert(after[i].0 == name);
            assert forall|j: int| 0 <= j < entries.len() implies (#[trigger] after[j]).0
                == entries[j].0 by {}
            match place_of(entries, other) {
                Some(k) => {
                    assert(after[k].0 == other || other == name);
                },
                None => {
                    assert forall|j: int| 0 <= j < after.len() && other != name implies (
                    #[trigger] after[j]).0 != other by {
                        assert(entries[j].0 != other);
                    }
                },
            }
        },
        None => {
            assert(after[entries.len() as int].0 == name);
            assert forall|j: int| 0 <= j < entries.len() implies #[trigger] after[j]
                == entries[j] by {}
            match place_of(entries, other) {
                Some(k) => {
                    assert(after[k].0 == other);
                    assert(entries[k].0 == other);
                },
                None => {
                    assert forall|j: int| 0 <= j < after.len() && other != name implies (
                    #[trigger] after[j]).0 != other by {
                        if j < entries.len() {
                            assert(entries[j].0 != other);
                        }
                    }
                },
            }
        },
    }
}

/// Giving a name a value keeps the names distinct.
pub proof fn law_inserted_distinct<V>(entries: Seq<(Seq<char>, V)>, name: Seq<char>, value: V)
    requires
        distinct_names(entries),
    ensures
        distinct_names(inserted(entries, name, value)),
{
    lemma_place_from(entries, name, 0);
}

/// A name has the value of the first entry for it, and none exactly where there is no
/// entry for it.
pub proof fn law_lookup<V>(entries: Seq<(Seq<char>, V)>, name: Seq<char>, i: int)
    ensures
        0 <= i < entries.len() && entries[i].0 == name && (forall|j: int|
            0 <= j < i ==> (#[trigger] entries[j]).0 != name) ==> lookup(entries, name) == Some(
            entries[i].1,
        ),
        lookup(entries, name) is None <==> forall|j: int|
            0 <= j < entries.len() ==> (#[trigger] entries[j]).0 != name,
{
    lemma_place_from(entries, name, 0);
    if place_of(entries, name) is Some {
        let k = place_of(entries, name)->0;
        assert(entries[k].0 == name);
    }
}

/// Giving a name a value keeps the names in their places: one that is there stays where
/// it is, one that is not comes behind the others.
pub proof fn law_inserted_keeps_places<V>(
    entries: Seq<(Seq<char>, V)>,
    name: Seq<char>,
    value: V,
    i: int,
)
    requires
        0 <= i < entries.len(),
    ensures
        inserted(entries, name, value)[i].0 == entries[i].0,
        entries[i].0 != name ==> inserted(entries, name, value)[i] == entries[i],
        (forall|j: int| 0 <= j < entries.len() ==> (#[trigger] entries[j]).0 != name) ==> inserted(
            entries,
            name,
            value,
        ) == entries.push((name, value)),
        entries[i].0 == name ==> inserted(entries, name, value).len() == entries.len(),
{
    lemma_place_from(entries, name, 0);
}

} // verus!
