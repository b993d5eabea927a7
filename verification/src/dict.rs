//! Registries of values keyed by name.
//!
//! A registry is an association list whose keys are unique, seen in
//! contracts as a map from name views to values.  Inserting under a name
//! that is already present replaces the old value.

use vstd::prelude::*;

verus! {

/// Unique keys: no two entries carry the same name.
pub open spec fn keys_unique<V>(entries: Seq<(String, V)>) -> bool {
    forall|i: int, j: int|
        0 <= i < j < entries.len() ==> (#[trigger] entries[i]).0@ != (#[trigger] entries[j]).0@
}

/// The map that an entry list stands for; later entries win.
pub open spec fn map_of<V>(entries: Seq<(String, V)>) -> Map<Seq<char>, V>
    decreases entries.len(),
{
    if entries.len() == 0 {
        Map::empty()
    } else {
        map_of(entries.drop_last()).insert(entries.last().0@, entries.last().1)
    }
}

/// Every entry's key is in the map.
pub proof fn lemma_map_of_contains_at<V>(entries: Seq<(String, V)>, i: int)
    requires
        0 <= i < entries.len(),
    ensures
        map_of(entries).contains_key(entries[i].0@),
    decreases entries.len(),
{
    if i < entries.len() - 1 {
        assert(entries.drop_last()[i] == entries[i]);
        lemma_map_of_contains_at(entries.drop_last(), i);
    }
}

/// Every key in the map is carried by some entry.
pub proof fn lemma_map_of_key_exists<V>(entries: Seq<(String, V)>, k: Seq<char>)
    requires
        map_of(entries).contains_key(k),
    ensures
        exists|i: int| 0 <= i < entries.len() && (#[trigger] entries[i]).0@ == k,
    decreases entries.len(),
{
    if entries.last().0@ == k {
        assert(entries[entries.len() - 1].0@ == k);
    } else {
        lemma_map_of_key_exists(entries.drop_last(), k);
        let i = choose|i: int|
            0 <= i < entries.drop_last().len() && (#[trigger] entries.drop_last()[i]).0@ == k;
        assert(entries.drop_last()[i] == entries[i]);
        assert(entries[i].0@ == k);
    }
}

/// A key is in the map exactly when some entry carries it.
pub proof fn lemma_map_of_contains<V>(entries: Seq<(String, V)>)
    ensures
        forall|k: Seq<char>|
            #[trigger] map_of(entries).contains_key(k) <==> exists|i: int|
                0 <= i < entries.len() && (#[trigger] entries[i]).0@ == k,
{
    assert forall|k: Seq<char>| #[trigger]
        map_of(entries).contains_key(k) implies exists|i: int|
        0 <= i < entries.len() && (#[trigger] entries[i]).0@ == k by {
        lemma_map_of_key_exists(entries, k);
    }
    assert forall|k: Seq<char>|
        exists|i: int|
            0 <= i < entries.len() && (#[trigger] entries[i]).0@ == k implies map_of(
            entries,
        ).contains_key(k) by {
        let i = choose|i: int| 0 <= i < entries.len() && (#[trigger] entries[i]).0@ == k;
        lemma_map_of_contains_at(entries, i);
    }
}

/// With unique keys, the map holds each entry's value under its name.
pub proof fn lemma_map_of_get<V>(entries: Seq<(String, V)>, i: int)
    requires
        keys_unique(entries),
        0 <= i < entries.len(),
    ensures
        map_of(entries).contains_key(entries[i].0@),
        map_of(entries)[entries[i].0@] == entries[i].1,
    decreases entries.len(),
{
    if i == entries.len() - 1 {
    } else {
        assert(keys_unique(entries.drop_last()));
        assert(entries.drop_last()[i] == entries[i]);
        lemma_map_of_get(entries.drop_last(), i);
        assert(entries.last().0@ != entries[i].0@);
    }
}

/// With unique keys, removing an entry removes exactly its name.
pub proof fn lemma_map_of_remove<V>(entries: Seq<(String, V)>, i: int)
    requires
        keys_unique(entries),
        0 <= i < entries.len(),
    ensures
        map_of(entries.remove(i)) =~= map_of(entries).remove(entries[i].0@),
    decreases entries.len(),
{
    let last = entries.len() - 1;
    if i == last {
        assert(entries.remove(i) =~= entries.drop_last());
        lemma_map_of_contains(entries.drop_last());
        assert(forall|j: int|
            0 <= j < entries.drop_last().len() ==> (#[trigger] entries.drop_last()[j]).0@
                != entries[i].0@);
        assert(!map_of(entries.drop_last()).contains_key(entries[i].0@));
        assert(map_of(entries.drop_last()).insert(entries.last().0@, entries.last().1).remove(
            entries[i].0@,
        ) =~= map_of(entries.drop_last()));
    } else {
        assert(keys_unique(entries.drop_last()));
        assert(entries.drop_last()[i] == entries[i]);
        lemma_map_of_remove(entries.drop_last(), i);
        assert(entries.remove(i).drop_last() =~= entries.drop_last().remove(i));
        assert(entries.remove(i).last() == entries.last());
        assert(entries.last().0@ != entries[i].0@);
    }
}

/// With unique keys, the map holds exactly as many names as there are
/// entries.
pub proof fn lemma_map_of_dom_len<V>(entries: Seq<(String, V)>)
    requires
        keys_unique(entries),
    ensures
        map_of(entries).dom().finite(),
        map_of(entries).dom().len() == entries.len(),
    decreases entries.len(),
{
    broadcast use vstd::set::axiom_set_insert_len;

    if entries.len() > 0 {
        assert(keys_unique(entries.drop_last()));
        lemma_map_of_dom_len(entries.drop_last());
        lemma_map_of_contains(entries.drop_last());
        assert(forall|j: int|
            0 <= j < entries.drop_last().len() ==> (#[trigger] entries.drop_last()[j]).0@
                != entries.last().0@);
        assert(!map_of(entries.drop_last()).contains_key(entries.last().0@));
    }
}

/// A registry of values keyed by name.
#[derive(Clone, Debug, PartialEq)]
pub struct Dict<V> {
    entries: Vec<(String, V)>,
}

impl<V> View for Dict<V> {
    type V = Map<Seq<char>, V>;

    /// The map from name views to values.
    closed spec fn view(&self) -> Map<Seq<char>, V> {
        map_of(self.entries@)
    }
}

impl<V> Dict<V> {
    /// Well-formed: the keys are unique.  Every constructor establishes
    /// this and every method keeps it.
    pub closed spec fn wf(&self) -> bool {
        keys_unique(self.entries@)
    }

    /// Creates an empty registry.
    pub fn new() -> (d: Dict<V>)
        ensures
            d@ == Map::<Seq<char>, V>::empty(),
            d.wf(),
    {
        Dict { entries: Vec::new() }
    }

    /// Returns the index of the entry with the given name, if any.
    fn find(&self, name: &str) -> (r: Option<usize>)
        ensures
            match r {
                Some(i) => i < self.entries@.len() && self.entries@[i as int].0@ == name@,
                None => forall|i: int|
                    0 <= i < self.entries@.len() ==> (#[trigger] self.entries@[i]).0@ != name@,
            },
    {
        let n = self.entries.len();
        let mut i: usize = 0;
        while i < n
            invariant
                i <= n,
                n == self.entries@.len(),
                forall|k: int| 0 <= k < i ==> (#[trigger] self.entries@[k]).0@ != name@,
            decreases n - i,
        {
            if crate::text::str_eq(self.entries[i].0.as_str(), name) {
                return Some(i);
            }
            i += 1;
        }
        None
    }

    /// Stores a value under a name, replacing any value the name held.
    pub fn insert(&mut self, name: String, value: V)
        requires
            old(self).wf(),
        ensures
            final(self)@ == old(self)@.insert(name@, value),
            final(self).wf(),
    {
        let found = self.find(name.as_str());
        match found {
            Some(i) => {
                proof {
                    lemma_map_of_remove(self.entries@, i as int);
                }
                let ghost before = self.entries@;
                self.entries.remove(i);
                proof {
                    assert(forall|j: int|
                        0 <= j < self.entries@.len() ==> (#[trigger] self.entries@[j]).0@
                            != name@);
                }
                let ghost removed = self.entries@;
                self.entries.push((name, value));
                proof {
                    assert(self.entries@.drop_last() =~= removed);
                    assert(keys_unique(self.entries@));
                    assert(map_of(self.entries@) =~= map_of(before).insert(
                        self.entries@.last().0@,
                        self.entries@.last().1,
                    ));
                }
            },
            None => {
                let ghost before = self.entries@;
                self.entries.push((name, value));
                proof {
                    assert(self.entries@.drop_last() =~= before);
                    assert(keys_unique(self.entries@));
                }
            },
        }
    }

    /// Returns the value stored under a name, if any.
    pub fn get(&self, name: &str) -> (r: Option<&V>)
        requires
            self.wf(),
        ensures
            match r {
                Some(v) => self@.contains_key(name@) && *v == self@[name@],
                None => !self@.contains_key(name@),
            },
    {
        let found = self.find(name);
        match found {
            Some(i) => {
                proof {
                    lemma_map_of_get(self.entries@, i as int);
                }
                Some(&self.entries[i].1)
            },
            None => {
                proof {
                    lemma_map_of_contains(self.entries@);
                }
                None
            },
        }
    }

    /// Returns true if a value is stored under the name.
    pub fn contains(&self, name: &str) -> (r: bool)
        requires
            self.wf(),
        ensures
            r == self@.contains_key(name@),
    {
        self.get(name).is_some()
    }

    /// Returns how many names the registry holds.
    pub fn len(&self) -> (r: usize)
        requires
            self.wf(),
        ensures
            self@.dom().finite(),
            r == self@.dom().len(),
    {
        proof {
            lemma_map_of_dom_len(self.entries@);
        }
        self.entries.len()
    }

    /// Returns the entries in insertion order; each name appears once and
    /// holds what the registry stores under it.
    pub fn entries(&self) -> (r: &Vec<(String, V)>)
        requires
            self.wf(),
        ensures
            keys_unique(r@),
            self@.dom().finite(),
            self@.dom().len() == r@.len(),
            forall|i: int|
                0 <= i < r@.len() ==> self@.contains_key((#[trigger] r@[i]).0@) && self@[r@[i].0@]
                    == r@[i].1,
            forall|k: Seq<char>|
                #[trigger] self@.contains_key(k) ==> exists|i: int|
                    0 <= i < r@.len() && (#[trigger] r@[i]).0@ == k,
    {
        proof {
            lemma_map_of_dom_len(self.entries@);
            lemma_map_of_contains(self.entries@);
            assert forall|i: int| 0 <= i < self.entries@.len() implies self@.contains_key(
                (#[trigger] self.entries@[i]).0@,
            ) && self@[self.entries@[i].0@] == self.entries@[i].1 by {
                lemma_map_of_get(self.entries@, i);
            }
        }
        &self.entries
    }
}

} // verus!
