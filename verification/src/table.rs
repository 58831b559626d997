//! A small map whose keys are told apart by their text.
//!
//! The entries stand in a vector, in the order in which their keys first came. No two of them have
//! the same key: that is the type's invariant, and it is what makes the view a map.
use vstd::prelude::*;

verus! {

/// What two keys have to agree in to be the same key.
pub trait Key: Sized {
    /// The texts that tell this key from others.
    spec fn id(&self) -> Seq<Seq<char>>;

    /// Whether the two keys are the same one.
    fn same(&self, other: &Self) -> (r: bool)
        ensures
            r == (self.id() == other.id()),
    ;
}

impl Key for String {
    open spec fn id(&self) -> Seq<Seq<char>> {
        seq![self@]
    }

    fn same(&self, other: &Self) -> bool {
        let r = *self == *other;
        assert(self.id()[0] == self@ && other.id()[0] == other@);
        r
    }
}

/// A map from keys to values.
pub struct Table<K: Key, V> {
    entries: Vec<(K, V)>,
}

/// The place of the entry with the given key.
spec fn is_at<K: Key, V>(entries: Seq<(K, V)>, id: Seq<Seq<char>>, i: int) -> bool {
    0 <= i < entries.len() && entries[i].0.id() == id
}

/// Whether some entry has the given key.
spec fn holds<K: Key, V>(entries: Seq<(K, V)>, id: Seq<Seq<char>>) -> bool {
    exists|i: int| is_at(entries, id, i)
}

/// Whether no two entries have the same key.
spec fn keys_differ<K: Key, V>(entries: Seq<(K, V)>) -> bool {
    forall|i: int, j: int|
        0 <= i < j < entries.len() ==> #[trigger] entries[i].0.id() != #[trigger] entries[j].0.id()
}

/// The entries as a map.
spec fn map_of<K: Key, V>(entries: Seq<(K, V)>) -> Map<Seq<Seq<char>>, V> {
    Map::new(
        |id: Seq<Seq<char>>| holds(entries, id),
        |id: Seq<Seq<char>>| entries[choose|i: int| is_at(entries, id, i)].1,
    )
}

/// With distinct keys the map gives for each entry's key that entry's value.
proof fn lemma_map_at<K: Key, V>(entries: Seq<(K, V)>, id: Seq<Seq<char>>, i: int)
    requires
        keys_differ(entries),
        is_at(entries, id, i),
    ensures
        map_of(entries).contains_key(id),
        map_of(entries)[id] == entries[i].1,
{
    assert(holds(entries, id));
    let k = choose|k: int| is_at(entries, id, k);
    assert(is_at(entries, id, k));
    assert(k == i);
}

impl<K: Key, V> View for Table<K, V> {
    type V = Map<Seq<Seq<char>>, V>;

    closed spec fn view(&self) -> Map<Seq<Seq<char>>, V> {
        map_of(self.entries@)
    }
}

impl<K: Key, V> Table<K, V> {
    #[verifier::type_invariant]
    spec fn keys_are_distinct(self) -> bool {
        keys_differ(self.entries@)
    }

    /// The entries, in the order in which their keys came.
    pub closed spec fn entries(self) -> Seq<(K, V)> {
        self.entries@
    }

    /// The map has the keys of the entries and no others.
    pub proof fn lemma_keys(self, id: Seq<Seq<char>>)
        ensures
            self@.contains_key(id) <==> exists|i: int|
                0 <= i < self.entries().len() && #[trigger] self.entries()[i].0.id() == id,
    {
        assert(self@.contains_key(id) <==> holds(self.entries@, id));
        if holds(self.entries@, id) {
            let i = choose|i: int| is_at(self.entries@, id, i);
            assert(self.entries()[i].0.id() == id);
        }
        if exists|i: int|
            0 <= i < self.entries().len() && #[trigger] self.entries()[i].0.id() == id {
            let i = choose|i: int|
                0 <= i < self.entries().len() && #[trigger] self.entries()[i].0.id() == id;
            assert(is_at(self.entries@, id, i));
        }
    }

    /// Tables with the same entries are the same map.
    pub proof fn lemma_same_entries(self, other: Self)
        requires
            self.entries() == other.entries(),
        ensures
            self@ == other@,
    {
    }

    /// An empty table.
    pub fn new() -> (t: Self)
        ensures
            t@ == Map::<Seq<Seq<char>>, V>::empty(),
            t.entries() == Seq::<(K, V)>::empty(),
    {
        let t = Table { entries: Vec::new() };
        assert(t@ =~= Map::<Seq<Seq<char>>, V>::empty());
        t
    }

    /// The number of entries.
    pub fn len(&self) -> (n: usize)
        ensures
            n == self.entries().len(),
    {
        self.entries.len()
    }

    /// The entry at a place in the table.
    pub fn at(&self, i: usize) -> (entry: &(K, V))
        requires
            i < self.entries().len(),
        ensures
            *entry == self.entries()[i as int],
            self@.contains_key(entry.0.id()),
            self@[entry.0.id()] == entry.1,
            forall|j: int|
                0 <= j < self.entries().len() && j != i ==> #[trigger] self.entries()[j].0.id()
                    != entry.0.id(),
    {
        proof {
            use_type_invariant(self);
            lemma_map_at(self.entries@, self.entries@[i as int].0.id(), i as int);
        }
        &self.entries[i]
    }

    /// Where the key stands.
    fn find(&self, key: &K) -> (r: Option<usize>)
        ensures
            match r {
                Some(i) => is_at(self.entries@, key.id(), i as int),
                None => !holds(self.entries@, key.id()),
            },
    {
        let mut i: usize = 0;
        while i < self.entries.len()
            invariant
                i <= self.entries@.len(),
                forall|j: int| 0 <= j < i ==> !is_at(self.entries@, key.id(), j),
            decreases self.entries@.len() - i,
        {
            if self.entries[i].0.same(key) {
                return Some(i);
            }
            i += 1;
        }
        None
    }

    /// Whether the table has an entry for the key.
    pub fn contains_key(&self, key: &K) -> (r: bool)
        ensures
            r == self@.contains_key(key.id()),
    {
        let found = self.find(key);
        found.is_some()
    }

    /// The value under the key.
    pub fn get(&self, key: &K) -> (r: Option<&V>)
        ensures
            match r {
                Some(v) => self@.contains_key(key.id()) && *v == self@[key.id()],
                None => !self@.contains_key(key.id()),
            },
    {
        proof {
            use_type_invariant(self);
        }
        match self.find(key) {
            Some(i) => {
                proof {
                    lemma_map_at(self.entries@, key.id(), i as int);
                }
                Some(&self.entries[i].1)
            },
            None => None,
        }
    }

    /// Takes the value under the key out of the table.
    pub fn remove(&mut self, key: &K) -> (r: Option<V>)
        ensures
            final(self)@ == old(self)@.remove(key.id()),
            match r {
                Some(v) => old(self)@.contains_key(key.id()) && v == old(self)@[key.id()],
                None => !old(self)@.contains_key(key.id()),
            },
            r is None ==> final(self).entries() == old(self).entries(),
            r is Some ==> exists|i: int|
                0 <= i < old(self).entries().len() && #[trigger] old(self).entries()[i].0.id()
                    == key.id() && final(self).entries() == old(self).entries().remove(i),
    {
        proof {
            use_type_invariant(&*self);
        }
        let ghost before = self.entries@;
        match self.find(key) {
            Some(i) => {
                let mut entries: Vec<(K, V)> = Vec::new();
                core::mem::swap(&mut entries, &mut self.entries);
                let removed = entries.remove(i);
                proof {
                    lemma_map_at(before, key.id(), i as int);
                    lemma_remove(before, key.id(), i as int);
                }
                self.entries = entries;
                assert(old(self).entries()[i as int].0.id() == key.id());
                Some(removed.1)
            },
            None => {
                assert(map_of(before).remove(key.id()) =~= map_of(before));
                None
            },
        }
    }

    /// Puts a value under the key, in the place of the one that was there.
    pub fn insert(&mut self, key: K, value: V)
        ensures
            final(self)@ == old(self)@.insert(key.id(), value),
            !old(self)@.contains_key(key.id()) ==> final(self).entries() == old(
                self,
            ).entries().push((key, value)),
            old(self)@.contains_key(key.id()) ==> exists|i: int|
                0 <= i < old(self).entries().len() && #[trigger] old(self).entries()[i].0.id()
                    == key.id() && final(self).entries() == old(self).entries().update(
                    i,
                    (key, value),
                ),
    {
        proof {
            use_type_invariant(&*self);
        }
        let ghost before = self.entries@;
        let ghost id = key.id();
        let found = self.find(&key);
        let mut entries: Vec<(K, V)> = Vec::new();
        core::mem::swap(&mut entries, &mut self.entries);
        match found {
            Some(i) => {
                entries[i] = (key, value);
                proof {
                    lemma_replace(before, key, value, i as int);
                    assert(old(self).entries()[i as int].0.id() == id);
                }
            },
            None => {
                entries.push((key, value));
                proof {
                    lemma_push(before, key, value);
                }
            },
        }
        self.entries = entries;
    }
}

/// Taking an entry out takes its key out of the map.
proof fn lemma_remove<K: Key, V>(entries: Seq<(K, V)>, id: Seq<Seq<char>>, i: int)
    requires
        keys_differ(entries),
        is_at(entries, id, i),
    ensures
        keys_differ(entries.remove(i)),
        map_of(entries.remove(i)) == map_of(entries).remove(id),
{
    let after = entries.remove(i);
    assert forall|a: int, b: int| 0 <= a < b < after.len() implies #[trigger] after[a].0.id()
        != #[trigger] after[b].0.id() by {
        let p = if a < i { a } else { a + 1 };
        let q = if b < i { b } else { b + 1 };
        assert(after[a] == entries[p] && after[b] == entries[q]);
        assert(entries[p].0.id() != entries[q].0.id());
    }
    assert forall|other: Seq<Seq<char>>| #![trigger holds(after, other)]
        holds(after, other) <==> holds(entries, other) && other != id by {
        if holds(after, other) {
            let a = choose|a: int| is_at(after, other, a);
            let p = if a < i { a } else { a + 1 };
            assert(is_at(entries, other, p));
            if p < i {
                assert(entries[p].0.id() != entries[i].0.id());
            } else {
                assert(entries[i].0.id() != entries[p].0.id());
            }
        }
        if holds(entries, other) && other != id {
            let p = choose|p: int| is_at(entries, other, p);
            let a = if p < i { p } else { p - 1 };
            assert(is_at(after, other, a));
        }
    }
    assert forall|other: Seq<Seq<char>>| holds(after, other) implies map_of(after)[other]
        == map_of(entries)[other] by {
        let a = choose|a: int| is_at(after, other, a);
        let p = if a < i { a } else { a + 1 };
        assert(is_at(entries, other, p));
        lemma_map_at(after, other, a);
        lemma_map_at(entries, other, p);
    }
    assert(map_of(after) =~= map_of(entries).remove(id));
}

/// Replacing an entry by one with the same key replaces the value under the key.
proof fn lemma_replace<K: Key, V>(entries: Seq<(K, V)>, key: K, value: V, i: int)
    requires
        keys_differ(entries),
        is_at(entries, key.id(), i),
    ensures
        keys_differ(entries.update(i, (key, value))),
        map_of(entries.update(i, (key, value))) == map_of(entries).insert(key.id(), value),
{
    let after = entries.update(i, (key, value));
    assert forall|a: int| 0 <= a < after.len() implies #[trigger] after[a].0.id()
        == entries[a].0.id() by {}
    assert(keys_differ(after)) by {
        assert forall|a: int, b: int| 0 <= a < b < after.len() implies #[trigger] after[a].0.id()
            != #[trigger] after[b].0.id() by {
            assert(entries[a].0.id() != entries[b].0.id());
        }
    }
    assert forall|other: Seq<Seq<char>>, a: int| is_at(after, other, a) <==> is_at(
        entries,
        other,
        a,
    ) by {}
    assert forall|other: Seq<Seq<char>>| #![trigger holds(after, other)]
        holds(after, other) <==> holds(entries, other) by {
        if holds(after, other) {
            let a = choose|a: int| is_at(after, other, a);
            assert(is_at(entries, other, a));
        }
        if holds(entries, other) {
            let a = choose|a: int| is_at(entries, other, a);
            assert(is_at(after, other, a));
        }
    }
    assert(is_at(after, key.id(), i));
    assert forall|other: Seq<Seq<char>>| holds(after, other) implies map_of(after)[other] == map_of(
        entries,
    ).insert(key.id(), value)[other] by {
        let a = choose|a: int| is_at(after, other, a);
        assert(is_at(entries, other, a));
        lemma_map_at(after, other, a);
        lemma_map_at(entries, other, a);
        if other == key.id() {
            lemma_map_at(after, other, i);
        } else {
            assert(a != i);
        }
    }
    assert(map_of(after) =~= map_of(entries).insert(key.id(), value));
}

/// A new entry with a new key adds its value under that key.
proof fn lemma_push<K: Key, V>(entries: Seq<(K, V)>, key: K, value: V)
    requires
        keys_differ(entries),
        !holds(entries, key.id()),
    ensures
        keys_differ(entries.push((key, value))),
        map_of(entries.push((key, value))) == map_of(entries).insert(key.id(), value),
{
    let after = entries.push((key, value));
    assert(keys_differ(after)) by {
        assert forall|a: int, b: int| 0 <= a < b < after.len() implies #[trigger] after[a].0.id()
            != #[trigger] after[b].0.id() by {
            if b < entries.len() {
                assert(entries[a].0.id() != entries[b].0.id());
            } else if entries[a].0.id() == key.id() {
                assert(is_at(entries, key.id(), a));
            }
        }
    }
    assert(is_at(after, key.id(), entries.len() as int));
    assert forall|other: Seq<Seq<char>>| #![trigger holds(after, other)]
        holds(after, other) <==> holds(entries, other) || other == key.id() by {
        if holds(after, other) {
            let a = choose|a: int| is_at(after, other, a);
            if a < entries.len() {
                assert(is_at(entries, other, a));
            }
        }
        if holds(entries, other) {
            let a = choose|a: int| is_at(entries, other, a);
            assert(is_at(after, other, a));
        }
    }
    assert forall|other: Seq<Seq<char>>| holds(after, other) implies map_of(after)[other] == map_of(
        entries,
    ).insert(key.id(), value)[other] by {
        if other == key.id() {
            lemma_map_at(after, other, entries.len() as int);
        } else {
            let a = choose|a: int| is_at(entries, other, a);
            assert(is_at(after, other, a));
            lemma_map_at(after, other, a);
            lemma_map_at(entries, other, a);
        }
    }
    assert(map_of(after) =~= map_of(entries).insert(key.id(), value));
}

} // verus!
