//! A small map from texts to plain values.
use crate::text::same;
use vstd::prelude::*;

verus! {

pub open spec fn unique_keys<V>(entries: Seq<(String, V)>) -> bool {
    forall|i: int, j: int|
        0 <= i < j < entries.len() ==> (#[trigger] entries[i]).0@ != (#[trigger] entries[j]).0@
}

pub open spec fn has_key<V>(entries: Seq<(String, V)>, k: Seq<char>) -> bool {
    exists|i: int| 0 <= i < entries.len() && (#[trigger] entries[i]).0@ == k
}

pub open spec fn key_index<V>(entries: Seq<(String, V)>, k: Seq<char>) -> int {
    choose|i: int| 0 <= i < entries.len() && (#[trigger] entries[i]).0@ == k
}

pub open spec fn entries_map<V>(entries: Seq<(String, V)>) -> Map<Seq<char>, V> {
    Map::new(
        |k: Seq<char>| has_key(entries, k),
        |k: Seq<char>| entries[key_index(entries, k)].1,
    )
}

pub proof fn lemma_entry<V>(entries: Seq<(String, V)>, i: int)
    requires
        unique_keys(entries),
        0 <= i < entries.len(),
    ensures
        entries_map(entries).contains_key(entries[i].0@),
        entries_map(entries)[entries[i].0@] == entries[i].1,
{
    let k = entries[i].0@;
    assert(has_key(entries, k));
    let j = key_index(entries, k);
    assert(0 <= j < entries.len() && entries[j].0@ == k);
    if i < j {
        assert(entries[i].0@ != entries[j].0@);
    }
    if j < i {
        assert(entries[j].0@ != entries[i].0@);
    }
}

proof fn lemma_set<V>(entries: Seq<(String, V)>, i: int, e: (String, V))
    requires
        unique_keys(entries),
        0 <= i < entries.len(),
        e.0@ == entries[i].0@,
    ensures
        unique_keys(entries.update(i, e)),
        entries_map(entries.update(i, e)) == entries_map(entries).insert(e.0@, e.1),
{
    let u = entries.update(i, e);
    assert forall|a: int, b: int| 0 <= a < b < u.len() implies (#[trigger] u[a]).0@ != (#[trigger]
    u[b]).0@ by {
        assert(u[a].0@ == entries[a].0@ && u[b].0@ == entries[b].0@);
    }
    assert forall|k: Seq<char>| has_key(u, k) == (has_key(entries, k) || k == e.0@) by {
        if has_key(u, k) {
            let j = key_index(u, k);
            assert(u[j].0@ == k);
            assert(entries[j].0@ == k);
        }
        if has_key(entries, k) {
            let j = key_index(entries, k);
            assert(entries[j].0@ == k);
            assert(u[j].0@ == k);
        }
        assert(u[i].0@ == e.0@);
    }
    assert forall|k: Seq<char>| has_key(u, k) implies entries_map(u)[k] == entries_map(
        entries,
    ).insert(e.0@, e.1)[k] by {
        let j = key_index(u, k);
        assert(u[j].0@ == k);
        lemma_entry(u, j);
        lemma_entry(entries, j);
        lemma_entry(u, i);
    }
    assert(entries_map(u) =~= entries_map(entries).insert(e.0@, e.1));
}

proof fn lemma_push<V>(entries: Seq<(String, V)>, e: (String, V))
    requires
        unique_keys(entries),
        !has_key(entries, e.0@),
    ensures
        unique_keys(entries.push(e)),
        entries_map(entries.push(e)) == entries_map(entries).insert(e.0@, e.1),
{
    let u = entries.push(e);
    assert forall|a: int, b: int| 0 <= a < b < u.len() implies (#[trigger] u[a]).0@ != (#[trigger]
    u[b]).0@ by {
        assert(u[a] == entries[a]);
        if b < entries.len() {
            assert(u[b] == entries[b]);
        }
    }
    assert forall|k: Seq<char>| has_key(u, k) == (has_key(entries, k) || k == e.0@) by {
        if has_key(u, k) {
            let j = key_index(u, k);
            assert(u[j].0@ == k);
            if j < entries.len() {
                assert(entries[j].0@ == k);
            }
        }
        if has_key(entries, k) {
            let j = key_index(entries, k);
            assert(entries[j].0@ == k);
            assert(u[j].0@ == k);
        }
        assert(u[entries.len() as int].0@ == e.0@);
    }
    assert forall|k: Seq<char>| has_key(u, k) implies entries_map(u)[k] == entries_map(
        entries,
    ).insert(e.0@, e.1)[k] by {
        let j = key_index(u, k);
        assert(u[j].0@ == k);
        lemma_entry(u, j);
        if j < entries.len() {
            lemma_entry(entries, j);
            assert(entries[j].0@ == k);
        }
    }
    assert(entries_map(u) =~= entries_map(entries).insert(e.0@, e.1));
}

proof fn lemma_drop<V>(entries: Seq<(String, V)>, i: int)
    requires
        unique_keys(entries),
        0 <= i < entries.len(),
    ensures
        unique_keys(entries.remove(i)),
        entries_map(entries.remove(i)) == entries_map(entries).remove(entries[i].0@),
{
    let u = entries.remove(i);
    assert forall|a: int| 0 <= a < u.len() implies #[trigger] u[a] == entries[if a < i {
        a
    } else {
        a + 1
    }] by {}
    assert forall|a: int, b: int| 0 <= a < b < u.len() implies (#[trigger] u[a]).0@ != (#[trigger]
    u[b]).0@ by {
        let x = if a < i { a } else { a + 1 };
        let y = if b < i { b } else { b + 1 };
        assert(entries[x].0@ != entries[y].0@);
    }
    assert forall|k: Seq<char>| has_key(u, k) == (has_key(entries, k) && k != entries[i].0@) by {
        if has_key(u, k) {
            let j = key_index(u, k);
            let x = if j < i { j } else { j + 1 };
            assert(u[j].0@ == k && u[j] == entries[x]);
            if x < i {
                assert(entries[x].0@ != entries[i].0@);
            } else {
                assert(entries[i].0@ != entries[x].0@);
            }
        }
        if has_key(entries, k) && k != entries[i].0@ {
            let j = key_index(entries, k);
            assert(entries[j].0@ == k);
            let x = if j < i { j } else { j - 1 };
            assert(u[x] == entries[j]);
        }
    }
    assert forall|k: Seq<char>| has_key(u, k) implies entries_map(u)[k] == entries_map(
        entries,
    )[k] by {
        let j = key_index(u, k);
        let x = if j < i { j } else { j + 1 };
        assert(u[j].0@ == k && u[j] == entries[x]);
        lemma_entry(u, j);
        lemma_entry(entries, x);
    }
    assert(entries_map(u) =~= entries_map(entries).remove(entries[i].0@));
}

/// A map from texts to plain values.
pub struct PathMap<V: Copy> {
    entries: Vec<(String, V)>,
}

impl<V: Copy> View for PathMap<V> {
    type V = Map<Seq<char>, V>;

    open spec fn view(&self) -> Map<Seq<char>, V> {
        entries_map(self.items())
    }
}

impl<V: Copy> PathMap<V> {
    /// The entries in the order in which they stand.
    pub closed spec fn items(&self) -> Seq<(String, V)> {
        self.entries@
    }

    /// No key occurs twice.
    pub open spec fn wf(&self) -> bool {
        unique_keys(self.items())
    }

    /// An empty map.
    pub fn new() -> (m: PathMap<V>)
        ensures
            m.wf(),
            m.items() == Seq::<(String, V)>::empty(),
            m@ == Map::<Seq<char>, V>::empty(),
    {
        let m = PathMap { entries: Vec::new() };
        assert(m@ =~= Map::<Seq<char>, V>::empty());
        m
    }

    /// Number of entries.
    pub fn len(&self) -> (n: usize)
        ensures
            n == self.items().len(),
    {
        self.entries.len()
    }

    /// The key at position `i`.
    pub fn key_at(&self, i: usize) -> (k: &String)
        requires
            i < self.items().len(),
        ensures
            *k == self.items()[i as int].0,
    {
        &self.entries[i].0
    }

    /// The value at position `i`.
    pub fn value_at(&self, i: usize) -> (v: V)
        requires
            i < self.items().len(),
        ensures
            v == self.items()[i as int].1,
    {
        self.entries[i].1
    }

    fn find(&self, k: &str) -> (r: Option<usize>)
        requires
            self.wf(),
        ensures
            r is None <==> !self@.contains_key(k@),
            r matches Some(i) ==> i < self.items().len() && self.items()[i as int].0@ == k@
                && self@[k@] == self.items()[i as int].1,
    {
        let mut i: usize = 0;
        while i < self.entries.len()
            invariant
                i <= self.entries@.len(),
                unique_keys(self.entries@),
                forall|j: int| 0 <= j < i ==> (#[trigger] self.entries@[j]).0@ != k@,
            decreases self.entries@.len() - i,
        {
            if same(self.entries[i].0.as_str(), k) {
                proof {
                    lemma_entry(self.entries@, i as int);
                }
                return Some(i);
            }
            i += 1;
        }
        None
    }

    /// The value of a key.
    pub fn get(&self, k: &str) -> (r: Option<V>)
        requires
            self.wf(),
        ensures
            r == if self@.contains_key(k@) {
                Some(self@[k@])
            } else {
                None
            },
    {
        match self.find(k) {
            Some(i) => Some(self.entries[i].1),
            None => None,
        }
    }

    /// Sets the value of a key.
    pub fn put(&mut self, k: &str, v: V)
        requires
            old(self).wf(),
        ensures
            final(self).wf(),
            final(self)@ == old(self)@.insert(k@, v),
    {
        let e = (k.to_owned(), v);
        match self.find(k) {
            Some(i) => {
                proof {
                    lemma_set(self.entries@, i as int, e);
                }
                self.entries.set(i, e);
            },
            None => {
                proof {
                    lemma_push(self.entries@, e);
                }
                self.entries.push(e);
            },
        }
    }

    /// Sets the value at position `i`.
    pub fn set_at(&mut self, i: usize, v: V)
        requires
            old(self).wf(),
            i < old(self).items().len(),
        ensures
            final(self).wf(),
            final(self).items().len() == old(self).items().len(),
            forall|j: int|
                0 <= j < old(self).items().len() ==> (#[trigger] final(self).items()[j]).0@ == old(
                    self,
                ).items()[j].0@ && final(self).items()[j].1 == if j == i {
                    v
                } else {
                    old(self).items()[j].1
                },
            final(self)@ == old(self)@.insert(old(self).items()[i as int].0@, v),
    {
        let e = (self.entries[i].0.clone(), v);
        proof {
            lemma_set(self.entries@, i as int, e);
        }
        self.entries.set(i, e);
    }

    /// Removes a key; returned is the value that it had.
    pub fn remove(&mut self, k: &str) -> (r: Option<V>)
        requires
            old(self).wf(),
        ensures
            final(self).wf(),
            final(self)@ == old(self)@.remove(k@),
            r == if old(self)@.contains_key(k@) {
                Some(old(self)@[k@])
            } else {
                None
            },
    {
        match self.find(k) {
            Some(i) => {
                proof {
                    lemma_drop(self.entries@, i as int);
                }
                let (_, v) = self.entries.remove(i);
                Some(v)
            },
            None => {
                assert(self@ =~= self@.remove(k@));
                None
            },
        }
    }

    /// Removes the entry at position `i`.
    pub fn remove_at(&mut self, i: usize)
        requires
            old(self).wf(),
            i < old(self).items().len(),
        ensures
            final(self).wf(),
            final(self).items() == old(self).items().remove(i as int),
            final(self)@ == old(self)@.remove(old(self).items()[i as int].0@),
    {
        proof {
            lemma_drop(self.entries@, i as int);
        }
        let _gone = self.entries.remove(i);
    }
}

/// The entries of a map of times with a time later than `limit`.
pub open spec fn later_than(m: Map<Seq<char>, u64>, limit: int) -> Map<Seq<char>, u64> {
    Map::new(|k: Seq<char>| m.contains_key(k) && m[k] > limit, |k: Seq<char>| m[k])
}

/// Removes the entries whose time is not later than `limit`.
pub fn keep_later(m: &mut PathMap<u64>, limit: u64)
    requires
        old(m).wf(),
    ensures
        final(m).wf(),
        final(m)@ == later_than(old(m)@, limit as int),
{
    let ghost m0 = m@;
    let mut i: usize = 0;
    while i < m.len()
        invariant
            i <= m.items().len(),
            m.wf(),
            forall|k: Seq<char>| #[trigger]
                m@.contains_key(k) ==> m0.contains_key(k) && m@[k] == m0[k],
            forall|k: Seq<char>| #[trigger]
                m0.contains_key(k) && !m@.contains_key(k) ==> m0[k] <= limit,
            forall|j: int| 0 <= j < i ==> (#[trigger] m.items()[j]).1 > limit,
        decreases m.items().len() - i,
    {
        proof {
            lemma_entry(m.items(), i as int);
        }
        if m.value_at(i) > limit {
            i += 1;
        } else {
            m.remove_at(i);
        }
    }
    proof {
        assert forall|k: Seq<char>| m@.contains_key(k) implies m@[k] > limit by {
            let j = key_index(m.items(), k);
            assert(m.items()[j].0@ == k);
            lemma_entry(m.items(), j);
        }
        assert(m@ =~= later_than(m0, limit as int));
    }
}

/// What is later than the limit stays with its time, and all else goes.
pub proof fn law_only_later_entries_stay(m: &mut PathMap<u64>, limit: u64, k: Seq<char>)
    requires
        old(m).wf(),
        call_ensures(keep_later, (m, limit), ()),
    ensures
        old(m)@.contains_key(k) && old(m)@[k] > limit ==> final(m)@.contains_key(k) && final(m)@[k]
            == old(m)@[k],
        final(m)@.contains_key(k) ==> old(m)@.contains_key(k) && old(m)@[k] > limit,
{
}

} // verus!
