//! A small association table: a vector of entries in which no key occurs
//! twice, read in contracts as a `Map` from key views to values.

use vstd::prelude::*;

verus! {

/// A key of a [`Table`]: two keys are the same entry exactly when their
/// views are equal, and `same` decides that.
pub trait TableKey: View + Sized {
    fn same(&self, other: &Self) -> (r: bool)
        ensures
            r == (self@ == other@),
    ;
}

/// Whether some entry of `s` has the key `k`.
pub open spec fn entries_have<K: View, V>(s: Seq<(K, V)>, k: K::V) -> bool {
    exists|i: int| 0 <= i < s.len() && (#[trigger] s[i]).0@ == k
}

/// The place of an entry of `s` with the key `k`.
pub open spec fn entries_index<K: View, V>(s: Seq<(K, V)>, k: K::V) -> int {
    choose|i: int| 0 <= i < s.len() && (#[trigger] s[i]).0@ == k
}

/// No key occurs in two entries of `s`.
pub open spec fn entries_distinct<K: View, V>(s: Seq<(K, V)>) -> bool {
    forall|i: int, j: int|
        0 <= i < s.len() && 0 <= j < s.len() && i != j ==> (#[trigger] s[i]).0@ != (#[trigger] s[j]).0@
}

/// The map that the entries of `s` stand for.
pub open spec fn entries_map<K: View, V>(s: Seq<(K, V)>) -> Map<K::V, V> {
    Map::new(|k: K::V| entries_have(s, k), |k: K::V| s[entries_index(s, k)].1)
}

/// In a sequence of distinct keys, the entry at `i` is the one its key maps to.
pub proof fn lemma_entry_at<K: View, V>(s: Seq<(K, V)>, i: int)
    requires
        entries_distinct(s),
        0 <= i < s.len(),
    ensures
        entries_have(s, s[i].0@),
        entries_index(s, s[i].0@) == i,
        entries_map(s).contains_key(s[i].0@),
        entries_map(s)[s[i].0@] == s[i].1,
{
    let k = s[i].0@;
    assert(entries_have(s, k));
    let j = entries_index(s, k);
    assert(0 <= j < s.len() && s[j].0@ == k);
}

/// Appending an entry with a new key inserts it into the map.
pub proof fn lemma_entries_push<K: View, V>(s: Seq<(K, V)>, k: K, v: V)
    requires
        entries_distinct(s),
        !entries_have(s, k@),
    ensures
        entries_distinct(s.push((k, v))),
        entries_map(s.push((k, v))) == entries_map(s).insert(k@, v),
{
    let t = s.push((k, v));
    assert forall|i: int, j: int| 0 <= i < t.len() && 0 <= j < t.len() && i != j implies (#[trigger] t[i]).0@
        != (#[trigger] t[j]).0@ by {
        if i < s.len() {
            assert(t[i] == s[i]);
        }
        if j < s.len() {
            assert(t[j] == s[j]);
        }
    }
    assert(t[s.len() as int] == (k, v));
    assert forall|x: K::V| #[trigger] entries_map(t).contains_key(x) == entries_map(s).insert(k@, v).contains_key(x) by {
        if entries_have(t, x) {
            let i = entries_index(t, x);
            if i < s.len() {
                assert(s[i] == t[i]);
            }
        }
        if entries_have(s, x) {
            let i = entries_index(s, x);
            assert(t[i] == s[i]);
        }
    }
    assert forall|x: K::V| entries_map(t).contains_key(x) implies #[trigger] entries_map(t)[x] == entries_map(
        s,
    ).insert(k@, v)[x] by {
        let i = entries_index(t, x);
        lemma_entry_at(t, i);
        if i < s.len() {
            assert(s[i] == t[i]);
            lemma_entry_at(s, i);
        }
    }
    assert(entries_map(t) =~= entries_map(s).insert(k@, v));
}

/// Taking the entry at `i` out removes its key from the map.
pub proof fn lemma_entries_remove<K: View, V>(s: Seq<(K, V)>, i: int)
    requires
        entries_distinct(s),
        0 <= i < s.len(),
    ensures
        entries_distinct(s.remove(i)),
        entries_map(s.remove(i)) == entries_map(s).remove(s[i].0@),
{
    let t = s.remove(i);
    let k = s[i].0@;
    assert forall|a: int| 0 <= a < t.len() implies #[trigger] t[a] == s[if a < i { a } else { a + 1 }] by {}
    assert forall|a: int, b: int| 0 <= a < t.len() && 0 <= b < t.len() && a != b implies (#[trigger] t[a]).0@
        != (#[trigger] t[b]).0@ by {
        let a2 = if a < i { a } else { a + 1 };
        let b2 = if b < i { b } else { b + 1 };
        assert(t[a] == s[a2]);
        assert(t[b] == s[b2]);
    }
    assert forall|x: K::V| #[trigger] entries_map(t).contains_key(x) == entries_map(s).remove(k).contains_key(x) by {
        if entries_have(t, x) {
            let a = entries_index(t, x);
            let a2 = if a < i { a } else { a + 1 };
            assert(t[a] == s[a2]);
            assert(entries_have(s, x));
            assert(x != k);
        }
        if entries_have(s, x) && x != k {
            let a = entries_index(s, x);
            let a2 = if a < i { a } else { a - 1 };
            assert(t[a2] == s[a]);
        }
    }
    assert forall|x: K::V| entries_map(t).contains_key(x) implies #[trigger] entries_map(t)[x] == entries_map(
        s,
    ).remove(k)[x] by {
        let a = entries_index(t, x);
        let a2 = if a < i { a } else { a + 1 };
        assert(t[a] == s[a2]);
        lemma_entry_at(t, a);
        lemma_entry_at(s, a2);
    }
    assert(entries_map(t) =~= entries_map(s).remove(k));
}

/// A map from keys to values, held as a vector of entries with distinct keys.
#[derive(Debug)]
pub struct Table<K, V> {
    pub entries: Vec<(K, V)>,
}

impl<K: TableKey, V> View for Table<K, V> {
    type V = Map<K::V, V>;

    open spec fn view(&self) -> Map<K::V, V> {
        entries_map(self.entries@)
    }
}

impl<K: TableKey, V> Table<K, V> {
    /// No key occurs twice.
    pub open spec fn wf(&self) -> bool {
        entries_distinct(self.entries@)
    }

    /// The empty table.
    pub fn new() -> (t: Self)
        ensures
            t.wf(),
            t@ == Map::<K::V, V>::empty(),
    {
        let t = Table { entries: Vec::new() };
        assert(t@ =~= Map::<K::V, V>::empty());
        t
    }

    /// The place of the entry with key `k`, if there is one.
    pub fn position(&self, k: &K) -> (r: Option<usize>)
        requires
            self.wf(),
        ensures
            r is Some == self@.contains_key(k@),
            r is Some ==> r->0 < self.entries@.len() && self.entries@[r->0 as int].0@ == k@
                && self@[k@] == self.entries@[r->0 as int].1,
    {
        let mut i: usize = 0;
        while i < self.entries.len()
            invariant
                i <= self.entries@.len(),
                self.wf(),
                forall|j: int| 0 <= j < i ==> (#[trigger] self.entries@[j]).0@ != k@,
            decreases self.entries@.len() - i,
        {
            if self.entries[i].0.same(k) {
                proof {
                    lemma_entry_at(self.entries@, i as int);
                }
                return Some(i);
            }
            i += 1;
        }
        None
    }

    /// Whether `k` has an entry.
    pub fn contains_key(&self, k: &K) -> (r: bool)
        requires
            self.wf(),
        ensures
            r == self@.contains_key(k@),
    {
        self.position(k).is_some()
    }

    /// The value under `k`, if there is one.
    pub fn get(&self, k: &K) -> (r: Option<&V>)
        requires
            self.wf(),
        ensures
            r is Some == self@.contains_key(k@),
            r is Some ==> *r->0 == self@[k@],
    {
        match self.position(k) {
            Some(i) => Some(&self.entries[i].1),
            None => None,
        }
    }

    /// Takes the entry under `k` out and returns its value, if there is one.
    pub fn remove(&mut self, k: &K) -> (r: Option<V>)
        requires
            old(self).wf(),
        ensures
            final(self).wf(),
            final(self)@ == old(self)@.remove(k@),
            r is Some == old(self)@.contains_key(k@),
            r is Some ==> r->0 == old(self)@[k@],
    {
        match self.position(k) {
            Some(i) => {
                proof {
                    lemma_entries_remove(self.entries@, i as int);
                }
                let entry = self.entries.remove(i);
                Some(entry.1)
            },
            None => {
                assert(self@ =~= self@.remove(k@));
                None
            },
        }
    }

    /// Puts `v` under `k`, and returns the value that was there before.
    pub fn insert(&mut self, k: K, v: V) -> (r: Option<V>)
        requires
            old(self).wf(),
        ensures
            final(self).wf(),
            final(self)@ == old(self)@.insert(k@, v),
            r is Some == old(self)@.contains_key(k@),
            r is Some ==> r->0 == old(self)@[k@],
    {
        let before = self.remove(&k);
        proof {
            assert(!self@.contains_key(k@));
            assert(!entries_have(self.entries@, k@));
            lemma_entries_push(self.entries@, k, v);
            assert(old(self)@.remove(k@).insert(k@, v) =~= old(self)@.insert(k@, v));
        }
        self.entries.push((k, v));
        before
    }
}

} // verus!
