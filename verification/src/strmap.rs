//! A map keyed by strings, kept as a vector of entries with distinct keys.
use vstd::prelude::*;
use crate::text::str_eq;

verus! {

/// No two entries share a key.
pub open spec fn keys_distinct<V>(s: Seq<(String, V)>) -> bool {
    forall|i: int, j: int|
        0 <= i < s.len() && 0 <= j < s.len() && i != j ==> #[trigger] s[i].0@ != #[trigger] s[j].0@
}

/// The keys of a sequence of entries, in order.
pub open spec fn entry_keys<V>(s: Seq<(String, V)>) -> Seq<Seq<char>> {
    s.map_values(|e: (String, V)| e.0@)
}

/// The map that a sequence of entries denotes; a later entry wins over an earlier one.
pub open spec fn entries_map<V>(s: Seq<(String, V)>) -> Map<Seq<char>, V>
    decreases s.len(),
{
    if s.len() == 0 {
        Map::empty()
    } else {
        entries_map(s.drop_last()).insert(s.last().0@, s.last().1)
    }
}

/// A key is in the map exactly when some entry holds it, and with distinct keys
/// the value is that entry's.
pub proof fn lemma_entries_map_index<V>(s: Seq<(String, V)>, k: Seq<char>)
    ensures
        entries_map(s).contains_key(k) <==> exists|i: int| 0 <= i < s.len() && #[trigger] s[i].0@ == k,
        keys_distinct(s) ==> forall|i: int|
            0 <= i < s.len() && #[trigger] s[i].0@ == k ==> entries_map(s)[k] == s[i].1,
    decreases s.len(),
{
    if s.len() > 0 {
        let t = s.drop_last();
        lemma_entries_map_index(t, k);
        if entries_map(s).contains_key(k) {
            if s.last().0@ != k {
                let i = choose|i: int| 0 <= i < t.len() && #[trigger] t[i].0@ == k;
                assert(s[i].0@ == k);
            } else {
                assert(s[s.len() - 1].0@ == k);
            }
        }
        if exists|i: int| 0 <= i < s.len() && #[trigger] s[i].0@ == k {
            let i = choose|i: int| 0 <= i < s.len() && #[trigger] s[i].0@ == k;
            if i < s.len() - 1 {
                assert(t[i].0@ == k);
            }
        }
        if keys_distinct(s) {
            assert forall|i: int| 0 <= i < s.len() && #[trigger] s[i].0@ == k implies entries_map(s)[k] == s[i].1 by {
                if i < s.len() - 1 {
                    assert(t[i].0@ == k);
                    assert(s[s.len() - 1].0@ != s[i].0@);
                }
            }
        }
    }
}

proof fn lemma_entries_map_update<V>(s: Seq<(String, V)>, i: int, e: (String, V))
    requires
        keys_distinct(s),
        0 <= i < s.len(),
        e.0@ == s[i].0@,
    ensures
        entries_map(s.update(i, e)) == entries_map(s).insert(e.0@, e.1),
        keys_distinct(s.update(i, e)),
    decreases s.len(),
{
    let u = s.update(i, e);
    assert forall|a: int, b: int| 0 <= a < u.len() && 0 <= b < u.len() && a != b implies #[trigger] u[a].0@ != #[trigger] u[b].0@ by {
        assert(s[a].0@ != s[b].0@);
    }
    if i == s.len() - 1 {
        assert(u.drop_last() =~= s.drop_last());
        assert(entries_map(u) =~= entries_map(s).insert(e.0@, e.1));
    } else {
        let t = s.drop_last();
        assert(u.drop_last() =~= t.update(i, e));
        assert(keys_distinct(t)) by {
            assert forall|a: int, b: int| 0 <= a < t.len() && 0 <= b < t.len() && a != b implies #[trigger] t[a].0@ != #[trigger] t[b].0@ by {
                assert(s[a].0@ != s[b].0@);
            }
        }
        lemma_entries_map_update(t, i, e);
        assert(s.last().0@ != e.0@) by {
            assert(s[s.len() - 1].0@ != s[i].0@);
        }
        assert(entries_map(u) =~= entries_map(s).insert(e.0@, e.1));
    }
}

proof fn lemma_entries_map_remove<V>(s: Seq<(String, V)>, i: int)
    requires
        keys_distinct(s),
        0 <= i < s.len(),
    ensures
        entries_map(s.remove(i)) == entries_map(s).remove(s[i].0@),
        keys_distinct(s.remove(i)),
    decreases s.len(),
{
    let r = s.remove(i);
    assert forall|a: int, b: int| 0 <= a < r.len() && 0 <= b < r.len() && a != b implies #[trigger] r[a].0@ != #[trigger] r[b].0@ by {
        let a2 = if a < i { a } else { a + 1 };
        let b2 = if b < i { b } else { b + 1 };
        assert(r[a] == s[a2]);
        assert(r[b] == s[b2]);
        assert(s[a2].0@ != s[b2].0@);
    }
    let k = s[i].0@;
    if i == s.len() - 1 {
        assert(r =~= s.drop_last());
        lemma_entries_map_index(r, k);
        assert forall|j: int| 0 <= j < r.len() implies #[trigger] r[j].0@ != k by {
            assert(s[j].0@ != s[i].0@);
        }
        assert(entries_map(r) =~= entries_map(s).remove(k));
    } else {
        let t = s.drop_last();
        assert(keys_distinct(t)) by {
            assert forall|a: int, b: int| 0 <= a < t.len() && 0 <= b < t.len() && a != b implies #[trigger] t[a].0@ != #[trigger] t[b].0@ by {
                assert(s[a].0@ != s[b].0@);
            }
        }
        lemma_entries_map_remove(t, i);
        assert(r.drop_last() =~= t.remove(i));
        assert(r.last() == s.last());
        assert(s.last().0@ != k) by {
            assert(s[s.len() - 1].0@ != s[i].0@);
        }
        assert(entries_map(r) =~= entries_map(s).remove(k));
    }
}

/// A map from strings to values, in insertion order of its keys.
#[derive(Debug, PartialEq, Eq)]
pub struct StrMap<V> {
    entries: Vec<(String, V)>,
}

impl<V> StrMap<V> {
    #[verifier::type_invariant]
    spec fn inv(self) -> bool {
        keys_distinct(self.entries@)
    }

    /// The entries, in the order in which their keys were first inserted.
    pub closed spec fn entry_seq(self) -> Seq<(String, V)> {
        self.entries@
    }
}

impl<V> View for StrMap<V> {
    type V = Map<Seq<char>, V>;

    closed spec fn view(&self) -> Map<Seq<char>, V> {
        entries_map(self.entries@)
    }
}

impl<V> StrMap<V> {
    /// An empty map.
    pub fn new() -> (res: Self)
        ensures
            res@ == Map::<Seq<char>, V>::empty(),
            res.entry_seq().len() == 0,
    {
        StrMap { entries: Vec::new() }
    }

    fn find(&self, key: &str) -> (res: Option<usize>)
        ensures
            match res {
                Some(i) => i < self.entries@.len() && self.entries@[i as int].0@ == key@,
                None => forall|i: int| 0 <= i < self.entries@.len() ==> #[trigger] self.entries@[i].0@ != key@,
            },
    {
        let mut i: usize = 0;
        while i < self.entries.len()
            invariant
                i <= self.entries@.len(),
                forall|j: int| 0 <= j < i ==> #[trigger] self.entries@[j].0@ != key@,
            decreases self.entries@.len() - i,
        {
            if str_eq(self.entries[i].0.as_str(), key) {
                return Some(i);
            }
            i = i + 1;
        }
        None
    }

    /// The value stored under `key`, if any.
    pub fn get(&self, key: &str) -> (res: Option<&V>)
        ensures
            res is Some <==> self@.contains_key(key@),
            res matches Some(v) ==> *v == self@[key@],
    {
        proof {
            use_type_invariant(self);
            lemma_entries_map_index(self.entries@, key@);
        }
        match self.find(key) {
            Some(i) => Some(&self.entries[i].1),
            None => None,
        }
    }

    /// Stores `value` under `key`, replacing what was there; a new key comes
    /// last, a known key keeps its place.
    pub fn insert(&mut self, key: String, value: V)
        ensures
            final(self)@ == old(self)@.insert(key@, value),
            !old(self)@.contains_key(key@) ==> final(self).entry_seq() == old(self).entry_seq().push((key, value)),
            old(self)@.contains_key(key@) ==> entry_keys(final(self).entry_seq()) == entry_keys(old(self).entry_seq()),
    {
        proof {
            use_type_invariant(&*self);
            lemma_entries_map_index(self.entries@, key@);
        }
        match self.find(key.as_str()) {
            Some(i) => {
                proof {
                    lemma_entries_map_update(self.entries@, i as int, (key, value));
                    assert(entry_keys(self.entries@.update(i as int, (key, value))) =~= entry_keys(self.entries@));
                }
                let mut entries: Vec<(String, V)> = Vec::new();
                std::mem::swap(&mut entries, &mut self.entries);
                entries.set(i, (key, value));
                self.entries = entries;
            },
            None => {
                let ghost k = key@;
                proof {
                    assert forall|a: int, b: int|
                        0 <= a < self.entries@.len() + 1 && 0 <= b < self.entries@.len() + 1 && a != b
                        implies #[trigger] self.entries@.push((key, value))[a].0@ != #[trigger] self.entries@.push((key, value))[b].0@ by {
                        if a < self.entries@.len() && b < self.entries@.len() {
                            assert(self.entries@[a].0@ != self.entries@[b].0@);
                        }
                    }
                    assert(self.entries@.push((key, value)).drop_last() =~= self.entries@);
                }
                let mut entries: Vec<(String, V)> = Vec::new();
                std::mem::swap(&mut entries, &mut self.entries);
                entries.push((key, value));
                self.entries = entries;
            },
        }
    }

    /// Removes `key` and hands back what it held.
    pub fn remove(&mut self, key: &str) -> (res: Option<V>)
        ensures
            final(self)@ == old(self)@.remove(key@),
            res == (if old(self)@.contains_key(key@) { Some(old(self)@[key@]) } else { None::<V> }),
    {
        proof {
            use_type_invariant(&*self);
            lemma_entries_map_index(self.entries@, key@);
        }
        match self.find(key) {
            Some(i) => {
                proof {
                    lemma_entries_map_remove(self.entries@, i as int);
                }
                let mut entries: Vec<(String, V)> = Vec::new();
                std::mem::swap(&mut entries, &mut self.entries);
                let e = entries.remove(i);
                self.entries = entries;
                Some(e.1)
            },
            None => {
                proof {
                    assert(entries_map(self.entries@).remove(key@) =~= entries_map(self.entries@));
                }
                None
            },
        }
    }

    /// The entries, in the order in which their keys were first inserted.
    pub fn entries(&self) -> (res: &Vec<(String, V)>)
        ensures
            res@ == self.entry_seq(),
            entries_map(res@) == self@,
            keys_distinct(res@),
    {
        proof {
            use_type_invariant(self);
        }
        &self.entries
    }

    /// Gives up the map as its entries, in the order of [`StrMap::entries`].
    pub fn into_entries(self) -> (res: Vec<(String, V)>)
        ensures
            res@ == self.entry_seq(),
            entries_map(res@) == self@,
            keys_distinct(res@),
    {
        proof {
            use_type_invariant(&self);
        }
        self.entries
    }
}


impl<V: Clone> Clone for StrMap<V> {
    /// A map with the same keys, each value cloned.
    fn clone(&self) -> (res: Self)
        ensures
            res@.dom() == self@.dom(),
    {
        proof {
            use_type_invariant(self);
        }
        let mut m: StrMap<V> = StrMap::new();
        let mut i: usize = 0;
        while i < self.entries.len()
            invariant
                i <= self.entries@.len(),
                keys_distinct(self.entries@),
                m@.dom() == entries_map(self.entries@.take(i as int)).dom(),
            decreases self.entries@.len() - i,
        {
            let k = self.entries[i].0.clone();
            let v = self.entries[i].1.clone();
            m.insert(k, v);
            proof {
                assert(self.entries@.take(i + 1).drop_last() =~= self.entries@.take(i as int));
                assert(m@.dom() =~= entries_map(self.entries@.take(i + 1)).dom());
            }
            i = i + 1;
        }
        proof {
            assert(self.entries@.take(self.entries@.len() as int) =~= self.entries@);
        }
        m
    }
}

} // verus!
