//! A map from field names to values, as documents, payloads and schemas hold them.
use vstd::prelude::*;

verus! {

/// The map that a list of (name, value) entries stands for; a later entry of a name wins.
pub open spec fn entries_map<V>(s: Seq<(String, V)>) -> Map<Seq<char>, V>
    decreases s.len(),
{
    if s.len() == 0 {
        Map::empty()
    } else {
        entries_map(s.drop_last()).insert(s.last().0@, s.last().1)
    }
}

/// No name occurs twice.
pub open spec fn names_distinct<V>(s: Seq<(String, V)>) -> bool {
    forall|i: int, j: int| 0 <= i < j < s.len() ==> #[trigger] s[i].0@ != #[trigger] s[j].0@
}

/// A map from field names to values. It iterates in an order that callers must not rely
/// on.
#[derive(Debug)]
pub struct FieldMap<V> {
    entries: Vec<(String, V)>,
}

proof fn lemma_entries_map<V>(s: Seq<(String, V)>)
    requires
        names_distinct(s),
    ensures
        entries_map(s).dom().finite(),
        entries_map(s).dom().len() == s.len(),
        forall|i: int| 0 <= i < s.len() ==> #[trigger] entries_map(s).contains_key(s[i].0@) && entries_map(s)[s[i].0@] === s[i].1,
        forall|k: Seq<char>| #[trigger] entries_map(s).contains_key(k) ==> exists|i: int| 0 <= i < s.len() && s[i].0@ == k,
    decreases s.len(),
{
    if s.len() > 0 {
        let init = s.drop_last();
        assert(names_distinct(init)) by {
            assert forall|i: int, j: int| 0 <= i < j < init.len() implies #[trigger] init[i].0@ != #[trigger] init[j].0@ by {
                assert(init[i] == s[i] && init[j] == s[j]);
            }
        }
        lemma_entries_map(init);
        let m = entries_map(init);
        if m.contains_key(s.last().0@) {
            let i = choose|i: int| 0 <= i < init.len() && init[i].0@ == s.last().0@;
            assert(s[i].0@ == s[s.len() - 1].0@);
        }
        assert forall|i: int| 0 <= i < s.len() implies #[trigger] entries_map(s).contains_key(s[i].0@) && entries_map(s)[s[i].0@] == s[i].1 by {
            if i < s.len() - 1 {
                assert(s[i] == init[i]);
                assert(s[i].0@ != s[s.len() - 1].0@);
            }
        }
        assert forall|k: Seq<char>| #[trigger] entries_map(s).contains_key(k) implies exists|i: int| 0 <= i < s.len() && s[i].0@ == k by {
            if k != s.last().0@ {
                let i = choose|i: int| 0 <= i < init.len() && init[i].0@ == k;
                assert(s[i] == init[i]);
            }
        }
    }
}

impl<V> FieldMap<V> {
    /// The map.
    pub closed spec fn view(&self) -> Map<Seq<char>, V> {
        entries_map(self.entries@)
    }

    /// No name occurs twice among the entries.
    pub closed spec fn wf(&self) -> bool {
        names_distinct(self.entries@)
    }

    /// The number of names held.
    pub closed spec fn count(&self) -> nat {
        self.entries@.len()
    }

    /// The name and value at a position of the iteration order.
    pub closed spec fn entry(&self, i: int) -> (Seq<char>, V) {
        (self.entries@[i].0@, self.entries@[i].1)
    }

    /// The iteration order lists every name of the map once, with its value.
    pub proof fn lemma_entries(&self)
        requires
            self.wf(),
        ensures
            self.view().dom().finite(),
            self.view().dom().len() == self.count(),
            forall|i: int| 0 <= i < self.count() ==> #[trigger] self.view().contains_key(self.entry(i).0) && self.view()[self.entry(i).0] === self.entry(i).1,
            forall|k: Seq<char>| #[trigger] self.view().contains_key(k) ==> exists|i: int| 0 <= i < self.count() && self.entry(i).0 == k,
            forall|i: int, j: int| 0 <= i < j < self.count() ==> #[trigger] self.entry(i).0 != #[trigger] self.entry(j).0,
    {
        lemma_entries_map(self.entries@);
        assert forall|k: Seq<char>| #[trigger] self.view().contains_key(k) implies exists|i: int| 0 <= i < self.count() && self.entry(i).0 == k by {
            let i = choose|i: int| 0 <= i < self.entries@.len() && self.entries@[i].0@ == k;
            assert(self.entry(i).0 == k);
        }
    }

    /// An empty map.
    pub fn new() -> (r: FieldMap<V>)
        ensures
            r.wf(),
            r.view().dom() == Set::<Seq<char>>::empty(),
            r.count() == 0,
    {
        let r = FieldMap { entries: Vec::new() };
        assert(r.view().dom() =~= Set::<Seq<char>>::empty());
        r
    }

    /// The number of names held.
    pub fn len(&self) -> (r: usize)
        requires
            self.wf(),
        ensures
            r == self.view().dom().len(),
            r == self.count(),
    {
        proof {
            lemma_entries_map(self.entries@);
        }
        self.entries.len()
    }

    fn find(&self, key: &str) -> (r: Option<usize>)
        ensures
            match r {
                Some(i) => i < self.entries@.len() && self.entries@[i as int].0@ == key@,
                None => forall|i: int| 0 <= i < self.entries@.len() ==> #[trigger] self.entries@[i].0@ != key@,
            },
    {
        let mut i: usize = 0;
        while i < self.entries.len()
            invariant
                i <= self.entries@.len(),
                forall|j: int| 0 <= j < i ==> #[trigger] self.entries@[j].0@ != key@,
            decreases self.entries@.len() - i,
        {
            let k: &str = self.entries[i].0.as_str();
            if string_eq(k, key) {
                return Some(i);
            }
            i = i + 1;
        }
        None
    }

    /// The value under the name, if any.
    pub fn get(&self, key: &str) -> (r: Option<&V>)
        requires
            self.wf(),
        ensures
            match r {
                Some(v) => self.view().contains_key(key@) && self.view()[key@] == *v,
                None => !self.view().contains_key(key@),
            },
    {
        proof {
            lemma_entries_map(self.entries@);
        }
        match self.find(key) {
            Some(i) => {
                assert(entries_map(self.entries@).contains_key(self.entries@[i as int].0@));
                Some(&self.entries[i].1)
            },
            None => None,
        }
    }

    /// Whether the name is held.
    pub fn contains_key(&self, key: &str) -> (r: bool)
        requires
            self.wf(),
        ensures
            r == self.view().contains_key(key@),
    {
        self.get(key).is_some()
    }

    /// Stores the value under the name, replacing the value held there.
    pub fn insert(&mut self, key: String, value: V)
        requires
            old(self).wf(),
        ensures
            final(self).wf(),
            final(self).view() == old(self).view().insert(key@, value),
    {
        proof {
            lemma_entries_map(self.entries@);
        }
        match self.find(key.as_str()) {
            Some(i) => {
                let ghost old_entries = self.entries@;
                let ghost k = key@;
                self.entries.set(i, (key, value));
                proof {
                    lemma_update_entry(old_entries, i as int, k, self.entries@[i as int].0, value);
                    assert(self.entries@ == old_entries.update(i as int, self.entries@[i as int]));
                }
            },
            None => {
                let ghost old_entries = self.entries@;
                self.entries.push((key, value));
                proof {
                    assert(self.entries@.drop_last() =~= old_entries);
                    assert forall|i: int, j: int| 0 <= i < j < self.entries@.len() implies #[trigger] self.entries@[i].0@ != #[trigger] self.entries@[j].0@ by {
                        if j < old_entries.len() {
                            assert(self.entries@[i] == old_entries[i] && self.entries@[j] == old_entries[j]);
                        } else {
                            assert(self.entries@[i] == old_entries[i]);
                        }
                    }
                }
            },
        }
    }

    /// Removes the name and gives back the value held under it, if any.
    pub fn remove(&mut self, key: &str) -> (r: Option<V>)
        requires
            old(self).wf(),
        ensures
            final(self).wf(),
            final(self).view() == old(self).view().remove(key@),
            match r {
                Some(v) => old(self).view().contains_key(key@) && old(self).view()[key@] === v,
                None => !old(self).view().contains_key(key@),
            },
    {
        proof {
            lemma_entries_map(self.entries@);
        }
        match self.find(key) {
            Some(i) => {
                let ghost old_entries = self.entries@;
                let e = self.entries.remove(i);
                proof {
                    lemma_remove_entry(old_entries, i as int, key@);
                }
                Some(e.1)
            },
            None => {
                proof {
                    lemma_entries_map(self.entries@);
                    if entries_map(self.entries@).contains_key(key@) {
                        let j = choose|j: int| 0 <= j < self.entries@.len() && self.entries@[j].0@ == key@;
                        assert(self.entries@[j].0@ != key@);
                    }
                    assert(entries_map(self.entries@) =~= entries_map(self.entries@).remove(key@));
                }
                None
            },
        }
    }

    /// Whether no name occurs twice: true of every map built by `new` and `insert`.
    pub fn is_well_formed(&self) -> (r: bool)
        ensures
            r == self.wf(),
    {
        let n = self.entries.len();
        let mut i: usize = 0;
        while i < n
            invariant
                n == self.entries@.len(),
                i <= n,
                forall|a: int, b: int| 0 <= a < i && a < b < n ==> #[trigger] self.entries@[a].0@ != #[trigger] self.entries@[b].0@,
            decreases n - i,
        {
            let mut j: usize = i + 1;
            while j < n
                invariant
                    n == self.entries@.len(),
                    i < n,
                    i + 1 <= j <= n,
                    forall|a: int, b: int| 0 <= a < i && a < b < n ==> #[trigger] self.entries@[a].0@ != #[trigger] self.entries@[b].0@,
                    forall|b: int| i < b < j ==> self.entries@[i as int].0@ != #[trigger] self.entries@[b].0@,
                decreases n - j,
            {
                if string_eq(self.entries[i].0.as_str(), self.entries[j].0.as_str()) {
                    return false;
                }
                j = j + 1;
            }
            i = i + 1;
        }
        true
    }

    /// The number of entries, for iterating by position.
    pub fn entry_count(&self) -> (r: usize)
        ensures
            r == self.count(),
    {
        self.entries.len()
    }

    /// The name and value at a position of the iteration order.
    pub fn entry_at(&self, i: usize) -> (r: (&String, &V))
        requires
            i < self.count(),
        ensures
            (r.0@, *r.1) == self.entry(i as int),
    {
        let e = &self.entries[i];
        (&e.0, &e.1)
    }
}

/// Whether two strings hold the same characters.
pub fn string_eq(a: &str, b: &str) -> (r: bool)
    ensures
        r == (a@ == b@),
{
    let x = a.to_owned();
    let y = b.to_owned();
    x == y
}

proof fn lemma_update_entry<V>(s: Seq<(String, V)>, i: int, k: Seq<char>, key: String, value: V)
    requires
        0 <= i < s.len(),
        names_distinct(s),
        s[i].0@ == k,
        key@ == k,
    ensures
        names_distinct(s.update(i, (key, value))),
        entries_map(s.update(i, (key, value))) == entries_map(s).insert(k, value),
    decreases s.len(),
{
    let t = s.update(i, (key, value));
    assert forall|a: int, b: int| 0 <= a < b < t.len() implies #[trigger] t[a].0@ != #[trigger] t[b].0@ by {
        assert(t[a].0@ == s[a].0@ && t[b].0@ == s[b].0@);
    }
    let init = s.drop_last();
    if i == s.len() - 1 {
        assert(t.drop_last() =~= init);
        assert(entries_map(t) =~= entries_map(s).insert(k, value));
    } else {
        assert(names_distinct(init)) by {
            assert forall|a: int, b: int| 0 <= a < b < init.len() implies #[trigger] init[a].0@ != #[trigger] init[b].0@ by {
                assert(init[a] == s[a] && init[b] == s[b]);
            }
        }
        lemma_update_entry(init, i, k, key, value);
        assert(t.drop_last() =~= init.update(i, (key, value)));
        assert(t.last() == s.last());
        assert(s.last().0@ != k) by {
            assert(s[s.len() - 1].0@ != s[i].0@);
        }
        assert(entries_map(t) =~= entries_map(s).insert(k, value));
    }
}

proof fn lemma_remove_entry<V>(s: Seq<(String, V)>, i: int, k: Seq<char>)
    requires
        0 <= i < s.len(),
        names_distinct(s),
        s[i].0@ == k,
    ensures
        names_distinct(s.remove(i)),
        entries_map(s.remove(i)) == entries_map(s).remove(k),
        entries_map(s)[k] === s[i].1,
    decreases s.len(),
{
    let t = s.remove(i);
    assert forall|a: int, b: int| 0 <= a < b < t.len() implies #[trigger] t[a].0@ != #[trigger] t[b].0@ by {
        let a2 = if a < i { a } else { a + 1 };
        let b2 = if b < i { b } else { b + 1 };
        assert(t[a] == s[a2] && t[b] == s[b2]);
    }
    lemma_entries_map(s);
    let init = s.drop_last();
    assert(names_distinct(init)) by {
        assert forall|a: int, b: int| 0 <= a < b < init.len() implies #[trigger] init[a].0@ != #[trigger] init[b].0@ by {
            assert(init[a] == s[a] && init[b] == s[b]);
        }
    }
    lemma_entries_map(init);
    if i == s.len() - 1 {
        assert(t =~= init);
        if entries_map(init).contains_key(k) {
            let j = choose|j: int| 0 <= j < init.len() && init[j].0@ == k;
            assert(s[j].0@ == s[i].0@);
        }
        assert(entries_map(t) =~= entries_map(s).remove(k));
    } else {
        lemma_remove_entry(init, i, k);
        assert(t.drop_last() =~= init.remove(i));
        assert(t.last() == s.last());
        assert(s.last().0@ != k) by {
            assert(s[s.len() - 1].0@ != s[i].0@);
        }
        assert(entries_map(t) =~= entries_map(s).remove(k));
    }
}

} // verus!
