//! A table of values keyed by distinct strings.
//!
//! It stands for the `HashMap<String, _>` collections of the configuration
//! files: its view is a `Map` from key text to value, and the order in which
//! entries are kept carries no meaning for any contract over that view.

use vstd::prelude::*;

verus! {

/// The key texts of `entries`, in order.
pub open spec fn keys_of<V>(entries: Seq<(String, V)>) -> Seq<Seq<char>> {
    entries.map_values(|e: (String, V)| e.0@)
}

/// No two entries share a key.
pub open spec fn keys_distinct<V>(entries: Seq<(String, V)>) -> bool {
    forall|i: int, j: int| 0 <= i < j < entries.len() ==> entries[i].0@ != entries[j].0@
}

/// The map that `entries` denote; a later entry overrides an earlier one.
pub open spec fn map_of<V>(entries: Seq<(String, V)>) -> Map<Seq<char>, V>
    decreases entries.len(),
{
    if entries.len() == 0 {
        Map::empty()
    } else {
        map_of(entries.drop_last()).insert(entries.last().0@, entries.last().1)
    }
}

/// Taking one more element of `s` adds `s[i]` to what the prefix contains.
pub proof fn lemma_take_one_more<A>(s: Seq<A>, i: int)
    requires
        0 <= i < s.len(),
    ensures
        forall|k: A| #[trigger]
            s.take(i + 1).contains(k) <==> (s.take(i).contains(k) || k == s[i]),
{
    assert(s.take(i + 1) =~= s.take(i).push(s[i]));
    assert forall|k: A| #[trigger]
        s.take(i + 1).contains(k) <==> (s.take(i).contains(k) || k == s[i]) by {
        if s.take(i + 1).contains(k) {
            let j = choose|j: int| 0 <= j < i + 1 && #[trigger] s.take(i + 1)[j] == k;
            if j < i {
                assert(s.take(i)[j] == k);
            }
        }
        if s.take(i).contains(k) {
            let j = choose|j: int| 0 <= j < i && #[trigger] s.take(i)[j] == k;
            assert(s.take(i + 1)[j] == k);
        }
        if k == s[i] {
            assert(s.take(i + 1)[i] == k);
        }
    }
}

pub proof fn lemma_map_of_dom<V>(entries: Seq<(String, V)>)
    ensures
        map_of(entries).dom() == keys_of(entries).to_set(),
    decreases entries.len(),
{
    if entries.len() > 0 {
        lemma_map_of_dom(entries.drop_last());
        assert(keys_of(entries.drop_last()) =~= keys_of(entries).drop_last());
        assert forall|k: Seq<char>|
            map_of(entries).dom().contains(k) <==> keys_of(entries).to_set().contains(k) by {
            let ks = keys_of(entries);
            if ks.contains(k) {
                let i = choose|i: int| 0 <= i < ks.len() && ks[i] == k;
                if i < ks.len() - 1 {
                    assert(ks.drop_last()[i] == k);
                }
            }
            if ks.drop_last().contains(k) {
                let i = choose|i: int| 0 <= i < ks.drop_last().len() && ks.drop_last()[i] == k;
                assert(ks[i] == k);
            }
            if k == entries.last().0@ {
                assert(ks[ks.len() - 1] == k);
            }
        }
        assert(map_of(entries).dom() =~= keys_of(entries).to_set());
    } else {
        assert(map_of(entries).dom() =~= keys_of(entries).to_set());
    }
}

pub proof fn lemma_map_of_value<V>(entries: Seq<(String, V)>, i: int)
    requires
        keys_distinct(entries),
        0 <= i < entries.len(),
    ensures
        map_of(entries).contains_key(entries[i].0@),
        map_of(entries)[entries[i].0@] == entries[i].1,
    decreases entries.len(),
{
    if i < entries.len() - 1 {
        lemma_map_of_value(entries.drop_last(), i);
    }
}

pub proof fn lemma_map_of_update<V>(entries: Seq<(String, V)>, i: int, e: (String, V))
    requires
        keys_distinct(entries),
        0 <= i < entries.len(),
        e.0@ == entries[i].0@,
    ensures
        map_of(entries.update(i, e)) == map_of(entries).insert(e.0@, e.1),
        keys_distinct(entries.update(i, e)),
    decreases entries.len(),
{
    let u = entries.update(i, e);
    if i == entries.len() - 1 {
        assert(u.drop_last() =~= entries.drop_last());
        assert(map_of(u) =~= map_of(entries).insert(e.0@, e.1));
    } else {
        assert(u.drop_last() =~= entries.drop_last().update(i, e));
        lemma_map_of_update(entries.drop_last(), i, e);
        assert(map_of(u) =~= map_of(entries).insert(e.0@, e.1));
    }
}

pub proof fn lemma_map_of_remove<V>(entries: Seq<(String, V)>, i: int)
    requires
        keys_distinct(entries),
        0 <= i < entries.len(),
    ensures
        map_of(entries.remove(i)) == map_of(entries).remove(entries[i].0@),
        keys_distinct(entries.remove(i)),
    decreases entries.len(),
{
    let r = entries.remove(i);
    let k = entries[i].0@;
    if i == entries.len() - 1 {
        assert(r =~= entries.drop_last());
        lemma_map_of_dom(entries.drop_last());
        assert(!keys_of(entries.drop_last()).contains(k)) by {
            if keys_of(entries.drop_last()).contains(k) {
                let j = choose|j: int|
                    0 <= j < keys_of(entries.drop_last()).len() && keys_of(entries.drop_last())[j]
                        == k;
                assert(entries[j].0@ == k);
            }
        }
        assert(map_of(r) =~= map_of(entries).remove(k));
    } else {
        assert(r.drop_last() =~= entries.drop_last().remove(i));
        assert(r.last() == entries.last());
        lemma_map_of_remove(entries.drop_last(), i);
        assert(map_of(r) =~= map_of(entries).remove(k));
    }
}

/// Values keyed by distinct strings.
#[derive(Debug)]
pub struct Table<V> {
    entries: Vec<(String, V)>,
}

impl<V> View for Table<V> {
    type V = Map<Seq<char>, V>;

    closed spec fn view(&self) -> Map<Seq<char>, V> {
        map_of(self.entries@)
    }
}

impl<V> Table<V> {
    #[verifier::type_invariant]
    spec fn inv(self) -> bool {
        keys_distinct(self.entries@)
    }

    /// The entries in the order in which `key_at` and `value_at` hand them out.
    pub closed spec fn entries(self) -> Seq<(String, V)> {
        self.entries@
    }

    /// The keys in the order in which `key_at` hands them out.
    pub open spec fn keys(self) -> Seq<Seq<char>> {
        keys_of(self.entries())
    }

    /// The view is the map that the entries denote.
    pub proof fn lemma_view(self)
        ensures
            self@ == map_of(self.entries()),
    {
    }

    /// An empty table.
    pub fn new() -> (t: Self)
        ensures
            t@ == Map::<Seq<char>, V>::empty(),
            t.keys().len() == 0,
    {
        Table { entries: Vec::new() }
    }

    /// The number of entries, with what a walk over them by index visits.
    pub fn len(&self) -> (n: usize)
        ensures
            n == self.keys().len(),
            n == self.entries().len(),
            keys_distinct(self.entries()),
            n == self@.len(),
            self.keys().no_duplicates(),
            self@.dom() == self.keys().to_set(),
    {
        proof {
            use_type_invariant(self);
            lemma_map_of_dom(self.entries@);
            assert(self.keys().no_duplicates()) by {
                assert forall|i: int, j: int|
                    0 <= i < self.keys().len() && 0 <= j < self.keys().len() && i != j implies
                    self.keys()[i] != self.keys()[j] by {
                    if i < j {
                    } else {
                    }
                }
            }
            self.keys().unique_seq_to_set();
        }
        self.entries.len()
    }

    /// Whether the table holds no entry.
    pub fn is_empty(&self) -> (b: bool)
        ensures
            b == (self@.len() == 0),
            b == (self@ == Map::<Seq<char>, V>::empty()),
    {
        let n = self.len();
        proof {
            if n != 0 {
                assert(self@.dom().contains(self.keys()[0]));
            } else {
                assert(self@.dom() =~= Set::empty());
                assert(self@ =~= Map::<Seq<char>, V>::empty());
            }
        }
        n == 0
    }

    /// The key of the `i`-th entry.
    pub fn key_at(&self, i: usize) -> (k: &String)
        requires
            i < self.keys().len(),
        ensures
            k@ == self.keys()[i as int],
            *k == self.entries()[i as int].0,
            self@.contains_key(k@),
    {
        proof {
            use_type_invariant(self);
            lemma_map_of_value(self.entries@, i as int);
        }
        &self.entries[i].0
    }

    /// The value of the `i`-th entry.
    pub fn value_at(&self, i: usize) -> (v: &V)
        requires
            i < self.keys().len(),
        ensures
            self@.contains_key(self.keys()[i as int]),
            *v == self@[self.keys()[i as int]],
            *v == self.entries()[i as int].1,
    {
        proof {
            use_type_invariant(self);
            lemma_map_of_value(self.entries@, i as int);
        }
        &self.entries[i].1
    }

    /// The index of the entry keyed `key`, if there is one.
    fn find(&self, key: &String) -> (r: Option<usize>)
        ensures
            match r {
                Some(i) => i < self.entries@.len() && self.entries@[i as int].0@ == key@,
                None => !self@.contains_key(key@),
            },
    {
        proof {
            use_type_invariant(self);
            lemma_map_of_dom(self.entries@);
        }
        let n = self.entries.len();
        let mut i: usize = 0;
        while i < n
            invariant
                n == self.entries@.len(),
                i <= n,
                forall|j: int| 0 <= j < i ==> self.entries@[j].0@ != key@,
            decreases n - i,
        {
            if self.entries[i].0 == *key {
                return Some(i);
            }
            i = i + 1;
        }
        proof {
            if self@.contains_key(key@) {
                let j = choose|j: int|
                    0 <= j < self.keys().len() && self.keys()[j] == key@;
                assert(self.entries@[j].0@ == key@);
            }
        }
        None
    }

    /// Whether an entry is keyed `key`.
    pub fn contains_key(&self, key: &str) -> (b: bool)
        ensures
            b == self@.contains_key(key@),
    {
        let k = key.to_owned();
        match self.find(&k) {
            Some(i) => {
                proof {
                    use_type_invariant(self);
                    lemma_map_of_value(self.entries@, i as int);
                }
                true
            },
            None => false,
        }
    }

    /// The value keyed `key`, if there is one.
    pub fn get(&self, key: &str) -> (r: Option<&V>)
        ensures
            match r {
                Some(v) => self@.contains_key(key@) && *v == self@[key@],
                None => !self@.contains_key(key@),
            },
    {
        let k = key.to_owned();
        match self.find(&k) {
            Some(i) => {
                proof {
                    use_type_invariant(self);
                    lemma_map_of_value(self.entries@, i as int);
                }
                Some(&self.entries[i].1)
            },
            None => None,
        }
    }

    /// Sets the value keyed `key`, replacing any value it had.
    pub fn insert(&mut self, key: String, value: V)
        ensures
            final(self)@ == old(self)@.insert(key@, value),
    {
        proof {
            use_type_invariant(&*self);
        }
        let found = self.find(&key);
        let mut entries: Vec<(String, V)> = Vec::new();
        std::mem::swap(&mut entries, &mut self.entries);
        let ghost before = entries@;
        match found {
            Some(i) => {
                let ghost e = (key, value);
                proof {
                    lemma_map_of_update(before, i as int, e);
                }
                entries.set(i, (key, value));
                assert(entries@ == before.update(i as int, e));
            },
            None => {
                proof {
                    lemma_map_of_dom(before);
                    assert forall|a: int, b: int| 0 <= a < b < before.len() + 1 implies
                        before.push((key, value))[a].0@ != before.push((key, value))[b].0@ by {
                        if b == before.len() {
                            assert(keys_of(before)[a] == before[a].0@);
                            assert(keys_of(before).contains(before[a].0@));
                        }
                    }
                }
                entries.push((key, value));
                assert(entries@.drop_last() =~= before);
            },
        }
        self.entries = entries;
    }

    /// Removes the entry keyed `key` and returns its value, if there was one.
    pub fn remove(&mut self, key: &str) -> (r: Option<V>)
        ensures
            final(self)@ == old(self)@.remove(key@),
            match r {
                Some(v) => old(self)@.contains_key(key@) && v == old(self)@[key@],
                None => !old(self)@.contains_key(key@),
            },
    {
        proof {
            use_type_invariant(&*self);
        }
        let k = key.to_owned();
        let found = self.find(&k);
        match found {
            Some(i) => {
                let mut entries: Vec<(String, V)> = Vec::new();
                std::mem::swap(&mut entries, &mut self.entries);
                let ghost before = entries@;
                proof {
                    lemma_map_of_remove(before, i as int);
                    lemma_map_of_value(before, i as int);
                }
                let (_, v) = entries.remove(i);
                self.entries = entries;
                Some(v)
            },
            None => {
                proof {
                    assert(self@.remove(key@) =~= self@);
                }
                None
            },
        }
    }

    /// Removes every entry.
    pub fn clear(&mut self)
        ensures
            final(self)@ == Map::<Seq<char>, V>::empty(),
    {
        self.entries = Vec::new();
    }
}

} // verus!
