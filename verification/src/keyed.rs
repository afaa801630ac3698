//! A map from strings to values, kept as a list of entries with distinct keys.
use vstd::prelude::*;

verus! {

/// Keys of an entry list are pairwise distinct.
pub open spec fn distinct_keys<V>(s: Seq<(String, V)>) -> bool {
    forall|i: int, j: int| 0 <= i < s.len() && 0 <= j < s.len() && i != j ==> s[i].0@ != s[j].0@
}

/// The map an entry list denotes.
pub open spec fn keyed_map<V>(s: Seq<(String, V)>) -> Map<Seq<char>, V>
    decreases s.len(),
{
    if s.len() == 0 {
        Map::empty()
    } else {
        keyed_map(s.drop_last()).insert(s.last().0@, s.last().1)
    }
}

/// A key is in the map of an entry list iff some entry holds it.
pub proof fn lemma_keyed_dom<V>(s: Seq<(String, V)>, k: Seq<char>)
    ensures
        keyed_map(s).dom().contains(k) <==> exists|i: int| 0 <= i < s.len() && s[i].0@ == k,
    decreases s.len(),
{
    if s.len() > 0 {
        lemma_keyed_dom(s.drop_last(), k);
        if exists|i: int| 0 <= i < s.len() && s[i].0@ == k {
            let i = choose|i: int| 0 <= i < s.len() && s[i].0@ == k;
            if i < s.len() - 1 {
                assert(s.drop_last()[i].0@ == k);
            }
        }
        if keyed_map(s.drop_last()).dom().contains(k) {
            let i = choose|i: int| 0 <= i < s.drop_last().len() && s.drop_last()[i].0@ == k;
            assert(s[i].0@ == k);
        }
    }
}

/// The value of an entry is the map's value for its key.
pub proof fn lemma_keyed_value<V>(s: Seq<(String, V)>, i: int)
    requires
        distinct_keys(s),
        0 <= i < s.len(),
    ensures
        keyed_map(s).dom().contains(s[i].0@),
        keyed_map(s)[s[i].0@] == s[i].1,
    decreases s.len(),
{
    if i < s.len() - 1 {
        lemma_keyed_value(s.drop_last(), i);
        assert(s.drop_last()[i] == s[i]);
    }
}

proof fn lemma_keyed_finite<V>(s: Seq<(String, V)>)
    ensures
        keyed_map(s).dom().finite(),
    decreases s.len(),
{
    if s.len() > 0 {
        lemma_keyed_finite(s.drop_last());
    }
}

proof fn lemma_keyed_remove<V>(s: Seq<(String, V)>, i: int)
    requires
        distinct_keys(s),
        0 <= i < s.len(),
    ensures
        distinct_keys(s.remove(i)),
        keyed_map(s.remove(i)) == keyed_map(s).remove(s[i].0@),
    decreases s.len(),
{
    let r = s.remove(i);
    assert(distinct_keys(r));
    if i == s.len() - 1 {
        assert(r =~= s.drop_last());
        lemma_keyed_dom(s.drop_last(), s[i].0@);
        assert(keyed_map(r) =~= keyed_map(s).remove(s[i].0@));
    } else {
        lemma_keyed_remove(s.drop_last(), i);
        assert(r.drop_last() =~= s.drop_last().remove(i));
        assert(r.last() == s.last());
        assert(keyed_map(r) =~= keyed_map(s).remove(s[i].0@));
    }
}

proof fn lemma_keyed_update<V>(s: Seq<(String, V)>, i: int, e: (String, V))
    requires
        distinct_keys(s),
        0 <= i < s.len(),
        e.0@ == s[i].0@,
    ensures
        distinct_keys(s.update(i, e)),
        keyed_map(s.update(i, e)) == keyed_map(s).insert(e.0@, e.1),
    decreases s.len(),
{
    let u = s.update(i, e);
    assert(distinct_keys(u));
    if i == s.len() - 1 {
        assert(u.drop_last() =~= s.drop_last());
        assert(keyed_map(u) =~= keyed_map(s).insert(e.0@, e.1));
    } else {
        lemma_keyed_update(s.drop_last(), i, e);
        assert(u.drop_last() =~= s.drop_last().update(i, e));
        assert(keyed_map(u) =~= keyed_map(s).insert(e.0@, e.1));
    }
}

/// A map from strings to values of type `V`.
pub struct KeyedMap<V> {
    entries: Vec<(String, V)>,
}

impl<V> View for KeyedMap<V> {
    type V = Map<Seq<char>, V>;

    closed spec fn view(&self) -> Map<Seq<char>, V> {
        keyed_map(self.entries@)
    }
}

fn find_key<V>(entries: &Vec<(String, V)>, key: &str) -> (r: Option<usize>)
    ensures
        r matches Some(i) ==> i < entries@.len() && entries@[i as int].0@ == key@,
        r is None ==> forall|j: int| 0 <= j < entries@.len() ==> entries@[j].0@ != key@,
{
    let mut i: usize = 0;
    while i < entries.len()
        invariant
            i <= entries@.len(),
            forall|j: int| 0 <= j < i ==> entries@[j].0@ != key@,
        decreases entries.len() - i,
    {
        if crate::text::str_eq(entries[i].0.as_str(), key) {
            return Some(i);
        }
        i = i + 1;
    }
    None
}

impl<V> KeyedMap<V> {
    #[verifier::type_invariant]
    spec fn inv(self) -> bool {
        distinct_keys(self.entries@)
    }

    /// The entries in the order in which their keys were first inserted.
    pub closed spec fn entry_seq(self) -> Seq<(String, V)> {
        self.entries@
    }

    /// An empty map.
    pub fn new() -> (m: KeyedMap<V>)
        ensures
            m@ == Map::<Seq<char>, V>::empty(),
    {
        KeyedMap { entries: Vec::new() }
    }

    /// The entries have distinct keys, denote the map, and the map is finite.
    pub fn entries_denote_map(&self)
        ensures
            distinct_keys(self.entry_seq()),
            self@ == keyed_map(self.entry_seq()),
            self@.dom().finite(),
    {
        proof {
            use_type_invariant(self);
            lemma_keyed_finite(self.entries@);
        }
    }

    /// Number of entries.
    pub fn len(&self) -> (n: usize)
        ensures
            n == self.entry_seq().len(),
    {
        self.entries.len()
    }

    /// The key and value of the entry at position `i`.
    pub fn entry(&self, i: usize) -> (e: (&String, &V))
        requires
            i < self.entry_seq().len(),
        ensures
            *e.0 == self.entry_seq()[i as int].0,
            *e.1 == self.entry_seq()[i as int].1,
            self@.dom().contains(e.0@),
            self@[e.0@] == *e.1,
    {
        proof {
            use_type_invariant(self);
            lemma_keyed_value(self.entries@, i as int);
        }
        (&self.entries[i].0, &self.entries[i].1)
    }

    /// Whether `key` is present.
    pub fn contains_key(&self, key: &str) -> (r: bool)
        ensures
            r == self@.dom().contains(key@),
    {
        proof {
            lemma_keyed_dom(self.entries@, key@);
        }
        find_key(&self.entries, key).is_some()
    }

    /// The value stored for `key`, if any.
    pub fn get(&self, key: &str) -> (r: Option<&V>)
        ensures
            r is Some <==> self@.dom().contains(key@),
            r matches Some(v) ==> *v == self@[key@],
    {
        proof {
            use_type_invariant(self);
            lemma_keyed_dom(self.entries@, key@);
        }
        match find_key(&self.entries, key) {
            Some(i) => {
                proof {
                    lemma_keyed_value(self.entries@, i as int);
                }
                Some(&self.entries[i].1)
            },
            None => None,
        }
    }

    /// Stores `value` under `key`, replacing any earlier value.
    pub fn insert(&mut self, key: String, value: V)
        ensures
            final(self)@ == old(self)@.insert(key@, value),
    {
        proof {
            use_type_invariant(&*self);
        }
        let ghost old_entries = self.entries@;
        let mut entries: Vec<(String, V)> = Vec::new();
        std::mem::swap(&mut entries, &mut self.entries);
        match find_key(&entries, key.as_str()) {
            Some(i) => {
                entries.set(i, (key, value));
                proof {
                    lemma_keyed_update(old_entries, i as int, entries@[i as int]);
                }
            },
            None => {
                entries.push((key, value));
                proof {
                    assert(entries@.drop_last() =~= old_entries);
                }
            },
        }
        self.entries = entries;
    }

    /// Removes `key`, if present.
    pub fn remove(&mut self, key: &str)
        ensures
            final(self)@ == old(self)@.remove(key@),
    {
        proof {
            use_type_invariant(&*self);
            lemma_keyed_dom(self.entries@, key@);
        }
        let ghost old_entries = self.entries@;
        let mut entries: Vec<(String, V)> = Vec::new();
        std::mem::swap(&mut entries, &mut self.entries);
        match find_key(&entries, key) {
            Some(i) => {
                entries.remove(i);
                proof {
                    lemma_keyed_remove(old_entries, i as int);
                }
            },
            None => {
                assert(keyed_map(old_entries).remove(key@) =~= keyed_map(old_entries));
            },
        }
        self.entries = entries;
    }
}

} // verus!
