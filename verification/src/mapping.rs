//! The mapping table: from each generated file name to the path that the file
//! had below its replaypack, so that the nested layout can be recovered.

use vstd::prelude::*;

verus! {

/// A key with its value, as text.
pub type Pair = (Seq<char>, Seq<char>);

/// The map that a sequence of insertions builds: a later pair with the same
/// key replaces an earlier one.
pub open spec fn map_of(s: Seq<Pair>) -> Map<Seq<char>, Seq<char>>
    decreases s.len(),
{
    if s.len() == 0 {
        Map::empty()
    } else {
        map_of(s.drop_last()).insert(s.last().0, s.last().1)
    }
}

/// No two pairs of `s` share a key.
pub open spec fn distinct_keys(s: Seq<Pair>) -> bool {
    forall|i: int, j: int| 0 <= i < j < s.len() ==> s[i].0 != s[j].0
}

/// The pairs that a vector of owned strings stands for.
pub open spec fn pair_views(s: Seq<(String, String)>) -> Seq<Pair> {
    Seq::new(s.len(), |i: int| (s[i].0@, s[i].1@))
}

/// Where no two pairs share a key, no two of the pairs before the last do.
pub proof fn lemma_distinct_keys_front(s: Seq<Pair>)
    requires
        distinct_keys(s),
        s.len() > 0,
    ensures
        distinct_keys(s.drop_last()),
{
    let front = s.drop_last();
    assert forall|a: int, b: int| 0 <= a < b < front.len() implies front[a].0 != front[b].0 by {
        assert(front[a] == s[a] && front[b] == s[b]);
    }
}

/// The keys of `map_of(s)` are the keys of the entries of `s`.
pub proof fn lemma_map_of_dom(s: Seq<Pair>, key: Seq<char>)
    ensures
        map_of(s).contains_key(key) <==> exists|i: int| 0 <= i < s.len() && s[i].0 == key,
    decreases s.len(),
{
    if s.len() > 0 {
        let front = s.drop_last();
        lemma_map_of_dom(front, key);
        if map_of(s).contains_key(key) {
            if s.last().0 == key {
                assert(s[s.len() - 1].0 == key);
            } else {
                let i = choose|i: int| 0 <= i < front.len() && front[i].0 == key;
                assert(s[i].0 == key);
            }
        }
        if exists|i: int| 0 <= i < s.len() && s[i].0 == key {
            let i = choose|i: int| 0 <= i < s.len() && s[i].0 == key;
            if i < front.len() {
                assert(front[i].0 == key);
            }
        }
    }
}

/// Each key of `map_of(s)` is the key of a pair of `s` that holds the key's
/// value.
pub proof fn lemma_map_of_witness(s: Seq<Pair>, key: Seq<char>) -> (i: int)
    requires
        map_of(s).contains_key(key),
    ensures
        0 <= i < s.len(),
        s[i].0 == key,
        s[i].1 == map_of(s)[key],
    decreases s.len(),
{
    if s.len() == 0 {
        0
    } else if s.last().0 == key {
        s.len() - 1
    } else {
        let front = s.drop_last();
        let i = lemma_map_of_witness(front, key);
        assert(front[i] == s[i]);
        i
    }
}

/// Where keys are distinct, each entry's key maps to that entry's value.
pub proof fn lemma_map_of_value(s: Seq<Pair>, i: int)
    requires
        distinct_keys(s),
        0 <= i < s.len(),
    ensures
        map_of(s).contains_key(s[i].0),
        map_of(s)[s[i].0] == s[i].1,
    decreases s.len(),
{
    let front = s.drop_last();
    if i < s.len() - 1 {
        lemma_distinct_keys_front(s);
        lemma_map_of_value(front, i);
        assert(front[i] == s[i]);
    }
}

/// Where keys are distinct, the map has as many keys as there are entries.
pub proof fn lemma_map_of_len(s: Seq<Pair>)
    requires
        distinct_keys(s),
    ensures
        map_of(s).dom().finite(),
        map_of(s).len() == s.len(),
    decreases s.len(),
{
    if s.len() > 0 {
        let front = s.drop_last();
        lemma_distinct_keys_front(s);
        lemma_map_of_len(front);
        lemma_map_of_dom(front, s.last().0);
        if map_of(front).contains_key(s.last().0) {
            let i = choose|i: int| 0 <= i < front.len() && front[i].0 == s.last().0;
            assert(front[i] == s[i]);
            assert(false);
        }
    }
}

/// Where keys are distinct, replacing the value of the entry at `i` is
/// inserting the new value under that entry's key.
pub proof fn lemma_map_of_update(s: Seq<Pair>, i: int, entry: Pair)
    requires
        distinct_keys(s),
        0 <= i < s.len(),
        entry.0 == s[i].0,
    ensures
        distinct_keys(s.update(i, entry)),
        map_of(s.update(i, entry)) == map_of(s).insert(entry.0, entry.1),
    decreases s.len(),
{
    let t = s.update(i, entry);
    let front = s.drop_last();
    if i == s.len() - 1 {
        assert(t.drop_last() == front);
        assert(map_of(t) =~= map_of(s).insert(entry.0, entry.1));
    } else {
        lemma_distinct_keys_front(s);
        lemma_map_of_update(front, i, entry);
        assert(t.drop_last() == front.update(i, entry));
        assert(t.last() == s.last());
        assert(s.last().0 != entry.0);
        assert(map_of(t) =~= map_of(s).insert(entry.0, entry.1));
    }
}

/// Appending an entry is inserting it.
pub proof fn lemma_map_of_push(s: Seq<Pair>, entry: Pair)
    ensures
        map_of(s.push(entry)) == map_of(s).insert(entry.0, entry.1),
{
    assert(s.push(entry).drop_last() == s);
}

/// A table from generated file name to relative path. Its keys are
/// pairwise distinct: inserting under a key that is present replaces the
/// value.
#[derive(Debug)]
pub struct DirectoryMapping {
    entries: Vec<(String, String)>,
}

impl View for DirectoryMapping {
    type V = Map<Seq<char>, Seq<char>>;

    closed spec fn view(&self) -> Map<Seq<char>, Seq<char>> {
        map_of(pair_views(self.entries@))
    }
}

impl DirectoryMapping {
    #[verifier::type_invariant]
    spec fn well_formed(&self) -> bool {
        distinct_keys(pair_views(self.entries@))
    }

    /// The index of the entry with key `key`, if there is one.
    fn position(&self, key: &str) -> (at: Option<usize>)
        ensures
            match at {
                Some(i) => i < self.entries.len() && pair_views(self.entries@)[i as int].0 == key@,
                None => forall|i: int|
                    0 <= i < self.entries.len() ==> pair_views(self.entries@)[i].0 != key@,
            },
    {
        let key_owned = key.to_owned();
        let mut i: usize = 0;
        while i < self.entries.len()
            invariant
                i <= self.entries.len(),
                key_owned@ == key@,
                forall|j: int| 0 <= j < i ==> self.entries[j].0@ != key@,
            decreases self.entries.len() - i,
        {
            if self.entries[i].0 == key_owned {
                return Some(i);
            }
            i += 1;
        }
        None
    }

    /// The empty table.
    pub fn new() -> (table: DirectoryMapping)
        ensures
            table@ == Map::<Seq<char>, Seq<char>>::empty(),
    {
        DirectoryMapping { entries: Vec::new() }
    }

    /// The number of keys.
    pub fn len(&self) -> (n: usize)
        ensures
            self@.dom().finite(),
            n == self@.len(),
    {
        proof {
            use_type_invariant(self);
            lemma_map_of_len(pair_views(self.entries@));
        }
        self.entries.len()
    }

    /// Whether the table has no key.
    pub fn is_empty(&self) -> (empty: bool)
        ensures
            empty == (self@ == Map::<Seq<char>, Seq<char>>::empty()),
    {
        proof {
            use_type_invariant(self);
            lemma_map_of_len(pair_views(self.entries@));
            if self.entries@.len() == 0 {
                assert(self@ =~= Map::<Seq<char>, Seq<char>>::empty());
            }
        }
        self.entries.len() == 0
    }

    /// Whether `key` is a key of the table.
    pub fn contains_key(&self, key: &str) -> (present: bool)
        ensures
            present == self@.contains_key(key@),
    {
        proof {
            lemma_map_of_dom(pair_views(self.entries@), key@);
        }
        self.position(key).is_some()
    }

    /// The value under `key`, if `key` is a key of the table.
    pub fn get(&self, key: &str) -> (value: Option<&String>)
        ensures
            value is Some <==> self@.contains_key(key@),
            value is Some ==> value->0@ == self@[key@],
    {
        proof {
            use_type_invariant(self);
            lemma_map_of_dom(pair_views(self.entries@), key@);
        }
        match self.position(key) {
            Some(i) => {
                proof {
                    lemma_map_of_value(pair_views(self.entries@), i as int);
                }
                Some(&self.entries[i].1)
            },
            None => None,
        }
    }

    /// Puts `value` under `key`, and returns the value that was there before.
    pub fn insert(&mut self, key: String, value: String) -> (previous: Option<String>)
        ensures
            final(self)@ == old(self)@.insert(key@, value@),
            previous is Some <==> old(self)@.contains_key(key@),
            previous is Some ==> previous->0@ == old(self)@[key@],
    {
        proof {
            use_type_invariant(&*self);
            lemma_map_of_dom(pair_views(self.entries@), key@);
        }
        let found = self.position(key.as_str());
        let mut entries: Vec<(String, String)> = Vec::new();
        std::mem::swap(&mut entries, &mut self.entries);
        let previous = match found {
            Some(i) => {
                proof {
                    let pairs = pair_views(entries@);
                    lemma_map_of_value(pairs, i as int);
                    lemma_map_of_update(pairs, i as int, (key@, value@));
                    assert(pair_views(entries@.update(i as int, (key, value))) == pairs.update(
                        i as int,
                        (key@, value@),
                    ));
                }
                let previous = entries[i].1.clone();
                entries.set(i, (key, value));
                Some(previous)
            },
            None => {
                proof {
                    let pairs = pair_views(entries@);
                    lemma_map_of_push(pairs, (key@, value@));
                    assert(pair_views(entries@.push((key, value))) == pairs.push((key@, value@)));
                    assert(distinct_keys(pairs.push((key@, value@))));
                }
                entries.push((key, value));
                None
            },
        };
        self.entries = entries;
        previous
    }

    /// The entries, each key once with its value.
    pub fn entries(&self) -> (entries: &Vec<(String, String)>)
        ensures
            distinct_keys(pair_views(entries@)),
            map_of(pair_views(entries@)) == self@,
    {
        proof {
            use_type_invariant(self);
        }
        &self.entries
    }

    /// The keys, each once.
    pub fn keys(&self) -> (keys: Vec<String>)
        ensures
            keys.len() == self@.len(),
            forall|i: int| 0 <= i < keys.len() ==> self@.contains_key(#[trigger] keys[i]@),
            forall|key: Seq<char>|
                self@.contains_key(key) ==> exists|i: int| 0 <= i < keys.len() && keys[i]@ == key,
            forall|i: int, j: int| 0 <= i < j < keys.len() ==> keys[i]@ != keys[j]@,
    {
        proof {
            use_type_invariant(self);
            lemma_map_of_len(pair_views(self.entries@));
        }
        let mut keys: Vec<String> = Vec::new();
        let mut i: usize = 0;
        while i < self.entries.len()
            invariant
                i <= self.entries.len(),
                keys.len() == i,
                forall|j: int| 0 <= j < i ==> keys[j]@ == pair_views(self.entries@)[j].0,
            decreases self.entries.len() - i,
        {
            keys.push(self.entries[i].0.clone());
            i += 1;
        }
        proof {
            assert forall|k: int| 0 <= k < keys.len() implies self@.contains_key(
                #[trigger] keys[k]@,
            ) by {
                lemma_map_of_dom(pair_views(self.entries@), keys[k]@);
                assert(pair_views(self.entries@)[k].0 == keys[k]@);
            }
            assert forall|key: Seq<char>| self@.contains_key(key) implies exists|i: int|
                0 <= i < keys.len() && keys[i]@ == key by {
                lemma_map_of_dom(pair_views(self.entries@), key);
                let pairs = pair_views(self.entries@);
                let i = choose|i: int| 0 <= i < pairs.len() && pairs[i].0 == key;
                assert(keys[i]@ == key);
            }
        }
        keys
    }
}

} // verus!
