//! Pairs of names and values, and maps from texts to values.

use vstd::prelude::*;

use crate::text;

verus! {

/// Whether one of the entries has the given key.
pub open spec fn has_key<V>(entries: Seq<(String, V)>, key: Seq<char>) -> bool {
    exists|i: int| 0 <= i < entries.len() && (#[trigger] entries[i]).0@ == key
}

/// The value of an entry with the given key.
pub open spec fn value_of<V>(entries: Seq<(String, V)>, key: Seq<char>) -> V {
    entries[choose|i: int| 0 <= i < entries.len() && (#[trigger] entries[i]).0@ == key].1
}

/// Whether no key occurs twice.
pub open spec fn distinct_keys<V>(entries: Seq<(String, V)>) -> bool {
    forall|i: int, j: int|
        #![trigger entries[i], entries[j]]
        0 <= i < j < entries.len() ==> entries[i].0@ != entries[j].0@
}

/// The map that entries write down.
pub open spec fn map_of<V>(entries: Seq<(String, V)>) -> Map<Seq<char>, V> {
    Map::new(|key: Seq<char>| has_key(entries, key), |key: Seq<char>| value_of(entries, key))
}

/// The value of the first pair with the given name.
pub open spec fn lookup(pairs: Seq<(String, String)>, name: Seq<char>) -> Option<Seq<char>>
    decreases pairs.len(),
{
    if pairs.len() == 0 {
        None
    } else if pairs[0].0@ == name {
        Some(pairs[0].1@)
    } else {
        lookup(pairs.drop_first(), name)
    }
}

/// Finds the value of the first pair with the given name.
pub fn find(pairs: &Vec<(String, String)>, name: &str) -> (out: Option<String>)
    ensures
        match out {
            Some(value) => lookup(pairs@, name@) == Some(value@),
            None => lookup(pairs@, name@) is None,
        },
{
    let mut i: usize = 0;
    assert(pairs@.skip(0) =~= pairs@);
    while i < pairs.len()
        invariant
            i <= pairs@.len(),
            lookup(pairs@, name@) == lookup(pairs@.skip(i as int), name@),
        decreases pairs@.len() - i,
    {
        if text::same_text(pairs[i].0.as_str(), name) {
            return Some(pairs[i].1.clone());
        }
        assert(pairs@.skip(i as int).drop_first() =~= pairs@.skip(i + 1));
        i = i + 1;
    }
    None
}

/// A map from texts to values.
pub struct Table<V> {
    entries: Vec<(String, V)>,
}

impl<V> View for Table<V> {
    type V = Map<Seq<char>, V>;

    closed spec fn view(&self) -> Map<Seq<char>, V> {
        map_of(self.entries@)
    }
}

/// Where no key occurs twice, each entry gives the value of its key.
proof fn lemma_value_of<V>(entries: Seq<(String, V)>, i: int)
    requires
        distinct_keys(entries),
        0 <= i < entries.len(),
    ensures
        has_key(entries, entries[i].0@),
        value_of(entries, entries[i].0@) == entries[i].1,
{
    let key = entries[i].0@;
    let k = choose|k: int| 0 <= k < entries.len() && (#[trigger] entries[k]).0@ == key;
    assert(entries[i].0@ == key);
    if k < i {
        assert(entries[k].0@ != entries[i].0@);
    } else if i < k {
        assert(entries[i].0@ != entries[k].0@);
    }
}

impl<V> Table<V> {
    #[verifier::type_invariant]
    spec fn well_formed(self) -> bool {
        distinct_keys(self.entries@)
    }

    /// The empty map.
    pub fn new() -> (out: Self)
        ensures
            out@ == Map::<Seq<char>, V>::empty(),
    {
        let out = Table { entries: Vec::new() };
        assert(out@ =~= Map::<Seq<char>, V>::empty());
        out
    }

    /// Finds the entry of a key.
    fn position(&self, key: &str) -> (out: Option<usize>)
        ensures
            match out {
                Some(i) => i < self.entries@.len() && self.entries@[i as int].0@ == key@,
                None => !has_key(self.entries@, key@),
            },
    {
        let mut i: usize = 0;
        while i < self.entries.len()
            invariant
                i <= self.entries@.len(),
                forall|j: int| 0 <= j < i ==> (#[trigger] self.entries@[j]).0@ != key@,
            decreases self.entries@.len() - i,
        {
            if text::same_text(self.entries[i].0.as_str(), key) {
                return Some(i);
            }
            i = i + 1;
        }
        None
    }

    /// The value of a key.
    pub fn get(&self, key: &str) -> (out: Option<&V>)
        ensures
            match out {
                Some(value) => self@.contains_key(key@) && *value == self@[key@],
                None => !self@.contains_key(key@),
            },
    {
        proof {
            use_type_invariant(self);
        }
        match self.position(key) {
            Some(i) => {
                proof {
                    lemma_value_of(self.entries@, i as int);
                }
                Some(&self.entries[i].1)
            },
            None => None,
        }
    }

    /// Whether a key has a value.
    pub fn contains(&self, key: &str) -> (r: bool)
        ensures
            r == self@.contains_key(key@),
    {
        self.get(key).is_some()
    }

    /// Removes a key and its value.
    pub fn remove(&mut self, key: &str)
        ensures
            final(self)@ == old(self)@.remove(key@),
    {
        proof {
            use_type_invariant(&*self);
        }
        let ghost before = self.entries@;
        match self.position(key) {
            None => {
                assert(map_of(before) =~= map_of(before).remove(key@));
            },
            Some(i) => {
                let mut entries: Vec<(String, V)> = Vec::new();
                std::mem::swap(&mut entries, &mut self.entries);
                entries.remove(i);
                proof {
                    let after = entries@;
                    assert forall|a: int, b: int|
                        #![trigger after[a], after[b]]
                        0 <= a < b < after.len() implies after[a].0@ != after[b].0@ by {
                        let a0 = if a < i {
                            a
                        } else {
                            a + 1
                        };
                        let b0 = if b < i {
                            b
                        } else {
                            b + 1
                        };
                        assert(before[a0].0@ != before[b0].0@);
                    }
                    assert forall|k: Seq<char>| #[trigger] has_key(after, k) <==> (has_key(before, k) && k
                        != key@) by {
                        if has_key(after, k) {
                            let a = choose|a: int| 0 <= a < after.len() && (#[trigger] after[a]).0@ == k;
                            let a0 = if a < i {
                                a
                            } else {
                                a + 1
                            };
                            assert(before[a0].0@ == k);
                            if a0 < i {
                                assert(before[a0].0@ != before[i as int].0@);
                            } else {
                                assert(before[i as int].0@ != before[a0].0@);
                            }
                        }
                        if has_key(before, k) && k != key@ {
                            let a0 = choose|a0: int| 0 <= a0 < before.len() && (#[trigger] before[a0]).0@ == k;
                            let a = if a0 < i {
                                a0
                            } else {
                                a0 - 1
                            };
                            assert(after[a].0@ == k);
                        }
                    }
                    assert forall|k: Seq<char>| has_key(after, k) implies #[trigger] value_of(after, k) == value_of(
                        before,
                        k,
                    ) by {
                        let a = choose|a: int| 0 <= a < after.len() && (#[trigger] after[a]).0@ == k;
                        let a0 = if a < i {
                            a
                        } else {
                            a + 1
                        };
                        lemma_value_of(after, a);
                        lemma_value_of(before, a0);
                    }
                    assert(map_of(after) =~= map_of(before).remove(key@));
                }
                self.entries = entries;
            },
        }
    }

    /// Gives a key a value, in place of the one that it had.
    pub fn insert(&mut self, key: String, value: V)
        ensures
            final(self)@ == old(self)@.insert(key@, value),
    {
        self.remove(key.as_str());
        proof {
            use_type_invariant(&*self);
        }
        let ghost before = self.entries@;
        let ghost k0 = key@;
        let mut entries: Vec<(String, V)> = Vec::new();
        std::mem::swap(&mut entries, &mut self.entries);
        entries.push((key, value));
        proof {
            let after = entries@;
            let n = before.len() as int;
            assert(!map_of(before).contains_key(k0));
            assert forall|a: int, b: int|
                #![trigger after[a], after[b]]
                0 <= a < b < after.len() implies after[a].0@ != after[b].0@ by {
                assert(after[a] == before[a]);
                if b < n {
                    assert(after[b] == before[b]);
                } else {
                    assert(has_key(before, before[a].0@));
                }
            }
            assert forall|k: Seq<char>| #[trigger] has_key(after, k) <==> (has_key(before, k) || k == k0) by {
                if has_key(before, k) {
                    let a = choose|a: int| 0 <= a < before.len() && (#[trigger] before[a]).0@ == k;
                    assert(after[a].0@ == k);
                }
                if k == k0 {
                    assert(after[n].0@ == k);
                }
                if has_key(after, k) {
                    let a = choose|a: int| 0 <= a < after.len() && (#[trigger] after[a]).0@ == k;
                    if a < n {
                        assert(before[a].0@ == k);
                    }
                }
            }
            assert forall|k: Seq<char>| has_key(after, k) implies #[trigger] value_of(after, k) == (if k == k0 {
                value
            } else {
                value_of(before, k)
            }) by {
                let a = choose|a: int| 0 <= a < after.len() && (#[trigger] after[a]).0@ == k;
                lemma_value_of(after, a);
                if a < n {
                    lemma_value_of(before, a);
                    assert(has_key(before, k));
                }
            }
            assert(map_of(after) =~= map_of(before).insert(k0, value));
        }
        self.entries = entries;
    }
}

impl Table<String> {
    /// The keys and values, each key once.
    pub fn snapshot(&self) -> (out: Vec<(String, String)>)
        ensures
            distinct_keys(out@),
            map_of(out@) == self@,
    {
        proof {
            use_type_invariant(self);
        }
        let mut out: Vec<(String, String)> = Vec::new();
        let mut i: usize = 0;
        while i < self.entries.len()
            invariant
                i <= self.entries@.len(),
                out@ == self.entries@.take(i as int),
            decreases self.entries@.len() - i,
        {
            out.push((self.entries[i].0.clone(), self.entries[i].1.clone()));
            i = i + 1;
            assert(self.entries@.take(i as int) =~= self.entries@.take(i - 1).push(self.entries@[i - 1]));
        }
        assert(self.entries@.take(i as int) =~= self.entries@);
        out
    }
}

/// Looking a name up gives the value of the first pair that has it, and nothing
/// exactly where none has it.
pub proof fn law_first_pair_counts(pairs: Seq<(String, String)>, name: Seq<char>, i: int)
    ensures
        0 <= i < pairs.len() && pairs[i].0@ == name && (forall|j: int| 0 <= j < i ==> (#[trigger] pairs[j]).0@ != name)
            ==> lookup(pairs, name) == Some(pairs[i].1@),
        lookup(pairs, name) is None <==> forall|j: int| 0 <= j < pairs.len() ==> (#[trigger] pairs[j]).0@ != name,
    decreases pairs.len(),
{
    if pairs.len() > 0 {
        let rest = pairs.drop_first();
        law_first_pair_counts(rest, name, i - 1);
        if pairs[0].0@ != name {
            assert forall|j: int| 0 <= j < rest.len() implies rest[j] == #[trigger] pairs[j + 1] by {}
            if forall|j: int| 0 <= j < pairs.len() ==> (#[trigger] pairs[j]).0@ != name {
                assert forall|j: int| 0 <= j < rest.len() implies (#[trigger] rest[j]).0@ != name by {
                    assert(rest[j] == pairs[j + 1]);
                }
            }
            if forall|j: int| 0 <= j < rest.len() ==> (#[trigger] rest[j]).0@ != name {
                assert forall|j: int| 0 <= j < pairs.len() implies (#[trigger] pairs[j]).0@ != name by {
                    if j > 0 {
                        assert(rest[j - 1] == pairs[j]);
                    }
                }
            }
            if 0 < i < pairs.len() && (forall|j: int| 0 <= j < i ==> (#[trigger] pairs[j]).0@ != name) {
                assert(rest[i - 1] == pairs[i]);
                assert forall|j: int| 0 <= j < i - 1 implies (#[trigger] rest[j]).0@ != name by {
                    assert(rest[j] == pairs[j + 1]);
                }
            }
        }
    }
}

/// The map that entries write down holds each of them, and nothing besides.
pub proof fn law_map_holds_the_entries<V>(entries: Seq<(String, V)>, i: int, key: Seq<char>)
    requires
        distinct_keys(entries),
    ensures
        0 <= i < entries.len() ==> map_of(entries).contains_key(entries[i].0@) && map_of(entries)[entries[i].0@]
            == entries[i].1,
        map_of(entries).contains_key(key) ==> exists|j: int|
            0 <= j < entries.len() && (#[trigger] entries[j]).0@ == key && map_of(entries)[key] == entries[j].1,
{
    if 0 <= i < entries.len() {
        lemma_value_of(entries, i);
    }
    if has_key(entries, key) {
        let j = choose|j: int| 0 <= j < entries.len() && (#[trigger] entries[j]).0@ == key;
        lemma_value_of(entries, j);
    }
}

} // verus!
