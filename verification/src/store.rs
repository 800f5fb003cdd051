//! The shared stores, modelled as association maps keyed by strings.
//!
//! Every process-wide store of the orchestrator (configs, instances,
//! tasks, backends, health, stats) is a map from a string key to a value;
//! `KvMap` gives them concurrent-map semantics in a sequential model:
//! get, insert, remove and iteration, with a `Map<Seq<char>, V>` view.

use vstd::prelude::*;

verus! {

/// The map denoted by a sequence of key-value entries (later entries win).
spec fn entries_map<V>(s: Seq<(String, V)>) -> Map<Seq<char>, V>
    decreases s.len(),
{
    if s.len() == 0 {
        Map::empty()
    } else {
        entries_map(s.drop_last()).insert(s.last().0@, s.last().1)
    }
}

/// The map after removing each of the given keys.
pub open spec fn remove_keys<V>(m: Map<Seq<char>, V>, keys: Seq<Seq<char>>) -> Map<Seq<char>, V>
    decreases keys.len(),
{
    if keys.len() == 0 {
        m
    } else {
        remove_keys(m, keys.drop_last()).remove(keys.last())
    }
}

/// A key survives `remove_keys` exactly when it is none of the removed
/// ones, and keeps its value.
pub proof fn lemma_remove_keys<V>(m: Map<Seq<char>, V>, keys: Seq<Seq<char>>)
    ensures
        forall|k: Seq<char>|
            #[trigger] remove_keys(m, keys).contains_key(k) <==> (m.contains_key(k)
                && !keys.contains(k)),
        forall|k: Seq<char>|
            remove_keys(m, keys).contains_key(k) ==> #[trigger] remove_keys(m, keys)[k] == m[k],
    decreases keys.len(),
{
    if keys.len() > 0 {
        lemma_remove_keys(m, keys.drop_last());
        assert forall|k: Seq<char>|
            #[trigger] remove_keys(m, keys).contains_key(k) <==> (m.contains_key(k)
                && !keys.contains(k)) by {
            if m.contains_key(k) && !keys.contains(k) {
                assert(forall|i: int| 0 <= i < keys.len() ==> keys[i] != k);
                assert(!keys.drop_last().contains(k)) by {
                    if keys.drop_last().contains(k) {
                        let i = choose|i: int|
                            0 <= i < keys.drop_last().len() && keys.drop_last()[i] == k;
                        assert(keys[i] == k);
                    }
                }
                assert(keys.last() != k);
                assert(remove_keys(m, keys.drop_last()).contains_key(k));
            }
            if remove_keys(m, keys).contains_key(k) {
                assert(remove_keys(m, keys.drop_last()).contains_key(k));
                assert(!keys.drop_last().contains(k));
                assert(k != keys.last());
                assert(!keys.contains(k)) by {
                    if keys.contains(k) {
                        let i = choose|i: int| 0 <= i < keys.len() && keys[i] == k;
                        if i < keys.len() - 1 {
                            assert(keys.drop_last()[i] == k);
                        }
                    }
                }
            }
        }
        assert forall|k: Seq<char>|
            remove_keys(m, keys).contains_key(k) implies #[trigger] remove_keys(m, keys)[k]
            == m[k] by {
            assert(remove_keys(m, keys.drop_last()).contains_key(k));
            assert(remove_keys(m, keys)[k] == remove_keys(m, keys.drop_last())[k]);
        }
    }
}

/// A map from string keys to values, backed by a vector of entries with
/// pairwise-distinct keys.
#[derive(Debug)]
pub struct KvMap<V> {
    entries: Vec<(String, V)>,
}

impl<V> View for KvMap<V> {
    type V = Map<Seq<char>, V>;

    closed spec fn view(&self) -> Map<Seq<char>, V> {
        entries_map(self.entries@)
    }
}

proof fn lemma_entries_map_contains<V>(s: Seq<(String, V)>, k: Seq<char>)
    ensures
        entries_map(s).contains_key(k) <==> exists|i: int| 0 <= i < s.len() && #[trigger] s[i].0@
            == k,
    decreases s.len(),
{
    if s.len() > 0 {
        lemma_entries_map_contains(s.drop_last(), k);
        if entries_map(s).contains_key(k) {
            if s.last().0@ == k {
                assert(s[s.len() - 1].0@ == k);
            } else {
                let i = choose|i: int| 0 <= i < s.len() - 1 && #[trigger] s.drop_last()[i].0@ == k;
                assert(s[i].0@ == k);
            }
        }
        if exists|i: int| 0 <= i < s.len() && #[trigger] s[i].0@ == k {
            let i = choose|i: int| 0 <= i < s.len() && #[trigger] s[i].0@ == k;
            if i < s.len() - 1 {
                assert(s.drop_last()[i].0@ == k);
            }
        }
    }
}

proof fn lemma_entries_map_index<V>(s: Seq<(String, V)>, i: int)
    requires
        0 <= i < s.len(),
        forall|p: int, q: int| 0 <= p < q < s.len() ==> (#[trigger] s[p].0)@ != (#[trigger] s[q].0)@,
    ensures
        entries_map(s).contains_key(s[i].0@),
        entries_map(s)[s[i].0@] == s[i].1,
    decreases s.len(),
{
    if i == s.len() - 1 {
        lemma_entries_map_contains(s, s[i].0@);
    } else {
        assert(forall|p: int, q: int|
            0 <= p < q < s.len() - 1 ==> (#[trigger] s.drop_last()[p].0)@ != (
            #[trigger] s.drop_last()[q].0)@);
        lemma_entries_map_index(s.drop_last(), i);
        assert(s.drop_last()[i] == s[i]);
        assert(s[i].0@ != s.last().0@);
    }
}

proof fn lemma_entries_map_absent<V>(s: Seq<(String, V)>, k: Seq<char>)
    requires
        forall|i: int| 0 <= i < s.len() ==> (#[trigger] s[i].0)@ != k,
    ensures
        !entries_map(s).contains_key(k),
{
    lemma_entries_map_contains(s, k);
}

proof fn lemma_entries_map_remove<V>(s: Seq<(String, V)>, i: int)
    requires
        0 <= i < s.len(),
        forall|p: int, q: int| 0 <= p < q < s.len() ==> (#[trigger] s[p].0)@ != (#[trigger] s[q].0)@,
    ensures
        entries_map(s.remove(i)) =~= entries_map(s).remove(s[i].0@),
    decreases s.len(),
{
    let k = s[i].0@;
    if i == s.len() - 1 {
        assert(s.remove(i) =~= s.drop_last());
        assert(forall|j: int| 0 <= j < s.len() - 1 ==> (#[trigger] s.drop_last()[j].0)@ != k);
        lemma_entries_map_absent(s.drop_last(), k);
        assert(entries_map(s).remove(k) =~= entries_map(s.drop_last()));
    } else {
        assert(forall|p: int, q: int|
            0 <= p < q < s.len() - 1 ==> (#[trigger] s.drop_last()[p].0)@ != (
            #[trigger] s.drop_last()[q].0)@);
        lemma_entries_map_remove(s.drop_last(), i);
        assert(s.remove(i).drop_last() =~= s.drop_last().remove(i));
        assert(s.remove(i).last() == s.last());
        assert(entries_map(s.remove(i)) == entries_map(s.drop_last().remove(i)).insert(
            s.last().0@,
            s.last().1,
        ));
        assert(s.drop_last()[i] == s[i]);
        assert(k != s.last().0@);
        assert(entries_map(s.drop_last()).remove(k).insert(s.last().0@, s.last().1)
            =~= entries_map(s.drop_last()).insert(s.last().0@, s.last().1).remove(k));
    }
}

impl<V> KvMap<V> {
    /// Keys are pairwise distinct.
    pub closed spec fn wf(&self) -> bool {
        forall|p: int, q: int|
            0 <= p < q < self.entries@.len() ==> (#[trigger] self.entries@[p].0)@ != (
            #[trigger] self.entries@[q].0)@
    }

    /// The keys, in entry order.
    pub closed spec fn key_seq(&self) -> Seq<Seq<char>> {
        self.entries@.map_values(|e: (String, V)| e.0@)
    }

    pub closed spec fn spec_len(&self) -> nat {
        self.entries@.len()
    }

    pub fn new() -> (r: Self)
        ensures
            r@ =~= Map::<Seq<char>, V>::empty(),
            r.wf(),
            r.spec_len() == 0,
    {
        KvMap { entries: Vec::new() }
    }

    pub fn len(&self) -> (r: usize)
        ensures
            r == self.spec_len(),
    {
        self.entries.len()
    }

    /// Index of the entry holding `key`, if any.
    fn find_index(&self, key: &str) -> (r: Option<usize>)
        ensures
            match r {
                Some(i) => i < self.entries@.len() && self.entries@[i as int].0@ == key@,
                None => forall|i: int|
                    0 <= i < self.entries@.len() ==> (#[trigger] self.entries@[i].0)@ != key@,
            },
    {
        let key_string = String::from_str(key);
        let n = self.entries.len();
        let mut i: usize = 0;
        while i < n
            invariant
                0 <= i <= n,
                n == self.entries@.len(),
                key_string@ == key@,
                forall|j: int| 0 <= j < i ==> (#[trigger] self.entries@[j].0)@ != key@,
            decreases n - i,
        {
            if self.entries[i].0.eq(&key_string) {
                return Some(i);
            }
            i = i + 1;
        }
        None
    }

    pub fn contains_key(&self, key: &str) -> (r: bool)
        ensures
            r == self@.contains_key(key@),
    {
        proof {
            lemma_entries_map_contains(self.entries@, key@);
        }
        match self.find_index(key) {
            Some(i) => {
                proof {
                    assert(self.entries@[i as int].0@ == key@);
                }
                true
            },
            None => false,
        }
    }

    pub fn get(&self, key: &str) -> (r: Option<&V>)
        requires
            self.wf(),
        ensures
            match r {
                Some(v) => self@.contains_key(key@) && *v == self@[key@],
                None => !self@.contains_key(key@),
            },
    {
        match self.find_index(key) {
            Some(i) => {
                proof {
                    lemma_entries_map_index(self.entries@, i as int);
                }
                Some(&self.entries[i].1)
            },
            None => {
                proof {
                    lemma_entries_map_absent(self.entries@, key@);
                }
                None
            },
        }
    }

    pub fn insert(&mut self, key: String, value: V)
        requires
            old(self).wf(),
        ensures
            final(self).wf(),
            final(self)@ =~= old(self)@.insert(key@, value),
            final(self).spec_len() == if old(self)@.contains_key(key@) {
                old(self).spec_len()
            } else {
                old(self).spec_len() + 1
            },
    {
        proof {
            lemma_entries_map_contains(self.entries@, key@);
        }
        match self.find_index(key.as_str()) {
            Some(i) => {
                proof {
                    lemma_entries_map_remove(self.entries@, i as int);
                }
                let ghost before = self.entries@;
                self.entries.remove(i);
                proof {
                    assert forall|p: int, q: int|
                        0 <= p < q < self.entries@.len() implies (#[trigger] self.entries@[p].0)@
                        != (#[trigger] self.entries@[q].0)@ by {
                        assert(self.entries@[p] == before.remove(i as int)[p]);
                        assert(self.entries@[q] == before.remove(i as int)[q]);
                    }
                    assert forall|j: int|
                        0 <= j < self.entries@.len() implies (#[trigger] self.entries@[j].0)@
                        != key@ by {
                        if j < i {
                            assert(self.entries@[j] == before[j]);
                        } else {
                            assert(self.entries@[j] == before[j + 1]);
                        }
                    }
                }
                let ghost mid = self.entries@;
                self.entries.push((key, value));
                proof {
                    assert(self.entries@.drop_last() =~= mid);
                    assert(self@ =~= old(self)@.insert(key@, value));
                }
            },
            None => {
                proof {
                    lemma_entries_map_absent(self.entries@, key@);
                }
                let ghost mid = self.entries@;
                self.entries.push((key, value));
                proof {
                    assert(self.entries@.drop_last() =~= mid);
                }
            },
        }
    }

    pub fn remove(&mut self, key: &str) -> (r: Option<V>)
        requires
            old(self).wf(),
        ensures
            final(self).wf(),
            final(self)@ =~= old(self)@.remove(key@),
            match r {
                Some(v) => old(self)@.contains_key(key@) && v == old(self)@[key@]
                    && final(self).spec_len() == old(self).spec_len() - 1,
                None => !old(self)@.contains_key(key@) && final(self).spec_len() == old(
                    self,
                ).spec_len(),
            },
    {
        match self.find_index(key) {
            Some(i) => {
                proof {
                    lemma_entries_map_index(self.entries@, i as int);
                    lemma_entries_map_remove(self.entries@, i as int);
                }
                let ghost before = self.entries@;
                let entry = self.entries.remove(i);
                proof {
                    assert forall|p: int, q: int|
                        0 <= p < q < self.entries@.len() implies (#[trigger] self.entries@[p].0)@
                        != (#[trigger] self.entries@[q].0)@ by {
                        assert(self.entries@[p] == before.remove(i as int)[p]);
                        assert(self.entries@[q] == before.remove(i as int)[q]);
                    }
                }
                Some(entry.1)
            },
            None => {
                proof {
                    lemma_entries_map_absent(self.entries@, key@);
                    assert(self@ =~= old(self)@.remove(key@));
                }
                None
            },
        }
    }

    /// The key of the `i`-th entry.
    pub fn key_at(&self, i: usize) -> (r: &String)
        requires
            i < self.spec_len(),
        ensures
            r@ == self.key_seq()[i as int],
    {
        &self.entries[i].0
    }

    /// The value of the `i`-th entry; it is the value the map holds for
    /// the `i`-th key.
    pub fn val_at(&self, i: usize) -> (r: &V)
        requires
            self.wf(),
            i < self.spec_len(),
        ensures
            self@.contains_key(self.key_seq()[i as int]),
            *r == self@[self.key_seq()[i as int]],
    {
        proof {
            lemma_entries_map_index(self.entries@, i as int);
        }
        &self.entries[i].1
    }

    /// Every key is in the map, and the key sequence has no repeats.
    pub proof fn lemma_keys(&self)
        requires
            self.wf(),
        ensures
            self.key_seq().len() == self.spec_len(),
            forall|i: int|
                0 <= i < self.key_seq().len() ==> self@.contains_key(#[trigger] self.key_seq()[i]),
            forall|k: Seq<char>|
                self@.contains_key(k) ==> exists|i: int|
                    0 <= i < self.key_seq().len() && #[trigger] self.key_seq()[i] == k,
            forall|p: int, q: int|
                0 <= p < q < self.key_seq().len() ==> self.key_seq()[p] != self.key_seq()[q],
    {
        assert forall|i: int| 0 <= i < self.key_seq().len() implies self@.contains_key(
            #[trigger] self.key_seq()[i],
        ) by {
            lemma_entries_map_index(self.entries@, i);
        }
        assert forall|k: Seq<char>| self@.contains_key(k) implies exists|i: int|
            0 <= i < self.key_seq().len() && #[trigger] self.key_seq()[i] == k by {
            lemma_entries_map_contains(self.entries@, k);
            let i = choose|i: int|
                0 <= i < self.entries@.len() && #[trigger] self.entries@[i].0@ == k;
            assert(self.key_seq()[i] == k);
        }
    }
}

} // verus!
