//! A map from text to values, kept as a list of entries.

use vstd::prelude::*;

use crate::text;

verus! {

/// Whether no two entries share a key.
pub open spec fn keys_differ<V>(s: Seq<(String, V)>) -> bool {
    forall|i: int, j: int|
        0 <= i < s.len() && 0 <= j < s.len() && i != j ==> #[trigger] s[i].0@ != #[trigger] s[j].0@
}

/// Whether some entry has the key `k`.
pub open spec fn has_key<V>(s: Seq<(String, V)>, k: Seq<char>) -> bool {
    exists|i: int| 0 <= i < s.len() && #[trigger] s[i].0@ == k
}

/// The map that a list of entries stands for.
pub open spec fn map_of<V>(s: Seq<(String, V)>) -> Map<Seq<char>, V> {
    Map::new(
        |k: Seq<char>| has_key(s, k),
        |k: Seq<char>| s[choose|i: int| 0 <= i < s.len() && #[trigger] s[i].0@ == k].1,
    )
}

/// Entry `i` is found under its key.
pub proof fn lemma_map_of_at<V>(s: Seq<(String, V)>, i: int)
    requires
        keys_differ(s),
        0 <= i < s.len(),
    ensures
        map_of(s).contains_key(s[i].0@),
        map_of(s)[s[i].0@] == s[i].1,
{
    assert(has_key(s, s[i].0@));
}

/// There are as many keys as entries.
pub proof fn lemma_map_of_len<V>(s: Seq<(String, V)>)
    requires
        keys_differ(s),
    ensures
        map_of(s).dom().finite(),
        map_of(s).len() == s.len(),
    decreases s.len(),
{
    let keys = Seq::new(s.len(), |i: int| s[i].0@);
    assert(keys.no_duplicates());
    keys.unique_seq_to_set();
    vstd::seq_lib::seq_to_set_is_finite(keys);
    assert forall|k: Seq<char>| map_of(s).dom().contains(k) <==> keys.to_set().contains(k) by {
        if map_of(s).dom().contains(k) {
            let i = choose|i: int| 0 <= i < s.len() && #[trigger] s[i].0@ == k;
            assert(keys[i] == k);
        }
        if keys.to_set().contains(k) {
            let i = choose|i: int| 0 <= i < keys.len() && keys[i] == k;
            assert(s[i].0@ == k);
        }
    }
    assert(map_of(s).dom() =~= keys.to_set());
}

/// A map with text keys.
pub struct TextMap<V> {
    entries: Vec<(String, V)>,
}

impl<V> View for TextMap<V> {
    type V = Map<Seq<char>, V>;

    closed spec fn view(&self) -> Map<Seq<char>, V> {
        map_of(self.entries@)
    }
}

impl<V> TextMap<V> {
    #[verifier::type_invariant]
    spec fn wf(self) -> bool {
        keys_differ(self.entries@)
    }

    /// The entries, each key once.
    pub closed spec fn entries(&self) -> Seq<(String, V)> {
        self.entries@
    }

    /// A map without entries.
    pub fn new() -> (r: Self)
        ensures
            r@ == Map::<Seq<char>, V>::empty(),
            r.entries() == Seq::<(String, V)>::empty(),
    {
        let r = TextMap { entries: Vec::new() };
        assert(r@ =~= Map::<Seq<char>, V>::empty());
        r
    }

    /// How many entries there are.
    pub fn len(&self) -> (r: usize)
        ensures
            self@.dom().finite(),
            r == self@.len(),
            r == self.entries().len(),
            keys_differ(self.entries()),
            self@ == map_of(self.entries()),
    {
        proof {
            use_type_invariant(self);
            lemma_map_of_len(self.entries@);
        }
        self.entries.len()
    }

    /// The entry at position `i`.
    pub fn at(&self, i: usize) -> (r: (&String, &V))
        requires
            i < self.entries().len(),
        ensures
            *r.0 == self.entries()[i as int].0,
            *r.1 == self.entries()[i as int].1,
    {
        let e = &self.entries[i];
        (&e.0, &e.1)
    }

    fn locate(&self, k: &str) -> (r: Option<usize>)
        ensures
            match r {
                Some(i) => i < self.entries@.len() && self.entries@[i as int].0@ == k@,
                None => !has_key(self.entries@, k@),
            },
    {
        let mut i: usize = 0;
        while i < self.entries.len()
            invariant
                forall|j: int| 0 <= j < i ==> #[trigger] self.entries@[j].0@ != k@,
            decreases self.entries@.len() - i,
        {
            if text::same_str(self.entries[i].0.as_str(), k) {
                return Some(i);
            }
            i += 1;
        }
        None
    }

    /// The value under `k`.
    pub fn get(&self, k: &str) -> (r: Option<&V>)
        ensures
            match r {
                Some(v) => self@.contains_key(k@) && *v == self@[k@],
                None => !self@.contains_key(k@),
            },
    {
        proof {
            use_type_invariant(self);
        }
        match self.locate(k) {
            Some(i) => {
                proof {
                    lemma_map_of_at(self.entries@, i as int);
                }
                Some(&self.entries[i].1)
            },
            None => None,
        }
    }

    /// Whether there is a value under `k`.
    pub fn contains_key(&self, k: &str) -> (r: bool)
        ensures
            r == self@.contains_key(k@),
    {
        self.get(k).is_some()
    }

    /// Puts `v` under `k`, in place of what was there.
    pub fn insert(&mut self, k: String, v: V)
        ensures
            final(self)@ == old(self)@.insert(k@, v),
    {
        proof {
            use_type_invariant(&*self);
        }
        let found = self.locate(k.as_str());
        let mut entries: Vec<(String, V)> = Vec::new();
        std::mem::swap(&mut entries, &mut self.entries);
        let ghost before = entries@;
        let ghost key = k@;
        match found {
            Some(i) => {
                entries.set(i, (k, v));
                proof {
                    let after = entries@;
                    assert forall|x: Seq<char>| has_key(after, x) <==> has_key(before, x) by {
                        if has_key(after, x) {
                            let j = choose|j: int| 0 <= j < after.len() && #[trigger] after[j].0@ == x;
                            assert(before[j].0@ == x);
                        }
                        if has_key(before, x) {
                            let j = choose|j: int| 0 <= j < before.len() && #[trigger] before[j].0@ == x;
                            assert(after[j].0@ == x);
                        }
                    }
                    assert(keys_differ(after)) by {
                        assert forall|a: int, b: int|
                            0 <= a < after.len() && 0 <= b < after.len() && a != b implies
                            #[trigger] after[a].0@ != #[trigger] after[b].0@ by {
                            assert(before[a].0@ == after[a].0@ && before[b].0@ == after[b].0@);
                        }
                    }
                    assert forall|x: Seq<char>| has_key(after, x) implies map_of(after)[x]
                        == #[trigger] map_of(before).insert(key, v)[x] by {
                        let j = choose|j: int| 0 <= j < after.len() && #[trigger] after[j].0@ == x;
                        assert(before[j].0@ == x);
                        lemma_map_of_at(after, j);
                        lemma_map_of_at(before, j);
                        lemma_map_of_at(before, i as int);
                        if x == key {
                            assert(before[i as int].0@ == before[j].0@);
                        }
                    }
                    assert(has_key(before, key));
                    assert(map_of(after) =~= map_of(before).insert(key, v));
                }
            },
            None => {
                entries.push((k, v));
                proof {
                    let after = entries@;
                    assert(after == before.push((k, v)));
                    assert(keys_differ(after)) by {
                        assert forall|a: int, b: int|
                            0 <= a < after.len() && 0 <= b < after.len() && a != b implies
                            #[trigger] after[a].0@ != #[trigger] after[b].0@ by {
                            if a < before.len() {
                                assert(before[a].0@ == after[a].0@);
                            }
                            if b < before.len() {
                                assert(before[b].0@ == after[b].0@);
                            }
                        }
                    }
                    assert forall|x: Seq<char>| has_key(after, x) <==> (has_key(before, x) || x == key) by {
                        if has_key(after, x) {
                            let j = choose|j: int| 0 <= j < after.len() && #[trigger] after[j].0@ == x;
                            if j < before.len() {
                                assert(before[j].0@ == x);
                            }
                        }
                        if has_key(before, x) {
                            let j = choose|j: int| 0 <= j < before.len() && #[trigger] before[j].0@ == x;
                            assert(after[j].0@ == x);
                        }
                        assert(after[before.len() as int].0@ == key);
                    }
                    assert forall|x: Seq<char>| has_key(after, x) implies map_of(after)[x]
                        == #[trigger] map_of(before).insert(key, v)[x] by {
                        let j = choose|j: int| 0 <= j < after.len() && #[trigger] after[j].0@ == x;
                        lemma_map_of_at(after, j);
                        if j < before.len() {
                            assert(before[j].0@ == x);
                            lemma_map_of_at(before, j);
                        }
                    }
                    assert(map_of(after) =~= map_of(before).insert(key, v));
                }
            },
        }
        self.entries = entries;
    }

    /// Drops what is under `k`, and says whether there was anything.
    pub fn remove(&mut self, k: &str) -> (r: bool)
        ensures
            final(self)@ == old(self)@.remove(k@),
            r == old(self)@.contains_key(k@),
    {
        proof {
            use_type_invariant(&*self);
        }
        let found = self.locate(k);
        let mut entries: Vec<(String, V)> = Vec::new();
        std::mem::swap(&mut entries, &mut self.entries);
        let ghost before = entries@;
        let gone = match found {
            Some(i) => {
                entries.remove(i);
                proof {
                    let after = entries@;
                    let n = i as int;
                    assert(after == before.remove(n));
                    assert(forall|j: int| 0 <= j < n ==> after[j] == before[j]);
                    assert(forall|j: int| n <= j < after.len() ==> after[j] == before[j + 1]);
                    assert(keys_differ(after)) by {
                        assert forall|a: int, b: int|
                            0 <= a < after.len() && 0 <= b < after.len() && a != b implies
                            #[trigger] after[a].0@ != #[trigger] after[b].0@ by {
                            let x = if a < n { a } else { a + 1 };
                            let y = if b < n { b } else { b + 1 };
                            assert(before[x].0@ == after[a].0@ && before[y].0@ == after[b].0@);
                        }
                    }
                    assert forall|x: Seq<char>| has_key(after, x) <==> (has_key(before, x) && x != k@) by {
                        if has_key(after, x) {
                            let j = choose|j: int| 0 <= j < after.len() && #[trigger] after[j].0@ == x;
                            let y = if j < n { j } else { j + 1 };
                            assert(before[y].0@ == x);
                            assert(before[n].0@ == k@);
                        }
                        if has_key(before, x) && x != k@ {
                            let j = choose|j: int| 0 <= j < before.len() && #[trigger] before[j].0@ == x;
                            let y = if j < n { j } else { j - 1 };
                            assert(after[y].0@ == x);
                        }
                    }
                    assert forall|x: Seq<char>| has_key(after, x) implies map_of(after)[x]
                        == #[trigger] map_of(before).remove(k@)[x] by {
                        let j = choose|j: int| 0 <= j < after.len() && #[trigger] after[j].0@ == x;
                        let y = if j < n { j } else { j + 1 };
                        lemma_map_of_at(after, j);
                        lemma_map_of_at(before, y);
                    }
                    assert(map_of(after) =~= map_of(before).remove(k@));
                    assert(before[n].0@ == k@);
                    assert(has_key(before, k@));
                }
                true
            },
            None => {
                assert(map_of(before) =~= map_of(before).remove(k@));
                false
            },
        };
        self.entries = entries;
        gone
    }
}

} // verus!
