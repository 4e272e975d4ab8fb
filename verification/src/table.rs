//! A table from texts to values.

use crate::text::{same_text, texts};
use vstd::prelude::*;

verus! {

/// A table from texts to values, which keeps the order in which its keys were first inserted.
pub struct Table<V> {
    entries: Vec<(String, V)>,
}

/// Whether `k` is the key of the entry at `i`.
spec fn is_key_at<V>(entries: Seq<(String, V)>, k: Seq<char>, i: int) -> bool {
    0 <= i < entries.len() && entries[i].0@ == k
}

/// Whether no two entries have the same key.
spec fn keys_differ<V>(entries: Seq<(String, V)>) -> bool {
    forall|i: int, j: int|
        0 <= i < j < entries.len() ==> (#[trigger] entries[i]).0@ != (#[trigger] entries[j]).0@
}

/// What the entries map each key to.
spec fn as_map<V>(entries: Seq<(String, V)>) -> Map<Seq<char>, V> {
    Map::new(
        |k: Seq<char>| exists|i: int| is_key_at(entries, k, i),
        |k: Seq<char>| entries[choose|i: int| is_key_at(entries, k, i)].1,
    )
}

/// The keys in the order of the entries.
spec fn key_order<V>(entries: Seq<(String, V)>) -> Seq<Seq<char>> {
    entries.map_values(|e: (String, V)| e.0@)
}

proof fn lemma_entry<V>(entries: Seq<(String, V)>, i: int)
    requires
        keys_differ(entries),
        0 <= i < entries.len(),
    ensures
        as_map(entries).contains_key(entries[i].0@),
        as_map(entries)[entries[i].0@] == entries[i].1,
{
    let k = entries[i].0@;
    assert(is_key_at(entries, k, i));
    let j = choose|j: int| is_key_at(entries, k, j);
    assert(is_key_at(entries, k, j));
    if i < j {
        assert(entries[i].0@ != entries[j].0@);
    } else if j < i {
        assert(entries[j].0@ != entries[i].0@);
    }
}

proof fn lemma_set<V>(entries: Seq<(String, V)>, i: int, v: V)
    requires
        keys_differ(entries),
        0 <= i < entries.len(),
    ensures
        keys_differ(entries.update(i, (entries[i].0, v))),
        as_map(entries.update(i, (entries[i].0, v))) == as_map(entries).insert(entries[i].0@, v),
{
    let new = entries.update(i, (entries[i].0, v));
    let k0 = entries[i].0@;
    assert(forall|j: int| 0 <= j < new.len() ==> (#[trigger] new[j]).0 == entries[j].0);
    assert(keys_differ(new));
    assert forall|k: Seq<char>|
        #[trigger] as_map(new).contains_key(k) <==> as_map(entries).insert(k0, v).contains_key(
            k,
        ) by {
        if as_map(new).contains_key(k) {
            let j = choose|j: int| is_key_at(new, k, j);
            assert(is_key_at(entries, k, j));
        }
        if as_map(entries).contains_key(k) {
            let j = choose|j: int| is_key_at(entries, k, j);
            assert(is_key_at(new, k, j));
        }
        lemma_entry(new, i);
    }
    assert forall|k: Seq<char>| as_map(new).contains_key(k) implies #[trigger] as_map(new)[k]
        == as_map(entries).insert(k0, v)[k] by {
        let j = choose|j: int| is_key_at(new, k, j);
        assert(is_key_at(entries, k, j));
        lemma_entry(new, j);
        lemma_entry(entries, j);
    }
    assert(as_map(new) =~= as_map(entries).insert(k0, v));
}

proof fn lemma_push<V>(entries: Seq<(String, V)>, key: String, v: V)
    requires
        keys_differ(entries),
        !as_map(entries).contains_key(key@),
    ensures
        keys_differ(entries.push((key, v))),
        as_map(entries.push((key, v))) == as_map(entries).insert(key@, v),
{
    let new = entries.push((key, v));
    let n = entries.len() as int;
    assert forall|i: int, j: int| 0 <= i < j < new.len() implies (#[trigger] new[i]).0@ != (
    #[trigger] new[j]).0@ by {
        if j == n {
            assert(is_key_at(entries, entries[i].0@, i));
        }
    }
    assert forall|k: Seq<char>|
        #[trigger] as_map(new).contains_key(k) <==> as_map(entries).insert(key@, v).contains_key(
            k,
        ) by {
        if as_map(new).contains_key(k) {
            let j = choose|j: int| is_key_at(new, k, j);
            if j < n {
                assert(is_key_at(entries, k, j));
            }
        }
        if as_map(entries).contains_key(k) {
            let j = choose|j: int| is_key_at(entries, k, j);
            assert(is_key_at(new, k, j));
        }
        lemma_entry(new, n);
    }
    assert forall|k: Seq<char>| as_map(new).contains_key(k) implies #[trigger] as_map(new)[k]
        == as_map(entries).insert(key@, v)[k] by {
        let j = choose|j: int| is_key_at(new, k, j);
        lemma_entry(new, j);
        if j < n {
            lemma_entry(entries, j);
        }
    }
    assert(as_map(new) =~= as_map(entries).insert(key@, v));
}

proof fn lemma_map_len<V>(entries: Seq<(String, V)>)
    requires
        keys_differ(entries),
    ensures
        as_map(entries).dom().finite(),
        as_map(entries).dom().len() == entries.len(),
        key_order(entries).no_duplicates(),
        as_map(entries).dom() == key_order(entries).to_set(),
{
    let keys = key_order(entries);
    assert(keys.no_duplicates()) by {
        assert forall|i: int, j: int|
            0 <= i < keys.len() && 0 <= j < keys.len() && i != j implies keys[i] != keys[j] by {
            if i < j {
                assert(entries[i].0@ != entries[j].0@);
            } else {
                assert(entries[j].0@ != entries[i].0@);
            }
        }
    }
    assert forall|k: Seq<char>|
        #[trigger] as_map(entries).dom().contains(k) <==> keys.to_set().contains(k) by {
        if as_map(entries).dom().contains(k) {
            let j = choose|j: int| is_key_at(entries, k, j);
            assert(keys[j] == k);
        }
        if keys.contains(k) {
            let j = choose|j: int| 0 <= j < keys.len() && keys[j] == k;
            assert(is_key_at(entries, k, j));
        }
    }
    assert(as_map(entries).dom() =~= keys.to_set());
    keys.unique_seq_to_set();
}

impl<V> View for Table<V> {
    type V = Map<Seq<char>, V>;

    closed spec fn view(&self) -> Map<Seq<char>, V> {
        as_map(self.entries@)
    }
}

impl<V> Table<V> {
    #[verifier::type_invariant]
    spec fn wf(self) -> bool {
        keys_differ(self.entries@)
    }

    /// The keys, in the order in which they were first inserted.
    pub closed spec fn key_order(self) -> Seq<Seq<char>> {
        key_order(self.entries@)
    }

    /// A table without entries.
    pub fn new() -> (r: Self)
        ensures
            r@ == Map::<Seq<char>, V>::empty(),
            r.key_order() == Seq::<Seq<char>>::empty(),
    {
        let r = Table { entries: Vec::new() };
        proof {
            assert forall|k: Seq<char>| !as_map(r.entries@).contains_key(k) by {
                if as_map(r.entries@).contains_key(k) {
                    let j = choose|j: int| is_key_at(r.entries@, k, j);
                    assert(is_key_at(r.entries@, k, j));
                }
            }
            assert(r@ =~= Map::<Seq<char>, V>::empty());
        }
        r
    }

    /// The index of the entry with the given key.
    fn position(&self, key: &str) -> (r: Option<usize>)
        ensures
            match r {
                Some(i) => i < self.entries@.len() && self.entries@[i as int].0@ == key@,
                None => !self@.contains_key(key@),
            },
    {
        let n: usize = self.entries.len();
        for i in 0..n
            invariant
                n == self.entries@.len(),
                forall|j: int| 0 <= j < i ==> (#[trigger] self.entries@[j]).0@ != key@,
        {
            if same_text(self.entries[i].0.as_str(), key) {
                return Some(i);
            }
        }
        proof {
            if self@.contains_key(key@) {
                let j = choose|j: int| is_key_at(self.entries@, key@, j);
                assert(self.entries@[j].0@ != key@);
            }
        }
        None
    }

    /// What the table maps `key` to.
    pub fn get(&self, key: &str) -> (r: Option<&V>)
        ensures
            match r {
                Some(v) => self@.contains_key(key@) && *v == self@[key@],
                None => !self@.contains_key(key@),
            },
    {
        proof {
            use_type_invariant(self);
        }
        match self.position(key) {
            Some(i) => {
                proof {
                    lemma_entry(self.entries@, i as int);
                }
                Some(&self.entries[i].1)
            },
            None => None,
        }
    }

    /// Maps `key` to `value`, in place of what it was mapped to before.
    pub fn insert(&mut self, key: String, value: V)
        ensures
            final(self)@ == old(self)@.insert(key@, value),
            final(self).key_order() == (if old(self)@.contains_key(key@) {
                old(self).key_order()
            } else {
                old(self).key_order().push(key@)
            }),
    {
        proof {
            use_type_invariant(&*self);
        }
        let at = self.position(key.as_str());
        let mut entries: Vec<(String, V)> = Vec::new();
        std::mem::swap(&mut entries, &mut self.entries);
        let ghost before = entries@;
        match at {
            Some(i) => {
                proof {
                    lemma_set(before, i as int, value);
                    lemma_entry(before, i as int);
                    let new = before.update(i as int, (before[i as int].0, value));
                    assert(key_order(new) =~= key_order(before));
                }
                let old_key: String = entries[i].0.clone();
                entries.set(i, (old_key, value));
            },
            None => {
                proof {
                    lemma_push(before, key, value);
                    assert(key_order(before.push((key, value))) =~= key_order(before).push(key@));
                }
                entries.push((key, value));
            },
        }
        self.entries = entries;
    }

    /// How many keys the table has.
    pub fn len(&self) -> (r: usize)
        ensures
            self@.dom().finite(),
            r == self@.dom().len(),
            r == self.key_order().len(),
    {
        proof {
            use_type_invariant(self);
            lemma_map_len(self.entries@);
        }
        self.entries.len()
    }

    /// The keys, in the order in which they were first inserted.
    pub fn keys(&self) -> (r: Vec<String>)
        ensures
            texts(r@) == self.key_order(),
            self.key_order().no_duplicates(),
            self.key_order().to_set() == self@.dom(),
    {
        proof {
            use_type_invariant(self);
            lemma_map_len(self.entries@);
        }
        let n: usize = self.entries.len();
        let mut out: Vec<String> = Vec::new();
        for i in 0..n
            invariant
                n == self.entries@.len(),
                texts(out@) == self.key_order().take(i as int),
        {
            let key: String = self.entries[i].0.clone();
            proof {
                assert(texts(out@.push(key)) == texts(out@).push(key@));
                assert(self.key_order().take(i + 1) == self.key_order().take(i as int).push(key@));
            }
            out.push(key);
        }
        proof {
            assert(self.key_order().take(n as int) == self.key_order());
        }
        out
    }
}

} // verus!
