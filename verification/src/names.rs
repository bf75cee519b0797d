//! A table from names to values: what labels, variables and custom instructions
//! are looked up in. Inserting a name that is already there replaces its value.
use vstd::prelude::*;

verus! {

/// The map that the entries `keys[i] -> vals[i]` describe; of two entries with the
/// same name, the later one counts.
pub open spec fn map_of<V>(keys: Seq<String>, vals: Seq<V>) -> Map<Seq<char>, V>
    decreases keys.len(),
{
    if keys.len() == 0 || keys.len() != vals.len() {
        Map::empty()
    } else {
        map_of(keys.drop_last(), vals.drop_last()).insert(keys.last()@, vals.last())
    }
}

/// The index of the last entry named `k`, or -1.
pub open spec fn last_index(keys: Seq<String>, k: Seq<char>) -> int
    decreases keys.len(),
{
    if keys.len() == 0 {
        -1
    } else if keys.last()@ == k {
        keys.len() - 1
    } else {
        last_index(keys.drop_last(), k)
    }
}

proof fn lemma_last_index(keys: Seq<String>, k: Seq<char>)
    ensures
        -1 <= last_index(keys, k) < keys.len(),
        last_index(keys, k) >= 0 ==> keys[last_index(keys, k)]@ == k,
        forall|j: int| last_index(keys, k) < j < keys.len() ==> #[trigger] keys[j]@ != k,
    decreases keys.len(),
{
    if keys.len() > 0 && keys.last()@ != k {
        lemma_last_index(keys.drop_last(), k);
        assert forall|j: int| last_index(keys, k) < j < keys.len() implies #[trigger] keys[j]@
            != k by {
            if j < keys.len() - 1 {
                assert(keys.drop_last()[j] == keys[j]);
            }
        }
    }
}

proof fn lemma_map_of_lookup<V>(keys: Seq<String>, vals: Seq<V>, k: Seq<char>)
    requires
        keys.len() == vals.len(),
    ensures
        map_of(keys, vals).contains_key(k) <==> last_index(keys, k) >= 0,
        last_index(keys, k) >= 0 ==> map_of(keys, vals)[k] == vals[last_index(keys, k)],
    decreases keys.len(),
{
    if keys.len() > 0 {
        lemma_map_of_lookup(keys.drop_last(), vals.drop_last(), k);
        lemma_last_index(keys.drop_last(), k);
    }
}

proof fn lemma_map_of_update<V>(keys: Seq<String>, vals: Seq<V>, i: int, v: V)
    requires
        keys.len() == vals.len(),
        0 <= i < keys.len(),
        last_index(keys, keys[i]@) == i,
    ensures
        map_of(keys, vals.update(i, v)) == map_of(keys, vals).insert(keys[i]@, v),
    decreases keys.len(),
{
    let n = keys.len();
    let k = keys[i]@;
    let vals2 = vals.update(i, v);
    if i == n - 1 {
        assert(vals2.drop_last() =~= vals.drop_last());
        assert(map_of(keys, vals2) =~= map_of(keys, vals).insert(k, v));
    } else {
        assert(keys.last()@ != k);
        assert(keys.drop_last()[i] == keys[i]);
        assert(vals2.drop_last() =~= vals.drop_last().update(i, v));
        lemma_map_of_update(keys.drop_last(), vals.drop_last(), i, v);
        assert(map_of(keys, vals2) =~= map_of(keys, vals).insert(k, v));
    }
}

proof fn lemma_map_of_push<V>(keys: Seq<String>, vals: Seq<V>, k: String, v: V)
    requires
        keys.len() == vals.len(),
    ensures
        map_of(keys.push(k), vals.push(v)) == map_of(keys, vals).insert(k@, v),
{
    assert(keys.push(k).drop_last() =~= keys);
    assert(vals.push(v).drop_last() =~= vals);
}

/// A table from names to values.
pub struct NameTable<V> {
    keys: Vec<String>,
    vals: Vec<V>,
}

impl<V> NameTable<V> {
    /// The table is well formed: as many values as names.
    pub closed spec fn wf(&self) -> bool {
        self.keys@.len() == self.vals@.len()
    }

    /// The table as a map from names to values.
    pub closed spec fn map(&self) -> Map<Seq<char>, V> {
        map_of(self.keys@, self.vals@)
    }

    /// Whether `i` is the place where the value of a name is kept.
    pub closed spec fn is_slot(&self, i: int) -> bool {
        &&& 0 <= i < self.keys@.len()
        &&& last_index(self.keys@, self.keys@[i]@) == i
    }

    /// The name kept at place `i`.
    pub closed spec fn key_at(&self, i: int) -> Seq<char> {
        self.keys@[i]@
    }

    /// An empty table.
    pub fn new() -> (r: NameTable<V>)
        ensures
            r.wf(),
            r.map() == Map::<Seq<char>, V>::empty(),
    {
        NameTable { keys: Vec::new(), vals: Vec::new() }
    }

    /// Where the value of `key` is kept, if the table holds it.
    #[verifier::loop_isolation(false)]
    pub fn find(&self, key: &String) -> (r: Option<usize>)
        requires
            self.wf(),
        ensures
            r is None <==> !self.map().contains_key(key@),
            r matches Some(i) ==> self.is_slot(i as int) && self.key_at(i as int) == key@,
    {
        proof {
            lemma_map_of_lookup(self.keys@, self.vals@, key@);
            lemma_last_index(self.keys@, key@);
        }
        let mut i = self.keys.len();
        while i > 0
            invariant
                i <= self.keys@.len(),
                forall|j: int| i <= j < self.keys@.len() ==> #[trigger] self.keys@[j]@ != key@,
            decreases i,
        {
            i = i - 1;
            if self.keys[i] == *key {
                return Some(i);
            }
        }
        proof {
            if last_index(self.keys@, key@) >= 0 {
                let j = last_index(self.keys@, key@);
                assert(self.keys@[j]@ == key@);
            }
        }
        None
    }

    /// The value kept at place `i`.
    pub fn value_at(&self, i: usize) -> (r: &V)
        requires
            self.wf(),
            self.is_slot(i as int),
        ensures
            self.map().contains_key(self.key_at(i as int)),
            *r == self.map()[self.key_at(i as int)],
    {
        proof {
            lemma_map_of_lookup(self.keys@, self.vals@, self.keys@[i as int]@);
        }
        &self.vals[i]
    }

    /// Replaces the value kept at place `i` by `v`, and returns the value it held.
    pub fn replace_at(&mut self, i: usize, v: V) -> (r: V)
        requires
            old(self).wf(),
            old(self).is_slot(i as int),
        ensures
            final(self).wf(),
            r == old(self).map()[old(self).key_at(i as int)],
            final(self).map() == old(self).map().insert(old(self).key_at(i as int), v),
            final(self).is_slot(i as int),
            final(self).key_at(i as int) == old(self).key_at(i as int),
    {
        proof {
            lemma_map_of_lookup(self.keys@, self.vals@, self.keys@[i as int]@);
            lemma_map_of_update(self.keys@, self.vals@, i as int, v);
        }
        let mut tmp = v;
        self.vals.set_and_swap(i, &mut tmp);
        tmp
    }

    /// Sets the value of `key` to `v`: replaces it where the table holds `key`,
    /// adds an entry otherwise.
    pub fn insert(&mut self, key: String, v: V)
        requires
            old(self).wf(),
        ensures
            final(self).wf(),
            final(self).map() == old(self).map().insert(key@, v),
    {
        match self.find(&key) {
            Some(i) => {
                self.replace_at(i, v);
            },
            None => {
                proof {
                    lemma_map_of_push(self.keys@, self.vals@, key, v);
                }
                self.keys.push(key);
                self.vals.push(v);
            },
        }
    }
}

} // verus!
