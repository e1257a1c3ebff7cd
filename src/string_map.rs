//! Property store: a mapping from string keys to string values.

use vstd::prelude::*;

verus! {

/// A mapping from keys to values, where inserting an existing key replaces
/// its value. Entries keep the order in which their keys first arrived.
pub struct StringMap {
    entries: Vec<(String, String)>,
    model: Ghost<Map<Seq<char>, Seq<char>>>,
}

impl View for StringMap {
    type V = Map<Seq<char>, Seq<char>>;

    closed spec fn view(&self) -> Map<Seq<char>, Seq<char>> {
        self.model@
    }
}

impl StringMap {
    /// Number of entries.
    pub closed spec fn size(&self) -> nat {
        self.entries@.len()
    }

    /// Key of the `i`-th entry.
    pub closed spec fn key(&self, i: int) -> Seq<char> {
        self.entries@[i].0@
    }

    /// Value of the `i`-th entry.
    pub closed spec fn val(&self, i: int) -> Seq<char> {
        self.entries@[i].1@
    }

    #[verifier::type_invariant]
    closed spec fn well_formed(&self) -> bool {
        self.lists_entries()
    }

    /// The map made of the first `i` entries.
    pub closed spec fn prefix(&self, i: int) -> Map<Seq<char>, Seq<char>>
        decreases i,
    {
        if i <= 0 {
            Map::empty()
        } else {
            self.prefix(i - 1).insert(self.key(i - 1), self.val(i - 1))
        }
    }

    proof fn lemma_prefix(&self, i: int)
        requires
            0 <= i <= self.size(),
            self.lists_entries(),
        ensures
            forall|q: Seq<char>|
                #[trigger] self.prefix(i).contains_key(q) <==> exists|j: int|
                    0 <= j < i && self.key(j) == q,
            forall|j: int| 0 <= j < i ==> #[trigger] self.prefix(i)[self.key(j)] == self.val(j),
        decreases i,
    {
        if i > 0 {
            self.lemma_prefix(i - 1);
            assert(self.prefix(i) == self.prefix(i - 1).insert(self.key(i - 1), self.val(i - 1)));
            assert forall|q: Seq<char>|
                #[trigger] self.prefix(i).contains_key(q) <==> exists|j: int|
                    0 <= j < i && self.key(j) == q by {
                assert(self.prefix(i).contains_key(q) <==> self.prefix(i - 1).contains_key(q) || q
                    == self.key(i - 1));
                if q != self.key(i - 1) && self.prefix(i).contains_key(q) {
                    let j = choose|j: int| 0 <= j < i - 1 && self.key(j) == q;
                    assert(0 <= j < i && self.key(j) == q);
                }
                if exists|j: int| 0 <= j < i && self.key(j) == q {
                    let j = choose|j: int| 0 <= j < i && self.key(j) == q;
                    if j < i - 1 {
                        assert(exists|j: int| 0 <= j < i - 1 && self.key(j) == q);
                    }
                }
            }
            assert forall|j: int| 0 <= j < i implies #[trigger] self.prefix(i)[self.key(j)]
                == self.val(j) by {
                if j < i - 1 {
                    assert(self.key(j) != self.key(i - 1));
                }
            }
        }
    }

    /// The map is the one its entries make, inserted in order.
    proof fn lemma_view_is_prefix(&self)
        requires
            self.lists_entries(),
        ensures
            self@ == self.prefix(self.size() as int),
    {
        self.lemma_prefix(self.size() as int);
        assert(self@ =~= self.prefix(self.size() as int));
    }

    /// The entries list each key of the map once, with its value.
    pub open spec fn lists_entries(&self) -> bool {
        &&& forall|i: int|
            0 <= i < self.size() ==> #[trigger] self@.contains_key(self.key(i)) && self@[self.key(i)]
                == self.val(i)
        &&& forall|k: Seq<char>|
            #[trigger] self@.contains_key(k) ==> exists|i: int|
                0 <= i < self.size() && #[trigger] self.key(i) == k
        &&& forall|i: int, j: int|
            0 <= i < self.size() && 0 <= j < self.size() && i != j ==> #[trigger] self.key(i)
                != #[trigger] self.key(j)
    }

    pub fn new() -> (r: StringMap)
        ensures
            r@ == Map::<Seq<char>, Seq<char>>::empty(),
            r.size() == 0,
    {
        StringMap { entries: Vec::new(), model: Ghost(Map::empty()) }
    }

    pub fn len(&self) -> (r: usize)
        ensures
            r == self.size(),
            r == self@.len(),
            self.lists_entries(),
    {
        proof {
            use_type_invariant(self);
            let keys = Seq::new(self.size(), |i: int| self.key(i));
            assert(keys.no_duplicates()) by {
                assert forall|i: int, j: int|
                    0 <= i < keys.len() && 0 <= j < keys.len() && i != j implies keys[i] != keys[j] by {
                    assert(self.key(i) != self.key(j));
                }
            }
            keys.unique_seq_to_set();
            assert forall|q: Seq<char>| keys.to_set().contains(q) <==> self@.dom().contains(q) by {
                if self@.contains_key(q) {
                    let i = choose|i: int| 0 <= i < self.size() && #[trigger] self.key(i) == q;
                    assert(keys[i] == q);
                }
                if keys.to_set().contains(q) {
                    let i = choose|i: int| 0 <= i < keys.len() && keys[i] == q;
                    assert(self@.contains_key(self.key(i)));
                }
            }
            assert(keys.to_set() =~= self@.dom());
        }
        self.entries.len()
    }

    pub fn key_at(&self, i: usize) -> (r: &String)
        requires
            i < self.size(),
        ensures
            r@ == self.key(i as int),
    {
        &self.entries[i].0
    }

    pub fn value_at(&self, i: usize) -> (r: &String)
        requires
            i < self.size(),
        ensures
            r@ == self.val(i as int),
    {
        &self.entries[i].1
    }

    /// Position of the entry with the given key, if any.
    fn position(&self, key: &String) -> (r: Option<usize>)
        ensures
            match r {
                Some(i) => i < self.size() && self.key(i as int) == key@,
                None => !self@.contains_key(key@),
            },
    {
        proof {
            use_type_invariant(self);
        }
        let mut i: usize = 0;
        while i < self.entries.len()
            invariant
                i <= self.entries@.len(),
                forall|j: int| 0 <= j < i ==> self.entries@[j].0@ != key@,
            decreases self.entries@.len() - i,
        {
            if self.entries[i].0 == *key {
                return Some(i);
            }
            i += 1;
        }
        None
    }

    pub fn get(&self, key: &str) -> (r: Option<&String>)
        ensures
            match r {
                Some(v) => self@.contains_key(key@) && v@ == self@[key@],
                None => !self@.contains_key(key@),
            },
    {
        proof {
            use_type_invariant(self);
        }
        let k = key.to_owned();
        match self.position(&k) {
            Some(i) => Some(&self.entries[i].1),
            None => None,
        }
    }

    pub fn contains_key(&self, key: &str) -> (r: bool)
        ensures
            r == self@.contains_key(key@),
    {
        self.get(key).is_some()
    }

    /// Adds the pair, replacing the value of an existing key.
    pub fn insert(&mut self, key: String, value: String)
        ensures
            final(self)@ == old(self)@.insert(key@, value@),
    {
        proof {
            use_type_invariant(&*self);
        }
        let ghost k = key@;
        let ghost v = value@;
        let ghost m = self.model@.insert(k, v);
        let found = self.position(&key);
        let mut taken = StringMap::new();
        core::mem::swap(self, &mut taken);
        proof {
            use_type_invariant(&taken);
        }
        assert(taken.size() == old(self).size());
        let ghost t = taken;
        let mut entries = taken.entries;
        match found {
            Some(i) => {
                assert(t.key(i as int) == k);
                entries.set(i, (key, value));
            },
            None => {
                entries.push((key, value));
            },
        }
        let ghost pos: int = if found is Some { found->0 as int } else { t.size() as int };
        let ghost r = StringMap { entries, model: Ghost(m) };
        assert(r.lists_entries()) by {
            assert(r.key(pos) == k && r.val(pos) == v);
            assert forall|j: int| 0 <= j < r.size() && j != pos implies #[trigger] r.key(j) == t.key(j)
                && r.val(j) == t.val(j) && t.key(j) != k by {
                if found is None {
                    assert(t@.contains_key(t.key(j)));
                } else {
                    assert(t.key(j) != t.key(pos));
                }
            }
            assert forall|q: Seq<char>| #[trigger] m.contains_key(q) implies exists|j: int|
                0 <= j < r.size() && #[trigger] r.key(j) == q by {
                if q == k {
                    assert(r.key(pos) == q);
                } else {
                    assert(t@.contains_key(q));
                    let j = choose|j: int| 0 <= j < t.size() && #[trigger] t.key(j) == q;
                    assert(r.key(j) == q);
                }
            }
            assert forall|i: int| 0 <= i < r.size() implies #[trigger] m.contains_key(r.key(i))
                && m[r.key(i)] == r.val(i) by {
                if i != pos {
                    assert(t@.contains_key(t.key(i)));
                }
            }
            assert forall|i: int, j: int|
                0 <= i < r.size() && 0 <= j < r.size() && i != j implies #[trigger] r.key(i)
                != #[trigger] r.key(j) by {
                if i != pos && j != pos {
                    assert(t.key(i) != t.key(j));
                }
            }
        }
        *self = StringMap { entries, model: Ghost(m) };
    }

    /// Adds every pair of `layer`, whose values win over the values held for
    /// the same keys.
    pub fn merge(&mut self, layer: &StringMap)
        ensures
            final(self)@ == old(self)@.union_prefer_right(layer@),
    {
        let ghost start = self@;
        let n = layer.len();
        let mut i: usize = 0;
        while i < n
            invariant
                n == layer.size(),
                i <= n,
                layer.lists_entries(),
                self@ == start.union_prefer_right(layer.prefix(i as int)),
            decreases n - i,
        {
            let k = layer.key_at(i).clone();
            let v = layer.value_at(i).clone();
            self.insert(k, v);
            assert(self@ =~= start.union_prefer_right(layer.prefix(i + 1)));
            i += 1;
        }
        proof {
            layer.lemma_view_is_prefix();
        }
    }
}

} // verus!
