use vstd::prelude::*;

verus! {

/// A map from strings to strings, held as a list of entries with distinct
/// names.
pub struct StringMap {
    entries: Vec<(String, String)>,
}

impl StringMap {
    /// No two entries have the same name.
    #[verifier::type_invariant]
    spec fn names_unique(self) -> bool {
        forall|i: int, j: int|
            0 <= i < self.entries@.len() && 0 <= j < self.entries@.len() && i != j
                ==> (#[trigger] self.entries@[i]).0@ != (#[trigger] self.entries@[j]).0@
    }

    spec fn has_name_at(self, k: Seq<char>, i: int) -> bool {
        0 <= i < self.entries@.len() && self.entries@[i].0@ == k
    }

    /// The names, in the order in which they were first set.
    pub closed spec fn names(self) -> Seq<Seq<char>> {
        self.entries@.map_values(|e: (String, String)| e.0@)
    }

    /// The map from each name to its value.
    pub closed spec fn map(self) -> Map<Seq<char>, Seq<char>> {
        Map::new(
            |k: Seq<char>| exists|i: int| self.has_name_at(k, i),
            |k: Seq<char>| self.entries@[choose|i: int| self.has_name_at(k, i)].1@,
        )
    }

    proof fn lemma_map_at(self, i: int)
        requires
            self.names_unique(),
            0 <= i < self.entries@.len(),
        ensures
            self.map().contains_key(self.entries@[i].0@),
            self.map()[self.entries@[i].0@] == self.entries@[i].1@,
    {
        let k = self.entries@[i].0@;
        assert(self.has_name_at(k, i));
        let j = choose|j: int| self.has_name_at(k, j);
        if j != i {
            assert(self.entries@[i].0@ != self.entries@[j].0@);
        }
    }

    /// An empty map.
    pub fn new() -> (p: StringMap)
        ensures
            p@ == Map::<Seq<char>, Seq<char>>::empty(),
            p.names() == Seq::<Seq<char>>::empty(),
    {
        let p = StringMap { entries: Vec::new() };
        assert(p@ =~= Map::<Seq<char>, Seq<char>>::empty());
        assert(p.names() =~= Seq::<Seq<char>>::empty());
        p
    }

    /// The position of the entry named `key`, if there is one.
    fn position(&self, key: &String) -> (r: Option<usize>)
        ensures
            match r {
                Some(i) => i < self.entries@.len() && self.entries@[i as int].0@ == key@,
                None => !self@.contains_key(key@),
            },
    {
        let mut i: usize = 0;
        while i < self.entries.len()
            invariant
                i <= self.entries@.len(),
                forall|j: int| 0 <= j < i ==> self.entries@[j].0@ != key@,
            decreases self.entries@.len() - i,
        {
            if self.entries[i].0 == *key {
                return Some(i);
            }
            i = i + 1;
        }
        None
    }

    /// Sets the value of `key`, in place of any value it had.
    pub fn insert(&mut self, key: String, value: String)
        ensures
            final(self)@ == old(self)@.insert(key@, value@),
            final(self).names() == (if old(self)@.contains_key(key@) {
                old(self).names()
            } else {
                old(self).names().push(key@)
            }),
    {
        proof {
            use_type_invariant(&*self);
        }
        let ghost old_entries = self.entries@;
        let ghost old_map = self@;
        let ghost k = key@;
        let ghost v = value@;
        let found = self.position(&key);
        let mut entries: Vec<(String, String)> = Vec::new();
        std::mem::swap(&mut entries, &mut self.entries);
        match found {
            Some(i) => {
                entries.set(i, (key, value));
                proof {
                    assert forall|a: int, b: int|
                        0 <= a < entries@.len() && 0 <= b < entries@.len() && a != b
                            implies (#[trigger] entries@[a]).0@ != (#[trigger] entries@[b]).0@ by {
                        assert(old_entries[a].0@ != old_entries[b].0@);
                    }
                }
            },
            None => {
                proof {
                    assert forall|j: int| 0 <= j < old_entries.len() implies old_entries[j].0@ != k by {
                        if old_entries[j].0@ == k {
                            assert((*old(self)).has_name_at(k, j));
                        }
                    }
                }
                entries.push((key, value));
                proof {
                    assert(entries@[old_entries.len() as int].0@ == k);
                }
            },
        }
        let ghost at: int = match found {
            Some(i) => i as int,
            None => old_entries.len() as int,
        };
        assert(entries@[at].0@ == k);
        self.entries = entries;
        proof {
            use_type_invariant(&*self);
            let n = self.entries@;
            assert forall|q: Seq<char>| #[trigger]
                self@.contains_key(q) == old_map.insert(k, v).contains_key(q) by {
                if self@.contains_key(q) {
                    let j = choose|j: int| self.has_name_at(q, j);
                    if q != k {
                        assert(old_entries[j].0@ == q);
                        assert(old_map.contains_key(q)) by {
                            assert((*old(self)).has_name_at(q, j));
                        }
                    }
                }
                if old_map.insert(k, v).contains_key(q) {
                    if q == k {
                        assert(self.has_name_at(q, at));
                    } else {
                        let j = choose|j: int| (*old(self)).has_name_at(q, j);
                        assert(self.has_name_at(q, j));
                    }
                }
            }
            assert forall|q: Seq<char>| self@.contains_key(q) implies #[trigger] self@[q]
                == old_map.insert(k, v)[q] by {
                let j = choose|j: int| self.has_name_at(q, j);
                self.lemma_map_at(j);
                if q != k {
                    assert(old_entries[j] == n[j]);
                    (*old(self)).lemma_map_at(j);
                }
            }
            assert(self@ =~= old_map.insert(k, v));
            match found {
                Some(i) => {
                    assert((*old(self)).has_name_at(k, i as int));
                    assert(self.names() =~= old(self).names());
                },
                None => {
                    assert(self.names() =~= old(self).names().push(k));
                },
            }
        }
    }

    /// The entries, each name once.
    pub fn entries(&self) -> (r: &[(String, String)])
        ensures
            forall|i: int|
                0 <= i < r@.len() ==> self@.contains_key((#[trigger] r@[i]).0@) && self@[r@[i].0@]
                    == r@[i].1@,
            forall|k: Seq<char>|
                #[trigger] self@.contains_key(k) ==> exists|i: int| 0 <= i < r@.len() && r@[i].0@ == k,
            forall|i: int, j: int|
                0 <= i < r@.len() && 0 <= j < r@.len() && i != j ==> (#[trigger] r@[i]).0@ != (
                #[trigger] r@[j]).0@,
            r@.map_values(|e: (String, String)| e.0@) == self.names(),
    {
        proof {
            use_type_invariant(self);
            assert forall|i: int| 0 <= i < self.entries@.len() implies self@.contains_key(
                (#[trigger] self.entries@[i]).0@,
            ) && self@[self.entries@[i].0@] == self.entries@[i].1@ by {
                self.lemma_map_at(i);
            }
            assert forall|k: Seq<char>| #[trigger] self@.contains_key(k) implies exists|i: int|
                0 <= i < self.entries@.len() && self.entries@[i].0@ == k by {
                let i = choose|i: int| self.has_name_at(k, i);
            }
        }
        self.entries.as_slice()
    }

    /// The value of `key`, if it has one.
    pub fn get(&self, key: &str) -> (r: Option<&String>)
        ensures
            match r {
                Some(v) => self@.contains_key(key@) && v@ == self@[key@],
                None => !self@.contains_key(key@),
            },
    {
        proof {
            use_type_invariant(self);
        }
        let k = key.to_owned();
        match self.position(&k) {
            Some(i) => {
                proof {
                    self.lemma_map_at(i as int);
                }
                Some(&self.entries[i].1)
            },
            None => None,
        }
    }
}

impl View for StringMap {
    type V = Map<Seq<char>, Seq<char>>;

    open spec fn view(&self) -> Map<Seq<char>, Seq<char>> {
        self.map()
    }
}

/// What a read gives back of a write: after setting `key` to `value`, the
/// value of `key` is `value` and every other name keeps its value.
pub proof fn law_insert_then_get(
    before: Map<Seq<char>, Seq<char>>,
    after: Map<Seq<char>, Seq<char>>,
    key: Seq<char>,
    value: Seq<char>,
    other: Seq<char>,
)
    requires
        after == before.insert(key, value),
        other != key,
    ensures
        after.contains_key(key) && after[key] == value,
        after.contains_key(other) == before.contains_key(other),
        before.contains_key(other) ==> after[other] == before[other],
{
}

/// The parameters that a matched route pattern captured from a path: a map
/// from parameter names to the path segments that stood in their place.
pub type Params = StringMap;

} // verus!
