//! A small map from names to values, both texts, kept in insertion order.

use vstd::prelude::*;
use crate::text::same_text;

verus! {

/// A map from names to values in which no name occurs twice. The entries are
/// held in a vector, in the order of insertion: every operation is proved
/// over them, where a map hashed by its texts would have to be believed.
#[derive(Debug)]
pub struct NameMap {
    entries: Vec<(String, String)>,
}

/// Whether `name` is the name of the entry at `i`.
pub open spec fn names_entry(entries: Seq<(String, String)>, i: int, name: Seq<char>) -> bool {
    0 <= i < entries.len() && entries[i].0@ == name
}

/// Whether no name occurs twice among `entries`.
pub open spec fn distinct_names(entries: Seq<(String, String)>) -> bool {
    forall|i: int, j: int|
        0 <= i < j < entries.len() ==> (#[trigger] entries[i]).0@ != (#[trigger] entries[j]).0@
}

/// The map that `entries` stand for.
pub open spec fn map_of(entries: Seq<(String, String)>) -> Map<Seq<char>, Seq<char>> {
    Map::new(
        |name: Seq<char>| exists|i: int| names_entry(entries, i, name),
        |name: Seq<char>| entries[choose|i: int| names_entry(entries, i, name)].1@,
    )
}

impl Clone for NameMap {
    fn clone(&self) -> (r: NameMap)
        ensures
            r@ == self@,
    {
        proof {
            use_type_invariant(self);
        }
        let mut entries: Vec<(String, String)> = Vec::new();
        let mut i: usize = 0;
        while i < self.entries.len()
            invariant
                i <= self.entries@.len(),
                entries@.len() == i,
                forall|j: int|
                    0 <= j < i ==> (#[trigger] entries@[j]).0@ == self.entries@[j].0@
                        && entries@[j].1@ == self.entries@[j].1@,
            decreases self.entries@.len() - i,
        {
            entries.push((self.entries[i].0.clone(), self.entries[i].1.clone()));
            i += 1;
        }
        proof {
            let before = self.entries@;
            let after = entries@;
            assert(distinct_names(after)) by {
                assert forall|i: int, j: int| 0 <= i < j < after.len() implies (
                #[trigger] after[i]).0@ != (#[trigger] after[j]).0@ by {
                    assert(before[i].0@ != before[j].0@);
                }
            }
            assert forall|k: Seq<char>, a: int| names_entry(after, a, k) == names_entry(
                before,
                a,
                k,
            ) by {}
            assert(map_of(after) =~= map_of(before));
        }
        NameMap { entries }
    }
}

impl View for NameMap {
    type V = Map<Seq<char>, Seq<char>>;

    closed spec fn view(&self) -> Map<Seq<char>, Seq<char>> {
        map_of(self.entries@)
    }
}

impl NameMap {
    #[verifier::type_invariant]
    spec fn well_formed(self) -> bool {
        distinct_names(self.entries@)
    }

    /// The number of entries.
    pub closed spec fn spec_len(self) -> nat {
        self.entries@.len()
    }

    /// The entry at position `i`, in the order of insertion.
    pub closed spec fn spec_entry(self, i: int) -> (Seq<char>, Seq<char>) {
        (self.entries@[i].0@, self.entries@[i].1@)
    }

    /// The empty map.
    pub fn new() -> (r: NameMap)
        ensures
            r@ == Map::<Seq<char>, Seq<char>>::empty(),
            r.spec_len() == 0,
    {
        let r = NameMap { entries: Vec::new() };
        assert(r@ =~= Map::<Seq<char>, Seq<char>>::empty());
        r
    }

    /// The number of entries. The entries are the pairs of the map, each once.
    pub fn len(&self) -> (n: usize)
        ensures
            n == self.spec_len(),
            forall|i: int|
                0 <= i < n ==> self@.contains_pair(
                    (#[trigger] self.spec_entry(i)).0,
                    self.spec_entry(i).1,
                ),
            forall|name: Seq<char>| #[trigger]
                self@.contains_key(name) ==> exists|i: int|
                    0 <= i < n && self.spec_entry(i).0 == name,
            forall|i: int, j: int|
                0 <= i < j < n ==> self.spec_entry(i).0 != self.spec_entry(j).0,
    {
        proof {
            use_type_invariant(self);
            let entries = self.entries@;
            assert forall|i: int| 0 <= i < entries.len() implies self@.contains_pair(
                (#[trigger] self.spec_entry(i)).0,
                self.spec_entry(i).1,
            ) by {
                let name = entries[i].0@;
                assert(names_entry(entries, i, name));
                let k = choose|k: int| names_entry(entries, k, name);
                assert(k == i) by {
                    if k < i {
                        assert(entries[k].0@ != entries[i].0@);
                    } else if i < k {
                        assert(entries[i].0@ != entries[k].0@);
                    }
                }
            }
            assert forall|name: Seq<char>| #[trigger] self@.contains_key(name) implies exists|
                i: int,
            |
                0 <= i < entries.len() && self.spec_entry(i).0 == name by {
                let k = choose|k: int| names_entry(entries, k, name);
                assert(0 <= k < entries.len() && self.spec_entry(k).0 == name);
            }
        }
        self.entries.len()
    }

    /// Whether the map holds nothing.
    pub fn is_empty(&self) -> (b: bool)
        ensures
            b == (self.spec_len() == 0),
            b == (self@ == Map::<Seq<char>, Seq<char>>::empty()),
    {
        let b = self.entries.len() == 0;
        proof {
            if b {
                assert(self@ =~= Map::<Seq<char>, Seq<char>>::empty());
            } else {
                assert(names_entry(self.entries@, 0, self.entries@[0].0@));
                assert(self@.contains_key(self.entries@[0].0@));
            }
        }
        b
    }

    /// The position of the entry named `name`, if there is one.
    fn position(&self, name: &str) -> (r: Option<usize>)
        ensures
            match r {
                Some(i) => names_entry(self.entries@, i as int, name@),
                None => forall|i: int| !names_entry(self.entries@, i, name@),
            },
    {
        let mut i: usize = 0;
        while i < self.entries.len()
            invariant
                i <= self.entries@.len(),
                forall|j: int| 0 <= j < i ==> !names_entry(self.entries@, j, name@),
            decreases self.entries@.len() - i,
        {
            if same_text(self.entries[i].0.as_str(), name) {
                return Some(i);
            }
            i += 1;
        }
        None
    }

    /// The value that stands under `name`.
    pub fn get(&self, name: &str) -> (r: Option<&String>)
        ensures
            match r {
                Some(value) => self@.contains_key(name@) && self@[name@] == value@,
                None => !self@.contains_key(name@),
            },
    {
        proof {
            use_type_invariant(self);
        }
        match self.position(name) {
            Some(i) => {
                proof {
                    let entries = self.entries@;
                    let k = choose|k: int| names_entry(entries, k, name@);
                    assert(k == i) by {
                        if k < i {
                            assert(entries[k].0@ != entries[i as int].0@);
                        } else if i < k {
                            assert(entries[i as int].0@ != entries[k].0@);
                        }
                    }
                }
                Some(&self.entries[i].1)
            },
            None => None,
        }
    }

    /// The name and the value at position `i`, in the order of insertion.
    pub fn entry(&self, i: usize) -> (r: (&String, &String))
        requires
            i < self.spec_len(),
        ensures
            (r.0@, r.1@) == self.spec_entry(i as int),
    {
        (&self.entries[i].0, &self.entries[i].1)
    }

    /// Puts `value` under `name`, in place of what stood there.
    pub fn insert(&mut self, name: String, value: String)
        ensures
            final(self)@ == old(self)@.insert(name@, value@),
    {
        proof {
            use_type_invariant(&*self);
        }
        let ghost before = self.entries@;
        let found = self.position(name.as_str());
        let mut entries: Vec<(String, String)> = Vec::new();
        let mut i: usize = 0;
        while i < self.entries.len()
            invariant
                i <= self.entries@.len(),
                self.entries@ == before,
                entries@.len() == i,
                forall|j: int|
                    0 <= j < i ==> (#[trigger] entries@[j]).0@ == before[j].0@ && entries@[j].1@
                        == (if before[j].0@ == name@ {
                        value@
                    } else {
                        before[j].1@
                    }),
            decreases self.entries@.len() - i,
        {
            let key = self.entries[i].0.clone();
            let old_value = if same_text(key.as_str(), name.as_str()) {
                value.clone()
            } else {
                self.entries[i].1.clone()
            };
            entries.push((key, old_value));
            i += 1;
        }
        if found.is_none() {
            entries.push((name, value));
        }
        proof {
            let after = entries@;
            assert(distinct_names(after)) by {
                assert forall|i: int, j: int| 0 <= i < j < after.len() implies (
                #[trigger] after[i]).0@ != (#[trigger] after[j]).0@ by {
                    if j < before.len() {
                        assert(before[i].0@ != before[j].0@);
                    } else {
                        assert(!names_entry(before, i, name@));
                    }
                }
            }
            assert(map_of(after) =~= map_of(before).insert(name@, value@)) by {
                assert forall|k: Seq<char>| map_of(after).contains_key(k) <==> map_of(
                    before,
                ).insert(name@, value@).contains_key(k) by {
                    if map_of(after).contains_key(k) {
                        let a = choose|a: int| names_entry(after, a, k);
                        if a < before.len() {
                            assert(names_entry(before, a, k));
                        }
                    }
                    if map_of(before).contains_key(k) {
                        let b = choose|b: int| names_entry(before, b, k);
                        assert(names_entry(after, b, k));
                    }
                    if k == name@ {
                        match found {
                            Some(f) => {
                                assert(names_entry(after, f as int, k));
                            },
                            None => {
                                assert(names_entry(after, after.len() - 1, k));
                            },
                        }
                    }
                }
                assert forall|k: Seq<char>| map_of(after).contains_key(k) implies map_of(after)[k]
                    == map_of(before).insert(name@, value@)[k] by {
                    let a = choose|a: int| names_entry(after, a, k);
                    if a < before.len() {
                        assert(names_entry(before, a, k));
                        let b = choose|b: int| names_entry(before, b, k);
                        assert(b == a) by {
                            if b < a {
                                assert(before[b].0@ != before[a].0@);
                            } else if a < b {
                                assert(before[a].0@ != before[b].0@);
                            }
                        }
                    }
                }
            }
        }
        self.entries = entries;
    }
}

} // verus!
