//! Connections by key and generation, where a newer one stands for the older.
use crate::maps::keys_of;
use std::collections::{BTreeMap, HashMap};
use vstd::prelude::*;
use vstd::std_specs::btree::spec_keys_iter;
use vstd::std_specs::iter::IteratorSpec;

verus! {

broadcast use {
    vstd::std_specs::hash::group_hash_axioms,
    vstd::std_specs::btree::group_btree_axioms,
};

/// The connections of a key.
pub open spec fn entries_of<T>(m: Map<u128, Map<u64, T>>, key: u128) -> Map<u64, T> {
    if m.contains_key(key) {
        m[key]
    } else {
        Map::empty()
    }
}

/// The generation is the greatest of all.
pub open spec fn is_newest<T>(m: Map<u64, T>, generation: u64) -> bool {
    m.contains_key(generation) && forall|g: u64| #[trigger] m.contains_key(g) ==> g <= generation
}

/// The map once a connection of a key was taken out. A key without
/// connections is not listed.
pub open spec fn without_entry<T>(
    m: Map<u128, Map<u64, T>>,
    key: u128,
    generation: u64,
) -> Map<u128, Map<u64, T>> {
    let left = entries_of(m, key).remove(generation);
    if !entries_of(m, key).contains_key(generation) {
        m
    } else if left =~= Map::<u64, T>::empty() {
        m.remove(key)
    } else {
        m.insert(key, left)
    }
}

/// Every key that is listed has a connection.
pub open spec fn no_empty_entry<T>(m: Map<u128, Map<u64, T>>) -> bool {
    forall|k: u128| #[trigger] m.contains_key(k) ==> !(m[k] =~= Map::<u64, T>::empty())
}

/// The connections of each key by generation.
pub struct Generations<T> {
    entries: HashMap<u128, BTreeMap<u64, T>>,
}

impl<T> View for Generations<T> {
    type V = Map<u128, Map<u64, T>>;

    closed spec fn view(&self) -> Map<u128, Map<u64, T>> {
        self.entries@.map_values(|m: BTreeMap<u64, T>| m@)
    }
}

impl<T> Generations<T> {
    pub fn new() -> (r: Self)
        ensures
            r@ == Map::<u128, Map<u64, T>>::empty(),
    {
        let r: Self = Generations { entries: HashMap::new() };
        proof {
            assert(r@ =~= Map::<u128, Map<u64, T>>::empty());
        }
        r
    }

    /// Adds a connection of a key.
    pub fn insert(&mut self, key: u128, generation: u64, value: T)
        requires
            no_empty_entry(old(self)@),
        ensures
            final(self)@ == old(self)@.insert(
                key,
                entries_of(old(self)@, key).insert(generation, value),
            ),
            no_empty_entry(final(self)@),
    {
        let ghost before = self@;
        let mut list: BTreeMap<u64, T> = match self.entries.remove(&key) {
            Some(list) => list,
            None => BTreeMap::new(),
        };
        proof {
            assert(list@ =~= entries_of(before, key));
        }
        list.insert(generation, value);
        let ghost filled = list@;
        self.entries.insert(key, list);
        proof {
            assert(self@ =~= before.insert(key, filled));
            assert forall|k: u128| #[trigger] self@.contains_key(k) implies !(self@[k]
                =~= Map::<u64, T>::empty()) by {
                if k != key {
                    assert(before.contains_key(k));
                } else {
                    assert(filled.contains_key(generation));
                }
            }
        }
    }

    /// Takes a connection of a key out; tells whether it was there.
    pub fn remove(&mut self, key: u128, generation: u64) -> (r: bool)
        requires
            no_empty_entry(old(self)@),
        ensures
            r == entries_of(old(self)@, key).contains_key(generation),
            final(self)@ == without_entry(old(self)@, key, generation),
            no_empty_entry(final(self)@),
    {
        let ghost before = self@;
        match self.entries.remove(&key) {
            None => {
                proof {
                    assert(self@ =~= before);
                }
                false
            },
            Some(list) => {
                let mut list: BTreeMap<u64, T> = list;
                proof {
                    assert(before.contains_key(key));
                    assert(list@ =~= before[key]);
                }
                let removed: bool = list.remove(&generation).is_some();
                let ghost left = list@;
                proof {
                    assert(left =~= before[key].remove(generation));
                }
                if !list.is_empty() {
                    self.entries.insert(key, list);
                    proof {
                        assert(self@ =~= before.insert(key, left));
                        if !removed {
                            assert(left =~= before[key]);
                            assert(before.insert(key, left) =~= before);
                        }
                    }
                } else {
                    proof {
                        assert(left =~= Map::<u64, T>::empty());
                        if !removed {
                            assert(before[key] =~= Map::<u64, T>::empty());
                        }
                        assert(self@ =~= before.remove(key));
                    }
                }
                removed
            },
        }
    }

    /// Tells whether no key is listed.
    pub fn is_empty(&self) -> (r: bool)
        ensures
            r == (self@ =~= Map::<u128, Map<u64, T>>::empty()),
    {
        let r: bool = self.entries.is_empty();
        proof {
            if r {
                assert(self@ =~= Map::<u128, Map<u64, T>>::empty());
            } else {
                assert(self.entries@.dom() != Set::<u128>::empty()) by {
                    if self.entries@.dom() =~= Set::<u128>::empty() {
                        assert(self.entries@ =~= Map::<u128, BTreeMap<u64, T>>::empty());
                    }
                }
                let k = choose|k: u128| self.entries@.dom().contains(k);
                assert(self@.contains_key(k));
            }
        }
        r
    }

    /// The keys, in some order.
    pub fn keys(&self) -> (r: Vec<u128>)
        ensures
            r@.no_duplicates(),
            forall|k: u128| r@.contains(k) <==> self@.contains_key(k),
    {
        keys_of(&self.entries)
    }

    /// The newest connection of a key, by its generation.
    pub fn newest(&self, key: u128) -> (r: Option<u64>)
        ensures
            match r {
                Some(g) => is_newest(entries_of(self@, key), g),
                None => entries_of(self@, key) =~= Map::<u64, T>::empty(),
            },
    {
        match self.entries.get(&key) {
            None => None,
            Some(list) => {
                let mut best: Option<u64> = None;
                let ghost all = spec_keys_iter(list).remaining();
                for g in it: list.keys()
                    invariant
                        it.seq() == all,
                        all.unref().to_set() == list@.dom(),
                        match best {
                            Some(b) => {
                                &&& list@.contains_key(b)
                                &&& forall|k: int|
                                    0 <= k < it.index() ==> *(#[trigger] all[k]) <= b
                            },
                            None => it.index() == 0,
                        },
                {
                    let ghost i = it.index() as int;
                    proof {
                        assert(all.unref()[i] == *g);
                        assert(all.unref().to_set().contains(*g)) by {
                            assert(all.unref().contains(*g));
                        }
                    }
                    best = match best {
                        Some(b) => if *g > b {
                            Some(*g)
                        } else {
                            Some(b)
                        },
                        None => Some(*g),
                    };
                }
                proof {
                    assert forall|h: u64| #[trigger] list@.contains_key(h) implies (match best {
                        Some(b) => h <= b,
                        None => false,
                    }) by {
                        assert(all.unref().to_set().contains(h));
                        let k = choose|k: int| 0 <= k < all.unref().len() && all.unref()[k] == h;
                        assert(*all[k] == h);
                    }
                    assert(list@ == entries_of(self@, key));
                }
                best
            },
        }
    }

    /// A connection of a key.
    pub fn get(&self, key: u128, generation: u64) -> (r: Option<&T>)
        ensures
            match r {
                Some(c) => entries_of(self@, key).contains_key(generation) && *c == entries_of(
                    self@,
                    key,
                )[generation],
                None => !entries_of(self@, key).contains_key(generation),
            },
    {
        match self.entries.get(&key) {
            Some(list) => list.get(&generation),
            None => None,
        }
    }
}

/// A connection that ends does not touch a newer one: what was newest stays
/// newest.
pub proof fn law_old_end_keeps_new<T>(m: Map<u64, T>, newest: u64, ended: u64)
    requires
        is_newest(m, newest),
        ended != newest,
    ensures
        is_newest(m.remove(ended), newest),
        m.remove(ended)[newest] == m[newest],
{
}

/// There is one newest connection at most.
pub proof fn law_newest_is_unique<T>(m: Map<u64, T>, a: u64, b: u64)
    requires
        is_newest(m, a),
        is_newest(m, b),
    ensures
        a == b,
{
}

} // verus!
