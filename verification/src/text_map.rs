//! Maps and sets keyed by text, kept as association lists.
use crate::text::same;
use vstd::prelude::*;

verus! {

/// The first entry of each key, as a map.
pub open spec fn map_of<V>(entries: Seq<(String, V)>) -> Map<Seq<char>, V>
    decreases entries.len(),
{
    if entries.len() == 0 {
        Map::empty()
    } else {
        map_of(entries.drop_first()).insert(entries[0].0@, entries[0].1)
    }
}

/// The index of the first entry with the given key; the number of entries
/// where there is none.
pub open spec fn key_index<V>(entries: Seq<(String, V)>, key: Seq<char>) -> nat
    decreases entries.len(),
{
    if entries.len() == 0 || entries[0].0@ == key {
        0
    } else {
        1 + key_index(entries.drop_first(), key)
    }
}

proof fn lemma_key_index<V>(entries: Seq<(String, V)>, key: Seq<char>)
    ensures
        key_index(entries, key) <= entries.len(),
        key_index(entries, key) < entries.len() <==> map_of(entries).contains_key(key),
        key_index(entries, key) < entries.len() ==> {
            &&& entries[key_index(entries, key) as int].0@ == key
            &&& map_of(entries)[key] == entries[key_index(entries, key) as int].1
        },
        forall|i: int| 0 <= i < key_index(entries, key) ==> entries[i].0@ != key,
    decreases entries.len(),
{
    if entries.len() > 0 && entries[0].0@ != key {
        let rest = entries.drop_first();
        lemma_key_index(rest, key);
        assert forall|i: int| 0 <= i < key_index(entries, key) implies entries[i].0@ != key by {
            if i > 0 {
                assert(rest[i - 1] == entries[i]);
            }
        }
    }
}

proof fn lemma_map_of_update<V>(entries: Seq<(String, V)>, key: Seq<char>, pair: (String, V))
    requires
        key_index(entries, key) < entries.len(),
        pair.0@ == key,
    ensures
        map_of(entries.update(key_index(entries, key) as int, pair)) == map_of(entries).insert(
            key,
            pair.1,
        ),
    decreases entries.len(),
{
    let k = key_index(entries, key) as int;
    let changed = entries.update(k, pair);
    let rest = entries.drop_first();
    if entries[0].0@ == key {
        assert(changed.drop_first() =~= rest);
        assert(map_of(changed) =~= map_of(entries).insert(key, pair.1));
    } else {
        lemma_map_of_update(rest, key, pair);
        assert(changed.drop_first() =~= rest.update(k - 1, pair));
        assert(map_of(changed) =~= map_of(entries).insert(key, pair.1));
    }
}

proof fn lemma_map_of_push<V>(entries: Seq<(String, V)>, pair: (String, V))
    requires
        !map_of(entries).contains_key(pair.0@),
    ensures
        map_of(entries.push(pair)) == map_of(entries).insert(pair.0@, pair.1),
    decreases entries.len(),
{
    let grown = entries.push(pair);
    if entries.len() == 0 {
        assert(grown.drop_first() =~= entries);
        assert(map_of(grown) =~= map_of(entries).insert(pair.0@, pair.1));
    } else {
        let rest = entries.drop_first();
        assert(grown.drop_first() =~= rest.push(pair));
        assert(map_of(entries).contains_key(entries[0].0@));
        if map_of(rest).contains_key(pair.0@) {
            assert(map_of(entries).contains_key(pair.0@));
        }
        lemma_map_of_push(rest, pair);
        assert(grown[0] == entries[0]);
        assert(map_of(grown) =~= map_of(entries).insert(pair.0@, pair.1));
    }
}

/// Tells the entries of other keys from those of `key`.
spec fn other_key<V>(key: Seq<char>) -> spec_fn((String, V)) -> bool {
    |e: (String, V)| e.0@ != key
}

proof fn lemma_map_of_remove<V>(entries: Seq<(String, V)>, key: Seq<char>)
    ensures
        map_of(entries.filter(other_key(key))) == map_of(entries).remove(key),
    decreases entries.len(),
{
    let p = other_key::<V>(key);
    reveal(Seq::filter);
    if entries.len() == 0 {
        assert(map_of(entries.filter(p)) =~= map_of(entries).remove(key));
    } else {
        let rest = entries.drop_first();
        lemma_map_of_remove(rest, key);
        assert(entries =~= seq![entries[0]] + rest);
        Seq::filter_distributes_over_add(seq![entries[0]], rest, p);
        assert(seq![entries[0]].filter(p) =~= if p(entries[0]) {
            seq![entries[0]]
        } else {
            seq![]
        }) by {
            reveal_with_fuel(Seq::filter, 2);
            assert(seq![entries[0]].drop_last() =~= Seq::<(String, V)>::empty());
        }
        let kept = entries.filter(p);
        if p(entries[0]) {
            assert(kept.drop_first() =~= rest.filter(p));
            assert(map_of(kept) =~= map_of(entries).remove(key));
        } else {
            assert(kept =~= rest.filter(p));
            assert(map_of(kept) =~= map_of(entries).remove(key));
        }
    }
}

/// A map from text to values.
#[derive(Debug)]
pub struct TextMap<V> {
    entries: Vec<(String, V)>,
}

impl<V> View for TextMap<V> {
    type V = Map<Seq<char>, V>;

    closed spec fn view(&self) -> Map<Seq<char>, V> {
        map_of(self.entries@)
    }
}

impl<V> TextMap<V> {
    /// The keys and values in the order in which the keys were first inserted.
    pub closed spec fn entry_seq(&self) -> Seq<(String, V)> {
        self.entries@
    }

    pub fn new() -> (r: Self)
        ensures
            r@ == Map::<Seq<char>, V>::empty(),
            r.entry_seq() == Seq::<(String, V)>::empty(),
    {
        TextMap { entries: Vec::new() }
    }

    fn position(&self, key: &str) -> (r: usize)
        ensures
            r == key_index(self.entries@, key@),
            r <= self.entries@.len(),
    {
        let mut i: usize = 0;
        proof {
            assert(self.entries@.skip(0) =~= self.entries@);
        }
        while i < self.entries.len()
            invariant
                i <= self.entries@.len(),
                key_index(self.entries@, key@) == i + key_index(
                    self.entries@.skip(i as int),
                    key@,
                ),
            decreases self.entries@.len() - i,
        {
            if same(self.entries[i].0.as_str(), key) {
                return i;
            }
            proof {
                assert(self.entries@.skip(i as int).drop_first() =~= self.entries@.skip(
                    i as int + 1,
                ));
            }
            i = i + 1;
        }
        i
    }

    pub fn is_empty(&self) -> (r: bool)
        ensures
            r == (self@ =~= Map::<Seq<char>, V>::empty()),
    {
        proof {
            if self.entries@.len() > 0 {
                assert(self@.contains_key(self.entries@[0].0@));
            }
        }
        self.entries.is_empty()
    }

    pub fn get(&self, key: &str) -> (r: Option<&V>)
        ensures
            match r {
                Some(v) => self@.contains_key(key@) && self@[key@] == *v,
                None => !self@.contains_key(key@),
            },
    {
        let i: usize = self.position(key);
        proof {
            lemma_key_index(self.entries@, key@);
        }
        if i < self.entries.len() {
            Some(&self.entries[i].1)
        } else {
            None
        }
    }

    pub fn contains_key(&self, key: &str) -> (r: bool)
        ensures
            r == self@.contains_key(key@),
    {
        match self.get(key) {
            Some(_) => true,
            None => false,
        }
    }

    /// Sets the value of a key, in place of the one that it has.
    pub fn insert(&mut self, key: String, value: V)
        ensures
            final(self)@ == old(self)@.insert(key@, value),
    {
        let i: usize = self.position(key.as_str());
        proof {
            lemma_key_index(self.entries@, key@);
        }
        if i < self.entries.len() {
            proof {
                lemma_map_of_update(self.entries@, key@, (key, value));
            }
            self.entries.set(i, (key, value));
        } else {
            proof {
                lemma_map_of_push(self.entries@, (key, value));
            }
            self.entries.push((key, value));
        }
    }

    /// Removes a key and its value.
    pub fn remove(&mut self, key: &str)
        ensures
            final(self)@ == old(self)@.remove(key@),
    {
        let mut kept: Vec<(String, V)> = Vec::new();
        let ghost all = self.entries@;
        let ghost p = other_key::<V>(key@);
        proof {
            assert(all.take(0) =~= Seq::<(String, V)>::empty());
            reveal(Seq::filter);
        }
        let mut done: Vec<(String, V)> = Vec::new();
        core::mem::swap(&mut done, &mut self.entries);
        let ghost total = done@.len();
        for entry in it: done
            invariant
                it.seq() == all,
                p == other_key::<V>(key@),
                kept@ == all.take(it.index() as int).filter(p),
        {
            let ghost i = it.index() as int;
            proof {
                assert(all.take(i + 1).drop_last() =~= all.take(i));
                assert(entry == all[i]);
                reveal(Seq::filter);
            }
            if !same(entry.0.as_str(), key) {
                kept.push(entry);
            }
        }
        proof {
            assert(all.take(all.len() as int) =~= all);
            lemma_map_of_remove(all, key@);
            assert(kept@ == all.filter(p));
        }
        self.entries = kept;
    }

    /// The number of entries.
    pub fn len(&self) -> (r: usize)
        ensures
            r == self.entry_seq().len(),
    {
        self.entries.len()
    }

    /// The entry at an index, in the order of first insertion.
    pub fn entry(&self, i: usize) -> (r: (&str, &V))
        requires
            i < self.entry_seq().len(),
        ensures
            r.0@ == self.entry_seq()[i as int].0@,
            *r.1 == self.entry_seq()[i as int].1,
    {
        (self.entries[i].0.as_str(), &self.entries[i].1)
    }

    /// The map holds the keys of its entries and no others.
    pub proof fn lemma_entries(&self)
        ensures
            forall|i: int|
                0 <= i < self.entry_seq().len() ==> self@.contains_key(
                    (#[trigger] self.entry_seq()[i]).0@,
                ),
            forall|k: Seq<char>|
                #[trigger] self@.contains_key(k) ==> exists|i: int|
                    0 <= i < self.entry_seq().len() && (#[trigger] self.entry_seq()[i]).0@ == k
                        && self@[k] == self.entry_seq()[i].1,
    {
        assert forall|i: int| 0 <= i < self.entry_seq().len() implies self@.contains_key(
            (#[trigger] self.entry_seq()[i]).0@,
        ) by {
            lemma_key_index(self.entries@, self.entries@[i].0@);
        }
        assert forall|k: Seq<char>| #[trigger] self@.contains_key(k) implies exists|i: int|
            0 <= i < self.entry_seq().len() && (#[trigger] self.entry_seq()[i]).0@ == k && self@[k]
                == self.entry_seq()[i].1 by {
            lemma_key_index(self.entries@, k);
            let i = key_index(self.entries@, k) as int;
            assert(self.entry_seq()[i].0@ == k);
        }
    }
}

/// A map from text to text, by the characters of its values.
pub open spec fn text_values(m: Map<Seq<char>, String>) -> Map<Seq<char>, Seq<char>> {
    m.map_values(|v: String| v@)
}

impl TextMap<String> {
    /// What the map holds, as text.
    pub open spec fn texts(&self) -> Map<Seq<char>, Seq<char>> {
        text_values(self@)
    }

    /// Sets all keys of another map to the texts that they have there.
    pub fn extend_from(&mut self, extra: &TextMap<String>)
        ensures
            final(self)@ == old(self)@.union_prefer_right(extra@),
    {
        let ghost all = extra.entry_seq();
        let n: usize = extra.len();
        let mut i: usize = 0;
        while i < n
            invariant
                i <= n,
                all == extra.entry_seq(),
                n == all.len(),
                forall|k: Seq<char>| #[trigger]
                    self@.contains_key(k) ==> (extra@.contains_key(k) && self@[k] == extra@[k]) || (
                    old(self)@.contains_key(k) && self@[k] == old(self)@[k]),
                forall|k: Seq<char>| #[trigger]
                    old(self)@.contains_key(k) ==> self@.contains_key(k),
                forall|j: int|
                    0 <= j < i ==> self@.contains_key((#[trigger] all[j]).0@)
                        && self@[all[j].0@] == extra@[all[j].0@],
            decreases n - i,
        {
            let (key, _) = extra.entry(i);
            proof {
                extra.lemma_entries();
            }
            if let Some(value) = extra.get(key) {
                self.insert(key.to_owned(), value.clone());
            }
            i = i + 1;
        }
        proof {
            extra.lemma_entries();
            assert(self@ =~= old(self)@.union_prefer_right(extra@));
        }
    }

    /// Every key of `self` has the same text in `other`.
    pub fn is_within(&self, other: &TextMap<String>) -> (r: bool)
        ensures
            r == (forall|k: Seq<char>| #[trigger]
                self.texts().contains_key(k) ==> other.texts().contains_key(k)
                    && other.texts()[k] == self.texts()[k]),
    {
        let mut i: usize = 0;
        proof {
            self.lemma_entries();
        }
        while i < self.entries.len()
            invariant
                i <= self.entries@.len(),
                forall|j: int|
                    #![trigger self.entries@[j]]
                    0 <= j < i ==> other.texts().contains_key(self.entries@[j].0@)
                        && other.texts()[self.entries@[j].0@]
                        == self.texts()[self.entries@[j].0@],
            decreases self.entries@.len() - i,
        {
            let ghost k = self.entries@[i as int].0@;
            let mine: Option<&String> = self.get(self.entries[i].0.as_str());
            let theirs: Option<&String> = other.get(self.entries[i].0.as_str());
            proof {
                self.lemma_entries();
                assert(self.entry_seq()[i as int] == self.entries@[i as int]);
                assert(self@.contains_key(k));
                assert(self.texts().contains_key(k));
            }
            match (mine, theirs) {
                (Some(a), Some(b)) => {
                    if *a != *b {
                        return false;
                    }
                },
                _ => {
                    return false;
                },
            }
            i = i + 1;
        }
        proof {
            assert forall|k: Seq<char>| #[trigger]
                self.texts().contains_key(k) implies other.texts().contains_key(k)
                && other.texts()[k] == self.texts()[k] by {
                assert(self@.contains_key(k));
                let j = choose|j: int|
                    0 <= j < self.entry_seq().len() && (#[trigger] self.entry_seq()[j]).0@ == k;
                assert(self.entries@[j].0@ == k);
            }
        }
        true
    }

    /// Whether both maps hold the same keys with the same texts.
    pub fn same_texts(&self, other: &TextMap<String>) -> (r: bool)
        ensures
            r == (self.texts() == other.texts()),
    {
        let a: bool = self.is_within(other);
        let b: bool = other.is_within(self);
        proof {
            if a && b {
                assert(self.texts() =~= other.texts());
            }
        }
        a && b
    }
}

impl Clone for TextMap<String> {
    fn clone(&self) -> (r: Self)
        ensures
            r@ == self@,
            r.entry_seq() == self.entry_seq(),
    {
        let mut entries: Vec<(String, String)> = Vec::new();
        let mut i: usize = 0;
        while i < self.entries.len()
            invariant
                i <= self.entries@.len(),
                entries@ == self.entries@.take(i as int),
            decreases self.entries@.len() - i,
        {
            entries.push((self.entries[i].0.clone(), self.entries[i].1.clone()));
            proof {
                assert(self.entries@.take(i as int + 1) =~= self.entries@.take(i as int).push(
                    self.entries@[i as int],
                ));
            }
            i = i + 1;
        }
        proof {
            assert(self.entries@.take(self.entries@.len() as int) =~= self.entries@);
        }
        TextMap { entries }
    }
}

/// A set of texts, in the order of first insertion.
#[derive(Debug)]
pub struct TextSet {
    items: Vec<String>,
}

impl Clone for TextSet {
    fn clone(&self) -> (r: Self)
        ensures
            r@ == self@,
            r.item_seq() == self.item_seq(),
    {
        let items: Vec<String> = self.items.clone();
        proof {
            assert(items@ =~= self.items@);
        }
        TextSet { items }
    }
}

/// The texts of a list, as a set.
pub open spec fn set_of(items: Seq<String>) -> Set<Seq<char>> {
    Set::new(|t: Seq<char>| exists|i: int| 0 <= i < items.len() && (#[trigger] items[i])@ == t)
}

impl View for TextSet {
    type V = Set<Seq<char>>;

    closed spec fn view(&self) -> Set<Seq<char>> {
        set_of(self.items@)
    }
}

impl TextSet {
    /// The texts in the order in which they were first inserted.
    pub closed spec fn item_seq(&self) -> Seq<String> {
        self.items@
    }

    pub fn new() -> (r: Self)
        ensures
            r@ == Set::<Seq<char>>::empty(),
            r.item_seq() == Seq::<String>::empty(),
    {
        let r = TextSet { items: Vec::new() };
        proof {
            assert(r@ =~= Set::<Seq<char>>::empty());
        }
        r
    }

    pub fn is_empty(&self) -> (r: bool)
        ensures
            r == (self@ =~= Set::<Seq<char>>::empty()),
    {
        proof {
            if self.items@.len() > 0 {
                assert(self@.contains(self.items@[0]@));
            }
        }
        self.items.is_empty()
    }

    pub fn contains(&self, text: &str) -> (r: bool)
        ensures
            r == self@.contains(text@),
    {
        let mut i: usize = 0;
        while i < self.items.len()
            invariant
                i <= self.items@.len(),
                forall|j: int| 0 <= j < i ==> (#[trigger] self.items@[j])@ != text@,
            decreases self.items@.len() - i,
        {
            if same(self.items[i].as_str(), text) {
                return true;
            }
            i = i + 1;
        }
        false
    }

    pub fn insert(&mut self, text: String)
        ensures
            final(self)@ == old(self)@.insert(text@),
    {
        let ghost before = self.items@;
        if !self.contains(text.as_str()) {
            self.items.push(text);
            proof {
                assert forall|t: Seq<char>| #[trigger]
                    old(self)@.insert(text@).contains(t) implies self@.contains(t) by {
                    if t == text@ {
                        assert(self.items@[before.len() as int]@ == t);
                    } else {
                        let i = choose|i: int|
                            0 <= i < before.len() && (#[trigger] before[i])@ == t;
                        assert(self.items@[i]@ == t);
                    }
                }
                assert forall|t: Seq<char>| #[trigger] self@.contains(t) implies old(
                    self,
                )@.insert(text@).contains(t) by {
                    let i = choose|i: int|
                        0 <= i < self.items@.len() && (#[trigger] self.items@[i])@ == t;
                    if i < before.len() {
                        assert(before[i]@ == t);
                    }
                }
            }
        }
        proof {
            assert(self@ =~= old(self)@.insert(text@));
        }
    }

    pub fn len(&self) -> (r: usize)
        ensures
            r == self.item_seq().len(),
    {
        self.items.len()
    }

    /// The set holds its items and no others.
    pub proof fn lemma_items(&self)
        ensures
            forall|t: Seq<char>| #[trigger]
                self@.contains(t) <==> exists|i: int|
                    0 <= i < self.item_seq().len() && (#[trigger] self.item_seq()[i])@ == t,
    {
        assert forall|t: Seq<char>| #[trigger] self@.contains(t) <==> exists|i: int|
            0 <= i < self.item_seq().len() && (#[trigger] self.item_seq()[i])@ == t by {
            if exists|i: int|
                0 <= i < self.item_seq().len() && (#[trigger] self.item_seq()[i])@ == t {
                let i = choose|i: int|
                    0 <= i < self.item_seq().len() && (#[trigger] self.item_seq()[i])@ == t;
                assert(self.items@[i]@ == t);
            }
            if self@.contains(t) {
                let i = choose|i: int|
                    0 <= i < self.items@.len() && (#[trigger] self.items@[i])@ == t;
                assert(self.item_seq()[i]@ == t);
            }
        }
    }

    /// The text at an index, in the order of first insertion.
    pub fn item(&self, i: usize) -> (r: &str)
        requires
            i < self.item_seq().len(),
        ensures
            r@ == self.item_seq()[i as int]@,
            self@.contains(r@),
    {
        proof {
            assert(self.items@[i as int]@ == self.item_seq()[i as int]@);
        }
        self.items[i].as_str()
    }

    /// Every text of `self` is in `other`.
    pub fn is_within(&self, other: &TextSet) -> (r: bool)
        ensures
            r == self@.subset_of(other@),
    {
        let mut i: usize = 0;
        while i < self.items.len()
            invariant
                i <= self.items@.len(),
                forall|j: int| 0 <= j < i ==> other@.contains((#[trigger] self.items@[j])@),
            decreases self.items@.len() - i,
        {
            if !other.contains(self.items[i].as_str()) {
                proof {
                    assert(self@.contains(self.items@[i as int]@));
                }
                return false;
            }
            i = i + 1;
        }
        true
    }

    /// Whether both sets hold the same texts.
    pub fn same_texts(&self, other: &TextSet) -> (r: bool)
        ensures
            r == (self@ == other@),
    {
        let a: bool = self.is_within(other);
        let b: bool = other.is_within(self);
        proof {
            if a && b {
                assert(self@ =~= other@);
            }
        }
        a && b
    }
}

} // verus!
