//! Collections keyed by text.
//!
//! `KeyMap` stands for a finite map and `KeySet` for a finite set of texts.
//! Both keep each key once; the order in which a map lists its entries is not
//! part of what it stands for.

use vstd::prelude::*;

use crate::text::{starts_with, text_starts_with};

verus! {

// ---------------------------------------------------------------------------
// Keyed sets
// ---------------------------------------------------------------------------

/// A finite set of texts.
pub struct KeySet {
    keys: Vec<String>,
}

/// Whether each text stands at most once in a list.
spec fn distinct_keys(keys: Seq<String>) -> bool {
    forall|i: int, j: int|
        0 <= i < j < keys.len() ==> (#[trigger] keys[i])@ != (#[trigger] keys[j])@
}

/// The position of a text in a list, if it is there.
fn position_of(keys: &Vec<String>, key: &str) -> (r: Option<usize>)
    ensures
        match r {
            Some(i) => i < keys@.len() && keys@[i as int]@ == key@,
            None => forall|i: int| 0 <= i < keys@.len() ==> (#[trigger] keys@[i])@ != key@,
        },
{
    for i in 0..keys.len()
        invariant
            forall|j: int| 0 <= j < i ==> (#[trigger] keys@[j])@ != key@,
    {
        if crate::text::str_eq(keys[i].as_str(), key) {
            return Some(i);
        }
    }
    None
}

impl View for KeySet {
    type V = Set<Seq<char>>;

    closed spec fn view(&self) -> Set<Seq<char>> {
        Set::new(|k: Seq<char>| exists|i: int| 0 <= i < self.keys@.len() && (#[trigger] self.keys@[i])@ == k)
    }
}

impl KeySet {
    #[verifier::type_invariant]
    spec fn keeps_keys_once(self) -> bool {
        distinct_keys(self.keys@)
    }

    /// The empty set.
    pub fn new() -> (r: KeySet)
        ensures
            r@ == Set::<Seq<char>>::empty(),
    {
        let r = KeySet { keys: Vec::new() };
        assert(r@ =~= Set::<Seq<char>>::empty());
        r
    }

    /// Whether a text is in the set.
    pub fn contains(&self, key: &str) -> (r: bool)
        ensures
            r == self@.contains(key@),
    {
        match position_of(&self.keys, key) {
            Some(i) => {
                assert(self.keys@[i as int]@ == key@);
                true
            },
            None => false,
        }
    }

    /// The number of texts in the set.
    pub fn len(&self) -> (n: usize)
        ensures
            n == self@.len(),
            self@.finite(),
    {
        proof {
            use_type_invariant(self);
            let texts = crate::text::strings(self.keys@);
            assert forall|i: int, j: int| 0 <= i < j < texts.len() implies texts[i] != texts[j] by {
                assert(self.keys@[i]@ != self.keys@[j]@);
            }
            texts.unique_seq_to_set();
            vstd::seq_lib::seq_to_set_is_finite(texts);
            assert forall|k: Seq<char>| texts.to_set().contains(k) == self@.contains(k) by {
                if texts.to_set().contains(k) {
                    let i = choose|i: int| 0 <= i < texts.len() && texts[i] == k;
                    assert(self.keys@[i]@ == k);
                }
                if self@.contains(k) {
                    let i = choose|i: int|
                        0 <= i < self.keys@.len() && (#[trigger] self.keys@[i])@ == k;
                    assert(texts[i] == k);
                }
            }
            assert(texts.to_set() =~= self@);
        }
        self.keys.len()
    }

    /// Adds a text; says whether it was not there before.
    pub fn insert(&mut self, key: String) -> (added: bool)
        ensures
            final(self)@ == old(self)@.insert(key@),
            added == !old(self)@.contains(key@),
    {
        proof {
            use_type_invariant(&*self);
        }
        let ghost before = self@;
        if self.contains(key.as_str()) {
            assert(before.insert(key@) =~= before);
            return false;
        }
        let mut keys: Vec<String> = Vec::new();
        std::mem::swap(&mut keys, &mut self.keys);
        let ghost old_keys = keys@;
        keys.push(key);
        assert forall|i: int, j: int| 0 <= i < j < keys@.len() implies (#[trigger] keys@[i])@ != (
        #[trigger] keys@[j])@ by {
            if j == old_keys.len() {
                assert(keys@[i] == old_keys[i]);
                assert(before.contains(old_keys[i]@));
            }
        }
        self.keys = keys;
        proof {
            assert forall|k: Seq<char>| self@.contains(k) == before.insert(key@).contains(k) by {
                if before.contains(k) {
                    let i = choose|i: int| 0 <= i < old_keys.len() && (#[trigger] old_keys[i])@ == k;
                    assert(keys@[i]@ == k);
                }
                if k == key@ {
                    assert(keys@[old_keys.len() as int]@ == k);
                }
                if self@.contains(k) {
                    let i = choose|i: int| 0 <= i < keys@.len() && (#[trigger] keys@[i])@ == k;
                    if i < old_keys.len() {
                        assert(old_keys[i]@ == k);
                    }
                }
            }
            assert(self@ =~= before.insert(key@));
        }
        true
    }

    /// Takes a text out; says whether it was there.
    pub fn remove(&mut self, key: &str) -> (removed: bool)
        ensures
            final(self)@ == old(self)@.remove(key@),
            removed == old(self)@.contains(key@),
    {
        proof {
            use_type_invariant(&*self);
        }
        let ghost before = self@;
        let at = position_of(&self.keys, key);
        match at {
            None => {
                assert(before.remove(key@) =~= before);
                false
            },
            Some(i) => {
                let mut keys: Vec<String> = Vec::new();
                std::mem::swap(&mut keys, &mut self.keys);
                let ghost old_keys = keys@;
                assert(before.contains(old_keys[i as int]@));
                let _gone = keys.remove(i);
                assert forall|a: int, b: int| 0 <= a < b < keys@.len() implies (
                #[trigger] keys@[a])@ != (#[trigger] keys@[b])@ by {
                    let a0 = if a < i { a } else { a + 1 };
                    let b0 = if b < i { b } else { b + 1 };
                    assert(keys@[a] == old_keys[a0]);
                    assert(keys@[b] == old_keys[b0]);
                }
                self.keys = keys;
                proof {
                    assert forall|k: Seq<char>| self@.contains(k) == before.remove(key@).contains(
                        k,
                    ) by {
                        if self@.contains(k) {
                            let a = choose|a: int|
                                0 <= a < keys@.len() && (#[trigger] keys@[a])@ == k;
                            let a0 = if a < i { a } else { a + 1 };
                            assert(keys@[a] == old_keys[a0]);
                            assert(old_keys[a0]@ == k);
                        }
                        if before.contains(k) && k != key@ {
                            let a0 = choose|a0: int|
                                0 <= a0 < old_keys.len() && (#[trigger] old_keys[a0])@ == k;
                            let a = if a0 < i { a0 } else { a0 - 1 };
                            assert(keys@[a] == old_keys[a0]);
                        }
                    }
                    assert(self@ =~= before.remove(key@));
                }
                true
            },
        }
    }

    /// Keeps the texts that are also in another set.
    pub fn retain_in(&mut self, keep: &KeySet)
        ensures
            final(self)@ == old(self)@.intersect(keep@),
    {
        proof {
            use_type_invariant(&*self);
        }
        let ghost before = self@;
        let mut keys: Vec<String> = Vec::new();
        std::mem::swap(&mut keys, &mut self.keys);
        let mut out: Vec<String> = Vec::new();
        let ghost mut origin: Seq<int> = Seq::empty();
        for i in 0..keys.len()
            invariant
                distinct_keys(keys@),
                origin.len() == out@.len(),
                forall|a: int| 0 <= a < origin.len() ==> 0 <= #[trigger] origin[a] < i,
                forall|a: int, b: int|
                    0 <= a < b < origin.len() ==> (#[trigger] origin[a]) < (#[trigger] origin[b]),
                forall|a: int| 0 <= a < out@.len() ==> #[trigger] out@[a] == keys@[origin[a]],
                forall|a: int| 0 <= a < out@.len() ==> keep@.contains((#[trigger] out@[a])@),
                forall|j: int|
                    0 <= j < i && keep@.contains((#[trigger] keys@[j])@) ==> exists|a: int|
                        0 <= a < out@.len() && #[trigger] out@[a] == keys@[j],
        {
            if keep.contains(keys[i].as_str()) {
                let ghost prev = out@;
                out.push(keys[i].clone());
                proof {
                    origin = origin.push(i as int);
                    assert(out@[prev.len() as int] == keys@[i as int]);
                    assert forall|j: int|
                        0 <= j < i + 1 && keep@.contains((#[trigger] keys@[j])@) implies exists|
                        a: int,
                    | 0 <= a < out@.len() && #[trigger] out@[a] == keys@[j] by {
                        if j < i {
                            let a = choose|a: int| 0 <= a < prev.len() && #[trigger] prev[a] == keys@[j];
                            assert(out@[a] == keys@[j]);
                        }
                    }
                }
            }
        }
        proof {
            assert forall|a: int, b: int| 0 <= a < b < out@.len() implies (#[trigger] out@[a])@ != (
            #[trigger] out@[b])@ by {
                assert(origin[a] < origin[b]);
                assert(out@[a] == keys@[origin[a]]);
                assert(out@[b] == keys@[origin[b]]);
            }
        }
        self.keys = out;
        proof {
            assert forall|k: Seq<char>| self@.contains(k) == before.intersect(keep@).contains(k) by {
                if self@.contains(k) {
                    let a = choose|a: int| 0 <= a < out@.len() && (#[trigger] out@[a])@ == k;
                    assert(out@[a] == keys@[origin[a]]);
                    assert(keys@[origin[a]]@ == k);
                }
                if before.contains(k) && keep@.contains(k) {
                    let j = choose|j: int| 0 <= j < keys@.len() && (#[trigger] keys@[j])@ == k;
                    let a = choose|a: int| 0 <= a < out@.len() && #[trigger] out@[a] == keys@[j];
                    assert(out@[a]@ == k);
                }
            }
            assert(self@ =~= before.intersect(keep@));
        }
    }
}

// ---------------------------------------------------------------------------
// Keyed maps
// ---------------------------------------------------------------------------

/// A finite map from texts to values.
pub struct KeyMap<V> {
    entries: Vec<(String, V)>,
}

/// Whether each key stands at most once in a list of entries.
pub open spec fn distinct_entries<V>(e: Seq<(String, V)>) -> bool {
    forall|i: int, j: int|
        0 <= i < j < e.len() ==> (#[trigger] e[i]).0@ != (#[trigger] e[j]).0@
}

/// The map that a list of entries stands for.
pub open spec fn map_of<V>(e: Seq<(String, V)>) -> Map<Seq<char>, V> {
    Map::new(
        |k: Seq<char>| exists|i: int| 0 <= i < e.len() && (#[trigger] e[i]).0@ == k,
        |k: Seq<char>| e[choose|i: int| 0 <= i < e.len() && (#[trigger] e[i]).0@ == k].1,
    )
}

/// Looking up the key of an entry finds its value.
proof fn lemma_map_of_entry<V>(e: Seq<(String, V)>, i: int)
    requires
        distinct_entries(e),
        0 <= i < e.len(),
    ensures
        map_of(e).contains_key(e[i].0@),
        map_of(e)[e[i].0@] == e[i].1,
{
    let k = e[i].0@;
    let j = choose|j: int| 0 <= j < e.len() && (#[trigger] e[j]).0@ == k;
    assert(0 <= j < e.len() && e[j].0@ == k);
    if i < j {
        assert(e[i].0@ != e[j].0@);
    }
    if j < i {
        assert(e[j].0@ != e[i].0@);
    }
}

/// A list of values holds, in some order of the keys, the value of each key of
/// a map exactly once.
pub open spec fn lists_values<V>(vals: Seq<V>, m: Map<Seq<char>, V>) -> bool {
    exists|keys: Seq<Seq<char>>| #[trigger] lists_values_by(keys, vals, m)
}

/// `keys` names each key of the map once and `vals` holds their values in turn.
pub open spec fn lists_values_by<V>(
    keys: Seq<Seq<char>>,
    vals: Seq<V>,
    m: Map<Seq<char>, V>,
) -> bool {
    &&& keys.no_duplicates()
    &&& keys.to_set() == m.dom()
    &&& vals.len() == keys.len()
    &&& forall|i: int| 0 <= i < keys.len() ==> #[trigger] vals[i] == m[keys[i]]
}

/// The map without the keys that begin with `prefix` and are not in `keep`.
pub open spec fn without_stale<V>(
    m: Map<Seq<char>, V>,
    prefix: Seq<char>,
    keep: Set<Seq<char>>,
) -> Map<Seq<char>, V> {
    Map::new(
        |k: Seq<char>| m.contains_key(k) && (!starts_with(k, prefix) || keep.contains(k)),
        |k: Seq<char>| m[k],
    )
}

impl<V> View for KeyMap<V> {
    type V = Map<Seq<char>, V>;

    closed spec fn view(&self) -> Map<Seq<char>, V> {
        map_of(self.entries@)
    }
}

impl<V> KeyMap<V> {
    #[verifier::type_invariant]
    spec fn keeps_keys_once(self) -> bool {
        distinct_entries(self.entries@)
    }

    /// The entries in the order in which the map lists them.
    pub closed spec fn listed(&self) -> Seq<(String, V)> {
        self.entries@
    }

    /// The empty map.
    pub fn new() -> (r: KeyMap<V>)
        ensures
            r@ == Map::<Seq<char>, V>::empty(),
    {
        let r = KeyMap { entries: Vec::new() };
        assert(r@ =~= Map::<Seq<char>, V>::empty());
        r
    }

    /// The number of keys. The listed entries are those of the map, each once.
    pub fn len(&self) -> (n: usize)
        ensures
            n == self.listed().len(),
            n == self@.dom().len(),
            self@.dom().finite(),
            distinct_entries(self.listed()),
            self@ == map_of(self.listed()),
    {
        proof {
            use_type_invariant(self);
            lemma_entries_count(self.entries@);
        }
        self.entries.len()
    }

    /// The entry at a position of the listing.
    pub fn at(&self, i: usize) -> (r: (&String, &V))
        requires
            i < self.listed().len(),
        ensures
            *r.0 == self.listed()[i as int].0,
            *r.1 == self.listed()[i as int].1,
            self@.contains_key(r.0@),
            self@[r.0@] == *r.1,
    {
        proof {
            use_type_invariant(self);
            lemma_map_of_entry(self.entries@, i as int);
        }
        let e = &self.entries[i];
        (&e.0, &e.1)
    }

    /// The position of a key in the listing, if the map has it.
    fn position(&self, key: &str) -> (r: Option<usize>)
        ensures
            match r {
                Some(i) => i < self.entries@.len() && self.entries@[i as int].0@ == key@,
                None => forall|i: int|
                    0 <= i < self.entries@.len() ==> (#[trigger] self.entries@[i]).0@ != key@,
            },
    {
        for i in 0..self.entries.len()
            invariant
                forall|j: int| 0 <= j < i ==> (#[trigger] self.entries@[j]).0@ != key@,
        {
            if crate::text::str_eq(self.entries[i].0.as_str(), key) {
                return Some(i);
            }
        }
        None
    }

    /// The value of a key.
    pub fn get(&self, key: &str) -> (r: Option<&V>)
        ensures
            match r {
                Some(v) => self@.contains_key(key@) && self@[key@] == *v,
                None => !self@.contains_key(key@),
            },
    {
        proof {
            use_type_invariant(self);
        }
        match self.position(key) {
            Some(i) => {
                proof {
                    lemma_map_of_entry(self.entries@, i as int);
                }
                Some(&self.entries[i].1)
            },
            None => None,
        }
    }

    /// Whether the map has a key.
    pub fn contains_key(&self, key: &str) -> (r: bool)
        ensures
            r == self@.contains_key(key@),
    {
        self.get(key).is_some()
    }

    /// Gives a key a value, in place of the one that it had.
    pub fn insert(&mut self, key: String, value: V)
        ensures
            final(self)@ == old(self)@.insert(key@, value),
    {
        proof {
            use_type_invariant(&*self);
        }
        let ghost before = self@;
        let at = self.position(key.as_str());
        let mut entries: Vec<(String, V)> = Vec::new();
        std::mem::swap(&mut entries, &mut self.entries);
        let ghost old_entries = entries@;
        let ghost k0 = key@;
        match at {
            Some(i) => {
                entries.set(i, (key, value));
                assert(distinct_entries(entries@)) by {
                    assert forall|a: int, b: int| 0 <= a < b < entries@.len() implies (
                    #[trigger] entries@[a]).0@ != (#[trigger] entries@[b]).0@ by {
                        assert(entries@[a].0@ == old_entries[a].0@);
                        assert(entries@[b].0@ == old_entries[b].0@);
                    }
                }
            },
            None => {
                entries.push((key, value));
                assert(distinct_entries(entries@)) by {
                    assert forall|a: int, b: int| 0 <= a < b < entries@.len() implies (
                    #[trigger] entries@[a]).0@ != (#[trigger] entries@[b]).0@ by {
                        assert(entries@[a] == old_entries[a]);
                        if b < old_entries.len() {
                            assert(entries@[b] == old_entries[b]);
                        }
                    }
                }
            },
        }
        proof {
            let pos = match at {
                Some(i) => i as int,
                None => old_entries.len() as int,
            };
            assert(entries@[pos] == (key, value));
            assert forall|k: Seq<char>|
                #![trigger map_of(entries@).contains_key(k)]
                map_of(entries@).contains_key(k) == before.insert(k0, value).contains_key(k) && (
                map_of(entries@).contains_key(k) ==> map_of(entries@)[k] == before.insert(
                    k0,
                    value,
                )[k]) by {
                if k == k0 {
                    lemma_map_of_entry(entries@, pos);
                } else {
                    if map_of(entries@).contains_key(k) {
                        let i = choose|i: int| 0 <= i < entries@.len() && (#[trigger] entries@[i]).0@ == k;
                        lemma_map_of_entry(entries@, i);
                        assert(entries@[i] == old_entries[i]);
                        lemma_map_of_entry(old_entries, i);
                    }
                    if before.contains_key(k) {
                        let i = choose|i: int|
                            0 <= i < old_entries.len() && (#[trigger] old_entries[i]).0@ == k;
                        assert(entries@[i] == old_entries[i]);
                        lemma_map_of_entry(entries@, i);
                    }
                }
            }
            assert(map_of(entries@) =~= before.insert(k0, value));
        }
        self.entries = entries;
    }

    /// Takes a key out; hands back the value that it had.
    pub fn remove(&mut self, key: &str) -> (r: Option<V>)
        ensures
            final(self)@ == old(self)@.remove(key@),
            match r {
                Some(v) => old(self)@.contains_key(key@) && old(self)@[key@] == v,
                None => !old(self)@.contains_key(key@),
            },
    {
        proof {
            use_type_invariant(&*self);
        }
        let ghost before = self@;
        match self.position(key) {
            None => {
                assert(before.remove(key@) =~= before);
                None
            },
            Some(i) => {
                let mut entries: Vec<(String, V)> = Vec::new();
                std::mem::swap(&mut entries, &mut self.entries);
                let ghost old_entries = entries@;
                let gone = entries.remove(i);
                proof {
                    lemma_map_of_entry(old_entries, i as int);
                    assert forall|a: int, b: int| 0 <= a < b < entries@.len() implies (
                    #[trigger] entries@[a]).0@ != (#[trigger] entries@[b]).0@ by {
                        let a0 = if a < i { a } else { a + 1 };
                        let b0 = if b < i { b } else { b + 1 };
                        assert(entries@[a] == old_entries[a0]);
                        assert(entries@[b] == old_entries[b0]);
                    }
                    assert forall|k: Seq<char>|
                        #![trigger map_of(entries@).contains_key(k)]
                        map_of(entries@).contains_key(k) == before.remove(key@).contains_key(k) && (
                        map_of(entries@).contains_key(k) ==> map_of(entries@)[k] == before[k]) by {
                        if map_of(entries@).contains_key(k) {
                            let a = choose|a: int|
                                0 <= a < entries@.len() && (#[trigger] entries@[a]).0@ == k;
                            let a0 = if a < i { a } else { a + 1 };
                            assert(entries@[a] == old_entries[a0]);
                            lemma_map_of_entry(entries@, a);
                            lemma_map_of_entry(old_entries, a0);
                        }
                        if before.contains_key(k) && k != key@ {
                            let a0 = choose|a0: int|
                                0 <= a0 < old_entries.len() && (#[trigger] old_entries[a0]).0@ == k;
                            let a = if a0 < i { a0 } else { a0 - 1 };
                            assert(entries@[a] == old_entries[a0]);
                            lemma_map_of_entry(entries@, a);
                        }
                    }
                    assert(map_of(entries@) =~= before.remove(key@));
                }
                self.entries = entries;
                Some(gone.1)
            },
        }
    }

    /// Drops the keys that begin with a prefix and are not in a set.
    pub fn drop_stale(&mut self, prefix: &str, keep: &KeySet)
        ensures
            final(self)@ == without_stale(old(self)@, prefix@, keep@),
    {
        proof {
            use_type_invariant(&*self);
        }
        let ghost before = self@;
        let mut entries: Vec<(String, V)> = Vec::new();
        std::mem::swap(&mut entries, &mut self.entries);
        let ghost old_entries = entries@;
        let ghost mut origin: Seq<int> = Seq::new(old_entries.len(), |a: int| a);
        let ghost stays = |e: (String, V)| !starts_with(e.0@, prefix@) || keep@.contains(e.0@);
        let mut i: usize = 0;
        assert forall|j: int| 0 <= j < old_entries.len() && stays(old_entries[j]) implies exists|
            a: int,
        | 0 <= a < origin.len() && #[trigger] origin[a] == j by {
            assert(origin[j] == j);
        }
        while i < entries.len()
            invariant
                i <= entries@.len(),
                stays == (|e: (String, V)|
                    !starts_with(e.0@, prefix@) || keep@.contains(e.0@)),
                origin.len() == entries@.len(),
                forall|a: int|
                    0 <= a < origin.len() ==> 0 <= #[trigger] origin[a] < old_entries.len(),
                forall|a: int, b: int|
                    0 <= a < b < origin.len() ==> (#[trigger] origin[a]) < (#[trigger] origin[b]),
                forall|a: int|
                    0 <= a < origin.len() ==> entries@[a] == old_entries[#[trigger] origin[a]],
                forall|a: int| 0 <= a < i ==> stays(old_entries[#[trigger] origin[a]]),
                forall|j: int|
                    0 <= j < old_entries.len() && stays(#[trigger] old_entries[j]) ==> exists|a: int|
                        0 <= a < origin.len() && #[trigger] origin[a] == j,
            decreases entries@.len() - i,
        {
            if !text_starts_with(entries[i].0.as_str(), prefix) || keep.contains(
                entries[i].0.as_str(),
            ) {
                assert(stays(old_entries[origin[i as int]]));
                i = i + 1;
            } else {
                let ghost prev = origin;
                let ghost was = entries@;
                let _gone = entries.remove(i);
                proof {
                    origin = prev.remove(i as int);
                    assert forall|a: int| 0 <= a < origin.len() implies entries@[a]
                        == old_entries[#[trigger] origin[a]] by {
                        let a0 = if a < i { a } else { a + 1 };
                        assert(origin[a] == prev[a0]);
                        assert(entries@[a] == was[a0]);
                    }
                    assert forall|j: int|
                        0 <= j < old_entries.len() && stays(#[trigger] old_entries[j]) implies exists|
                        a: int,
                    | 0 <= a < origin.len() && #[trigger] origin[a] == j by {
                        let a0 = choose|a0: int| 0 <= a0 < prev.len() && #[trigger] prev[a0] == j;
                        assert(a0 != i);
                        let a = if a0 < i { a0 } else { a0 - 1 };
                        assert(origin[a] == j);
                    }
                }
            }
        }
        proof {
            assert forall|a: int, b: int| 0 <= a < b < entries@.len() implies (
            #[trigger] entries@[a]).0@ != (#[trigger] entries@[b]).0@ by {
                assert(origin[a] < origin[b]);
                assert(entries@[a] == old_entries[origin[a]]);
                assert(entries@[b] == old_entries[origin[b]]);
            }
            let want = without_stale(before, prefix@, keep@);
            assert forall|k: Seq<char>|
                #![trigger map_of(entries@).contains_key(k)]
                map_of(entries@).contains_key(k) == want.contains_key(k) && (map_of(
                    entries@,
                ).contains_key(k) ==> map_of(entries@)[k] == want[k]) by {
                if map_of(entries@).contains_key(k) {
                    let a = choose|a: int|
                        0 <= a < entries@.len() && (#[trigger] entries@[a]).0@ == k;
                    assert(entries@[a] == old_entries[origin[a]]);
                    assert(stays(old_entries[origin[a]]));
                    lemma_map_of_entry(entries@, a);
                    lemma_map_of_entry(old_entries, origin[a]);
                }
                if want.contains_key(k) {
                    let j = choose|j: int|
                        0 <= j < old_entries.len() && (#[trigger] old_entries[j]).0@ == k;
                    assert(stays(old_entries[j]));
                    let a = choose|a: int| 0 <= a < origin.len() && #[trigger] origin[a] == j;
                    assert(entries@[a].0@ == k);
                    lemma_map_of_entry(entries@, a);
                    lemma_map_of_entry(old_entries, j);
                }
            }
            assert(map_of(entries@) =~= want);
        }
        self.entries = entries;
    }
}

/// Entries with different keys are as many as the keys of their map.
proof fn lemma_entries_count<V>(e: Seq<(String, V)>)
    requires
        distinct_entries(e),
    ensures
        map_of(e).dom().finite(),
        map_of(e).dom().len() == e.len(),
{
    let keys = Seq::new(e.len(), |i: int| e[i].0@);
    assert(keys.no_duplicates()) by {
        assert forall|i: int, j: int|
            0 <= i < keys.len() && 0 <= j < keys.len() && i != j implies keys[i] != keys[j] by {
            if i < j {
                assert(e[i].0@ != e[j].0@);
            } else {
                assert(e[j].0@ != e[i].0@);
            }
        }
    }
    keys.unique_seq_to_set();
    assert forall|k: Seq<char>| keys.to_set().contains(k) == map_of(e).dom().contains(k) by {
        if keys.to_set().contains(k) {
            let i = choose|i: int| 0 <= i < keys.len() && keys[i] == k;
            assert(e[i].0@ == k);
        }
        if map_of(e).dom().contains(k) {
            let i = choose|i: int| 0 <= i < e.len() && (#[trigger] e[i]).0@ == k;
            assert(keys[i] == k);
        }
    }
    assert(keys.to_set() =~= map_of(e).dom());
}

/// The values of distinct entries list the values of their map.
pub proof fn lemma_listing<V>(e: Seq<(String, V)>, vals: Seq<V>)
    requires
        distinct_entries(e),
        vals.len() == e.len(),
        forall|i: int| 0 <= i < e.len() ==> #[trigger] vals[i] == e[i].1,
    ensures
        lists_values(vals, map_of(e)),
{
    let keys = Seq::new(e.len(), |i: int| e[i].0@);
    assert(keys.no_duplicates()) by {
        assert forall|i: int, j: int|
            0 <= i < keys.len() && 0 <= j < keys.len() && i != j implies keys[i] != keys[j] by {
            if i < j {
                assert(e[i].0@ != e[j].0@);
            } else {
                assert(e[j].0@ != e[i].0@);
            }
        }
    }
    assert forall|k: Seq<char>| keys.to_set().contains(k) == map_of(e).dom().contains(k) by {
        if keys.to_set().contains(k) {
            let i = choose|i: int| 0 <= i < keys.len() && keys[i] == k;
            assert(e[i].0@ == k);
        }
        if map_of(e).dom().contains(k) {
            let i = choose|i: int| 0 <= i < e.len() && (#[trigger] e[i]).0@ == k;
            assert(keys[i] == k);
        }
    }
    assert(keys.to_set() =~= map_of(e).dom());
    assert forall|i: int| 0 <= i < keys.len() implies #[trigger] vals[i] == map_of(e)[keys[i]] by {
        lemma_map_of_entry(e, i);
    }
    assert(lists_values_by(keys, vals, map_of(e)));
}

/// Whether a table holds a value under some key.
pub open spec fn holds_value<V>(m: Map<Seq<char>, V>, value: V) -> bool {
    exists|k: Seq<char>| #[trigger] m.contains_key(k) && m[k] == value
}

/// A listing of a table holds the value of every key, nothing else, and each as
/// often as there are keys for it.
pub proof fn law_listing_is_complete<V>(vals: Seq<V>, m: Map<Seq<char>, V>)
    requires
        lists_values(vals, m),
    ensures
        forall|k: Seq<char>| #[trigger] m.contains_key(k) ==> vals.contains(m[k]),
        forall|i: int| 0 <= i < vals.len() ==> holds_value(m, #[trigger] vals[i]),
        m.dom().finite(),
        vals.len() == m.dom().len(),
{
    let keys = choose|keys: Seq<Seq<char>>| #[trigger] lists_values_by(keys, vals, m);
    keys.unique_seq_to_set();
    vstd::seq_lib::seq_to_set_is_finite(keys);
    assert forall|k: Seq<char>| #[trigger] m.contains_key(k) implies vals.contains(m[k]) by {
        assert(keys.to_set().contains(k));
        let i = choose|i: int| 0 <= i < keys.len() && keys[i] == k;
        assert(vals[i] == m[keys[i]]);
    }
    assert forall|i: int| 0 <= i < vals.len() implies holds_value(m, #[trigger] vals[i]) by {
        assert(keys.to_set().contains(keys[i]));
        assert(m.dom().contains(keys[i]));
        assert(m.contains_key(keys[i]) && vals[i] == m[keys[i]]);
    }
}

/// What is left of a table without what is stale: all that does not begin with the
/// prefix, and of the rest what is to be kept, with its values.
pub proof fn law_only_the_stale_is_dropped<V>(
    m: Map<Seq<char>, V>,
    prefix: Seq<char>,
    keep: Set<Seq<char>>,
    k: Seq<char>,
)
    ensures
        without_stale(m, prefix, keep).contains_key(k) ==> m.contains_key(k) && without_stale(
            m,
            prefix,
            keep,
        )[k] == m[k],
        m.contains_key(k) && !starts_with(k, prefix) ==> without_stale(m, prefix, keep).contains_key(
            k,
        ),
        m.contains_key(k) && starts_with(k, prefix) ==> (without_stale(
            m,
            prefix,
            keep,
        ).contains_key(k) <==> keep.contains(k)),
{
}

} // verus!
