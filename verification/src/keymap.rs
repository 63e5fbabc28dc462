//! A map from identities or digests to values that keeps its entries in
//! ascending order of their keys.

use crate::bytes::{
    lemma_lex_irreflexive, lemma_lex_total, lemma_lex_transitive, less_bytes, lex_less,
};
use crate::keys::DbcId;
use vstd::prelude::*;

verus! {

/// A key: a value that is told from another, and ordered, by the bytes
/// that encode it.
pub trait Key: Sized {
    /// The bytes that encode the key.
    spec fn key_bytes(&self) -> Seq<u8>;

    /// Keys with the same bytes are the same key.
    proof fn lemma_bytes_tell_keys_apart(a: Self, b: Self)
        requires
            a.key_bytes() == b.key_bytes(),
        ensures
            a == b,
    ;

    /// Whether the two keys are the same.
    fn is(&self, other: &Self) -> (r: bool)
        ensures
            r == (*self == *other),
    ;

    /// Whether this key comes before `other`: whether its bytes come
    /// before those of `other` in lexicographic order.
    fn comes_before(&self, other: &Self) -> (r: bool)
        ensures
            r == lex_less(self.key_bytes(), other.key_bytes()),
    ;
}

impl Key for DbcId {
    open spec fn key_bytes(&self) -> Seq<u8> {
        self@
    }

    proof fn lemma_bytes_tell_keys_apart(a: DbcId, b: DbcId) {
        assert(a.bytes@ =~= b.bytes@);
        assert(a.bytes == b.bytes);
    }

    fn is(&self, other: &DbcId) -> (r: bool) {
        self.same(other)
    }

    fn comes_before(&self, other: &DbcId) -> (r: bool) {
        less_bytes(self.bytes.as_slice(), other.bytes.as_slice())
    }
}

impl Key for crate::hash::Hash {
    open spec fn key_bytes(&self) -> Seq<u8> {
        self@
    }

    proof fn lemma_bytes_tell_keys_apart(a: crate::hash::Hash, b: crate::hash::Hash) {
        assert(a.bytes@ =~= b.bytes@);
        assert(a.bytes == b.bytes);
    }

    fn is(&self, other: &crate::hash::Hash) -> (r: bool) {
        self.same(other)
    }

    fn comes_before(&self, other: &crate::hash::Hash) -> (r: bool) {
        self.less(other)
    }
}

/// Whether `key` is the key of one of `entries`.
pub open spec fn has_key<K, V>(entries: Seq<(K, V)>, key: K) -> bool {
    exists|i: int| 0 <= i < entries.len() && (#[trigger] entries[i]).0 == key
}

/// The place of an entry of `entries` with the key `key`.
pub open spec fn place_of<K, V>(entries: Seq<(K, V)>, key: K) -> int {
    choose|i: int| 0 <= i < entries.len() && (#[trigger] entries[i]).0 == key
}

/// Whether no key occurs twice among `entries`.
pub open spec fn distinct_keys<K, V>(entries: Seq<(K, V)>) -> bool {
    forall|i: int, j: int|
        0 <= i < j < entries.len() ==> (#[trigger] entries[i]).0 != (#[trigger] entries[j]).0
}

/// The map that `entries` list.
pub open spec fn map_of<K, V>(entries: Seq<(K, V)>) -> Map<K, V> {
    Map::new(|key: K| has_key(entries, key), |key: K| entries[place_of(entries, key)].1)
}

/// Whether the keys of `entries` ascend: each comes before the next, by
/// its bytes. Then no key occurs twice.
pub open spec fn ascending<K: Key, V>(entries: Seq<(K, V)>) -> bool {
    forall|i: int, j: int|
        0 <= i < j < entries.len() ==> lex_less(
            (#[trigger] entries[i]).0.key_bytes(),
            (#[trigger] entries[j]).0.key_bytes(),
        )
}

/// The entries `entries` with `key` and `value` put where the keys stay
/// in ascending order; where `key` is there, the entries as they are.
pub open spec fn sorted_insert<K: Key, V>(entries: Seq<(K, V)>, key: K, value: V) -> Seq<(K, V)>
    decreases entries.len(),
{
    if entries.len() == 0 {
        seq![(key, value)]
    } else if entries[0].0 == key {
        entries
    } else if lex_less(key.key_bytes(), entries[0].0.key_bytes()) {
        seq![(key, value)] + entries
    } else {
        seq![entries[0]] + sorted_insert(entries.drop_first(), key, value)
    }
}

/// The keys of `entries`, in their order.
pub open spec fn keys_of<K, V>(entries: Seq<(K, V)>) -> Seq<K> {
    Seq::new(entries.len(), |i: int| entries[i].0)
}

/// The set of `items` as entries in ascending order: each item once.
pub open spec fn sorted_set<K: Key>(items: Seq<K>) -> Seq<(K, ())>
    decreases items.len(),
{
    if items.len() == 0 {
        Seq::empty()
    } else {
        sorted_insert(sorted_set(items.drop_last()), items.last(), ())
    }
}

/// A map that keeps its entries in ascending order of the bytes of their
/// keys. No key occurs twice.
#[derive(Debug)]
pub struct KeyMap<K: Key, V> {
    entries: Vec<(K, V)>,
}

impl<K: Key, V> View for KeyMap<K, V> {
    type V = Map<K, V>;

    closed spec fn view(&self) -> Map<K, V> {
        map_of(self.entries@)
    }
}

impl<K: Key, V> KeyMap<K, V> {
    #[verifier::type_invariant]
    spec fn wf(self) -> bool {
        ascending(self.entries@)
    }

    /// The entries, in ascending order of their keys.
    pub closed spec fn entries(self) -> Seq<(K, V)> {
        self.entries@
    }

    /// A map without entries has no keys.
    pub proof fn lemma_no_entries_no_keys(self)
        requires
            self.entries().len() == 0,
        ensures
            self@ == Map::<K, V>::empty(),
    {
        assert(self@ =~= Map::<K, V>::empty());
    }
}

impl<K: Key + Copy, V: Clone> Clone for KeyMap<K, V> {
    /// A map with the same keys in the same order, each with a clone of
    /// its value.
    fn clone(&self) -> (r: KeyMap<K, V>)
        ensures
            r.entries().len() == self.entries().len(),
            forall|i: int|
                0 <= i < self.entries().len() ==> (#[trigger] r.entries()[i]).0
                    == self.entries()[i].0 && cloned(self.entries()[i].1, r.entries()[i].1),
            r@.dom() == self@.dom(),
            forall|key: K| #[trigger] self@.contains_key(key) ==> cloned(self@[key], r@[key]),
    {
        proof {
            use_type_invariant(self);
            lemma_ascending_is_distinct(self.entries@);
        }
        let mut entries: Vec<(K, V)> = Vec::new();
        let mut i: usize = 0;
        while i < self.entries.len()
            invariant
                i <= self.entries@.len(),
                entries@.len() == i,
                forall|k: int|
                    0 <= k < i ==> (#[trigger] entries@[k]).0 == self.entries@[k].0 && cloned(
                        self.entries@[k].1,
                        entries@[k].1,
                    ),
            decreases self.entries@.len() - i,
        {
            entries.push((self.entries[i].0, self.entries[i].1.clone()));
            i += 1;
        }
        proof {
            assert(ascending(entries@)) by {
                assert forall|a: int, b: int| 0 <= a < b < entries@.len() implies lex_less(
                    (#[trigger] entries@[a]).0.key_bytes(),
                    (#[trigger] entries@[b]).0.key_bytes(),
                ) by {
                    assert(lex_less(
                        self.entries@[a].0.key_bytes(),
                        self.entries@[b].0.key_bytes(),
                    ));
                }
            }
            lemma_ascending_is_distinct(entries@);
            assert forall|key: K| has_key(entries@, key) <==> has_key(self.entries@, key) by {
                if has_key(entries@, key) {
                    let p = place_of(entries@, key);
                    assert(self.entries@[p].0 == key);
                }
                if has_key(self.entries@, key) {
                    let p = place_of(self.entries@, key);
                    assert(entries@[p].0 == key);
                }
            }
            assert(map_of(entries@).dom() =~= map_of(self.entries@).dom());
            assert forall|key: K| #[trigger]
                map_of(self.entries@).contains_key(key) implies cloned(
                map_of(self.entries@)[key],
                map_of(entries@)[key],
            ) by {
                let p = place_of(self.entries@, key);
                lemma_place_is_unique(self.entries@, p);
                assert(entries@[p].0 == key);
                lemma_place_is_unique(entries@, p);
            }
        }
        KeyMap { entries }
    }
}

impl<K: Key, V> KeyMap<K, V> {
    /// The empty map.
    pub fn new() -> (r: KeyMap<K, V>)
        ensures
            r@ == Map::<K, V>::empty(),
            r.entries().len() == 0,
    {
        let r = KeyMap { entries: Vec::new() };
        assert(r@ =~= Map::<K, V>::empty());
        r
    }

    /// The number of entries.
    pub fn len(&self) -> (r: usize)
        ensures
            r == self.entries().len(),
    {
        self.entries.len()
    }

    /// The entry at place `i` in ascending order of the keys. The entries
    /// are what the map holds: each key once, with its value.
    pub fn entry(&self, i: usize) -> (r: (&K, &V))
        requires
            i < self.entries().len(),
        ensures
            *r.0 == self.entries()[i as int].0,
            *r.1 == self.entries()[i as int].1,
            self@.contains_key(*r.0),
            self@[*r.0] == *r.1,
            ascending(self.entries()),
            distinct_keys(self.entries()),
            map_of(self.entries()) == self@,
    {
        proof {
            use_type_invariant(self);
            lemma_ascending_is_distinct(self.entries@);
            lemma_place_is_unique(self.entries@, i as int);
        }
        (&self.entries[i].0, &self.entries[i].1)
    }

    /// Where `key` stands among the entries, if it is a key of the map.
    fn find(&self, key: &K) -> (r: Option<usize>)
        ensures
            r is Some == self@.contains_key(*key),
            r matches Some(i) ==> i < self.entries@.len() && self.entries@[i as int].0 == *key
                && self@[*key] == self.entries@[i as int].1,
    {
        proof {
            use_type_invariant(self);
            lemma_ascending_is_distinct(self.entries@);
        }
        let mut i: usize = 0;
        while i < self.entries.len()
            invariant
                i <= self.entries@.len(),
                distinct_keys(self.entries@),
                forall|k: int| 0 <= k < i ==> (#[trigger] self.entries@[k]).0 != *key,
            decreases self.entries@.len() - i,
        {
            if self.entries[i].0.is(key) {
                proof {
                    lemma_place_is_unique(self.entries@, i as int);
                }
                return Some(i);
            }
            i += 1;
        }
        None
    }

    /// The place before which `key` belongs: the first whose key does not
    /// come before `key`.
    fn place_for(&self, key: &K) -> (p: usize)
        ensures
            p <= self.entries@.len(),
            forall|j: int|
                0 <= j < p ==> lex_less(
                    (#[trigger] self.entries@[j]).0.key_bytes(),
                    key.key_bytes(),
                ),
            p == self.entries@.len() || !lex_less(
                self.entries@[p as int].0.key_bytes(),
                key.key_bytes(),
            ),
    {
        let mut p: usize = 0;
        while p < self.entries.len() && self.entries[p].0.comes_before(key)
            invariant
                p <= self.entries@.len(),
                forall|j: int|
                    0 <= j < p ==> lex_less(
                        (#[trigger] self.entries@[j]).0.key_bytes(),
                        key.key_bytes(),
                    ),
            decreases self.entries@.len() - p,
        {
            p += 1;
        }
        p
    }

    /// Whether `key` is a key of the map.
    pub fn contains_key(&self, key: &K) -> (r: bool)
        ensures
            r == self@.contains_key(*key),
    {
        self.find(key).is_some()
    }

    /// The value of `key`, if it is a key of the map.
    pub fn get(&self, key: &K) -> (r: Option<&V>)
        ensures
            r is Some == self@.contains_key(*key),
            r matches Some(v) ==> *v == self@[*key],
    {
        match self.find(key) {
            Some(i) => Some(&self.entries[i].1),
            None => None,
        }
    }

    /// Gives `key` the value `value`, in place of the value that it had, if
    /// any. A key that is new is put where the keys stay in ascending
    /// order.
    pub fn insert(&mut self, key: K, value: V)
        ensures
            final(self)@ == old(self)@.insert(key, value),
            final(self).entries() == if old(self)@.contains_key(key) {
                old(self).entries().update(place_of(old(self).entries(), key), (key, value))
            } else {
                sorted_insert(old(self).entries(), key, value)
            },
    {
        let found = self.find(&key);
        let p = self.place_for(&key);
        proof {
            use_type_invariant(&*self);
            lemma_ascending_is_distinct(self.entries@);
        }
        let ghost before = self.entries@;
        let mut entries: Vec<(K, V)> = Vec::new();
        core::mem::swap(&mut self.entries, &mut entries);
        match found {
            Some(i) => {
                proof {
                    lemma_place_is_unique(before, i as int);
                }
                entries.set(i, (key, value));
                proof {
                    let after = entries@;
                    assert(ascending(after)) by {
                        assert forall|a: int, b: int| 0 <= a < b < after.len() implies lex_less(
                            (#[trigger] after[a]).0.key_bytes(),
                            (#[trigger] after[b]).0.key_bytes(),
                        ) by {
                            assert(after[a].0 == before[a].0 && after[b].0 == before[b].0);
                        }
                    }
                    lemma_ascending_is_distinct(after);
                    assert(map_of(after) =~= map_of(before).insert(key, value)) by {
                        assert forall|k: K| has_key(after, k) <==> has_key(before, k) by {
                            if has_key(before, k) {
                                let p = place_of(before, k);
                                assert(after[p].0 == before[p].0);
                            }
                            if has_key(after, k) {
                                let p = place_of(after, k);
                                assert(after[p].0 == before[p].0);
                            }
                        }
                        assert(before[i as int].0 == key);
                        assert forall|k: K| has_key(after, k) implies #[trigger] map_of(after)[k]
                            == map_of(before).insert(key, value)[k] by {
                            let p = place_of(after, k);
                            lemma_place_is_unique(after, p);
                            if k != key {
                                assert(p != i);
                                assert(after[p] == before[p]);
                                lemma_place_is_unique(before, p);
                            } else {
                                lemma_place_is_unique(after, i as int);
                            }
                        }
                    }
                }
            },
            None => {
                proof {
                    lemma_sorted_insert_at(before, key, value, p as int);
                    lemma_insert_new_key(before, p as int, key, value);
                }
                entries.insert(p, (key, value));
            },
        }
        core::mem::swap(&mut self.entries, &mut entries);
    }

    /// Gives `key` the value `value` unless the map has a value for it:
    /// the first value of a key stays. A key that is new is put where the
    /// keys stay in ascending order. Returns whether the map changed.
    pub fn insert_if_absent(&mut self, key: K, value: V) -> (r: bool)
        ensures
            r == !old(self)@.contains_key(key),
            final(self)@ == if old(self)@.contains_key(key) {
                old(self)@
            } else {
                old(self)@.insert(key, value)
            },
            final(self).entries() == sorted_insert(old(self).entries(), key, value),
            ascending(old(self).entries()),
            ascending(final(self).entries()),
    {
        let found = self.find(&key);
        let p = self.place_for(&key);
        proof {
            use_type_invariant(&*self);
            lemma_ascending_is_distinct(self.entries@);
            lemma_sorted_insert_at(self.entries@, key, value, p as int);
        }
        if let Some(i) = found {
            proof {
                lemma_lex_irreflexive(key.key_bytes());
                if p < i {
                    assert(lex_less(
                        self.entries@[p as int].0.key_bytes(),
                        self.entries@[i as int].0.key_bytes(),
                    ));
                }
                assert(p == i);
            }
            return false;
        }
        let ghost before = self.entries@;
        proof {
            lemma_insert_new_key(before, p as int, key, value);
        }
        let mut entries: Vec<(K, V)> = Vec::new();
        core::mem::swap(&mut self.entries, &mut entries);
        entries.insert(p, (key, value));
        core::mem::swap(&mut self.entries, &mut entries);
        true
    }
}

impl<K: Key + Copy, V> KeyMap<K, V> {
    /// The keys, in ascending order.
    pub fn keys(&self) -> (r: Vec<K>)
        ensures
            r@ == keys_of(self.entries()),
            ascending(self.entries()),
    {
        proof {
            use_type_invariant(self);
        }
        let mut keys: Vec<K> = Vec::new();
        let mut i: usize = 0;
        while i < self.entries.len()
            invariant
                i <= self.entries@.len(),
                keys@.len() == i,
                forall|k: int| 0 <= k < i ==> keys@[k] == self.entries@[k].0,
            decreases self.entries@.len() - i,
        {
            keys.push(self.entries[i].0);
            i += 1;
        }
        assert(keys@ =~= keys_of(self.entries@));
        keys
    }
}

/// The items `items`, each once, in ascending order of their bytes.
pub fn sorted_keys<K: Key + Copy>(items: &Vec<K>) -> (r: Vec<K>)
    ensures
        r@ == keys_of(sorted_set(items@)),
{
    let mut set: KeyMap<K, ()> = KeyMap::new();
    let mut i: usize = 0;
    assert(items@.subrange(0, 0) =~= Seq::<K>::empty());
    assert(set.entries() =~= sorted_set(items@.subrange(0, 0)));
    while i < items.len()
        invariant
            i <= items@.len(),
            set.entries() == sorted_set(items@.subrange(0, i as int)),
        decreases items@.len() - i,
    {
        let ghost next = items@.subrange(0, i + 1);
        assert(next.drop_last() =~= items@.subrange(0, i as int));
        assert(next.last() == items@[i as int]);
        set.insert_if_absent(items[i], ());
        i += 1;
    }
    assert(items@.subrange(0, items@.len() as int) =~= items@);
    set.keys()
}

/// Keys that ascend are distinct.
pub proof fn lemma_ascending_is_distinct<K: Key, V>(entries: Seq<(K, V)>)
    requires
        ascending(entries),
    ensures
        distinct_keys(entries),
{
    assert forall|i: int, j: int| 0 <= i < j < entries.len() implies (#[trigger] entries[i]).0 != (
    #[trigger] entries[j]).0 by {
        lemma_lex_irreflexive(entries[i].0.key_bytes());
    }
}

/// Of two keys that differ, one comes before the other.
pub proof fn lemma_keys_are_ordered<K: Key>(a: K, b: K)
    ensures
        a == b || lex_less(a.key_bytes(), b.key_bytes()) || lex_less(b.key_bytes(), a.key_bytes()),
        !(lex_less(a.key_bytes(), b.key_bytes()) && lex_less(b.key_bytes(), a.key_bytes())),
        a == b ==> !lex_less(a.key_bytes(), b.key_bytes()),
{
    lemma_lex_total(a.key_bytes(), b.key_bytes());
    lemma_lex_irreflexive(a.key_bytes());
    if a.key_bytes() == b.key_bytes() {
        K::lemma_bytes_tell_keys_apart(a, b);
    }
}

/// Where the keys before place `p` come before `key` and the key at `p`
/// does not, `key` is put at `p`, unless it stands there.
pub proof fn lemma_sorted_insert_at<K: Key, V>(entries: Seq<(K, V)>, key: K, value: V, p: int)
    requires
        0 <= p <= entries.len(),
        forall|j: int|
            0 <= j < p ==> lex_less((#[trigger] entries[j]).0.key_bytes(), key.key_bytes()),
        p == entries.len() || !lex_less(entries[p].0.key_bytes(), key.key_bytes()),
    ensures
        sorted_insert(entries, key, value) == if p < entries.len() && entries[p].0 == key {
            entries
        } else {
            entries.insert(p, (key, value))
        },
        p < entries.len() && entries[p].0 != key ==> lex_less(
            key.key_bytes(),
            entries[p].0.key_bytes(),
        ),
    decreases entries.len(),
{
    if entries.len() == 0 {
        assert(entries.insert(0, (key, value)) =~= seq![(key, value)]);
    } else if p == 0 {
        lemma_keys_are_ordered(entries[0].0, key);
        if entries[0].0 != key {
            assert(entries.insert(0, (key, value)) =~= seq![(key, value)] + entries);
        }
    } else {
        lemma_keys_are_ordered(entries[0].0, key);
        let rest = entries.drop_first();
        assert forall|j: int| 0 <= j < p - 1 implies lex_less(
            (#[trigger] rest[j]).0.key_bytes(),
            key.key_bytes(),
        ) by {
            assert(rest[j] == entries[j + 1]);
        }
        if p < entries.len() {
            assert(rest[p - 1] == entries[p]);
        }
        lemma_sorted_insert_at(rest, key, value, p - 1);
        if p < entries.len() && entries[p].0 == key {
            assert(seq![entries[0]] + rest =~= entries);
        } else {
            assert(seq![entries[0]] + rest.insert(p - 1, (key, value)) =~= entries.insert(
                p,
                (key, value),
            ));
        }
    }
}

/// Ascending entries, with an entry of a new key put where its key
/// belongs, ascend and list the map with the new key inserted.
pub proof fn lemma_insert_new_key<K: Key, V>(before: Seq<(K, V)>, p: int, key: K, value: V)
    requires
        ascending(before),
        0 <= p <= before.len(),
        forall|j: int|
            0 <= j < p ==> lex_less((#[trigger] before[j]).0.key_bytes(), key.key_bytes()),
        p == before.len() || !lex_less(before[p].0.key_bytes(), key.key_bytes()),
        !has_key(before, key),
    ensures
        ascending(before.insert(p, (key, value))),
        map_of(before.insert(p, (key, value))) == map_of(before).insert(key, value),
{
    let after = before.insert(p, (key, value));
    assert forall|j: int| p <= j < before.len() implies lex_less(
        key.key_bytes(),
        (#[trigger] before[j]).0.key_bytes(),
    ) by {
        lemma_keys_are_ordered(before[p].0, key);
        assert(before[p].0 != key);
        if j > p {
            lemma_lex_transitive(key.key_bytes(), before[p].0.key_bytes(), before[j].0.key_bytes());
        }
    }
    assert(ascending(after)) by {
        assert forall|a: int, b: int| 0 <= a < b < after.len() implies lex_less(
            (#[trigger] after[a]).0.key_bytes(),
            (#[trigger] after[b]).0.key_bytes(),
        ) by {
            if b < p {
                assert(after[a] == before[a] && after[b] == before[b]);
            } else if b == p {
                assert(after[a] == before[a]);
            } else if a < p {
                assert(after[a] == before[a] && after[b] == before[b - 1]);
                if b - 1 == a {
                } else {
                    assert(lex_less(before[a].0.key_bytes(), before[b - 1].0.key_bytes()));
                }
            } else if a == p {
                assert(after[b] == before[b - 1]);
            } else {
                assert(after[a] == before[a - 1] && after[b] == before[b - 1]);
            }
        }
    }
    lemma_ascending_is_distinct(before);
    lemma_ascending_is_distinct(after);
    assert(map_of(after) =~= map_of(before).insert(key, value)) by {
        assert forall|k: K| has_key(after, k) <==> (has_key(before, k) || k == key) by {
            if has_key(before, k) {
                let i = place_of(before, k);
                if i < p {
                    assert(after[i] == before[i]);
                } else {
                    assert(after[i + 1] == before[i]);
                }
            }
            if k == key {
                assert(after[p].0 == key);
            }
            if has_key(after, k) {
                let i = place_of(after, k);
                if i < p {
                    assert(after[i] == before[i]);
                } else if i > p {
                    assert(after[i] == before[i - 1]);
                }
            }
        }
        assert forall|k: K| has_key(after, k) implies #[trigger] map_of(after)[k] == map_of(
            before,
        ).insert(key, value)[k] by {
            let i = place_of(after, k);
            lemma_place_is_unique(after, i);
            if k == key {
                lemma_place_is_unique(after, p);
            } else if i < p {
                assert(after[i] == before[i]);
                lemma_place_is_unique(before, i);
            } else {
                assert(i > p);
                assert(after[i] == before[i - 1]);
                lemma_place_is_unique(before, i - 1);
            }
        }
    }
}

/// Among entries with distinct keys, the key of an entry is found at the
/// entry's own place.
pub proof fn lemma_place_is_unique<K, V>(entries: Seq<(K, V)>, i: int)
    requires
        distinct_keys(entries),
        0 <= i < entries.len(),
    ensures
        has_key(entries, entries[i].0),
        place_of(entries, entries[i].0) == i,
        map_of(entries).contains_key(entries[i].0),
        map_of(entries)[entries[i].0] == entries[i].1,
{
    let key = entries[i].0;
    assert(has_key(entries, key));
    let p = place_of(entries, key);
    if p < i {
        assert(entries[p].0 != entries[i].0);
    } else if i < p {
        assert(entries[i].0 != entries[p].0);
    }
}

/// Putting a key among ascending entries keeps them ascending and adds
/// that key and no other.
pub proof fn lemma_sorted_insert<K: Key, V>(entries: Seq<(K, V)>, key: K, value: V)
    requires
        ascending(entries),
    ensures
        ascending(sorted_insert(entries, key, value)),
        forall|k: K| #[trigger]
            has_key(sorted_insert(entries, key, value), k) <==> (has_key(entries, k) || k == key),
    decreases entries.len(),
{
    let after = sorted_insert(entries, key, value);
    if entries.len() == 0 {
        assert forall|k: K| has_key(after, k) <==> (has_key(entries, k) || k == key) by {
            if k == key {
                assert(after[0].0 == key);
            }
        }
    } else if entries[0].0 == key {
        assert(has_key(entries, key));
    } else if lex_less(key.key_bytes(), entries[0].0.key_bytes()) {
        assert forall|a: int, b: int| 0 <= a < b < after.len() implies lex_less(
            (#[trigger] after[a]).0.key_bytes(),
            (#[trigger] after[b]).0.key_bytes(),
        ) by {
            assert(after[b] == entries[b - 1]);
            if a == 0 {
                if b > 1 {
                    lemma_lex_transitive(
                        key.key_bytes(),
                        entries[0].0.key_bytes(),
                        entries[b - 1].0.key_bytes(),
                    );
                }
            } else {
                assert(after[a] == entries[a - 1]);
            }
        }
        assert forall|k: K| has_key(after, k) <==> (has_key(entries, k) || k == key) by {
            if has_key(entries, k) {
                let i = place_of(entries, k);
                assert(after[i + 1] == entries[i]);
            }
            if k == key {
                assert(after[0].0 == key);
            }
            if has_key(after, k) {
                let i = place_of(after, k);
                if i > 0 {
                    assert(after[i] == entries[i - 1]);
                }
            }
        }
    } else {
        let rest = entries.drop_first();
        let put = sorted_insert(rest, key, value);
        assert(ascending(rest)) by {
            assert forall|a: int, b: int| 0 <= a < b < rest.len() implies lex_less(
                (#[trigger] rest[a]).0.key_bytes(),
                (#[trigger] rest[b]).0.key_bytes(),
            ) by {
                assert(rest[a] == entries[a + 1] && rest[b] == entries[b + 1]);
            }
        }
        lemma_sorted_insert(rest, key, value);
        lemma_keys_are_ordered(entries[0].0, key);
        assert(after =~= seq![entries[0]] + put);
        assert forall|a: int, b: int| 0 <= a < b < after.len() implies lex_less(
            (#[trigger] after[a]).0.key_bytes(),
            (#[trigger] after[b]).0.key_bytes(),
        ) by {
            assert(after[b] == put[b - 1]);
            if a == 0 {
                let k = put[b - 1].0;
                assert(has_key(put, k));
                if k != key {
                    assert(has_key(rest, k));
                    let i = place_of(rest, k);
                    assert(rest[i] == entries[i + 1]);
                    assert(lex_less(entries[0].0.key_bytes(), entries[i + 1].0.key_bytes()));
                }
            } else {
                assert(after[a] == put[a - 1]);
            }
        }
        assert forall|k: K| has_key(after, k) <==> (has_key(entries, k) || k == key) by {
            if has_key(entries, k) {
                let i = place_of(entries, k);
                if i == 0 {
                    assert(after[0].0 == k);
                } else {
                    assert(rest[i - 1] == entries[i]);
                    assert(has_key(rest, k));
                    assert(has_key(put, k));
                    let j = place_of(put, k);
                    assert(after[j + 1] == put[j]);
                }
            }
            if k == key {
                assert(has_key(put, k));
                let j = place_of(put, k);
                assert(after[j + 1] == put[j]);
            }
            if has_key(after, k) {
                let i = place_of(after, k);
                if i > 0 {
                    assert(after[i] == put[i - 1]);
                    assert(has_key(put, k));
                    if k != key {
                        assert(has_key(rest, k));
                        let j = place_of(rest, k);
                        assert(rest[j] == entries[j + 1]);
                    }
                } else {
                    assert(entries[0].0 == k);
                }
            }
        }
    }
}

/// The set of some items, as entries, ascends and holds those items and
/// no others.
pub proof fn lemma_sorted_set<K: Key>(items: Seq<K>)
    ensures
        ascending(sorted_set(items)),
        forall|k: K| #[trigger] has_key(sorted_set(items), k) <==> items.contains(k),
    decreases items.len(),
{
    if items.len() > 0 {
        let before = items.drop_last();
        lemma_sorted_set(before);
        lemma_sorted_insert(sorted_set(before), items.last(), ());
        assert forall|k: K| has_key(sorted_set(items), k) <==> items.contains(k) by {
            if before.contains(k) {
                let i = choose|i: int| 0 <= i < before.len() && before[i] == k;
                assert(items[i] == k);
            }
            if k == items.last() {
                assert(items[items.len() - 1] == k);
            }
            if items.contains(k) {
                let i = choose|i: int| 0 <= i < items.len() && items[i] == k;
                if i < before.len() {
                    assert(before[i] == k);
                }
            }
        }
    }
}

/// Ascending entries are fixed by their keys: two lists of ascending
/// entries with the same keys have them in the same places.
pub proof fn lemma_ascending_keys_are_fixed<K: Key, V>(a: Seq<(K, V)>, b: Seq<(K, V)>)
    requires
        ascending(a),
        ascending(b),
        forall|k: K| has_key(a, k) <==> has_key(b, k),
    ensures
        keys_of(a) == keys_of(b),
    decreases a.len(),
{
    if a.len() == 0 {
        if b.len() > 0 {
            assert(has_key(b, b[0].0));
        }
        assert(keys_of(a) =~= keys_of(b));
    } else {
        assert(has_key(a, a[0].0));
        let j = place_of(b, a[0].0);
        assert(has_key(b, b[0].0));
        let i = place_of(a, b[0].0);
        lemma_keys_are_ordered(a[0].0, b[0].0);
        if j > 0 {
            assert(lex_less(b[0].0.key_bytes(), b[j].0.key_bytes()));
        }
        if i > 0 {
            assert(lex_less(a[0].0.key_bytes(), a[i].0.key_bytes()));
        }
        assert(a[0].0 == b[0].0);
        let x = a.drop_first();
        let y = b.drop_first();
        lemma_ascending_is_distinct(a);
        lemma_ascending_is_distinct(b);
        assert(ascending(x)) by {
            assert forall|p: int, q: int| 0 <= p < q < x.len() implies lex_less(
                (#[trigger] x[p]).0.key_bytes(),
                (#[trigger] x[q]).0.key_bytes(),
            ) by {
                assert(x[p] == a[p + 1] && x[q] == a[q + 1]);
            }
        }
        assert(ascending(y)) by {
            assert forall|p: int, q: int| 0 <= p < q < y.len() implies lex_less(
                (#[trigger] y[p]).0.key_bytes(),
                (#[trigger] y[q]).0.key_bytes(),
            ) by {
                assert(y[p] == b[p + 1] && y[q] == b[q + 1]);
            }
        }
        assert forall|k: K| has_key(x, k) <==> has_key(y, k) by {
            if has_key(x, k) {
                let p = place_of(x, k);
                assert(x[p] == a[p + 1]);
                assert(has_key(a, k));
                let q = place_of(b, k);
                assert(q > 0);
                assert(y[q - 1] == b[q]);
            }
            if has_key(y, k) {
                let p = place_of(y, k);
                assert(y[p] == b[p + 1]);
                assert(has_key(b, k));
                let q = place_of(a, k);
                assert(q > 0);
                assert(x[q - 1] == a[q]);
            }
        }
        lemma_ascending_keys_are_fixed(x, y);
        assert(keys_of(a) =~= keys_of(b)) by {
            assert(keys_of(x).len() == keys_of(y).len());
            assert forall|p: int| 0 <= p < a.len() implies keys_of(a)[p] == keys_of(b)[p] by {
                if p > 0 {
                    assert(keys_of(x)[p - 1] == keys_of(y)[p - 1]);
                    assert(x[p - 1] == a[p] && y[p - 1] == b[p]);
                }
            }
        }
    }
}

/// The set of some items goes by the items alone, not by their order:
/// two sequences of the same items give the same keys in the same order.
pub proof fn lemma_sorted_set_goes_by_the_items<K: Key>(items: Seq<K>, others: Seq<K>)
    requires
        forall|k: K| items.contains(k) <==> others.contains(k),
    ensures
        keys_of(sorted_set(items)) == keys_of(sorted_set(others)),
{
    lemma_sorted_set(items);
    lemma_sorted_set(others);
    assert forall|k: K| has_key(sorted_set(items), k) <==> has_key(sorted_set(others), k) by {
        assert(has_key(sorted_set(items), k) <==> items.contains(k));
        assert(has_key(sorted_set(others), k) <==> others.contains(k));
    }
    lemma_ascending_keys_are_fixed(sorted_set(items), sorted_set(others));
}

} // verus!
