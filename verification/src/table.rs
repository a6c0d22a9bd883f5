//! An insertion-ordered table.

use rustc_hash::FxHashMap;
use vstd::prelude::*;

verus! {

/// `HashMap::get` on a map hashed by `FxHasher`: the position stored under
/// `code`, if there is one.
#[verifier::external_body]
fn index_get(index: &FxHashMap<u64, usize>, code: u64) -> (position: Option<usize>)
    ensures
        position == (if index@.contains_key(code) {
            Some(index@[code])
        } else {
            None
        }),
{
    index.get(&code).copied()
}

/// `HashMap::insert` on a map hashed by `FxHasher`: afterwards `code` leads
/// to `position`, and every other code to what it led to before.
#[verifier::external_body]
fn index_insert(index: &mut FxHashMap<u64, usize>, code: u64, position: usize)
    ensures
        final(index)@ == old(index)@.insert(code, position),
{
    index.insert(code, position);
}

/// A key of an ordered table: a value that a 64-bit code tells apart from
/// every other value of its type.
pub trait TableKey: Copy {
    spec fn code(self) -> u64;

    fn to_code(self) -> (code: u64)
        ensures
            code == self.code(),
    ;

    proof fn code_is_injective(a: Self, b: Self)
        requires
            a.code() == b.code(),
        ensures
            a == b,
    ;
}

/// A table that keeps its entries in the order in which their keys were first
/// inserted and finds an entry by its key through a hash index.
#[derive(Debug)]
pub struct OrderedMap<K: TableKey, V> {
    keys: Vec<K>,
    values: Vec<V>,
    index: FxHashMap<u64, usize>,
}

impl<K: TableKey, V> OrderedMap<K, V> {
    #[verifier::type_invariant]
    closed spec fn indexed(&self) -> bool {
        &&& self.keys@.len() == self.values@.len()
        &&& forall|i: int|
            0 <= i < self.keys@.len() ==> self.index@.contains_key(#[trigger] self.keys@[i].code())
                && self.index@[self.keys@[i].code()] == i
        &&& forall|c: u64| #[trigger]
            self.index@.contains_key(c) ==> 0 <= self.index@[c] < self.keys@.len()
                && self.keys@[self.index@[c] as int].code() == c
    }

    /// The keys, in the order of their first insertion.
    pub closed spec fn keys(&self) -> Seq<K> {
        self.keys@
    }

    /// The values, each at the position of its key.
    pub closed spec fn values(&self) -> Seq<V> {
        self.values@
    }

    /// What holds of every table: each key has one value, and no key
    /// occurs twice.
    pub open spec fn wf(&self) -> bool {
        &&& self.keys().len() == self.values().len()
        &&& self.keys().no_duplicates()
    }

    /// Whether `key` has an entry.
    pub open spec fn contains_key(&self, key: K) -> bool {
        self.keys().contains(key)
    }

    /// The position of the entry of `key`, where it has one.
    pub open spec fn position_of(&self, key: K) -> int {
        self.keys().index_of(key)
    }

    /// The value of `key`, where it has one.
    pub open spec fn value_of(&self, key: K) -> V {
        self.values()[self.position_of(key)]
    }

    proof fn lemma_indexed(&self)
        requires
            self.indexed(),
        ensures
            self.wf(),
            forall|k: K| #[trigger] self.index@.contains_key(k.code()) <==> self.contains_key(k),
            forall|k: K|
                self.contains_key(k) ==> self.index@[#[trigger] k.code()] == self.position_of(k),
    {
        assert forall|i: int, j: int|
            0 <= i < self.keys@.len() && 0 <= j < self.keys@.len() && i != j implies self.keys@[i]
            != self.keys@[j] by {
            assert(self.index@[self.keys@[i].code()] == i);
            assert(self.index@[self.keys@[j].code()] == j);
        }
        assert forall|k: K| #[trigger] self.index@.contains_key(k.code()) implies self.contains_key(
            k,
        ) by {
            let p = self.index@[k.code()] as int;
            K::code_is_injective(self.keys@[p], k);
            assert(self.keys@[p] == k);
        }
        assert forall|k: K| self.contains_key(k) implies self.index@.contains_key(
            #[trigger] k.code(),
        ) && self.index@[k.code()] == self.position_of(k) by {
            let p = self.keys@.index_of(k);
            assert(self.keys@[p] == k);
            assert(self.index@[self.keys@[p].code()] == p);
        }
    }

    /// A table without entries.
    pub fn new() -> (table: Self)
        ensures
            table.wf(),
            table.keys() == Seq::<K>::empty(),
            table.values() == Seq::<V>::empty(),
    {
        OrderedMap { keys: Vec::new(), values: Vec::new(), index: FxHashMap::default() }
    }

    /// The number of entries.
    pub fn len(&self) -> (n: usize)
        ensures
            self.wf(),
            n == self.keys().len(),
    {
        proof {
            use_type_invariant(self);
            self.lemma_indexed();
        }
        self.keys.len()
    }

    /// The key at `position`.
    pub fn key_at(&self, position: usize) -> (key: K)
        requires
            position < self.keys().len(),
        ensures
            self.wf(),
            key == self.keys()[position as int],
    {
        proof {
            use_type_invariant(self);
            self.lemma_indexed();
        }
        self.keys[position]
    }

    /// The value at `position`.
    pub fn value_at(&self, position: usize) -> (value: &V)
        requires
            position < self.keys().len(),
        ensures
            self.wf(),
            *value == self.values()[position as int],
    {
        proof {
            use_type_invariant(self);
            self.lemma_indexed();
        }
        &self.values[position]
    }

    /// The position of the entry of `key`, if it has one.
    pub fn position(&self, key: K) -> (position: Option<usize>)
        ensures
            self.wf(),
            match position {
                Some(p) => self.contains_key(key) && p == self.position_of(key) && p
                    < self.keys().len(),
                None => !self.contains_key(key),
            },
    {
        proof {
            use_type_invariant(self);
            self.lemma_indexed();
        }
        let found = index_get(&self.index, key.to_code());
        proof {
            if self.contains_key(key) {
                assert(self.index@.contains_key(key.code()));
            }
        }
        found
    }

    /// The value of `key`, if it has one.
    pub fn get(&self, key: K) -> (value: Option<&V>)
        ensures
            self.wf(),
            match value {
                Some(v) => self.contains_key(key) && *v == self.value_of(key),
                None => !self.contains_key(key),
            },
    {
        proof {
            use_type_invariant(self);
        }
        match self.position(key) {
            Some(p) => Some(&self.values[p]),
            None => None,
        }
    }

    /// Gives `key` the value `value`: in place where the key has an entry,
    /// in a new last entry where it has none.
    pub fn insert(&mut self, key: K, value: V)
        ensures
            final(self).wf(),
            old(self).contains_key(key) ==> final(self).keys() == old(self).keys()
                && final(self).values() == old(self).values().update(
                old(self).position_of(key),
                value,
            ),
            !old(self).contains_key(key) ==> final(self).keys() == old(self).keys().push(key)
                && final(self).values() == old(self).values().push(value),
    {
        let mut taken = Self::new();
        std::mem::swap(self, &mut taken);
        proof {
            use_type_invariant(&taken);
            taken.lemma_indexed();
        }
        let ghost before = taken;
        let OrderedMap { keys, values, index } = taken;
        let mut keys = keys;
        let mut values = values;
        let mut index = index;
        let code = key.to_code();
        match index_get(&index, code) {
            Some(position) => {
                values[position] = value;
            },
            None => {
                let position = keys.len();
                index_insert(&mut index, code, position);
                keys.push(key);
                values.push(value);
                proof {
                    assert forall|c: u64| #[trigger] index@.contains_key(c) implies 0 <= index@[c]
                        < keys@.len() && keys@[index@[c] as int].code() == c by {
                        if c != code {
                            assert(before.index@.contains_key(c));
                        }
                    }
                }
            },
        }
        let table = OrderedMap { keys, values, index };
        proof {
            table.lemma_indexed();
        }
        *self = table;
    }
}

impl<K: TableKey, T> OrderedMap<K, Vec<T>> {
    /// The members of each value, each at the position of its key.
    pub open spec fn groups(&self) -> Seq<Seq<T>> {
        self.values().map_values(|group: Vec<T>| group@)
    }

    /// Makes `item` the last member of the group of `key`; a key without a
    /// group gets a new last group that holds the item alone.
    pub fn push_to(&mut self, key: K, item: T)
        ensures
            final(self).wf(),
            old(self).contains_key(key) ==> final(self).keys() == old(self).keys()
                && final(self).groups() == old(self).groups().update(
                old(self).position_of(key),
                old(self).groups()[old(self).position_of(key)].push(item),
            ),
            !old(self).contains_key(key) ==> final(self).keys() == old(self).keys().push(key)
                && final(self).groups() == old(self).groups().push(seq![item]),
    {
        let mut taken = Self::new();
        std::mem::swap(self, &mut taken);
        proof {
            use_type_invariant(&taken);
            taken.lemma_indexed();
        }
        let ghost before = taken;
        let OrderedMap { keys, values, index } = taken;
        let mut keys = keys;
        let mut values = values;
        let mut index = index;
        let code = key.to_code();
        match index_get(&index, code) {
            Some(position) => {
                values[position].push(item);
            },
            None => {
                let position = keys.len();
                index_insert(&mut index, code, position);
                keys.push(key);
                let mut group: Vec<T> = Vec::new();
                group.push(item);
                values.push(group);
                proof {
                    assert forall|c: u64| #[trigger] index@.contains_key(c) implies 0 <= index@[c]
                        < keys@.len() && keys@[index@[c] as int].code() == c by {
                        if c != code {
                            assert(before.index@.contains_key(c));
                        }
                    }
                }
            },
        }
        let table = OrderedMap { keys, values, index };
        proof {
            table.lemma_indexed();
            if before.contains_key(key) {
                assert(table.groups() =~= before.groups().update(
                    before.position_of(key),
                    before.groups()[before.position_of(key)].push(item),
                ));
            } else {
                assert(table.groups() =~= before.groups().push(seq![item]));
            }
        }
        *self = table;
    }
}

impl<K: TableKey, T: View> OrderedMap<K, Vec<T>> {
    /// The view of each member of each value.
    pub open spec fn group_views(&self) -> Seq<Seq<T::V>> {
        self.groups().map_values(|group: Seq<T>| group.map_values(|item: T| item@))
    }
}

/// The keys and groups of a grouped table after `item` has become the last
/// member of the group of `key`; a key without a group gets a new last group
/// that holds the item alone.
pub open spec fn with_member<K, T>(keys: Seq<K>, groups: Seq<Seq<T>>, key: K, item: T) -> (
    Seq<K>,
    Seq<Seq<T>>,
) {
    if keys.contains(key) {
        (keys, groups.update(keys.index_of(key), groups[keys.index_of(key)].push(item)))
    } else {
        (keys.push(key), groups.push(seq![item]))
    }
}

} // verus!
