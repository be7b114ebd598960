//! A fixed-bucket chained hash table.
//!
//! The table is a vector of buckets whose number is chosen at construction
//! and never changes. A bucket is an ordered chain of entries in which no
//! key occurs twice, and a key lives only in the bucket that its hash
//! selects. The table's view is the finite map from keys to values.

use std::collections::hash_map::DefaultHasher;
use std::hash::Hasher;
use vstd::bytes::spec_u32_to_le_bytes;
use vstd::bytes::u32_to_le_bytes;
use vstd::prelude::*;
use vstd::std_specs::hash::DefaultHasherAdditionalSpecFns;

verus! {

/// Why a table operation was refused.
#[derive(Debug, Clone, Copy, PartialEq, Eq, Structural)]
pub enum Error {
    /// A table needs at least one bucket.
    BucketSizeZero,
    /// The key to insert is already present.
    KeyExists,
    /// The key to delete is not present.
    KeyMissing,
}

/// One key with its value.
#[derive(Debug)]
pub struct Entry<K, V> {
    pub key: K,
    pub val: V,
}

/// The hash of a key: what a fresh default hasher returns after the key's
/// four bytes, lowest first, were written to it.
pub open spec fn hash_of(key: u32) -> u64 {
    DefaultHasher::spec_finish(Seq::<Seq<u8>>::empty().push(spec_u32_to_le_bytes(key)))
}

/// The bucket that holds `key` in a table of `size` buckets.
pub open spec fn bucket_of(key: u32, size: int) -> int
    recommends
        size > 0,
{
    (hash_of(key) as int) % size
}

/// The index of the bucket that holds `key` among `size` buckets: the key's
/// hash, reduced modulo `size`.
pub fn bucket_index(key: &u32, size: usize) -> (pos: usize)
    requires
        size > 0,
    ensures
        pos == bucket_of(*key, size as int),
        pos < size,
{
    let mut hasher = DefaultHasher::new();
    let bytes = u32_to_le_bytes(*key);
    hasher.write(bytes.as_slice());
    let h: u64 = hasher.finish();
    (h % (size as u64)) as usize
}

/// Whether some entry of the chain has the key.
pub open spec fn chain_has<V>(chain: Seq<Entry<u32, V>>, key: u32) -> bool {
    exists|i: int| 0 <= i < chain.len() && (#[trigger] chain[i]).key == key
}

/// The position of an entry of the chain that has the key.
pub open spec fn chain_pos<V>(chain: Seq<Entry<u32, V>>, key: u32) -> int {
    choose|i: int| 0 <= i < chain.len() && (#[trigger] chain[i]).key == key
}

/// The value that the chain holds for the key, if any.
pub open spec fn chain_get<V>(chain: Seq<Entry<u32, V>>, key: u32) -> Option<V> {
    if chain_has(chain, key) {
        Some(chain[chain_pos(chain, key)].val)
    } else {
        None
    }
}

/// No key occurs twice in the chain.
pub open spec fn chain_distinct<V>(chain: Seq<Entry<u32, V>>) -> bool {
    forall|i: int, j: int|
        0 <= i < j < chain.len() ==> (#[trigger] chain[i]).key != (#[trigger] chain[j]).key
}

/// In a chain without repeated keys, an entry is found under its own key.
pub proof fn lemma_chain_pos_unique<V>(chain: Seq<Entry<u32, V>>, i: int)
    requires
        chain_distinct(chain),
        0 <= i < chain.len(),
    ensures
        chain_has(chain, chain[i].key),
        chain_pos(chain, chain[i].key) == i,
        chain_get(chain, chain[i].key) == Some(chain[i].val),
{
    let key = chain[i].key;
    let p = chain_pos(chain, key);
    assert(0 <= p < chain.len() && chain[p].key == key);
    if p < i {
        assert(chain[p].key != chain[i].key);
    } else if i < p {
        assert(chain[i].key != chain[p].key);
    }
}

/// Appending an entry under a new key keeps the chain free of repeats, adds
/// that key and leaves every other lookup as it was.
pub proof fn lemma_chain_push<V>(chain: Seq<Entry<u32, V>>, entry: Entry<u32, V>, key: u32)
    requires
        chain_distinct(chain),
        !chain_has(chain, entry.key),
    ensures
        chain_distinct(chain.push(entry)),
        chain_get(chain.push(entry), key) == if key == entry.key {
            Some(entry.val)
        } else {
            chain_get(chain, key)
        },
{
    let grown = chain.push(entry);
    assert forall|i: int, j: int| 0 <= i < j < grown.len() implies (#[trigger] grown[i]).key != (
    #[trigger] grown[j]).key by {
        if j < chain.len() {
            assert(chain[i].key != chain[j].key);
        } else {
            assert(chain[i].key != entry.key);
        }
    }
    assert(grown[chain.len() as int] == entry);
    if key == entry.key {
        lemma_chain_pos_unique(grown, chain.len() as int);
    } else if chain_has(chain, key) {
        let p = chain_pos(chain, key);
        assert(grown[p] == chain[p]);
        lemma_chain_pos_unique(chain, p);
        lemma_chain_pos_unique(grown, p);
    } else {
        if chain_has(grown, key) {
            let p = chain_pos(grown, key);
            assert(p < chain.len());
            assert(chain[p].key == key);
        }
    }
}

/// Removing an entry keeps the chain free of repeats, drops that entry's key
/// and leaves every other lookup as it was.
pub proof fn lemma_chain_remove<V>(chain: Seq<Entry<u32, V>>, at: int, key: u32)
    requires
        chain_distinct(chain),
        0 <= at < chain.len(),
    ensures
        chain_distinct(chain.remove(at)),
        chain_get(chain.remove(at), key) == if key == chain[at].key {
            None
        } else {
            chain_get(chain, key)
        },
{
    let rest = chain.remove(at);
    assert forall|i: int| 0 <= i < rest.len() implies #[trigger] rest[i] == chain[if i < at {
        i
    } else {
        i + 1
    }] by {}
    assert forall|i: int, j: int| 0 <= i < j < rest.len() implies (#[trigger] rest[i]).key != (
    #[trigger] rest[j]).key by {
        let a = if i < at { i } else { i + 1 };
        let b = if j < at { j } else { j + 1 };
        assert(chain[a].key != chain[b].key);
    }
    if chain_has(rest, key) {
        let p = chain_pos(rest, key);
        let q = if p < at { p } else { p + 1 };
        assert(chain[q].key == key);
        lemma_chain_pos_unique(chain, q);
        lemma_chain_pos_unique(rest, p);
        if key == chain[at].key {
            lemma_chain_pos_unique(chain, at);
        }
    } else if key != chain[at].key && chain_has(chain, key) {
        let q = chain_pos(chain, key);
        let p = if q < at { q } else { q - 1 };
        assert(rest[p] == chain[q]);
    }
}

/// What `add` returns on a table whose view is `before`.
pub open spec fn add_result<V>(before: Map<u32, V>, key: u32) -> Result<(), Error> {
    if before.contains_key(key) {
        Err(Error::KeyExists)
    } else {
        Ok(())
    }
}

/// The view that `add` leaves behind.
pub open spec fn add_state<V>(before: Map<u32, V>, key: u32, val: V) -> Map<u32, V> {
    if before.contains_key(key) {
        before
    } else {
        before.insert(key, val)
    }
}

/// What `read` returns on a table whose view is `table`.
pub open spec fn read_result<V>(table: Map<u32, V>, key: u32) -> Option<V> {
    if table.contains_key(key) {
        Some(table[key])
    } else {
        None
    }
}

/// What `delete` returns on a table whose view is `before`.
pub open spec fn delete_result<V>(before: Map<u32, V>, key: u32) -> Result<(), Error> {
    if before.contains_key(key) {
        Ok(())
    } else {
        Err(Error::KeyMissing)
    }
}

/// The view that `delete` leaves behind.
pub open spec fn delete_state<V>(before: Map<u32, V>, key: u32) -> Map<u32, V> {
    before.remove(key)
}

/// An ordered chain of entries: the contents of one bucket.
#[derive(Debug)]
pub struct Bucket<K, V> {
    entries: Vec<Entry<K, V>>,
}

impl<K, V> View for Bucket<K, V> {
    type V = Seq<Entry<K, V>>;

    closed spec fn view(&self) -> Seq<Entry<K, V>> {
        self.entries@
    }
}

impl<V: Copy> Bucket<u32, V> {
    /// The chain holds no key twice.
    pub open spec fn wf(&self) -> bool {
        chain_distinct(self@)
    }

    /// An empty chain.
    pub fn new() -> (bucket: Self)
        ensures
            bucket@ == Seq::<Entry<u32, V>>::empty(),
            bucket.wf(),
    {
        Bucket { entries: Vec::new() }
    }

    /// The position of the first entry with the key.
    fn position(&self, key: &u32) -> (found: Option<usize>)
        ensures
            match found {
                Some(at) => at < self@.len() && self@[at as int].key == *key,
                None => !chain_has(self@, *key),
            },
    {
        let mut at: usize = 0;
        while at < self.entries.len()
            invariant
                at <= self.entries@.len(),
                forall|i: int| 0 <= i < at ==> (#[trigger] self.entries@[i]).key != *key,
            decreases self.entries@.len() - at,
        {
            if self.entries[at].key == *key {
                return Some(at);
            }
            at += 1;
        }
        None
    }

    /// Appends `(key, val)` to the chain unless the key is already there.
    pub fn add(&mut self, key: u32, val: V) -> (res: Result<(), Error>)
        requires
            old(self).wf(),
        ensures
            final(self).wf(),
            res == (if chain_has(old(self)@, key) {
                Err::<(), Error>(Error::KeyExists)
            } else {
                Ok(())
            }),
            final(self)@ == (if chain_has(old(self)@, key) {
                old(self)@
            } else {
                old(self)@.push(Entry { key, val })
            }),
    {
        match self.position(&key) {
            Some(_) => Err(Error::KeyExists),
            None => {
                proof {
                    lemma_chain_push(self@, Entry { key, val }, key);
                }
                self.entries.push(Entry { key, val });
                Ok(())
            },
        }
    }

    /// A copy of the value stored under the key.
    pub fn read(&self, key: &u32) -> (found: Option<V>)
        requires
            self.wf(),
        ensures
            found == chain_get(self@, *key),
    {
        match self.position(key) {
            Some(at) => {
                proof {
                    lemma_chain_pos_unique(self@, at as int);
                }
                Some(self.entries[at].val)
            },
            None => None,
        }
    }

    /// Removes the entry with the key; the entries around it keep their order.
    pub fn delete(&mut self, key: &u32) -> (res: Result<(), Error>)
        requires
            old(self).wf(),
        ensures
            final(self).wf(),
            res == (if chain_has(old(self)@, *key) {
                Ok::<(), Error>(())
            } else {
                Err(Error::KeyMissing)
            }),
            final(self)@ == (if chain_has(old(self)@, *key) {
                old(self)@.remove(chain_pos(old(self)@, *key))
            } else {
                old(self)@
            }),
    {
        match self.position(key) {
            Some(at) => {
                proof {
                    lemma_chain_pos_unique(self@, at as int);
                    lemma_chain_remove(self@, at as int, *key);
                }
                self.entries.remove(at);
                Ok(())
            },
            None => Err(Error::KeyMissing),
        }
    }
}

/// There is at least one chain, no chain holds a key twice, and every entry
/// sits in the chain that its key's hash selects.
pub open spec fn chains_wf<V>(chains: Seq<Seq<Entry<u32, V>>>) -> bool {
    &&& chains.len() > 0
    &&& forall|b: int| 0 <= b < chains.len() ==> chain_distinct(#[trigger] chains[b])
    &&& forall|b: int, i: int|
        0 <= b < chains.len() && 0 <= i < chains[b].len() ==> bucket_of(
            (#[trigger] chains[b][i]).key,
            chains.len() as int,
        ) == b
}

/// The chain that the key's hash selects.
pub open spec fn chain_for<V>(chains: Seq<Seq<Entry<u32, V>>>, key: u32) -> Seq<Entry<u32, V>> {
    chains[bucket_of(key, chains.len() as int)]
}

/// The chains as a map: a key is present where its own chain holds it.
pub open spec fn chains_map<V>(chains: Seq<Seq<Entry<u32, V>>>) -> Map<u32, V> {
    Map::new(
        |key: u32| chain_has(chain_for(chains, key), key),
        |key: u32| chain_get(chain_for(chains, key), key)->0,
    )
}

/// The chains after `(key, val)` was appended to the key's chain.
pub open spec fn chains_after_add<V>(chains: Seq<Seq<Entry<u32, V>>>, key: u32, val: V) -> Seq<
    Seq<Entry<u32, V>>,
> {
    chains.update(
        bucket_of(key, chains.len() as int),
        chain_for(chains, key).push(Entry { key, val }),
    )
}

/// The chains after the key's entry was taken out of the key's chain.
pub open spec fn chains_after_delete<V>(chains: Seq<Seq<Entry<u32, V>>>, key: u32) -> Seq<
    Seq<Entry<u32, V>>,
> {
    chains.update(
        bucket_of(key, chains.len() as int),
        chain_for(chains, key).remove(chain_pos(chain_for(chains, key), key)),
    )
}

/// Appending an absent key to its chain keeps the chains well formed and
/// inserts the key into the map.
pub proof fn lemma_chains_add<V>(chains: Seq<Seq<Entry<u32, V>>>, key: u32, val: V)
    requires
        chains_wf(chains),
        !chains_map(chains).contains_key(key),
    ensures
        chains_wf(chains_after_add(chains, key, val)),
        chains_map(chains_after_add(chains, key, val)) == chains_map(chains).insert(key, val),
{
    let n = chains.len() as int;
    let pos = bucket_of(key, n);
    let entry = Entry { key, val };
    let chain = chains[pos];
    let grown = chains_after_add(chains, key, val);
    lemma_chain_push(chain, entry, key);
    assert forall|b: int| 0 <= b < grown.len() implies chain_distinct(#[trigger] grown[b]) by {
        if b != pos {
            assert(grown[b] == chains[b]);
        }
    }
    assert forall|b: int, i: int| 0 <= b < grown.len() && 0 <= i < grown[b].len() implies bucket_of(
        (#[trigger] grown[b][i]).key,
        n,
    ) == b by {
        if b == pos && i == chain.len() {
        } else {
            assert(grown[b][i] == chains[b][i]);
        }
    }
    let after = chains_map(chains).insert(key, val);
    assert forall|k: u32| #[trigger]
        chains_map(grown).dom().contains(k) == after.dom().contains(k) by {
        if bucket_of(k, n) == pos {
            lemma_chain_push(chain, entry, k);
        }
    }
    assert forall|k: u32| chains_map(grown).dom().contains(k) implies #[trigger] chains_map(
        grown,
    )[k] == after[k] by {
        if bucket_of(k, n) == pos {
            lemma_chain_push(chain, entry, k);
        }
    }
    assert(chains_map(grown) =~= after);
}

/// Taking a present key out of its chain keeps the chains well formed and
/// removes the key from the map.
pub proof fn lemma_chains_delete<V>(chains: Seq<Seq<Entry<u32, V>>>, key: u32)
    requires
        chains_wf(chains),
        chains_map(chains).contains_key(key),
    ensures
        chains_wf(chains_after_delete(chains, key)),
        chains_map(chains_after_delete(chains, key)) == chains_map(chains).remove(key),
{
    let n = chains.len() as int;
    let pos = bucket_of(key, n);
    let chain = chains[pos];
    let at = chain_pos(chain, key);
    let rest = chain.remove(at);
    let shrunk = chains_after_delete(chains, key);
    assert(0 <= at < chain.len() && chain[at].key == key);
    lemma_chain_remove(chain, at, key);
    assert forall|b: int| 0 <= b < shrunk.len() implies chain_distinct(#[trigger] shrunk[b]) by {
        if b != pos {
            assert(shrunk[b] == chains[b]);
        }
    }
    assert forall|b: int, i: int|
        0 <= b < shrunk.len() && 0 <= i < shrunk[b].len() implies bucket_of(
        (#[trigger] shrunk[b][i]).key,
        n,
    ) == b by {
        if b == pos {
            let j = if i < at { i } else { i + 1 };
            assert(rest[i] == chain[j]);
            assert(chains[b][j] == chain[j]);
        } else {
            assert(shrunk[b][i] == chains[b][i]);
        }
    }
    let after = chains_map(chains).remove(key);
    assert forall|k: u32| #[trigger]
        chains_map(shrunk).dom().contains(k) == after.dom().contains(k) by {
        if bucket_of(k, n) == pos {
            lemma_chain_remove(chain, at, k);
        }
    }
    assert forall|k: u32| chains_map(shrunk).dom().contains(k) implies #[trigger] chains_map(
        shrunk,
    )[k] == after[k] by {
        if bucket_of(k, n) == pos {
            lemma_chain_remove(chain, at, k);
        }
    }
    assert(chains_map(shrunk) =~= after);
}

/// A fixed number of buckets, each a chain of entries.
#[derive(Debug)]
pub struct HashTable<K, V> {
    size: usize,
    buckets: Vec<Bucket<K, V>>,
}

impl<V: Copy> View for HashTable<u32, V> {
    type V = Map<u32, V>;

    /// The table as a map from the keys that are present to their values.
    open spec fn view(&self) -> Map<u32, V> {
        chains_map(self.chains())
    }
}

impl<V: Copy> HashTable<u32, V> {
    /// The chains of the buckets, in bucket order.
    pub closed spec fn chains(&self) -> Seq<Seq<Entry<u32, V>>> {
        Seq::new(self.buckets@.len(), |b: int| self.buckets@[b]@)
    }

    /// The stored bucket count agrees with the vector of buckets.
    pub closed spec fn sized(&self) -> bool {
        self.size == self.buckets@.len()
    }

    /// The table's invariant: the bucket count is positive and fixed, no
    /// chain holds a key twice, and every key sits in its hash's bucket.
    pub open spec fn wf(&self) -> bool {
        self.sized() && chains_wf(self.chains())
    }

    /// A table of `size` empty buckets; refused when `size` is zero.
    pub fn new(size: usize) -> (res: Result<Self, Error>)
        ensures
            match res {
                Ok(table) => {
                    &&& size > 0
                    &&& table.wf()
                    &&& table.chains().len() == size
                    &&& forall|b: int| 0 <= b < size ==> (#[trigger] table.chains()[b]).len() == 0
                    &&& table@ == Map::<u32, V>::empty()
                },
                Err(e) => size == 0 && e == Error::BucketSizeZero,
            },
    {
        if size == 0 {
            return Err(Error::BucketSizeZero);
        }
        let mut buckets: Vec<Bucket<u32, V>> = Vec::with_capacity(size);
        let mut made: usize = 0;
        while made < size
            invariant
                made <= size,
                buckets@.len() == made,
                forall|b: int| 0 <= b < made ==> (#[trigger] buckets@[b])@.len() == 0,
            decreases size - made,
        {
            buckets.push(Bucket::new());
            made += 1;
        }
        let table = HashTable { size, buckets };
        proof {
            assert(table@ =~= Map::<u32, V>::empty());
        }
        Ok(table)
    }

    /// The index of the bucket that holds `key`.
    pub fn hash(&self, key: &u32) -> (pos: usize)
        requires
            self.wf(),
        ensures
            pos == bucket_of(*key, self.chains().len() as int),
            pos < self.chains().len(),
    {
        bucket_index(key, self.size)
    }

    /// Inserts `(key, val)` at the tail of the key's bucket; refused, with the
    /// table unchanged, when the key is present.
    pub fn add(&mut self, key: u32, val: V) -> (res: Result<(), Error>)
        requires
            old(self).wf(),
        ensures
            final(self).wf(),
            res == add_result(old(self)@, key),
            final(self)@ == add_state(old(self)@, key, val),
            final(self).chains() == (if old(self)@.contains_key(key) {
                old(self).chains()
            } else {
                chains_after_add(old(self).chains(), key, val)
            }),
    {
        let pos = self.hash(&key);
        let ghost before = *self;
        let res = self.buckets[pos].add(key, val);
        proof {
            if before@.contains_key(key) {
                assert(self.chains() =~= before.chains());
            } else {
                assert(self.chains() =~= chains_after_add(before.chains(), key, val));
                lemma_chains_add(before.chains(), key, val);
            }
        }
        res
    }

    /// A copy of the value stored under the key, if the key is present.
    pub fn read(&self, key: &u32) -> (found: Option<V>)
        requires
            self.wf(),
        ensures
            found == read_result(self@, *key),
    {
        let pos = self.hash(key);
        self.buckets[pos].read(key)
    }

    /// Removes the key's entry; the rest of its chain keeps its order.
    /// Refused, with the table unchanged, when the key is absent.
    pub fn delete(&mut self, key: &u32) -> (res: Result<(), Error>)
        requires
            old(self).wf(),
        ensures
            final(self).wf(),
            res == delete_result(old(self)@, *key),
            final(self)@ == delete_state(old(self)@, *key),
            final(self).chains() == (if old(self)@.contains_key(*key) {
                chains_after_delete(old(self).chains(), *key)
            } else {
                old(self).chains()
            }),
    {
        let pos = self.hash(key);
        let ghost before = *self;
        let res = self.buckets[pos].delete(key);
        proof {
            if before@.contains_key(*key) {
                assert(self.chains() =~= chains_after_delete(before.chains(), *key));
                lemma_chains_delete(before.chains(), *key);
            } else {
                assert(self.chains() =~= before.chains());
                assert(before@.remove(*key) =~= before@);
            }
        }
        res
    }
}

/// Adding a key twice: the second `add` is refused with `KeyExists` and
/// changes nothing, and where the first `add` was accepted a `read` still
/// yields the first value.
pub proof fn law_add_twice<V>(table: Map<u32, V>, key: u32, first: V, second: V)
    ensures
        add_result(add_state(table, key, first), key) == Err::<(), Error>(Error::KeyExists),
        add_state(add_state(table, key, first), key, second) == add_state(table, key, first),
        !table.contains_key(key) ==> read_result(
            add_state(add_state(table, key, first), key, second),
            key,
        ) == Some(first),
{
}

/// After `add` and then `delete` of a key, a `read` of that key finds nothing.
pub proof fn law_add_delete_read<V>(table: Map<u32, V>, key: u32, val: V)
    ensures
        delete_result(add_state(table, key, val), key) == Ok::<(), Error>(()),
        read_result(delete_state(add_state(table, key, val), key), key) == None::<V>,
{
}

/// A `delete` of an absent key is refused with `KeyMissing` and changes
/// nothing: a `read` of that key still finds nothing.
pub proof fn law_delete_absent<V>(table: Map<u32, V>, key: u32)
    requires
        !table.contains_key(key),
    ensures
        delete_result(table, key) == Err::<(), Error>(Error::KeyMissing),
        delete_state(table, key) == table,
        read_result(delete_state(table, key), key) == None::<V>,
{
    assert(table.remove(key) =~= table);
}

/// In a well-formed table no chain holds a key twice, and a key that is
/// present sits in the one chain that its hash selects and in no other.
pub proof fn law_keys_sit_once<V: Copy>(table: HashTable<u32, V>, b: int, i: int)
    requires
        table.wf(),
        0 <= b < table.chains().len(),
        0 <= i < table.chains()[b].len(),
    ensures
        chain_distinct(table.chains()[b]),
        b == bucket_of(table.chains()[b][i].key, table.chains().len() as int),
        forall|j: int|
            0 <= j < table.chains()[b].len() && j != i ==> table.chains()[b][j].key
                != table.chains()[b][i].key,
        forall|c: int, j: int|
            0 <= c < table.chains().len() && c != b && 0 <= j < table.chains()[c].len()
                ==> table.chains()[c][j].key != table.chains()[b][i].key,
        table@.contains_key(table.chains()[b][i].key),
        table@[table.chains()[b][i].key] == table.chains()[b][i].val,
{
    let chain = table.chains()[b];
    assert forall|j: int| 0 <= j < chain.len() && j != i implies chain[j].key != chain[i].key by {
        if j < i {
            assert(chain[j].key != chain[i].key);
        } else {
            assert(chain[i].key != chain[j].key);
        }
    }
    lemma_chain_pos_unique(chain, i);
}

} // verus!
