//! A cache, a filter, a batch runner and a rate limiter.
use std::collections::VecDeque;
use vstd::prelude::*;

use crate::bytes::bytes_equal;
use crate::clock::instant_now;
use crate::clock::micros_since;
use crate::clock::nanos_since;
use crate::keyed;
use crate::keyed::Keyed;

verus! {

/// A value in the cache, and its key.
#[derive(Debug)]
pub struct CacheEntry<V> {
    pub key: [u8; 32],
    pub value: V,
}

impl<V> Keyed for CacheEntry<V> {
    type Query = [u8];

    open spec fn key(&self) -> Seq<u8> {
        self.key@
    }

    fn has_key(&self, query: &[u8]) -> (r: bool) {
        bytes_equal(self.key.as_slice(), query)
    }
}

#[derive(Debug, Clone, Copy)]
pub struct CacheStats {
    pub hits: u64,
    pub misses: u64,
    pub evictions: u64,
    pub insertions: u64,
}

impl Default for CacheStats {
    fn default() -> (r: Self)
        ensures
            r == (CacheStats { hits: 0, misses: 0, evictions: 0, insertions: 0 }),
    {
        CacheStats { hits: 0, misses: 0, evictions: 0, insertions: 0 }
    }
}

/// A cache that, when it is full, drops what was not used for the longest time.
#[derive(Debug)]
pub struct TransactionLRUCache<V> {
    entries: Vec<CacheEntry<V>>,
    max_size: usize,
    stats: CacheStats,
}

impl<V> TransactionLRUCache<V> {
    /// What is in the cache, in the order in which it was last used.
    pub closed spec fn entries(&self) -> Seq<CacheEntry<V>> {
        self.entries@
    }

    /// How much may be in the cache.
    pub closed spec fn capacity(&self) -> usize {
        self.max_size
    }

    /// What was counted.
    pub closed spec fn counts(&self) -> CacheStats {
        self.stats
    }

    /// The value of each key in the cache.
    pub open spec fn contents(&self) -> Map<Seq<u8>, V> {
        contents_of(self.entries())
    }

    /// No key is there twice, and the limit is kept. One value can be in the cache even where the
    /// limit is zero.
    pub open spec fn wf(&self) -> bool {
        &&& keyed::unique_keys(self.entries())
        &&& self.entries().len() <= self.capacity() || self.entries().len() <= 1
    }

    /// An empty cache.
    pub fn new(max_size: usize) -> (r: Self)
        ensures
            r.wf(),
            r.entries().len() == 0,
            r.capacity() == max_size,
            r.contents() == Map::<Seq<u8>, V>::empty(),
            r.counts() == (CacheStats { hits: 0, misses: 0, evictions: 0, insertions: 0 }),
    {
        TransactionLRUCache { entries: Vec::new(), max_size, stats: CacheStats::default() }
    }

    /// Whether `next` is `self` after a key was looked up, with this answer: the value of the key,
    /// if it is there. Nothing but the order of use and the count of hits or misses changes.
    pub open spec fn looked_up(&self, next: &Self, key: Seq<u8>, r: Option<&V>) -> bool {
        &&& next.capacity() == self.capacity()
        &&& next.contents() == self.contents()
        &&& next.entries().len() == self.entries().len()
        &&& r is Some == keyed::contains_key(self.entries(), key)
        &&& r is Some == self.contents().dom().contains(key)
        &&& r matches Some(v) ==> *v == self.contents()[key]
        &&& r is None ==> next.entries() == self.entries()
        &&& r matches Some(v) ==> {
            &&& next.entries().len() > 0
            &&& next.entries().last().key@ == key
            &&& next.entries().last().value == *v
            &&& self.entries().contains(next.entries().last())
            &&& next.entries().drop_last() == keyed::without_key(self.entries(), key)
        }
        &&& next.counts().hits == self.counts().hits + if r is Some {
            1int
        } else {
            0int
        }
        &&& next.counts().misses == self.counts().misses + if r is Some {
            0int
        } else {
            1int
        }
        &&& next.counts().insertions == self.counts().insertions
        &&& next.counts().evictions == self.counts().evictions
    }

    /// The value of a key. It counts as used.
    pub fn get(&mut self, key: &[u8; 32]) -> (r: Option<&V>)
        requires
            old(self).wf(),
            keyed::contains_key(old(self).entries(), key@) ==> old(self).counts().hits < u64::MAX,
            !keyed::contains_key(old(self).entries(), key@) ==> old(self).counts().misses
                < u64::MAX,
        ensures
            final(self).wf(),
            old(self).looked_up(final(self), key@, r),
    {
        proof {
            keyed::without_key_contains(self.entries(), key@, key@);
            keyed::filter_keeps_unique(self.entries(), |e: CacheEntry<V>| e.key() != key@);
            contents_are_entries(self.entries());
            contents_without(self.entries(), key@);
        }
        match keyed::remove(&mut self.entries, key.as_slice()) {
            Some(entry) => {
                let ghost before = self.entries@;
                proof {
                    let s = old(self).entries();
                    let k = choose|k: int| 0 <= k < s.len() && s[k] == entry;
                    keyed::without_is_remove(s, k);
                }
                self.entries.push(entry);
                self.stats.hits = self.stats.hits + 1;
                proof {
                    let after = self.entries@;
                    assert(after.drop_last() =~= before);
                    assert forall|a: int, b: int| 0 <= a < b < after.len() implies (
                    #[trigger] after[a]).key() != (#[trigger] after[b]).key() by {
                        assert(after[a] == before[a]);
                        if b < before.len() {
                            assert(after[b] == before[b]);
                        } else {
                            assert(before[a].key() != key@);
                        }
                    }
                    assert(contents_of(after) =~= contents_of(old(self).entries()));
                }
                let last: usize = self.entries.len() - 1;
                Some(&self.entries[last].value)
            },
            None => {
                proof {
                    keyed::without_absent_key(old(self).entries(), key@);
                }
                self.stats.misses = self.stats.misses + 1;
                None
            },
        }
    }

    /// Puts a value into the cache, as the one used last. When the cache is full and the key is
    /// new, what was not used for the longest time is dropped.
    pub fn insert(&mut self, key: [u8; 32], value: V)
        requires
            old(self).wf(),
            old(self).counts().evictions < u64::MAX,
            old(self).counts().insertions < u64::MAX,
        ensures
            final(self).wf(),
            final(self).capacity() == old(self).capacity(),
            ({
                let evicts = old(self).entries().len() >= old(self).capacity() && old(
                    self).entries().len() > 0 && !keyed::contains_key(old(self).entries(), key@);
                &&& final(self).entries() == (if evicts {
                    old(self).entries().drop_first()
                } else {
                    keyed::without_key(old(self).entries(), key@)
                }).push(CacheEntry { key, value })
                &&& final(self).contents() == (if evicts {
                    old(self).contents().remove(old(self).entries()[0].key@)
                } else {
                    old(self).contents()
                }).insert(key@, value)
                &&& final(self).counts() == (CacheStats {
                    insertions: (old(self).counts().insertions + 1) as u64,
                    evictions: (old(self).counts().evictions + if evicts {
                        1int
                    } else {
                        0int
                    }) as u64,
                    ..old(self).counts()
                })
            }),
    {
        let ghost s = self.entries@;
        let known = keyed::find(&self.entries, key.as_slice()).is_some();
        if self.entries.len() >= self.max_size && !known && self.entries.len() > 0 {
            let _ = self.entries.remove(0);
            self.stats.evictions = self.stats.evictions + 1;
            let ghost t = self.entries@;
            assert(t =~= s.drop_first());
            assert forall|a: int, b: int| 0 <= a < b < t.len() implies (#[trigger] t[a]).key() != (
            #[trigger] t[b]).key() by {
                assert(t[a] == s[a + 1] && t[b] == s[b + 1]);
            }
            proof {
                assert(!keyed::contains_key(t, key@)) by {
                    if keyed::contains_key(t, key@) {
                        let i = choose|i: int| 0 <= i < t.len() && (#[trigger] t[i]).key() == key@;
                        assert(s[i + 1].key() == key@);
                    }
                }
                keyed::without_absent_key(t, key@);
            }
        }
        proof {
            keyed::filter_keeps_unique(self.entries@, |e: CacheEntry<V>| e.key() != key@);
            if known {
                let i = choose|i: int| 0 <= i < s.len() && (#[trigger] s[i]).key() == key@;
                keyed::without_is_remove(s, i);
            }
        }
        let ghost t = self.entries@;
        keyed::replace(&mut self.entries, key.as_slice(), CacheEntry { key, value });
        self.stats.insertions = self.stats.insertions + 1;
        proof {
            contents_without(t, key@);
            if t.len() < s.len() {
                keyed::without_is_remove(s, 0);
                assert(s.remove(0) =~= s.drop_first());
                contents_without(s, s[0].key@);
            }
            assert(self.entries@.drop_last() =~= keyed::without_key(t, key@));
            assert(self.contents() =~= contents_of(t).insert(key@, value));
        }
    }

    /// Whether a key is in the cache.
    pub fn contains(&self, key: &[u8; 32]) -> (r: bool)
        ensures
            r == keyed::contains_key(self.entries(), key@),
    {
        keyed::find(&self.entries, key.as_slice()).is_some()
    }

    /// Takes a key and its value out of the cache.
    pub fn remove(&mut self, key: &[u8; 32]) -> (r: Option<V>)
        requires
            old(self).wf(),
        ensures
            final(self).wf(),
            final(self).capacity() == old(self).capacity(),
            final(self).counts() == old(self).counts(),
            final(self).entries() == keyed::without_key(old(self).entries(), key@),
            final(self).contents() == old(self).contents().remove(key@),
            r is Some == old(self).contents().dom().contains(key@),
            r matches Some(v) ==> v == old(self).contents()[key@],
            r is Some == keyed::contains_key(old(self).entries(), key@),
            r matches Some(v) ==> exists|i: int|
                0 <= i < old(self).entries().len() && (#[trigger] old(self).entries()[i]).key@
                    == key@ && old(self).entries()[i].value == v,
    {
        proof {
            keyed::filter_keeps_unique(self.entries@, |e: CacheEntry<V>| e.key() != key@);
            contents_are_entries(self.entries());
            contents_without(self.entries(), key@);
        }
        match keyed::remove(&mut self.entries, key.as_slice()) {
            Some(entry) => {
                proof {
                    let s = old(self).entries();
                    let k = choose|k: int| 0 <= k < s.len() && s[k] == entry;
                    assert(s[k].key@ == key@);
                }
                Some(entry.value)
            },
            None => None,
        }
    }

    /// What was counted.
    pub fn get_stats(&self) -> (r: &CacheStats)
        ensures
            *r == self.counts(),
    {
        &self.stats
    }

    /// How much is in the cache.
    pub fn len(&self) -> (r: usize)
        ensures
            r == self.entries().len(),
    {
        self.entries.len()
    }

    /// Whether nothing is in the cache.
    pub fn is_empty(&self) -> (r: bool)
        ensures
            r == (self.entries().len() == 0),
    {
        self.entries.len() == 0
    }

    /// Empties the cache. What was counted stays.
    pub fn clear(&mut self)
        ensures
            final(self).wf(),
            final(self).entries().len() == 0,
            final(self).contents() == Map::<Seq<u8>, V>::empty(),
            final(self).capacity() == old(self).capacity(),
            final(self).counts() == old(self).counts(),
    {
        self.entries.clear();
    }
}

/// The value of each key; the later of two entries of a key counts.
pub open spec fn contents_of<V>(s: Seq<CacheEntry<V>>) -> Map<Seq<u8>, V>
    decreases s.len(),
{
    if s.len() == 0 {
        Map::empty()
    } else {
        contents_of(s.drop_last()).insert(s.last().key@, s.last().value)
    }
}

proof fn contents_are_entries<V>(s: Seq<CacheEntry<V>>)
    requires
        keyed::unique_keys(s),
    ensures
        forall|k: Seq<u8>| #[trigger]
            contents_of(s).dom().contains(k) == keyed::contains_key(s, k),
        forall|i: int|
            0 <= i < s.len() ==> contents_of(s)[(#[trigger] s[i]).key@] == s[i].value,
    decreases s.len(),
{
    if s.len() > 0 {
        let t = s.drop_last();
        assert(keyed::unique_keys(t)) by {
            assert forall|a: int, b: int| 0 <= a < b < t.len() implies (#[trigger] t[a]).key() != (
            #[trigger] t[b]).key() by {
                assert(t[a] == s[a] && t[b] == s[b]);
            }
        }
        contents_are_entries(t);
        assert forall|k: Seq<u8>| #[trigger]
            contents_of(s).dom().contains(k) == keyed::contains_key(s, k) by {
            assert(contents_of(t).dom().contains(k) == keyed::contains_key(t, k));
            if keyed::contains_key(t, k) {
                let i = choose|i: int| 0 <= i < t.len() && (#[trigger] t[i]).key() == k;
                assert(s[i].key() == k);
            }
            if s.last().key@ == k {
                assert(s[s.len() - 1].key() == k);
            }
            if keyed::contains_key(s, k) {
                let i = choose|i: int| 0 <= i < s.len() && (#[trigger] s[i]).key() == k;
                if i < t.len() {
                    assert(t[i].key() == k);
                }
            }
        }
        assert forall|i: int| 0 <= i < s.len() implies contents_of(s)[(#[trigger] s[i]).key@]
            == s[i].value by {
            if i < t.len() {
                assert(t[i] == s[i]);
                assert(s[i].key() != s[s.len() - 1].key());
            }
        }
    }
}

proof fn contents_without<V>(s: Seq<CacheEntry<V>>, key: Seq<u8>)
    requires
        keyed::unique_keys(s),
    ensures
        contents_of(keyed::without_key(s, key)) == contents_of(s).remove(key),
{
    let t = keyed::without_key(s, key);
    keyed::without_key_keeps_unique(s, key);
    contents_are_entries(s);
    contents_are_entries(t);
    let m = contents_of(s).remove(key);
    assert forall|k: Seq<u8>| contents_of(t).dom().contains(k) == m.dom().contains(k) by {
        keyed::without_key_contains(s, key, k);
    }
    assert forall|k: Seq<u8>| contents_of(t).dom().contains(k) implies contents_of(t)[k]
        == m[k] by {
        let i = choose|i: int| 0 <= i < t.len() && (#[trigger] t[i]).key() == k;
        keyed::filter_keeps_unique(s, |e: CacheEntry<V>| e.key() != key);
        assert(s.contains(t[i]));
        let j = choose|j: int| 0 <= j < s.len() && s[j] == t[i];
        assert(contents_of(s)[s[j].key@] == s[j].value);
        assert(contents_of(t)[t[i].key@] == t[i].value);
    }
    assert(contents_of(t) =~= m);
}

/// A call of a cache, and what it drops.
pub enum CacheCall<V> {
    Insert { key: Seq<u8>, value: V, dropped: Option<Seq<u8>> },
    Get { key: Seq<u8> },
    Remove { key: Seq<u8> },
    Clear,
}

/// The value of each key after these calls.
pub open spec fn contents_after<V>(calls: Seq<CacheCall<V>>) -> Map<Seq<u8>, V>
    decreases calls.len(),
{
    if calls.len() == 0 {
        Map::empty()
    } else {
        let before = contents_after(calls.drop_last());
        match calls.last() {
            CacheCall::Insert { key, value, dropped } => match dropped {
                Some(old_key) => before.remove(old_key).insert(key, value),
                None => before.insert(key, value),
            },
            CacheCall::Get { .. } => before,
            CacheCall::Remove { key } => before.remove(key),
            CacheCall::Clear => Map::empty(),
        }
    }
}

/// Whether a call puts this value under this key.
pub open spec fn inserts<V>(call: CacheCall<V>, key: Seq<u8>, value: V) -> bool {
    call matches CacheCall::Insert { key: k, value: v, .. } && k == key && v == value
}

/// Whether a call puts any value under this key.
pub open spec fn inserts_key<V>(call: CacheCall<V>, key: Seq<u8>) -> bool {
    call matches CacheCall::Insert { key: k, .. } && k == key
}

/// What a cache gives for a key is the value that was put there last.
pub proof fn latest_insert_is_found<V>(calls: Seq<CacheCall<V>>, key: Seq<u8>)
    requires
        contents_after(calls).dom().contains(key),
    ensures
        exists|i: int|
            {
                &&& 0 <= i < calls.len()
                &&& inserts(#[trigger] calls[i], key, contents_after(calls)[key])
                &&& forall|j: int| i < j < calls.len() ==> !inserts_key(#[trigger] calls[j], key)
            },
    decreases calls.len(),
{
    let front = calls.drop_last();
    let last = calls.last();
    if inserts_key(last, key) {
        assert(inserts(calls[calls.len() - 1], key, contents_after(calls)[key]));
    } else {
        latest_insert_is_found(front, key);
        let i = choose|i: int|
            {
                &&& 0 <= i < front.len()
                &&& inserts(#[trigger] front[i], key, contents_after(front)[key])
                &&& forall|j: int| i < j < front.len() ==> !inserts_key(#[trigger] front[j], key)
            };
        assert(calls[i] == front[i]);
        assert forall|j: int| i < j < calls.len() implies !inserts_key(#[trigger] calls[j], key) by {
            if j < front.len() {
                assert(calls[j] == front[j]);
            }
        }
        assert(inserts(calls[i], key, contents_after(calls)[key]));
    }
}

/// A look-up after any calls gives the value that was put under the key last, if the key is in the
/// cache, and nothing else; no key and no value changes by it, and only its hit or its miss is
/// counted.
pub proof fn look_ups_give_the_latest<V>(
    before: TransactionLRUCache<V>,
    after: TransactionLRUCache<V>,
    calls: Seq<CacheCall<V>>,
    key: Seq<u8>,
    r: Option<&V>,
)
    requires
        before.contents() == contents_after(calls),
        before.looked_up(&after, key, r),
    ensures
        r is Some == keyed::contains_key(before.entries(), key),
        r matches Some(v) ==> exists|i: int|
            {
                &&& 0 <= i < calls.len()
                &&& inserts(#[trigger] calls[i], key, *v)
                &&& forall|j: int| i < j < calls.len() ==> !inserts_key(#[trigger] calls[j], key)
            },
        after.contents() == before.contents(),
        after.contents() == contents_after(calls.push(CacheCall::Get { key })),
        after.entries().len() == before.entries().len(),
        after.counts().insertions == before.counts().insertions,
        after.counts().evictions == before.counts().evictions,
        r is Some ==> after.counts().hits == before.counts().hits + 1 && after.counts().misses
            == before.counts().misses,
        r is None ==> after.counts().hits == before.counts().hits && after.counts().misses
            == before.counts().misses + 1,
{
    assert(calls.push(CacheCall::Get { key }).drop_last() =~= calls);
    if r is Some {
        latest_insert_is_found(calls, key);
    }
}

/// How many values a 64-bit number has.
pub open spec fn two_to_64() -> int {
    0x1_0000_0000_0000_0000
}

/// The filter's hash of the first `n` bytes of a transaction hash, for one of its functions.
pub open spec fn bloom_hash(tx_hash: Seq<u8>, index: int, n: int) -> int
    decreases n,
{
    if n <= 0 {
        0
    } else {
        ((bloom_hash(tx_hash, index, n - 1) + (tx_hash[n - 1] * (n + index)) % two_to_64())
            % two_to_64() * 31) % two_to_64()
    }
}

/// The bit that one of the filter's functions gives for a transaction hash.
pub open spec fn bloom_bit(tx_hash: Seq<u8>, index: int, size: nat) -> int {
    (bloom_hash(tx_hash, index, 32) as u64 as usize) as int % size as int
}

/// Whether all bits are set that the filter's functions give for a transaction hash.
pub open spec fn bloom_contains(bits: Seq<bool>, functions: nat, tx_hash: Seq<u8>) -> bool {
    forall|i: int| 0 <= i < functions ==> bits[#[trigger] bloom_bit(tx_hash, i, bits.len())]
}

/// The bits after those for a transaction hash were set.
pub open spec fn bloom_set(bits: Seq<bool>, functions: nat, tx_hash: Seq<u8>) -> Seq<bool>
    decreases functions,
{
    if functions == 0 {
        bits
    } else {
        let front = bloom_set(bits, (functions - 1) as nat, tx_hash);
        front.update(bloom_bit(tx_hash, functions - 1, bits.len()), true)
    }
}

/// A filter that tells which transactions it has certainly not seen.
#[derive(Debug)]
pub struct TransactionBloomFilter {
    bits: Vec<bool>,
    num_hash_functions: usize,
    count: usize,
}

impl TransactionBloomFilter {
    /// The bits.
    pub closed spec fn bits(&self) -> Seq<bool> {
        self.bits@
    }

    /// How many functions there are.
    pub closed spec fn functions(&self) -> usize {
        self.num_hash_functions
    }

    /// How many transactions were put in.
    pub closed spec fn inserted(&self) -> usize {
        self.count
    }

    /// There are bits to be set, and the functions can be numbered.
    pub open spec fn wf(&self) -> bool {
        &&& 0 < self.bits().len() <= usize::MAX
        &&& self.functions() <= usize::MAX - 32
    }

    /// An empty filter with so many bits and so many functions.
    pub fn with_dimensions(size: usize, num_hash_functions: usize) -> (r: Self)
        requires
            size > 0,
            num_hash_functions <= usize::MAX - 32,
        ensures
            r.wf(),
            r.bits().len() == size,
            forall|i: int| 0 <= i < size ==> !(#[trigger] r.bits()[i]),
            r.functions() == num_hash_functions,
            r.inserted() == 0,
    {
        TransactionBloomFilter { bits: vec![false; size], num_hash_functions, count: 0 }
    }

    fn hash(&self, tx_hash: &[u8; 32], index: usize) -> (r: usize)
        requires
            self.wf(),
            index < self.functions(),
        ensures
            r == bloom_bit(tx_hash@, index as int, self.bits().len()),
            r < self.bits().len(),
    {
        let mut hash: u64 = 0;
        let mut j: usize = 0;
        while j < 32
            invariant
                self.wf(),
                index < self.functions(),
                j <= 32,
                hash == bloom_hash(tx_hash@, index as int, j as int),
            decreases 32 - j,
        {
            let byte: u64 = tx_hash[j] as u64;
            let factor: u64 = (j + index + 1) as u64;
            let term: u64 = byte.wrapping_mul(factor);
            assert(term == (byte * factor) % two_to_64());
            let sum: u64 = hash.wrapping_add(term);
            assert(sum == (hash + term) % two_to_64());
            let next: u64 = sum.wrapping_mul(31);
            assert(next == (sum * 31) % two_to_64());
            hash = next;
            j += 1;
        }
        (hash as usize) % self.bits.len()
    }

    /// Puts a transaction in.
    pub fn insert(&mut self, tx_hash: &[u8; 32])
        requires
            old(self).wf(),
            old(self).inserted() < usize::MAX,
        ensures
            final(self).wf(),
            final(self).functions() == old(self).functions(),
            final(self).bits() == bloom_set(
                old(self).bits(),
                old(self).functions() as nat,
                tx_hash@,
            ),
            final(self).bits().len() == old(self).bits().len(),
            final(self).inserted() == old(self).inserted() + 1,
            bloom_contains(final(self).bits(), final(self).functions() as nat, tx_hash@),
            forall|i: int|
                0 <= i < old(self).bits().len() && old(self).bits()[i] ==> #[trigger] final(
                    self).bits()[i],
    {
        let ghost b0 = self.bits@;
        let mut i: usize = 0;
        while i < self.num_hash_functions
            invariant
                self.wf(),
                self.num_hash_functions == old(self).num_hash_functions,
                self.count == old(self).count,
                i <= self.num_hash_functions,
                b0 == old(self).bits@,
                self.bits@.len() == b0.len(),
                self.bits@ == bloom_set(b0, i as nat, tx_hash@),
            decreases self.num_hash_functions - i,
        {
            let idx: usize = self.hash(tx_hash, i);
            self.bits[idx] = true;
            i += 1;
        }
        self.count = self.count + 1;
        proof {
            set_bits_are_set(b0, i as nat, tx_hash@);
        }
    }

    /// Whether a transaction may have been put in; if not, it certainly was not.
    pub fn might_contain(&self, tx_hash: &[u8; 32]) -> (r: bool)
        requires
            self.wf(),
        ensures
            r == bloom_contains(self.bits(), self.functions() as nat, tx_hash@),
    {
        let mut i: usize = 0;
        while i < self.num_hash_functions
            invariant
                self.wf(),
                i <= self.num_hash_functions,
                forall|j: int|
                    0 <= j < i ==> self.bits()[#[trigger] bloom_bit(
                        tx_hash@,
                        j,
                        self.bits().len(),
                    )],
            decreases self.num_hash_functions - i,
        {
            let idx: usize = self.hash(tx_hash, i);
            if !self.bits[idx] {
                assert(!self.bits()[bloom_bit(tx_hash@, i as int, self.bits().len())]);
                return false;
            }
            i += 1;
        }
        true
    }

    /// How many transactions were put in.
    pub fn count(&self) -> (r: usize)
        ensures
            r == self.inserted(),
    {
        self.count
    }

    /// Empties the filter.
    pub fn clear(&mut self)
        requires
            old(self).wf(),
        ensures
            final(self).wf(),
            final(self).functions() == old(self).functions(),
            final(self).bits().len() == old(self).bits().len(),
            forall|i: int| 0 <= i < final(self).bits().len() ==> !(#[trigger] final(self).bits()[i]),
            final(self).inserted() == 0,
    {
        let size: usize = self.bits.len();
        self.bits = vec![false; size];
        self.count = 0;
    }
}

/// Setting the bits for a transaction hash sets them, clears none, and leaves the rest.
pub proof fn set_bits_are_set(bits: Seq<bool>, functions: nat, tx_hash: Seq<u8>)
    requires
        bits.len() > 0,
    ensures
        bloom_set(bits, functions, tx_hash).len() == bits.len(),
        bloom_contains(bloom_set(bits, functions, tx_hash), functions, tx_hash),
        forall|i: int|
            0 <= i < bits.len() && bits[i] ==> #[trigger] bloom_set(bits, functions, tx_hash)[i],
    decreases functions,
{
    if functions > 0 {
        set_bits_are_set(bits, (functions - 1) as nat, tx_hash);
        let front = bloom_set(bits, (functions - 1) as nat, tx_hash);
        let all = bloom_set(bits, functions, tx_hash);
        assert forall|i: int| 0 <= i < functions implies all[#[trigger] bloom_bit(
            tx_hash,
            i,
            bits.len(),
        )] by {
            if i < functions - 1 {
                assert(front[bloom_bit(tx_hash, i, front.len())]);
            }
        }
    }
}

/// The filter never denies a transaction that was put in: what was put in is still found after
/// any other transaction is put in.
pub proof fn no_false_negatives(
    bits: Seq<bool>,
    functions: nat,
    tx_hash: Seq<u8>,
    other: Seq<u8>,
)
    requires
        bits.len() > 0,
        bloom_contains(bits, functions, tx_hash),
    ensures
        bloom_contains(bloom_set(bits, functions, other), functions, tx_hash),
{
    set_bits_are_set(bits, functions, other);
    let all = bloom_set(bits, functions, other);
    assert forall|i: int| 0 <= i < functions implies all[#[trigger] bloom_bit(
        tx_hash,
        i,
        all.len(),
    )] by {
        assert(bits[bloom_bit(tx_hash, i, bits.len())]);
    }
}

#[derive(Debug, Clone, Copy)]
pub struct BatchStats {
    pub batches_processed: u64,
    pub items_processed: u64,
    pub avg_batch_time_us: u64,
    pub max_batch_time_us: u64,
}

impl Default for BatchStats {
    fn default() -> (r: Self)
        ensures
            r == no_batches(),
    {
        BatchStats {
            batches_processed: 0,
            items_processed: 0,
            avg_batch_time_us: 0,
            max_batch_time_us: 0,
        }
    }
}

/// Nothing counted.
pub open spec fn no_batches() -> BatchStats {
    BatchStats {
        batches_processed: 0,
        items_processed: 0,
        avg_batch_time_us: 0,
        max_batch_time_us: 0,
    }
}

/// What is counted after a batch of so many items that took so many microseconds. The average is
/// kept in whole microseconds.
pub open spec fn counted(s: BatchStats, items: nat, micros: u64) -> BatchStats {
    BatchStats {
        batches_processed: (s.batches_processed + 1) as u64,
        items_processed: (s.items_processed + items) as u64,
        avg_batch_time_us: ((s.avg_batch_time_us * s.batches_processed + micros) / (
        s.batches_processed + 1)) as u64,
        max_batch_time_us: if micros > s.max_batch_time_us {
            micros
        } else {
            s.max_batch_time_us
        },
    }
}

/// What is counted after batches of so many items that took so many microseconds.
pub open spec fn counted_all(batches: Seq<(nat, u64)>) -> BatchStats
    decreases batches.len(),
{
    if batches.len() == 0 {
        no_batches()
    } else {
        counted(counted_all(batches.drop_last()), batches.last().0, batches.last().1)
    }
}

/// How many items batches have together.
pub open spec fn items_of(batches: Seq<(nat, u64)>) -> nat
    decreases batches.len(),
{
    if batches.len() == 0 {
        0
    } else {
        items_of(batches.drop_last()) + batches.last().0
    }
}

/// The counts are those of the batches, no batch took longer than the maximum, and the average is
/// at most the maximum.
pub proof fn batches_are_counted(batches: Seq<(nat, u64)>)
    requires
        batches.len() <= u64::MAX,
        items_of(batches) <= u64::MAX,
    ensures
        counted_all(batches).batches_processed == batches.len(),
        counted_all(batches).items_processed == items_of(batches),
        counted_all(batches).avg_batch_time_us <= counted_all(batches).max_batch_time_us,
        forall|i: int|
            0 <= i < batches.len() ==> (#[trigger] batches[i]).1 <= counted_all(
                batches,
            ).max_batch_time_us,
    decreases batches.len(),
{
    if batches.len() > 0 {
        let front = batches.drop_last();
        batches_are_counted(front);
        let s = counted_all(front);
        let micros = batches.last().1;
        let t = counted_all(batches);
        let n = s.batches_processed as int;
        let top = t.max_batch_time_us as int;
        let avg = s.avg_batch_time_us as int;
        let total = avg * n + micros;
        assert(0 <= total <= top * (n + 1)) by (nonlinear_arith)
            requires
                total == avg * n + micros,
                0 <= avg <= top,
                0 <= micros <= top,
                n >= 0,
        ;
        assert(total / (n + 1) <= top) by (nonlinear_arith)
            requires
                total <= top * (n + 1),
                n >= 0,
        ;
        assert(total / (n + 1) >= 0) by (nonlinear_arith)
            requires
                total >= 0,
                n >= 0,
        ;
        assert forall|i: int| 0 <= i < batches.len() implies (#[trigger] batches[i]).1
            <= t.max_batch_time_us by {
            if i < front.len() {
                assert(front[i] == batches[i]);
            }
        }
    }
}

/// Runs batches and keeps count of them.
#[derive(Debug)]
pub struct BatchProcessor {
    batch_size: usize,
    processing_timeout_ms: u64,
    stats: BatchStats,
}

impl BatchProcessor {
    /// The size of a batch.
    pub closed spec fn size(&self) -> usize {
        self.batch_size
    }

    /// The time that a batch may take, in milliseconds.
    pub closed spec fn timeout_ms(&self) -> u64 {
        self.processing_timeout_ms
    }

    /// What was counted.
    pub closed spec fn counts(&self) -> BatchStats {
        self.stats
    }

    /// A runner that has run nothing.
    pub fn new(batch_size: usize, timeout_ms: u64) -> (r: Self)
        ensures
            r.size() == batch_size,
            r.timeout_ms() == timeout_ms,
            r.counts() == no_batches(),
    {
        BatchProcessor {
            batch_size,
            processing_timeout_ms: timeout_ms,
            stats: BatchStats::default(),
        }
    }

    /// Counts a batch of so many items that took so many microseconds.
    pub fn record_batch(&mut self, items: usize, micros: u64)
        requires
            old(self).counts().batches_processed < u64::MAX,
            old(self).counts().items_processed + items <= u64::MAX,
        ensures
            final(self).size() == old(self).size(),
            final(self).timeout_ms() == old(self).timeout_ms(),
            final(self).counts() == counted(old(self).counts(), items as nat, micros),
    {
        let n: u128 = self.stats.batches_processed as u128;
        let avg: u128 = self.stats.avg_batch_time_us as u128;
        assert(avg * n <= 0xffff_ffff_ffff_ffff * 0xffff_ffff_ffff_ffff) by (nonlinear_arith)
            requires
                avg <= 0xffff_ffff_ffff_ffff,
                n <= 0xffff_ffff_ffff_ffff,
        ;
        let total: u128 = avg * n + micros as u128;
        let mean: u128 = total / (n + 1);
        assert(mean <= 0xffff_ffff_ffff_ffff) by (nonlinear_arith)
            requires
                total == avg * n + micros,
                avg <= 0xffff_ffff_ffff_ffff,
                micros <= 0xffff_ffff_ffff_ffff,
                mean == total / ((n + 1) as u128),
                n + 1 <= 0xffff_ffff_ffff_ffff,
        ;
        if micros > self.stats.max_batch_time_us {
            self.stats.max_batch_time_us = micros;
        }
        self.stats.batches_processed = self.stats.batches_processed + 1;
        self.stats.items_processed = self.stats.items_processed + items as u64;
        self.stats.avg_batch_time_us = mean as u64;
    }

    /// Runs `processor` on each item, and counts the batch and the time that it took.
    pub fn process_batch<T, F, R>(&mut self, items: Vec<T>, processor: F) -> (r: Vec<R>) where
        F: Fn(&T) -> R,

        requires
            forall|i: int| 0 <= i < items@.len() ==> processor.requires((&#[trigger] items@[i],)),
            old(self).counts().batches_processed < u64::MAX,
            old(self).counts().items_processed + items@.len() <= u64::MAX,
        ensures
            r@.len() == items@.len(),
            forall|i: int|
                0 <= i < items@.len() ==> processor.ensures(
                    (&items@[i],),
                    #[trigger] r@[i],
                ),
            final(self).size() == old(self).size(),
            final(self).timeout_ms() == old(self).timeout_ms(),
            exists|micros: u64|
                final(self).counts() == #[trigger] counted(
                    old(self).counts(),
                    items@.len(),
                    micros,
                ),
    {
        let start = instant_now();
        let mut results: Vec<R> = Vec::new();
        let mut i: usize = 0;
        while i < items.len()
            invariant
                *self == *old(self),
                i <= items@.len(),
                results@.len() == i,
                forall|k: int|
                    0 <= k < items@.len() ==> processor.requires((&#[trigger] items@[k],)),
                forall|k: int|
                    0 <= k < i ==> processor.ensures((&items@[k],), #[trigger] results@[k]),
            decreases items@.len() - i,
        {
            results.push(processor(&items[i]));
            i += 1;
        }
        let micros: u64 = micros_since(&start);
        self.record_batch(items.len(), micros);
        results
    }

    /// The size of a batch.
    pub fn batch_size(&self) -> (r: usize)
        ensures
            r == self.size(),
    {
        self.batch_size
    }

    /// What was counted.
    pub fn get_stats(&self) -> (r: &BatchStats)
        ensures
            *r == self.counts(),
    {
        &self.stats
    }
}

/// The window of the rate limiter, in nanoseconds.
pub const RATE_WINDOW_NANOS: u64 = 1_000_000_000;

/// The requests that still count at `now`: without those at the front that are older than the
/// window.
pub open spec fn in_window(times: Seq<u64>, now: u64) -> Seq<u64>
    decreases times.len(),
{
    if times.len() > 0 && now - times[0] > RATE_WINDOW_NANOS {
        in_window(times.drop_first(), now)
    } else {
        times
    }
}

/// Whether times come in order.
pub open spec fn in_order(times: Seq<u64>) -> bool {
    forall|i: int, j: int| 0 <= i <= j < times.len() ==> #[trigger] times[i] <= #[trigger] times[j]
}

/// Where times come in order, the requests that still count are exactly those that are not older
/// than the window.
pub proof fn window_is_exact(times: Seq<u64>, now: u64)
    requires
        in_order(times),
    ensures
        in_order(in_window(times, now)),
        in_window(times, now) == times.filter(|t: u64| now - t <= RATE_WINDOW_NANOS),
    decreases times.len(),
{
    let p = |t: u64| now - t <= RATE_WINDOW_NANOS;
    if times.len() > 0 && now - times[0] > RATE_WINDOW_NANOS {
        let rest = times.drop_first();
        assert(in_order(rest)) by {
            assert forall|i: int, j: int| 0 <= i <= j < rest.len() implies #[trigger] rest[i]
                <= #[trigger] rest[j] by {
                assert(times[i + 1] <= times[j + 1]);
            }
        }
        window_is_exact(rest, now);
        assert(times =~= seq![times[0]] + rest);
        Seq::filter_distributes_over_add(seq![times[0]], rest, p);
        assert(seq![times[0]].filter(p) =~= Seq::<u64>::empty()) by {
            reveal_with_fuel(Seq::filter, 2);
            assert(seq![times[0]].drop_last() =~= Seq::<u64>::empty());
        }
        assert(times.filter(p) =~= rest.filter(p));
    } else {
        assert forall|i: int| 0 <= i < times.len() implies p(#[trigger] times[i]) by {
            assert(times[0] <= times[i]);
        }
        keyed::filter_all(times, p);
    }
}

/// Allows so many requests in each window.
#[derive(Debug)]
pub struct RateLimiter {
    max_requests_per_second: u32,
    start: std::time::Instant,
    request_times: VecDeque<u64>,
}

impl RateLimiter {
    /// How many requests are allowed in a window.
    pub closed spec fn limit(&self) -> u32 {
        self.max_requests_per_second
    }

    /// When the requests that count were allowed, in nanoseconds since the start.
    pub closed spec fn times(&self) -> Seq<u64> {
        self.request_times@
    }

    /// No more requests count than are allowed.
    pub open spec fn wf(&self) -> bool {
        self.times().len() <= self.limit()
    }

    /// Whether `next` is `self` after a request at `now`, which was allowed or not: what has left
    /// the window no longer counts, and what is allowed does.
    pub open spec fn checked(&self, next: &Self, now: u64, allowed: bool) -> bool {
        let counted = in_window(self.times(), now);
        &&& allowed == (counted.len() < self.limit())
        &&& next.times() == if allowed {
            counted.push(now)
        } else {
            counted
        }
    }

    /// A limiter that has allowed nothing.
    pub fn new(max_requests_per_second: u32) -> (r: Self)
        ensures
            r.wf(),
            r.limit() == max_requests_per_second,
            r.times().len() == 0,
    {
        RateLimiter {
            max_requests_per_second,
            start: instant_now(),
            request_times: VecDeque::new(),
        }
    }

    /// Whether a request at `now`, in nanoseconds since the start, is allowed: as long as fewer
    /// requests count than are allowed. One that is allowed counts from then on.
    pub fn check_at(&mut self, now: u64) -> (r: bool)
        requires
            old(self).wf(),
        ensures
            final(self).wf(),
            final(self).limit() == old(self).limit(),
            r == (in_window(old(self).times(), now).len() < old(self).limit()),
            final(self).times() == if r {
                in_window(old(self).times(), now).push(now)
            } else {
                in_window(old(self).times(), now)
            },
            in_order(old(self).times()) && (forall|i: int|
                0 <= i < old(self).times().len() ==> #[trigger] old(self).times()[i] <= now)
                ==> in_order(final(self).times()),
    {
        let ghost t0 = self.request_times@;
        while self.request_times.len() > 0 && now.saturating_sub(self.request_times[0])
            > RATE_WINDOW_NANOS
            invariant
                self.max_requests_per_second == old(self).max_requests_per_second,
                in_window(self.request_times@, now) == in_window(t0, now),
                self.request_times@.len() <= self.max_requests_per_second,
            decreases self.request_times@.len(),
        {
            let ghost before = self.request_times@;
            let _ = self.request_times.pop_front();
            assert(self.request_times@ =~= before.drop_first());
        }
        proof {
            window_is_a_suffix(t0, now);
        }
        if self.request_times.len() < self.max_requests_per_second as usize {
            self.request_times.push_back(now);
            true
        } else {
            false
        }
    }

    /// Whether a request is allowed now.
    pub fn check(&mut self) -> (r: bool)
        requires
            old(self).wf(),
        ensures
            final(self).wf(),
            final(self).limit() == old(self).limit(),
            old(self).times().len() < old(self).limit() ==> r,
            old(self).limit() == 0 ==> !r,
            exists|now: u64| #[trigger] old(self).checked(final(self), now, r),
    {
        proof {
            assert forall|now: u64| #[trigger] in_window(old(self).times(), now).len() <= old(
                self).times().len() by {
                window_is_a_suffix(old(self).times(), now);
            }
        }
        let now: u64 = nanos_since(&self.start);
        let r = self.check_at(now);
        assert(old(self).checked(self, now, r));
        r
    }

    /// How many requests count at `now`, in nanoseconds since the start: those in the window.
    pub fn current_count_at(&self, now: u64) -> (r: usize)
        ensures
            r == in_window(self.times(), now).len(),
    {
        let ghost t = self.request_times@;
        let mut i: usize = 0;
        assert(t.skip(0) =~= t);
        while i < self.request_times.len() && now.saturating_sub(self.request_times[i])
            > RATE_WINDOW_NANOS
            invariant
                t == self.request_times@,
                i <= t.len(),
                in_window(t.skip(i as int), now) == in_window(t, now),
            decreases t.len() - i,
        {
            assert(t.skip(i as int).drop_first() =~= t.skip(i + 1));
            i += 1;
        }
        self.request_times.len() - i
    }

    /// How many requests count now.
    pub fn current_count(&self) -> (r: usize)
        ensures
            exists|now: u64| r == #[trigger] in_window(self.times(), now).len(),
            r <= self.times().len(),
    {
        let now: u64 = nanos_since(&self.start);
        proof {
            window_is_a_suffix(self.times(), now);
        }
        self.current_count_at(now)
    }
}

/// What a limiter keeps after calls at these times, and all the requests that it allowed.
pub open spec fn limiter_run(limit: u32, calls: Seq<u64>) -> (Seq<u64>, Seq<u64>)
    decreases calls.len(),
{
    if calls.len() == 0 {
        (Seq::empty(), Seq::empty())
    } else {
        let (kept, allowed) = limiter_run(limit, calls.drop_last());
        let now = calls.last();
        let counted = in_window(kept, now);
        if counted.len() < limit {
            (counted.push(now), allowed.push(now))
        } else {
            (counted, allowed)
        }
    }
}

proof fn kept_are_the_newest(limit: u32, calls: Seq<u64>)
    requires
        in_order(calls),
    ensures
        ({
            let (kept, allowed) = limiter_run(limit, calls);
            let d = allowed.len() - kept.len();
            &&& kept.len() <= limit
            &&& 0 <= d
            &&& kept == allowed.skip(d)
            &&& forall|m: int|
                0 <= m < allowed.len() ==> calls.len() > 0 && #[trigger] allowed[m]
                    <= calls.last()
            &&& forall|m: int|
                0 <= m < d ==> calls.last() - #[trigger] allowed[m] > RATE_WINDOW_NANOS
            &&& forall|m: int|
                0 <= m && m + limit < allowed.len() ==> #[trigger] allowed[m + limit] - allowed[m]
                    > RATE_WINDOW_NANOS
        }),
    decreases calls.len(),
{
    if calls.len() == 0 {
        let (kept, allowed) = limiter_run(limit, calls);
        assert(kept =~= allowed.skip(0));
    } else {
        let before = calls.drop_last();
        let now = calls.last();
        kept_are_the_newest(limit, before);
        let (kept, allowed) = limiter_run(limit, before);
        let d = allowed.len() - kept.len();
        let counted = in_window(kept, now);
        window_is_a_suffix(kept, now);
        dropped_are_old(kept, now);
        let e = kept.len() - counted.len();
        let (kept2, allowed2) = limiter_run(limit, calls);
        let d2 = allowed2.len() - kept2.len();
        assert(d2 == d + e);
        if before.len() > 0 {
            assert(calls[before.len() - 1] <= calls[before.len() as int]);
        }
        assert(kept2 =~= allowed2.skip(d2));
        assert forall|m: int| 0 <= m < allowed2.len() implies #[trigger] allowed2[m] <= now by {
            if m < allowed.len() {
                assert(allowed2[m] == allowed[m]);
            }
        }
        assert forall|m: int| 0 <= m < d2 implies now - #[trigger] allowed2[m]
            > RATE_WINDOW_NANOS by {
            assert(allowed2[m] == allowed[m]);
            if m >= d {
                assert(allowed[m] == kept[m - d]);
            }
        }
        assert forall|m: int| 0 <= m && m + limit < allowed2.len() implies #[trigger] allowed2[m
            + limit] - allowed2[m] > RATE_WINDOW_NANOS by {
            if m + limit < allowed.len() {
                assert(allowed2[m + limit] == allowed[m + limit]);
                assert(allowed2[m] == allowed[m]);
            } else {
                assert(m < d2);
            }
        }
    }
}

proof fn dropped_are_old(times: Seq<u64>, now: u64)
    ensures
        forall|m: int|
            0 <= m < times.len() - in_window(times, now).len() ==> now - #[trigger] times[m]
                > RATE_WINDOW_NANOS,
    decreases times.len(),
{
    if times.len() > 0 && now - times[0] > RATE_WINDOW_NANOS {
        let rest = times.drop_first();
        dropped_are_old(rest, now);
        assert forall|m: int|
            0 <= m < times.len() - in_window(times, now).len() implies now - #[trigger] times[m]
            > RATE_WINDOW_NANOS by {
            if m > 0 {
                assert(times[m] == rest[m - 1]);
            }
        }
    }
}

/// However it is called, a limiter never allows more requests in a window than its limit: of any
/// two allowed requests that are so many apart, the later comes after the window of the earlier.
pub proof fn rate_is_kept(limit: u32, calls: Seq<u64>, i: int)
    requires
        in_order(calls),
        0 <= i,
        i + limit < limiter_run(limit, calls).1.len(),
    ensures
        limiter_run(limit, calls).1[i + limit] - limiter_run(limit, calls).1[i]
            > RATE_WINDOW_NANOS,
{
    kept_are_the_newest(limit, calls);
}

/// A limiter goes on as the run of its calls does.
pub proof fn limiter_follows_its_run(
    before: RateLimiter,
    after: RateLimiter,
    calls: Seq<u64>,
    now: u64,
    allowed: bool,
)
    requires
        before.times() == limiter_run(before.limit(), calls).0,
        before.checked(&after, now, allowed),
    ensures
        after.times() == limiter_run(before.limit(), calls.push(now)).0,
        limiter_run(before.limit(), calls.push(now)).1 == if allowed {
            limiter_run(before.limit(), calls).1.push(now)
        } else {
            limiter_run(before.limit(), calls).1
        },
{
    assert(calls.push(now).drop_last() =~= calls);
}

proof fn window_is_a_suffix(times: Seq<u64>, now: u64)
    ensures
        in_window(times, now).len() <= times.len(),
        in_window(times, now) == times.skip(times.len() - in_window(times, now).len()),
    decreases times.len(),
{
    if times.len() > 0 && now - times[0] > RATE_WINDOW_NANOS {
        window_is_a_suffix(times.drop_first(), now);
    }
}

/// Of the requests those count that came within the last second, in a sequence in order.
pub proof fn requests_count_for_a_second(times: Seq<u64>, now: u64, t: u64)
    requires
        in_order(times),
    ensures
        in_window(times, now).contains(t) <==> times.contains(t) && now - t <= 1_000_000_000,
{
    window_is_exact(times, now);
    keyed::filter_keeps_the_wanted(times, |t: u64| now - t <= RATE_WINDOW_NANOS, t);
}

/// A request is allowed exactly if fewer count than are allowed in a second; it then counts from
/// now on, and one that is not allowed does not.
pub proof fn refused_requests_do_not_count(
    before: RateLimiter,
    after: RateLimiter,
    now: u64,
    allowed: bool,
)
    requires
        in_order(before.times()),
        before.checked(&after, now, allowed),
    ensures
        allowed <==> before.times().filter(|t: u64| now - t <= 1_000_000_000).len()
            < before.limit(),
        !allowed ==> after.times() == before.times().filter(|t: u64| now - t <= 1_000_000_000),
        allowed ==> after.times().len() > 0 && after.times().last() == now
            && after.times().drop_last() == before.times().filter(
            |t: u64| now - t <= 1_000_000_000,
        ),
{
    window_is_exact(before.times(), now);
    let p = |t: u64| now - t <= RATE_WINDOW_NANOS;
    let q = |t: u64| now - t <= 1_000_000_000;
    assert(p =~= q);
    let counted = in_window(before.times(), now);
    assert(counted.push(now).drop_last() =~= counted);
}

/// The average over one batch more is the sum of the times divided by the number of batches,
/// rounded down; the greatest time is the greater of the two.
pub proof fn averages_are_over_all_batches(s: BatchStats, items: nat, micros: u64)
    requires
        s.batches_processed < u64::MAX,
        s.items_processed + items <= u64::MAX,
    ensures
        ({
            let r = counted(s, items, micros);
            let n = s.batches_processed + 1;
            let sum = s.avg_batch_time_us * s.batches_processed + micros;
            &&& r.batches_processed == n
            &&& r.items_processed == s.items_processed + items
            &&& r.avg_batch_time_us * n <= sum < (r.avg_batch_time_us + 1) * n
            &&& r.max_batch_time_us >= micros && r.max_batch_time_us >= s.max_batch_time_us
            &&& r.max_batch_time_us == micros || r.max_batch_time_us == s.max_batch_time_us
        }),
{
    let a = s.avg_batch_time_us as int;
    let b = s.batches_processed as int;
    let n = b + 1;
    let sum = a * b + micros;
    let q = sum / n;
    assert(0 <= q <= u64::MAX && q * n <= sum < (q + 1) * n) by (nonlinear_arith)
        requires
            0 <= a <= 0xffff_ffff_ffff_ffff,
            0 <= b,
            0 <= micros <= 0xffff_ffff_ffff_ffff,
            n == b + 1,
            sum == a * b + micros,
            q == sum / n,
            u64::MAX == 0xffff_ffff_ffff_ffff,
    ;
}

/// A look-up of a key makes its entry the last, that is the one that is dropped last; the others
/// all stay before it.
pub proof fn looked_up_entries_are_kept_longest<V>(
    before: TransactionLRUCache<V>,
    after: TransactionLRUCache<V>,
    key: Seq<u8>,
    r: Option<&V>,
    e: CacheEntry<V>,
)
    requires
        before.looked_up(&after, key, r),
        r is Some,
    ensures
        after.entries().len() == before.entries().len(),
        after.entries().last().key@ == key,
        after.entries().drop_last().contains(e) <==> before.entries().contains(e) && e.key@ != key,
        after.counts().hits == before.counts().hits + 1,
        after.counts().misses == before.counts().misses,
{
    keyed::without_key_keeps_the_rest(before.entries(), key);
}

/// Each bit of a transaction lies in the filter.
pub proof fn bits_lie_in_the_filter(tx_hash: Seq<u8>, index: int, size: nat)
    requires
        size > 0,
    ensures
        0 <= bloom_bit(tx_hash, index, size) < size,
{
}

/// What is in the cache is what its entries hold, each under its key.
pub proof fn contents_are_the_entries<V>(s: Seq<CacheEntry<V>>, i: int, key: Seq<u8>)
    requires
        keyed::unique_keys(s),
        0 <= i < s.len(),
    ensures
        contents_of(s).dom().contains(s[i].key@),
        contents_of(s)[s[i].key@] == s[i].value,
        contents_of(s).dom().contains(key) ==> exists|k: int|
            0 <= k < s.len() && (#[trigger] s[k]).key@ == key,
    decreases s.len(),
{
    let t = s.drop_last();
    let n = t.len() as int;
    assert forall|a: int, b: int| 0 <= a < b < t.len() implies (#[trigger] t[a]).key() != (
    #[trigger] t[b]).key() by {
        assert(s[a].key() != s[b].key());
    }
    assert(s[n] == s.last());
    if t.len() > 0 {
        let k = if i < n { i } else { 0 };
        contents_are_the_entries(t, k, key);
        if i < n {
            assert(s[i].key() != s[n].key());
        }
        if contents_of(t).dom().contains(key) {
            let j = choose|j: int| 0 <= j < t.len() && (#[trigger] t[j]).key@ == key;
            assert(s[j].key@ == key);
        }
    } else {
        assert(contents_of(t) =~= Map::<Seq<u8>, V>::empty());
    }
}

/// The hash of a transaction is made byte by byte: each is weighed by its place and the number of
/// the function, added, and the sum multiplied by 31, in numbers of 64 bits.
pub proof fn bytes_are_weighed_by_their_place(tx_hash: Seq<u8>, index: int, n: int)
    requires
        n >= 0,
    ensures
        bloom_hash(tx_hash, index, 0) == 0,
        bloom_hash(tx_hash, index, n + 1) == ((bloom_hash(tx_hash, index, n) + tx_hash[n] * (n + 1
            + index)) * 31) % 0x1_0000_0000_0000_0000,
{
    let h = bloom_hash(tx_hash, index, n);
    let x = tx_hash[n] * (n + 1 + index);
    let m = two_to_64();
    vstd::arithmetic::div_mod::lemma_add_mod_noop_right(h, x, m);
    vstd::arithmetic::div_mod::lemma_mul_mod_noop_left(h + x, 31, m);
}

} // verus!
