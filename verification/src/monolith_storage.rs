//! Stored monoliths: their keys, the cache in front of the database, and which ones are dropped.
use vstd::prelude::*;

use crate::bytes;
use crate::keyed;
use crate::keyed::HeightKey;
use crate::keyed::Keyed;
use crate::monolith_producer;
use crate::monolith_producer::copy_monolith;
use crate::monolith_producer::MonolithBlock;
use crate::search;
use crate::search::sorted;
use crate::text;
use crate::text::parse_u64;
use crate::text::push_padded;
use crate::text::strip_prefix;

verus! {

/// How monoliths are stored.
#[derive(Debug, Clone)]
pub struct MonolithStorageConfig {
    pub db_path: String,
    pub max_monoliths: usize,
    pub cache_size: usize,
    pub enable_compression: bool,
    pub write_buffer_size: usize,
}

impl Default for MonolithStorageConfig {
    fn default() -> (r: Self)
        ensures
            r.db_path@ == "./data/monoliths"@,
            r.max_monoliths == 10000,
            r.cache_size == 1000,
            r.enable_compression,
            r.write_buffer_size == 67108864,
    {
        MonolithStorageConfig {
            db_path: "./data/monoliths".to_string(),
            max_monoliths: 10000,
            cache_size: 1000,
            enable_compression: true,
            write_buffer_size: 67108864,
        }
    }
}

/// What was counted.
#[derive(Debug, Clone, Copy)]
pub struct MonolithStorageStats {
    pub total_monoliths: u64,
    pub cache_hits: u64,
    pub cache_misses: u64,
    pub storage_size_bytes: u64,
    pub last_cleanup: u64,
    pub db_operations: u64,
}

/// Nothing counted.
pub open spec fn nothing_stored() -> MonolithStorageStats {
    MonolithStorageStats {
        total_monoliths: 0,
        cache_hits: 0,
        cache_misses: 0,
        storage_size_bytes: 0,
        last_cleanup: 0,
        db_operations: 0,
    }
}

impl Default for MonolithStorageStats {
    fn default() -> (r: Self)
        ensures
            r == nothing_stored(),
    {
        MonolithStorageStats {
            total_monoliths: 0,
            cache_hits: 0,
            cache_misses: 0,
            storage_size_bytes: 0,
            last_cleanup: 0,
            db_operations: 0,
        }
    }
}

/// The key of the monolith of a height: the height in twenty digits, so that keys sort as heights
/// do.
pub open spec fn key_of(height: u64) -> Seq<char> {
    "monolith_"@ + text::padded(height as nat, 20)
}

/// Why a key gives no height.
#[derive(Debug, Clone, Copy, PartialEq, Eq, Structural)]
pub enum KeyError {
    /// It is not text, or does not start as a key does.
    InvalidFormat,
    /// What follows is not a height.
    InvalidHeight,
}

/// The height of a key.
pub open spec fn height_of(key: Seq<u8>) -> Result<u64, KeyError> {
    let start = "monolith_"@;
    let t = vstd::utf8::decode_utf8(key);
    if !vstd::utf8::valid_utf8(key) || !start.is_prefix_of(t) {
        Err(KeyError::InvalidFormat)
    } else {
        match text::parsed_u64(t.skip(start.len() as int)) {
            Some(height) => Ok(height),
            None => Err(KeyError::InvalidHeight),
        }
    }
}

/// `std::str::from_utf8`: the text with these bytes, if they are UTF-8.
#[verifier::external_body]
fn text_of(data: &[u8]) -> (r: Option<&str>)
    ensures
        r is Some == vstd::utf8::valid_utf8(data@),
        r matches Some(t) ==> t@ == vstd::utf8::decode_utf8(data@),
{
    std::str::from_utf8(data).ok()
}

/// The key of the monolith of a height.
pub fn height_to_key(height: u64) -> (r: String)
    ensures
        r@ == key_of(height),
{
    let mut key = "monolith_".to_string();
    push_padded(&mut key, height, 20);
    key
}

/// The height of a key.
pub fn key_to_height(key: &[u8]) -> (r: Result<u64, KeyError>)
    ensures
        r == height_of(key@),
{
    match text_of(key) {
        None => Err(KeyError::InvalidFormat),
        Some(t) => match strip_prefix(t, "monolith_") {
            None => Err(KeyError::InvalidFormat),
            Some(digits) => {
                assert(digits@ =~= t@.skip("monolith_"@.len() as int));
                match parse_u64(digits) {
                    Some(height) => Ok(height),
                    None => Err(KeyError::InvalidHeight),
                }
            },
        },
    }
}

/// The height of a height's key is that height.
pub proof fn keys_are_read_back(height: u64)
    ensures
        height_of(text::utf8(key_of(height))) == Ok::<u64, KeyError>(height),
{
    let t = key_of(height);
    let start = "monolith_"@;
    reveal_strlit("monolith_");
    vstd::utf8::encode_utf8_valid_utf8(t);
    vstd::utf8::encode_utf8_decode_utf8(t);
    assert(vstd::arithmetic::power::pow(10, 20) > u64::MAX) by {
        reveal_with_fuel(vstd::arithmetic::power::pow, 21);
    }
    text::padded_is_read_back(height as nat, 20);
    let d = text::padded(height as nat, 20);
    assert(start.is_prefix_of(t));
    assert(t.skip(9) =~= d);
    assert(text::is_digit(d[0]));
    assert(text::without_plus(d) == d);
}

/// A later height has a later key, in the order of the bytes.
pub proof fn keys_sort_as_heights(a: u64, b: u64)
    requires
        a < b,
    ensures
        bytes::lex_before(text::utf8(key_of(a)), text::utf8(key_of(b))),
{
    reveal_strlit("monolith_");
    assert(vstd::arithmetic::power::pow(10, 20) > u64::MAX) by {
        reveal_with_fuel(vstd::arithmetic::power::pow, 21);
    }
    digits_sort_as_numbers(a, b, 20);
    text::padded_is_read_back(a as nat, 20);
    text::padded_is_read_back(b as nat, 20);
    let x = text::padded(a as nat, 20);
    let y = text::padded(b as nat, 20);
    let i = choose|i: int|
        #![trigger x[i]]
        0 <= i < 20 && x.take(i) == y.take(i) && (x[i] as u32) < (y[i] as u32);
    let k = key_of(a);
    let l = key_of(b);
    assert forall|j: int| 0 <= j < k.len() implies '\0' <= #[trigger] k[j] <= '\u{7f}' by {
        if j >= 9 {
            assert(text::is_digit(x[j - 9]));
            assert(k[j] == x[j - 9]);
            text::digits_are_ascii(x[j - 9]);
        } else {
            assert(j == 0 || j == 1 || j == 2 || j == 3 || j == 4 || j == 5 || j == 6 || j == 7 || j
                == 8);
            assert(k[j] == "monolith_"@[j]);
        }
    }
    assert forall|j: int| 0 <= j < l.len() implies '\0' <= #[trigger] l[j] <= '\u{7f}' by {
        if j >= 9 {
            assert(text::is_digit(y[j - 9]));
            assert(l[j] == y[j - 9]);
            text::digits_are_ascii(y[j - 9]);
        } else {
            assert(j == 0 || j == 1 || j == 2 || j == 3 || j == 4 || j == 5 || j == 6 || j == 7 || j
                == 8);
            assert(l[j] == "monolith_"@[j]);
        }
    }
    vstd::utf8::is_ascii_chars_encode_utf8(k);
    vstd::utf8::is_ascii_chars_encode_utf8(l);
    let u = text::utf8(k);
    let v = text::utf8(l);
    assert forall|j: int| 0 <= j < 9 + i implies u[j] == v[j] by {
        assert(k[j] as u8 == u[j] && l[j] as u8 == v[j]);
        if j >= 9 {
            assert(x.take(i)[j - 9] == y.take(i)[j - 9]);
        }
    }
    assert(k[9 + i] as u8 == u[9 + i] && l[9 + i] as u8 == v[9 + i]);
    text::digits_are_ascii(x[i]);
    text::digits_are_ascii(y[i]);
    bytes::lex_at(u, v, 9 + i);
}

proof fn digits_sort_as_numbers(a: u64, b: u64, width: nat)
    requires
        a < b,
        b < vstd::arithmetic::power::pow(10, width),
    ensures
        exists|i: int|
            #![trigger text::padded(a as nat, width)[i]]
            0 <= i < width && text::padded(a as nat, width).take(i) == text::padded(
                b as nat,
                width,
            ).take(i) && (text::padded(a as nat, width)[i] as u32) < (text::padded(
                b as nat,
                width,
            )[i] as u32),
    decreases width,
{
    reveal(vstd::arithmetic::power::pow);
    let x = text::padded(a as nat, width);
    let y = text::padded(b as nat, width);
    if width > 0 {
        let w = (width - 1) as nat;
        assert(vstd::arithmetic::power::pow(10, width) == 10 * vstd::arithmetic::power::pow(10, w));
        let xa = text::padded((a / 10) as nat, w);
        let ya = text::padded((b / 10) as nat, w);
        text::padded_is_read_back((a / 10) as nat, w);
        text::padded_is_read_back((b / 10) as nat, w);
        assert(x =~= xa.push(text::digit((a % 10) as nat)));
        assert(y =~= ya.push(text::digit((b % 10) as nat)));
        if a / 10 < b / 10 {
            digits_sort_as_numbers(a / 10, b / 10, w);
            let i = choose|i: int|
                #![trigger xa[i]]
                0 <= i < w && xa.take(i) == ya.take(i) && (xa[i] as u32) < (ya[i] as u32);
            assert(x.take(i) =~= xa.take(i));
            assert(y.take(i) =~= ya.take(i));
            assert(x[i] == xa[i]);
        } else {
            assert(a / 10 == b / 10);
            assert(x.take(w as int) =~= xa);
            assert(y.take(w as int) =~= ya);
            assert((x[w as int] as u32) < (y[w as int] as u32));
        }
    }
}

impl Keyed for (u64, MonolithBlock) {
    type Query = HeightKey;

    open spec fn key(&self) -> u64 {
        self.0
    }

    fn has_key(&self, query: &HeightKey) -> (r: bool) {
        let r = self.0 == query.height;
        assert(r == (self.key() == query@));
        r
    }
}

#[verifier::external_type_specification]
#[verifier::external_body]
#[verifier::reject_recursive_types(K)]
#[verifier::reject_recursive_types(V)]
#[verifier::reject_recursive_types(S)]
pub struct ExLruCache<K, V, S>(lru::LruCache<K, V, S>);

#[verifier::external_type_specification]
#[verifier::external_body]
pub struct ExLruHasher(lru::DefaultHasher);

/// What a cache holds, from what was used longest ago to what was used last.
pub uninterp spec fn cache_entries(cache: lru::LruCache<u64, MonolithBlock>) -> Seq<
    (u64, MonolithBlock),
>;

/// How much a cache may hold.
pub uninterp spec fn cache_limit(cache: lru::LruCache<u64, MonolithBlock>) -> nat;

/// What a cache holds after a monolith was put in: it counts as used last, and when the cache is
/// full and the height is new, what was used longest ago is dropped.
pub open spec fn after_put(
    s: Seq<(u64, MonolithBlock)>,
    limit: nat,
    height: u64,
    block: MonolithBlock,
) -> Seq<(u64, MonolithBlock)> {
    (if keyed::contains_key(s, height) || s.len() < limit {
        keyed::without_key(s, height)
    } else {
        s.drop_first()
    }).push((height, block))
}

/// What is kept at a height.
pub open spec fn value_at(s: Seq<(u64, MonolithBlock)>, height: u64) -> MonolithBlock {
    choose|block: MonolithBlock| s.contains((height, block))
}

/// What a look at several heights finds, what the cache holds after it, and how often the cache
/// had the monolith.
pub struct RangeOutcome {
    pub monoliths: Seq<MonolithBlock>,
    pub cached: Seq<(u64, MonolithBlock)>,
    pub hits: int,
}

/// The outcome of looking at the heights from `start` on, one after the other, where the database
/// has `stored` at them: the cache is asked first, and gets what only the database has.
pub open spec fn found_in_range(
    s: Seq<(u64, MonolithBlock)>,
    limit: nat,
    start: int,
    stored: Seq<Option<MonolithBlock>>,
) -> RangeOutcome
    decreases stored.len(),
{
    if stored.len() == 0 {
        RangeOutcome { monoliths: Seq::empty(), cached: s, hits: 0 }
    } else {
        let before = found_in_range(s, limit, start, stored.drop_last());
        let height = (start + stored.len() - 1) as u64;
        if keyed::contains_key(before.cached, height) {
            let block = value_at(before.cached, height);
            RangeOutcome {
                monoliths: before.monoliths.push(block),
                cached: keyed::without_key(before.cached, height).push((height, block)),
                hits: before.hits + 1,
            }
        } else {
            match stored.last() {
                Some(block) => RangeOutcome {
                    monoliths: before.monoliths.push(block),
                    cached: after_put(before.cached, limit, height, block),
                    hits: before.hits,
                },
                None => before,
            }
        }
    }
}

/// Whether the monoliths have the same contents, one by one.
pub open spec fn same_monoliths(a: Seq<MonolithBlock>, b: Seq<MonolithBlock>) -> bool {
    &&& a.len() == b.len()
    &&& forall|i: int| 0 <= i < a.len() ==> monolith_producer::same_monolith(
        #[trigger] a[i],
        b[i],
    )
}

/// The monoliths that are there, in the order of their places.
pub open spec fn those_there(stored: Seq<Option<MonolithBlock>>) -> Seq<MonolithBlock>
    decreases stored.len(),
{
    if stored.len() == 0 {
        Seq::empty()
    } else {
        match stored.last() {
            Some(block) => those_there(stored.drop_last()).push(block),
            None => those_there(stored.drop_last()),
        }
    }
}

/// `lru::LruCache::new`: an empty cache with this limit. The call fails for a limit so large that
/// the memory for it cannot be addressed.
#[verifier::external_body]
fn new_cache(limit: usize) -> (r: lru::LruCache<u64, MonolithBlock>)
    requires
        1 <= limit <= usize::MAX / 128,
    ensures
        cache_entries(r) == Seq::<(u64, MonolithBlock)>::empty(),
        cache_limit(r) == limit,
{
    lru::LruCache::new(std::num::NonZeroUsize::new(limit).unwrap_or(std::num::NonZeroUsize::MIN))
}

/// `lru::LruCache::put`: the monolith counts as used last, in place of an earlier one of its
/// height; a full cache drops what was used longest ago.
#[verifier::external_body]
fn put_in_cache(cache: &mut lru::LruCache<u64, MonolithBlock>, height: u64, block: MonolithBlock)
    ensures
        cache_entries(*final(cache)) == after_put(
            cache_entries(*old(cache)),
            cache_limit(*old(cache)),
            height,
            block,
        ),
        cache_limit(*final(cache)) == cache_limit(*old(cache)),
{
    let _ = cache.put(height, block);
}

/// `lru::LruCache::get`: the monolith of a height, which then counts as used last.
#[verifier::external_body]
fn get_from_cache(cache: &mut lru::LruCache<u64, MonolithBlock>, height: u64) -> (r: Option<
    &MonolithBlock,
>)
    ensures
        cache_limit(*final(cache)) == cache_limit(*old(cache)),
        r is Some == keyed::contains_key(cache_entries(*old(cache)), height),
        match r {
            Some(block) => cache_entries(*old(cache)).contains((height, *block)) && cache_entries(
                *final(cache),
            ) == keyed::without_key(cache_entries(*old(cache)), height).push((height, *block)),
            None => cache_entries(*final(cache)) == cache_entries(*old(cache)),
        },
{
    cache.get(&height)
}

/// `lru::LruCache::peek`: the monolith of a height, without using it.
#[verifier::external_body]
fn peek_in_cache(cache: &lru::LruCache<u64, MonolithBlock>, height: u64) -> (r: Option<
    &MonolithBlock,
>)
    ensures
        r is Some == keyed::contains_key(cache_entries(*cache), height),
        r matches Some(block) ==> cache_entries(*cache).contains((height, *block)),
{
    cache.peek(&height)
}

/// `lru::LruCache::pop`: the cache no longer holds a monolith of the height.
#[verifier::external_body]
fn drop_from_cache(cache: &mut lru::LruCache<u64, MonolithBlock>, height: u64)
    ensures
        cache_entries(*final(cache)) == keyed::without_key(cache_entries(*old(cache)), height),
        cache_limit(*final(cache)) == cache_limit(*old(cache)),
{
    let _ = cache.pop(&height);
}

/// `lru::LruCache::iter`: the heights in the cache, from what was used last to what was used
/// longest ago.
#[verifier::external_body]
fn cached_heights(cache: &lru::LruCache<u64, MonolithBlock>) -> (r: Vec<u64>)
    ensures
        r@ == cache_entries(*cache).reverse().map_values(|e: (u64, MonolithBlock)| e.0),
{
    cache.iter().map(|e| *e.0).collect()
}

/// The greatest of the numbers, or none.
pub open spec fn is_greatest(r: Option<u64>, s: Seq<u64>) -> bool {
    match r {
        Some(h) => s.contains(h) && forall|i: int| 0 <= i < s.len() ==> #[trigger] s[i] <= h,
        None => s.len() == 0,
    }
}

fn greatest(v: &Vec<u64>) -> (r: Option<u64>)
    ensures
        is_greatest(r, v@),
{
    if v.len() == 0 {
        return None;
    }
    let mut best: u64 = v[0];
    let mut i: usize = 1;
    assert(v@[0] == best);
    while i < v.len()
        invariant
            1 <= i <= v@.len(),
            v@.contains(best),
            forall|k: int| 0 <= k < i ==> #[trigger] v@[k] <= best,
        decreases v@.len() - i,
    {
        if v[i] > best {
            best = v[i];
            assert(v@[i as int] == best);
        }
        i += 1;
    }
    Some(best)
}

/// The cache in front of the database, and what was counted.
pub struct MonolithStorage {
    config: MonolithStorageConfig,
    cache: lru::LruCache<u64, MonolithBlock>,
    stats: MonolithStorageStats,
}

impl MonolithStorage {
    /// How monoliths are stored.
    pub closed spec fn settings(&self) -> MonolithStorageConfig {
        self.config
    }

    /// The monoliths in the cache, from what was used longest ago to what was used last.
    pub closed spec fn cached(&self) -> Seq<(u64, MonolithBlock)> {
        cache_entries(self.cache)
    }

    /// How many monoliths the cache may hold.
    pub closed spec fn limit(&self) -> nat {
        cache_limit(self.cache)
    }

    /// What was counted.
    pub closed spec fn counts(&self) -> MonolithStorageStats {
        self.stats
    }

    /// No height is in the cache twice, and the limit is kept.
    pub open spec fn wf(&self) -> bool {
        &&& keyed::unique_keys(self.cached())
        &&& self.cached().len() <= self.limit()
        &&& self.limit() >= 1
    }

    /// An empty storage. Where the cache has no size, it gets the usual one.
    pub fn new(config: MonolithStorageConfig) -> (r: Self)
        requires
            config.cache_size <= usize::MAX / 128,
        ensures
            r.wf(),
            r.settings() == config,
            r.cached().len() == 0,
            r.limit() == if config.cache_size == 0 {
                1000
            } else {
                config.cache_size as nat
            },
            r.counts() == nothing_stored(),
    {
        let size: usize = if config.cache_size == 0 {
            1000
        } else {
            config.cache_size
        };
        MonolithStorage { config, cache: new_cache(size), stats: MonolithStorageStats::default() }
    }

    /// Puts a monolith into the cache, by the height that it ends at. Once it is in the database
    /// too, `record_stored` counts it.
    pub fn store_monolith(&mut self, block: MonolithBlock)
        requires
            old(self).wf(),
        ensures
            final(self).wf(),
            final(self).settings() == old(self).settings(),
            final(self).limit() == old(self).limit(),
            final(self).counts() == old(self).counts(),
            final(self).cached() == after_put(
                old(self).cached(),
                old(self).limit(),
                block.end_height,
                block,
            ),
    {
        proof {
            put_keeps_order(self.cached(), self.limit(), block.end_height, block);
        }
        let height: u64 = block.end_height;
        put_in_cache(&mut self.cache, height, block);
    }

    /// Takes note that a monolith of so many bytes was written to the database.
    pub fn record_stored(&mut self, size_bytes: u64)
        requires
            old(self).wf(),
            old(self).counts().total_monoliths < u64::MAX,
            old(self).counts().storage_size_bytes + size_bytes <= u64::MAX,
            old(self).counts().db_operations < u64::MAX,
        ensures
            final(self).wf(),
            final(self).settings() == old(self).settings(),
            final(self).limit() == old(self).limit(),
            final(self).cached() == old(self).cached(),
            final(self).counts() == (MonolithStorageStats {
                total_monoliths: (old(self).counts().total_monoliths + 1) as u64,
                storage_size_bytes: (old(self).counts().storage_size_bytes + size_bytes) as u64,
                db_operations: (old(self).counts().db_operations + 1) as u64,
                ..old(self).counts()
            }),
    {
        self.stats.total_monoliths = self.stats.total_monoliths + 1;
        self.stats.storage_size_bytes = self.stats.storage_size_bytes + size_bytes;
        self.stats.db_operations = self.stats.db_operations + 1;
    }

    /// Whether the monolith of a height is in the cache; if not, the database is asked.
    pub fn is_cached(&self, height: u64) -> (r: bool)
        ensures
            r == keyed::contains_key(self.cached(), height),
    {
        peek_in_cache(&self.cache, height).is_some()
    }

    /// The monolith of a height: the one in the cache, or else the one in the database, which
    /// then goes into the cache. `stored` is what the database has, and plays no part where the
    /// monolith is in the cache.
    pub fn get_monolith(&mut self, height: u64, stored: Option<MonolithBlock>) -> (r: Option<
        &MonolithBlock,
    >)
        requires
            old(self).wf(),
            old(self).counts().cache_hits < u64::MAX,
            old(self).counts().cache_misses < u64::MAX,
            old(self).counts().db_operations < u64::MAX,
        ensures
            final(self).wf(),
            final(self).settings() == old(self).settings(),
            final(self).limit() == old(self).limit(),
            r is Some == (keyed::contains_key(old(self).cached(), height) || stored is Some),
            keyed::contains_key(old(self).cached(), height) ==> {
                &&& old(self).cached().contains((height, *r->0))
                &&& final(self).cached() == keyed::without_key(old(self).cached(), height).push(
                    (height, *r->0),
                )
                &&& final(self).counts() == (MonolithStorageStats {
                    cache_hits: (old(self).counts().cache_hits + 1) as u64,
                    ..old(self).counts()
                })
            },
            !keyed::contains_key(old(self).cached(), height) ==> {
                &&& stored matches Some(block) ==> *r->0 == block && final(self).cached()
                    == after_put(old(self).cached(), old(self).limit(), height, block)
                &&& stored is None ==> final(self).cached() == old(self).cached()
                &&& final(self).counts() == (MonolithStorageStats {
                    cache_misses: (old(self).counts().cache_misses + 1) as u64,
                    db_operations: (old(self).counts().db_operations + 1) as u64,
                    ..old(self).counts()
                })
            },
    {
        let ghost s = self.cached();
        if self.is_cached(height) {
            self.stats.cache_hits = self.stats.cache_hits + 1;
            proof {
                assert forall|block: MonolithBlock| #[trigger] s.contains(
                    (height, block),
                ) implies keyed::unique_keys(
                    keyed::without_key(s, height).push((height, block)),
                ) && keyed::without_key(s, height).len() < s.len() by {
                    use_keeps_order(s, height, block);
                }
            }
            get_from_cache(&mut self.cache, height)
        } else {
            self.stats.cache_misses = self.stats.cache_misses + 1;
            self.stats.db_operations = self.stats.db_operations + 1;
            match stored {
                Some(block) => {
                    proof {
                        put_keeps_order(s, self.limit(), height, block);
                    }
                    put_in_cache(&mut self.cache, height, block);
                    proof {
                        let t = self.cached();
                        assert(t.last() == (height, block));
                        assert(t.last().key() == height);
                        assert forall|b: MonolithBlock| #[trigger] t.contains(
                            (height, b),
                        ) implies b == block by {
                            let i = choose|i: int| 0 <= i < t.len() && t[i] == (height, b);
                            if i < t.len() - 1 {
                                assert(t[i].key() != t[t.len() - 1].key());
                            }
                        }
                    }
                    peek_in_cache(&self.cache, height)
                },
                None => None,
            }
        }
    }

    /// The monoliths from one height to another, in that order. `stored` is what the database has
    /// at each of these heights; the cache goes before it, as in `get_monolith`.
    pub fn get_monoliths_in_range(
        &mut self,
        start_height: u64,
        end_height: u64,
        stored: Vec<Option<MonolithBlock>>,
    ) -> (r: Vec<MonolithBlock>)
        requires
            old(self).wf(),
            stored@.len() == monolith_producer::range_len(start_height, end_height),
            old(self).counts().cache_hits + stored@.len() <= u64::MAX,
            old(self).counts().cache_misses + stored@.len() <= u64::MAX,
            old(self).counts().db_operations + stored@.len() <= u64::MAX,
        ensures
            final(self).wf(),
            final(self).settings() == old(self).settings(),
            final(self).limit() == old(self).limit(),
            ({
                let found = found_in_range(
                    old(self).cached(),
                    old(self).limit(),
                    start_height as int,
                    stored@,
                );
                let c = old(self).counts();
                let misses = stored@.len() - found.hits;
                &&& same_monoliths(found.monoliths, r@)
                &&& final(self).cached() == found.cached
                &&& final(self).counts() == (MonolithStorageStats {
                    cache_hits: (c.cache_hits + found.hits) as u64,
                    cache_misses: (c.cache_misses + misses) as u64,
                    db_operations: (c.db_operations + misses) as u64,
                    ..c
                })
            }),
    {
        let ghost s = self.cached();
        let ghost limit = self.limit();
        let ghost c = self.counts();
        let ghost all = stored@;
        let mut out: Vec<MonolithBlock> = Vec::new();
        let mut height: u64 = start_height;
        proof {
            assert(all.take(0).len() == 0);
        }
        for block in it: stored
            invariant
                self.wf(),
                self.settings() == old(self).settings(),
                self.limit() == limit,
                it.seq() == all,
                all.len() == monolith_producer::range_len(start_height, end_height),
                c.cache_hits + all.len() <= u64::MAX,
                c.cache_misses + all.len() <= u64::MAX,
                c.db_operations + all.len() <= u64::MAX,
                it.index() < all.len() ==> height == start_height + it.index(),
                ({
                    let found = found_in_range(
                        s,
                        limit,
                        start_height as int,
                        all.take(it.index() as int),
                    );
                    let misses = it.index() - found.hits;
                    &&& 0 <= found.hits <= it.index()
                    &&& same_monoliths(found.monoliths, out@)
                    &&& self.cached() == found.cached
                    &&& self.counts() == (MonolithStorageStats {
                        cache_hits: (c.cache_hits + found.hits) as u64,
                        cache_misses: (c.cache_misses + misses) as u64,
                        db_operations: (c.db_operations + misses) as u64,
                        ..c
                    })
                }),
        {
            proof {
                let i = it.index() as int;
                let t = all.take(i + 1);
                assert(t.drop_last() =~= all.take(i));
                assert(t.last() == block);
                value_is_unique(self.cached(), height);
            }
            match self.get_monolith(height, block) {
                Some(found) => {
                    out.push(copy_monolith(found));
                },
                None => {},
            }
            if height < end_height {
                height = height + 1;
            }
        }
        proof {
            assert(all.take(all.len() as int) =~= all);
        }
        out
    }

    /// The height of the latest monolith, to be asked for with `get_monolith`: the highest in the
    /// cache or among the keys of the database. A key that gives no height is an error.
    pub fn get_latest_monolith(&self, keys: &[Vec<u8>]) -> (r: Result<Option<u64>, KeyError>)
        ensures
            match r {
                Ok(h) => (forall|i: int| 0 <= i < keys@.len() ==> height_of(#[trigger] keys@[i]@) is Ok)
                    && is_greatest(
                    h,
                    self.cached().map_values(|e: (u64, MonolithBlock)| e.0) + keys@.map_values(
                        |k: Vec<u8>| height_of(k@)->Ok_0,
                    ),
                ),
                Err(e) => exists|i: int|
                    0 <= i < keys@.len() && height_of(#[trigger] keys@[i]@) == Err::<u64, KeyError>(
                        e,
                    ) && forall|j: int| 0 <= j < i ==> height_of(#[trigger] keys@[j]@) is Ok,
            },
    {
        let mut heights = cached_heights(&self.cache);
        let ghost ours = heights@;
        let mut i: usize = 0;
        while i < keys.len()
            invariant
                i <= keys@.len(),
                heights@.len() == ours.len() + i,
                forall|k: int| 0 <= k < ours.len() ==> #[trigger] heights@[k] == ours[k],
                forall|k: int|
                    0 <= k < i ==> height_of(#[trigger] keys@[k]@) == Ok::<u64, KeyError>(
                        heights@[ours.len() + k],
                    ),
            decreases keys@.len() - i,
        {
            match key_to_height(keys[i].as_slice()) {
                Ok(h) => {
                    heights.push(h);
                },
                Err(e) => {
                    assert(height_of(keys@[i as int]@) == Err::<u64, KeyError>(e));
                    return Err(e);
                },
            }
            i += 1;
        }
        let h = greatest(&heights);
        proof {
            let m = self.cached().map_values(|e: (u64, MonolithBlock)| e.0);
            let n = keys@.map_values(|k: Vec<u8>| height_of(k@)->Ok_0);
            let all = m + n;
            assert(ours =~= m.reverse());
            assert(all.len() == heights@.len());
            if all.len() > 0 {
                assert forall|j: int| 0 <= j < all.len() implies #[trigger] all[j] <= h->0 by {
                    if j < m.len() {
                        assert(heights@[m.len() - 1 - j] == all[j]);
                    } else {
                        assert(height_of(keys@[j - m.len()]@) is Ok);
                        assert(heights@[j] == all[j]);
                    }
                }
                let k = choose|k: int| 0 <= k < heights@.len() && heights@[k] == h->0;
                if k < m.len() {
                    assert(all[m.len() - 1 - k] == h->0);
                } else {
                    assert(height_of(keys@[k - m.len()]@) is Ok);
                    assert(all[k] == h->0);
                }
            }
        }
        Ok(h)
    }

    /// Takes a monolith out of the cache, and takes note that it was deleted from the database,
    /// where it had so many bytes. Says whether it was there.
    pub fn delete_monolith(&mut self, height: u64, stored_size: Option<u64>) -> (r: bool)
        requires
            old(self).wf(),
            old(self).counts().db_operations < u64::MAX,
        ensures
            final(self).wf(),
            final(self).settings() == old(self).settings(),
            final(self).limit() == old(self).limit(),
            final(self).cached() == keyed::without_key(old(self).cached(), height),
            r == stored_size is Some,
            stored_size is None ==> final(self).counts() == old(self).counts(),
            stored_size matches Some(size) ==> {
                let c = old(self).counts();
                final(self).counts() == (MonolithStorageStats {
                    total_monoliths: if c.total_monoliths > 0 {
                        (c.total_monoliths - 1) as u64
                    } else {
                        0
                    },
                    storage_size_bytes: if c.storage_size_bytes > size {
                        (c.storage_size_bytes - size) as u64
                    } else {
                        0
                    },
                    db_operations: (c.db_operations + 1) as u64,
                    ..c
                })
            },
    {
        proof {
            keyed::without_key_keeps_unique(self.cached(), height);
        }
        drop_from_cache(&mut self.cache, height);
        match stored_size {
            Some(size) => {
                self.stats.total_monoliths = self.stats.total_monoliths.saturating_sub(1);
                self.stats.storage_size_bytes = self.stats.storage_size_bytes.saturating_sub(size);
                self.stats.db_operations = self.stats.db_operations + 1;
                true
            },
            None => false,
        }
    }

    /// How many monoliths there are over the limit.
    pub fn excess(&self) -> (r: u64)
        ensures
            r == if self.counts().total_monoliths > self.settings().max_monoliths {
                self.counts().total_monoliths - self.settings().max_monoliths
            } else {
                0
            },
    {
        self.stats.total_monoliths.saturating_sub(self.config.max_monoliths as u64)
    }

    /// Which of the stored heights are to be deleted: as many of the lowest as there are over the
    /// limit.
    pub fn cleanup_old_monoliths(&self, heights: &[u64]) -> (r: Vec<u64>)
        ensures
            exists|all: Seq<u64>|
                #![trigger search::ascending(all)]
                search::ascending(all) && all.to_multiset() == heights@.to_multiset() && r@
                    == all.take(
                    min_of(
                        heights@.len() as int,
                        if self.counts().total_monoliths > self.settings().max_monoliths {
                            self.counts().total_monoliths - self.settings().max_monoliths
                        } else {
                            0
                        },
                    ),
                ),
    {
        let n: u64 = self.excess();
        let all = sorted(heights);
        let mut plan: Vec<u64> = Vec::new();
        let mut i: usize = 0;
        while i < all.len() && (i as u64) < n
            invariant
                i <= all@.len(),
                i <= n,
                plan@ == all@.take(i as int),
            decreases all@.len() - i,
        {
            plan.push(all[i]);
            i += 1;
        }
        proof {
            assert(search::ascending(all@));
            assert(i == min_of(heights@.len() as int, n as int));
        }
        plan
    }

    /// Takes note of when monoliths were last cleaned up.
    pub fn record_cleanup(&mut self, now: u64)
        requires
            old(self).wf(),
        ensures
            final(self).wf(),
            final(self).settings() == old(self).settings(),
            final(self).limit() == old(self).limit(),
            final(self).cached() == old(self).cached(),
            final(self).counts() == (MonolithStorageStats {
                last_cleanup: now,
                ..old(self).counts()
            }),
    {
        self.stats.last_cleanup = now;
    }

    /// What was counted.
    pub fn get_stats(&self) -> (r: MonolithStorageStats)
        ensures
            r == self.counts(),
    {
        self.stats
    }
}

/// The lesser of two numbers.
pub open spec fn min_of(a: int, b: int) -> int {
    if a < b {
        a
    } else {
        b
    }
}

proof fn use_keeps_order(s: Seq<(u64, MonolithBlock)>, height: u64, block: MonolithBlock)
    requires
        keyed::unique_keys(s),
        s.contains((height, block)),
    ensures
        keyed::unique_keys(keyed::without_key(s, height).push((height, block))),
        keyed::without_key(s, height).len() < s.len(),
{
    let i = choose|i: int| 0 <= i < s.len() && s[i] == (height, block);
    assert(s[i].key() == height);
    keyed::without_is_remove(s, i);
    keyed::without_key_keeps_unique(s, height);
    let t = keyed::without_key(s, height);
    let u = t.push((height, block));
    assert forall|a: int, b: int| 0 <= a < b < u.len() implies (#[trigger] u[a]).key() != (
    #[trigger] u[b]).key() by {
        assert(u[a] == t[a]);
        if b < t.len() {
            assert(u[b] == t[b]);
        } else {
            assert(t[a].key() != height);
        }
    }
}

proof fn value_is_unique(s: Seq<(u64, MonolithBlock)>, height: u64)
    requires
        keyed::unique_keys(s),
    ensures
        forall|block: MonolithBlock| #[trigger]
            s.contains((height, block)) ==> block == value_at(s, height),
{
    assert forall|block: MonolithBlock| #[trigger] s.contains((height, block)) implies block
        == value_at(s, height) by {
        let other = value_at(s, height);
        assert(s.contains((height, other)));
        let i = choose|i: int| 0 <= i < s.len() && s[i] == (height, block);
        let j = choose|j: int| 0 <= j < s.len() && s[j] == (height, other);
        assert(s[i].key() == s[j].key());
    }
}

/// A cache keeps its limit, and no height is in it twice, whatever is put in.
pub proof fn put_keeps_order(
    s: Seq<(u64, MonolithBlock)>,
    limit: nat,
    height: u64,
    block: MonolithBlock,
)
    requires
        keyed::unique_keys(s),
        s.len() <= limit,
        limit >= 1,
    ensures
        keyed::unique_keys(after_put(s, limit, height, block)),
        after_put(s, limit, height, block).len() <= limit,
        after_put(s, limit, height, block).last() == (height, block),
{
    let t = if keyed::contains_key(s, height) || s.len() < limit {
        keyed::without_key(s, height)
    } else {
        s.drop_first()
    };
    keyed::without_key_keeps_unique(s, height);
    if keyed::contains_key(s, height) {
        let i = choose|i: int| 0 <= i < s.len() && (#[trigger] s[i]).key() == height;
        keyed::without_is_remove(s, i);
    }
    let u = t.push((height, block));
    assert forall|a: int, b: int| 0 <= a < b < u.len() implies (#[trigger] u[a]).key() != (
    #[trigger] u[b]).key() by {
        assert(u[a] == t[a]);
        if b < t.len() {
            assert(u[b] == t[b]);
            if !(keyed::contains_key(s, height) || s.len() < limit) {
                assert(t[a] == s[a + 1] && t[b] == s[b + 1]);
            }
        } else if !(keyed::contains_key(s, height) || s.len() < limit) {
            assert(t[a] == s[a + 1]);
        } else {
            assert(t[a].key() != height);
        }
    }
}

/// A monolith that was put into the cache is found there.
pub proof fn stored_are_found(
    s: Seq<(u64, MonolithBlock)>,
    limit: nat,
    height: u64,
    block: MonolithBlock,
)
    requires
        keyed::unique_keys(s),
        s.len() <= limit,
        limit >= 1,
    ensures
        keyed::contains_key(after_put(s, limit, height, block), height),
        forall|b: MonolithBlock|
            #[trigger] after_put(s, limit, height, block).contains((height, b)) ==> b == block,
{
    put_keeps_order(s, limit, height, block);
    let t = after_put(s, limit, height, block);
    assert(t[t.len() - 1].key() == height);
    assert forall|b: MonolithBlock| #[trigger] t.contains((height, b)) implies b == block by {
        let i = choose|i: int| 0 <= i < t.len() && t[i] == (height, b);
        if i < t.len() - 1 {
            assert(t[i].key() != t[t.len() - 1].key());
        }
    }
}

/// Whether the cache agrees with what the database has at the heights from `start` on.
pub open spec fn agrees(
    s: Seq<(u64, MonolithBlock)>,
    start: int,
    stored: Seq<Option<MonolithBlock>>,
) -> bool {
    forall|h: u64, block: MonolithBlock| #[trigger]
        s.contains((h, block)) && start <= h < start + stored.len() ==> stored[h - start] == Some(
            block,
        )
}

/// Where the cache agrees with the database, a look at several heights finds what the database
/// has there, nothing else and in order, and the cache still agrees after it.
pub proof fn a_range_is_what_is_stored(
    s: Seq<(u64, MonolithBlock)>,
    limit: nat,
    start: int,
    stored: Seq<Option<MonolithBlock>>,
)
    requires
        keyed::unique_keys(s),
        s.len() <= limit,
        limit >= 1,
        0 <= start,
        start + stored.len() <= u64::MAX + 1,
        agrees(s, start, stored),
    ensures
        found_in_range(s, limit, start, stored).monoliths == those_there(stored),
        agrees(found_in_range(s, limit, start, stored).cached, start, stored),
{
    range_keeps_agreement(s, limit, start, stored, stored.len() as int);
    assert(stored.take(stored.len() as int) =~= stored);
}

proof fn range_keeps_agreement(
    s: Seq<(u64, MonolithBlock)>,
    limit: nat,
    start: int,
    stored: Seq<Option<MonolithBlock>>,
    n: int,
)
    requires
        keyed::unique_keys(s),
        s.len() <= limit,
        limit >= 1,
        0 <= start,
        start + stored.len() <= u64::MAX + 1,
        agrees(s, start, stored),
        0 <= n <= stored.len(),
    ensures
        ({
            let found = found_in_range(s, limit, start, stored.take(n));
            &&& found.monoliths == those_there(stored.take(n))
            &&& agrees(found.cached, start, stored)
            &&& keyed::unique_keys(found.cached)
            &&& found.cached.len() <= limit
        }),
    decreases n,
{
    if n > 0 {
        range_keeps_agreement(s, limit, start, stored, n - 1);
        let t = stored.take(n);
        assert(t.drop_last() =~= stored.take(n - 1));
        assert(t.last() == stored[n - 1]);
        let c = found_in_range(s, limit, start, stored.take(n - 1)).cached;
        let height = (start + n - 1) as u64;
        let after = found_in_range(s, limit, start, t).cached;
        keyed::without_key_keeps_unique(c, height);
        if keyed::contains_key(c, height) {
            let i = choose|i: int| 0 <= i < c.len() && (#[trigger] c[i]).key() == height;
            assert(c[i] == (height, c[i].1));
            assert(c.contains((height, c[i].1)));
            let block = value_at(c, height);
            assert(c.contains((height, block)));
            use_keeps_order(c, height, block);
            assert forall|h: u64, b: MonolithBlock| #[trigger]
                after.contains((h, b)) && start <= h < start + stored.len() implies stored[h - start]
                == Some(b) by {
                let k = choose|k: int| 0 <= k < after.len() && after[k] == (h, b);
                if k < after.len() - 1 {
                    assert(keyed::without_key(c, height)[k] == (h, b));
                    assert(c.contains((h, b)));
                }
            }
        } else {
            match stored[n - 1] {
                Some(block) => {
                    put_keeps_order(c, limit, height, block);
                    assert forall|h: u64, b: MonolithBlock| #[trigger]
                        after.contains((h, b)) && start <= h < start
                            + stored.len() implies stored[h - start] == Some(b) by {
                        let k = choose|k: int| 0 <= k < after.len() && after[k] == (h, b);
                        if k < after.len() - 1 {
                            if c.len() < limit {
                                assert(keyed::without_key(c, height)[k] == (h, b));
                            } else {
                                assert(c[k + 1] == (h, b));
                            }
                            assert(c.contains((h, b)));
                        }
                    }
                },
                None => {},
            }
        }
    } else {
        assert(stored.take(0).len() == 0);
    }
}

/// Where there is room in the cache, the monoliths of other heights stay in it; where there is
/// none, the one that was used longest ago goes, and no other.
pub proof fn the_longest_unused_goes(
    s: Seq<(u64, MonolithBlock)>,
    limit: nat,
    height: u64,
    block: MonolithBlock,
    i: int,
)
    requires
        keyed::unique_keys(s),
        s.len() <= limit,
        limit >= 1,
        0 <= i < s.len(),
        s[i].0 != height,
    ensures
        ({
            let t = after_put(s, limit, height, block);
            let there = exists|k: int| 0 <= k < s.len() && (#[trigger] s[k]).0 == height;
            &&& there || s.len() < limit || i > 0 ==> t.contains(s[i])
            &&& !there && s.len() == limit ==> t.len() == limit && !t.contains(s[0])
        }),
{
    let t = after_put(s, limit, height, block);
    let r = keyed::without_key(s, height);
    keyed::without_key_keeps_the_rest(s, height);
    if keyed::contains_key(s, height) {
        let k = choose|k: int| 0 <= k < s.len() && s[k].key() == height;
        assert(s[k].0 == height);
    }
    if exists|k: int| 0 <= k < s.len() && (#[trigger] s[k]).0 == height {
        let k = choose|k: int| 0 <= k < s.len() && (#[trigger] s[k]).0 == height;
        assert(s[k].key() == height);
    }
    if keyed::contains_key(s, height) || s.len() < limit {
        assert(s[i].key() == s[i].0);
        assert(r.contains(s[i]));
        let k = choose|k: int| 0 <= k < r.len() && r[k] == s[i];
        assert(t[k] == s[i]);
    } else {
        if i > 0 {
            assert(t[i - 1] == s[i]);
        }
        if t.contains(s[0]) {
            let k = choose|k: int| 0 <= k < t.len() && t[k] == s[0];
            if k < t.len() - 1 {
                assert(t[k] == s[k + 1]);
                assert(s[0].key() != s[k + 1].key());
            } else {
                assert(s[0].key() == height);
            }
        }
    }
}

proof fn cached_keys_come_from_the_range(
    s: Seq<(u64, MonolithBlock)>,
    limit: nat,
    start: int,
    stored: Seq<Option<MonolithBlock>>,
    h: u64,
)
    requires
        limit >= 1,
        0 <= start,
        start + stored.len() <= u64::MAX + 1,
        keyed::contains_key(found_in_range(s, limit, start, stored).cached, h),
    ensures
        keyed::contains_key(s, h) || start <= h < start + stored.len(),
    decreases stored.len(),
{
    if stored.len() > 0 {
        let rest = stored.drop_last();
        let before = found_in_range(s, limit, start, rest);
        let c = found_in_range(s, limit, start, stored).cached;
        let height = (start + stored.len() - 1) as u64;
        keyed::without_key_keeps_the_rest(before.cached, height);
        let k = choose|k: int| 0 <= k < c.len() && c[k].key() == h;
        if h != height {
            let e = c[k];
            assert(before.cached.contains(e)) by {
                if c != before.cached {
                    let front = c.drop_last();
                    assert(front[k] == e);
                    let w = keyed::without_key(before.cached, height);
                    if front =~= w {
                        assert(w.contains(e));
                    } else {
                        assert(front =~= before.cached.drop_first());
                        assert(before.cached[k + 1] == e);
                    }
                }
            }
            let j = choose|j: int| 0 <= j < before.cached.len() && before.cached[j] == e;
            assert(before.cached[j].key() == h);
            cached_keys_come_from_the_range(s, limit, start, rest, h);
        }
    }
}

/// Only what was in the cache before is counted as found there: where no height of the range was,
/// nothing is. Never more is counted than is found.
pub proof fn hits_were_in_the_cache(
    s: Seq<(u64, MonolithBlock)>,
    limit: nat,
    start: int,
    stored: Seq<Option<MonolithBlock>>,
)
    requires
        limit >= 1,
        0 <= start,
        start + stored.len() <= u64::MAX + 1,
    ensures
        found_in_range(s, limit, start, stored).hits <= found_in_range(
            s,
            limit,
            start,
            stored,
        ).monoliths.len() <= stored.len(),
        (forall|i: int|
            0 <= i < s.len() ==> (#[trigger] s[i]).0 < start || s[i].0 >= start + stored.len())
            ==> found_in_range(s, limit, start, stored).hits == 0,
    decreases stored.len(),
{
    if stored.len() > 0 {
        let rest = stored.drop_last();
        hits_were_in_the_cache(s, limit, start, rest);
        let before = found_in_range(s, limit, start, rest);
        let height = (start + stored.len() - 1) as u64;
        if (forall|i: int|
            0 <= i < s.len() ==> (#[trigger] s[i]).0 < start || s[i].0 >= start + stored.len())
            && keyed::contains_key(before.cached, height) {
            cached_keys_come_from_the_range(s, limit, start, rest, height);
            let i = choose|i: int| 0 <= i < s.len() && s[i].key() == height;
            assert(s[i].0 == height);
        }
    }
}

/// What is there of a range are the monoliths that are stored, one after the other.
pub proof fn those_there_come_in_order(
    stored: Seq<Option<MonolithBlock>>,
    last: Option<MonolithBlock>,
)
    ensures
        those_there(Seq::empty()).len() == 0,
        last matches Some(block) ==> those_there(stored.push(last)) == those_there(stored).push(
            block,
        ),
        last is None ==> those_there(stored.push(last)) == those_there(stored),
{
    assert(stored.push(last).drop_last() =~= stored);
}

/// The monolith at a height is the one that stands there.
pub proof fn the_monolith_at_a_height(s: Seq<(u64, MonolithBlock)>, i: int)
    requires
        keyed::unique_keys(s),
        0 <= i < s.len(),
    ensures
        value_at(s, s[i].0) == s[i].1,
{
    let h = s[i].0;
    assert(s[i] == (h, s[i].1));
    assert(s.contains((h, s[i].1)));
    let b = value_at(s, h);
    let k = choose|k: int| 0 <= k < s.len() && s[k] == (h, b);
    assert(s[k].key() == h && s[i].key() == h);
}

/// A key is read as a height only if it begins with the word for monoliths and a number follows.
pub proof fn only_keys_of_monoliths_are_read(t: Seq<char>)
    ensures
        !"monolith_"@.is_prefix_of(t) ==> height_of(text::utf8(t)) == Err::<u64, KeyError>(
            KeyError::InvalidFormat,
        ),
        height_of(text::utf8("monolith_"@ + t)) is Ok <==> text::parsed_u64(t) is Some,
        text::parsed_u64(t) matches Some(n) ==> height_of(text::utf8("monolith_"@ + t)) == Ok::<
            u64,
            KeyError,
        >(n),
        text::parsed_u64(t) is None ==> height_of(text::utf8("monolith_"@ + t)) == Err::<
            u64,
            KeyError,
        >(KeyError::InvalidHeight),
{
    vstd::utf8::encode_utf8_decode_utf8(t);
    vstd::utf8::encode_utf8_valid_utf8(t);
    vstd::utf8::encode_utf8_decode_utf8("monolith_"@ + t);
    vstd::utf8::encode_utf8_valid_utf8("monolith_"@ + t);
    let n = "monolith_"@.len() as int;
    assert(("monolith_"@ + t).skip(n) =~= t);
    assert("monolith_"@.is_prefix_of("monolith_"@ + t));
}

} // verus!
