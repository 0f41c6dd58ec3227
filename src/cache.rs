use crate::storage::distinct_keys;
use crate::types::{Memory, MemoryModel};
use lru::LruCache;
use vstd::prelude::*;

verus! {

/// lru's `LruCache`, held opaque: its contents are known through the names below.
#[verifier::external_type_specification]
#[verifier::external_body]
#[verifier::reject_recursive_types(K)]
#[verifier::reject_recursive_types(V)]
#[verifier::reject_recursive_types(S)]
pub struct ExLruCache<K, V, S>(LruCache<K, V, S>);

/// The hasher that `LruCache` uses by default, held opaque.
#[verifier::external_type_specification]
#[verifier::external_body]
pub struct ExDefaultHasher(lru::DefaultHasher);

/// The entries of a byte cache, least recently used first.
pub uninterp spec fn byte_cache_order(c: LruCache<Vec<u8>, Vec<u8>>) -> Seq<(Seq<u8>, Seq<u8>)>;

/// The number of entries that a byte cache was made to hold.
pub uninterp spec fn byte_cache_bound(c: LruCache<Vec<u8>, Vec<u8>>) -> nat;

/// The entries of a record cache, least recently used first.
pub uninterp spec fn record_cache_order(c: LruCache<String, Memory>) -> Seq<(Seq<char>, MemoryModel)>;

/// The number of entries that a record cache was made to hold.
pub uninterp spec fn record_cache_bound(c: LruCache<String, Memory>) -> nat;

// ---------------------------------------------------------------------------
// Recency bookkeeping, over the entries from least to most recently used
// ---------------------------------------------------------------------------

pub open spec fn has_key<K, V>(s: Seq<(K, V)>, k: K) -> bool {
    exists|i: int| 0 <= i < s.len() && s[i].0 == k
}

/// The position of key `k`.
pub open spec fn key_pos<K, V>(s: Seq<(K, V)>, k: K) -> int {
    choose|i: int| 0 <= i < s.len() && s[i].0 == k
}

/// The value under key `k`.
pub open spec fn value_of<K, V>(s: Seq<(K, V)>, k: K) -> V {
    s[key_pos(s, k)].1
}

/// The entries after a read of `k`: a present key becomes the most recently used.
pub open spec fn after_get<K, V>(s: Seq<(K, V)>, k: K) -> Seq<(K, V)> {
    if has_key(s, k) {
        s.remove(key_pos(s, k)).push(s[key_pos(s, k)])
    } else {
        s
    }
}

/// The entries after writing `v` under `k` with room for `cap` entries: a
/// present key is updated and becomes the most recently used; otherwise the
/// least recently used entry leaves when the cache is full.
pub open spec fn after_put<K, V>(s: Seq<(K, V)>, k: K, v: V, cap: nat) -> Seq<(K, V)> {
    if has_key(s, k) {
        s.remove(key_pos(s, k)).push((k, v))
    } else if s.len() >= cap {
        s.drop_first().push((k, v))
    } else {
        s.push((k, v))
    }
}

/// The entries after removing `k`.
pub open spec fn after_pop<K, V>(s: Seq<(K, V)>, k: K) -> Seq<(K, V)> {
    if has_key(s, k) {
        s.remove(key_pos(s, k))
    } else {
        s
    }
}

/// Keys are distinct and the entries fit the bound.
pub open spec fn lru_ok<K, V>(s: Seq<(K, V)>, cap: nat) -> bool {
    distinct_keys(s) && s.len() <= cap && cap > 0
}

// ---------------------------------------------------------------------------
// The calls into lru
// ---------------------------------------------------------------------------

/// Relies on `LruCache::new`: an empty cache that holds at most `cap` entries.
#[verifier::external_body]
fn byte_cache_new(cap: usize) -> (r: LruCache<Vec<u8>, Vec<u8>>)
    requires
        cap > 0,
    ensures
        byte_cache_order(r) == Seq::<(Seq<u8>, Seq<u8>)>::empty(),
        byte_cache_bound(r) == cap,
{
    LruCache::new(std::num::NonZeroUsize::new(cap).unwrap())
}

/// Relies on `LruCache::get`: the value under the key, which becomes the most
/// recently used entry.
#[verifier::external_body]
fn byte_cache_get(c: &mut LruCache<Vec<u8>, Vec<u8>>, k: &Vec<u8>) -> (r: Option<Vec<u8>>)
    ensures
        byte_cache_order(*final(c)) == after_get(byte_cache_order(*old(c)), k@),
        byte_cache_bound(*final(c)) == byte_cache_bound(*old(c)),
        r is Some <==> has_key(byte_cache_order(*old(c)), k@),
        r matches Some(v) ==> v@ == value_of(byte_cache_order(*old(c)), k@),
{
    c.get(k).cloned()
}

/// Relies on `LruCache::peek`: the value under the key, with the recency
/// order left as it is.
#[verifier::external_body]
fn byte_cache_peek(c: &LruCache<Vec<u8>, Vec<u8>>, k: &Vec<u8>) -> (r: Option<Vec<u8>>)
    ensures
        r is Some <==> has_key(byte_cache_order(*c), k@),
        r matches Some(v) ==> v@ == value_of(byte_cache_order(*c), k@),
{
    c.peek(k).cloned()
}

/// Relies on `LruCache::put`: stores the entry as the most recently used,
/// evicting the least recently used one when a new key meets a full cache.
#[verifier::external_body]
fn byte_cache_put(c: &mut LruCache<Vec<u8>, Vec<u8>>, k: Vec<u8>, v: Vec<u8>)
    ensures
        byte_cache_order(*final(c)) == after_put(
            byte_cache_order(*old(c)),
            k@,
            v@,
            byte_cache_bound(*old(c)),
        ),
        byte_cache_bound(*final(c)) == byte_cache_bound(*old(c)),
{
    c.put(k, v);
}

/// Relies on `LruCache::pop`: removes the entry of the key and hands back its value.
#[verifier::external_body]
fn byte_cache_pop(c: &mut LruCache<Vec<u8>, Vec<u8>>, k: &Vec<u8>) -> (r: Option<Vec<u8>>)
    ensures
        byte_cache_order(*final(c)) == after_pop(byte_cache_order(*old(c)), k@),
        byte_cache_bound(*final(c)) == byte_cache_bound(*old(c)),
        r is Some <==> has_key(byte_cache_order(*old(c)), k@),
        r matches Some(v) ==> v@ == value_of(byte_cache_order(*old(c)), k@),
{
    c.pop(k)
}

/// Relies on `LruCache::clear`: removes every entry.
#[verifier::external_body]
fn byte_cache_clear(c: &mut LruCache<Vec<u8>, Vec<u8>>)
    ensures
        byte_cache_order(*final(c)) == Seq::<(Seq<u8>, Seq<u8>)>::empty(),
        byte_cache_bound(*final(c)) == byte_cache_bound(*old(c)),
{
    c.clear();
}

/// Relies on `LruCache::len`: the number of entries.
#[verifier::external_body]
fn byte_cache_len(c: &LruCache<Vec<u8>, Vec<u8>>) -> (r: usize)
    ensures
        r == byte_cache_order(*c).len(),
{
    c.len()
}

/// Relies on `LruCache::cap`: the bound the cache was made with.
#[verifier::external_body]
fn byte_cache_cap(c: &LruCache<Vec<u8>, Vec<u8>>) -> (r: usize)
    ensures
        r == byte_cache_bound(*c),
{
    c.cap().get()
}

/// Relies on `LruCache::new`: an empty cache that holds at most `cap` entries.
#[verifier::external_body]
fn record_cache_new(cap: usize) -> (r: LruCache<String, Memory>)
    requires
        cap > 0,
    ensures
        record_cache_order(r) == Seq::<(Seq<char>, MemoryModel)>::empty(),
        record_cache_bound(r) == cap,
{
    LruCache::new(std::num::NonZeroUsize::new(cap).unwrap())
}

/// Relies on `LruCache::get`: the value under the key, which becomes the most
/// recently used entry.
#[verifier::external_body]
fn record_cache_get(c: &mut LruCache<String, Memory>, k: &String) -> (r: Option<Memory>)
    ensures
        record_cache_order(*final(c)) == after_get(record_cache_order(*old(c)), k@),
        record_cache_bound(*final(c)) == record_cache_bound(*old(c)),
        r is Some <==> has_key(record_cache_order(*old(c)), k@),
        r matches Some(v) ==> v@ == value_of(record_cache_order(*old(c)), k@),
{
    c.get(k).cloned()
}

/// Relies on `LruCache::peek`: the value under the key, with the recency
/// order left as it is.
#[verifier::external_body]
fn record_cache_peek(c: &LruCache<String, Memory>, k: &String) -> (r: Option<Memory>)
    ensures
        r is Some <==> has_key(record_cache_order(*c), k@),
        r matches Some(v) ==> v@ == value_of(record_cache_order(*c), k@),
{
    c.peek(k).cloned()
}

/// Relies on `LruCache::put`: stores the entry as the most recently used,
/// evicting the least recently used one when a new key meets a full cache.
#[verifier::external_body]
fn record_cache_put(c: &mut LruCache<String, Memory>, k: String, v: Memory)
    ensures
        record_cache_order(*final(c)) == after_put(
            record_cache_order(*old(c)),
            k@,
            v@,
            record_cache_bound(*old(c)),
        ),
        record_cache_bound(*final(c)) == record_cache_bound(*old(c)),
{
    c.put(k, v);
}

/// Relies on `LruCache::pop`: removes the entry of the key and hands back its value.
#[verifier::external_body]
fn record_cache_pop(c: &mut LruCache<String, Memory>, k: &String) -> (r: Option<Memory>)
    ensures
        record_cache_order(*final(c)) == after_pop(record_cache_order(*old(c)), k@),
        record_cache_bound(*final(c)) == record_cache_bound(*old(c)),
        r is Some <==> has_key(record_cache_order(*old(c)), k@),
        r matches Some(v) ==> v@ == value_of(record_cache_order(*old(c)), k@),
{
    c.pop(k)
}

/// Relies on `LruCache::clear`: removes every entry.
#[verifier::external_body]
fn record_cache_clear(c: &mut LruCache<String, Memory>)
    ensures
        record_cache_order(*final(c)) == Seq::<(Seq<char>, MemoryModel)>::empty(),
        record_cache_bound(*final(c)) == record_cache_bound(*old(c)),
{
    c.clear();
}

/// Relies on `LruCache::len`: the number of entries.
#[verifier::external_body]
fn record_cache_len(c: &LruCache<String, Memory>) -> (r: usize)
    ensures
        r == record_cache_order(*c).len(),
{
    c.len()
}

/// Relies on `LruCache::cap`: the bound the cache was made with.
#[verifier::external_body]
fn record_cache_cap(c: &LruCache<String, Memory>) -> (r: usize)
    ensures
        r == record_cache_bound(*c),
{
    c.cap().get()
}

// ---------------------------------------------------------------------------
// Facts about the bookkeeping
// ---------------------------------------------------------------------------

/// The size a cache gets when asked for none.
pub const DEFAULT_CAPACITY: usize = 100;

/// The bound of a cache asked to hold `capacity` entries.
pub open spec fn effective_capacity(capacity: usize) -> nat {
    if capacity == 0 {
        DEFAULT_CAPACITY as nat
    } else {
        capacity as nat
    }
}

proof fn lemma_remove_keeps<K, V>(s: Seq<(K, V)>, i: int)
    requires
        distinct_keys(s),
        0 <= i < s.len(),
    ensures
        distinct_keys(s.remove(i)),
        forall|j: int| 0 <= j < s.remove(i).len() ==> s.contains(#[trigger] s.remove(i)[j]),
        !has_key(s.remove(i), s[i].0),
{
    let u = s.remove(i);
    assert forall|j: int| 0 <= j < u.len() implies s.contains(#[trigger] u[j]) by {
        if j < i {
            assert(u[j] == s[j]);
        } else {
            assert(u[j] == s[j + 1]);
        }
    }
    assert forall|a: int, b: int| 0 <= a < b < u.len() implies u[a].0 != u[b].0 by {
        let a2 = if a < i { a } else { a + 1 };
        let b2 = if b < i { b } else { b + 1 };
        assert(u[a] == s[a2] && u[b] == s[b2]);
    }
    if has_key(u, s[i].0) {
        let j = choose|j: int| 0 <= j < u.len() && u[j].0 == s[i].0;
        let j2 = if j < i { j } else { j + 1 };
        assert(u[j] == s[j2]);
    }
}

/// What reading does to the entries: the same entries, keys still distinct.
pub proof fn lemma_after_get<K, V>(s: Seq<(K, V)>, k: K, cap: nat)
    requires
        lru_ok(s, cap),
    ensures
        lru_ok(after_get(s, k), cap),
        forall|j: int| 0 <= j < after_get(s, k).len() ==> s.contains(#[trigger] after_get(s, k)[j]),
        has_key(s, k) ==> s.contains((k, value_of(s, k))),
{
    if has_key(s, k) {
        let i = key_pos(s, k);
        lemma_remove_keeps(s, i);
        let u = s.remove(i);
        let w = u.push(s[i]);
        assert forall|a: int, b: int| 0 <= a < b < w.len() implies w[a].0 != w[b].0 by {
            if b == u.len() {
                assert(w[a] == u[a]);
                assert(!has_key(u, s[i].0));
            } else {
                assert(u[a].0 != u[b].0);
            }
        }
        assert forall|j: int| 0 <= j < w.len() implies s.contains(#[trigger] w[j]) by {
            if j < u.len() {
                assert(w[j] == u[j]);
            }
        }
    }
}

/// What writing does to the entries: each entry afterwards is the new one or
/// was there before, keys stay distinct, and the new entry is present.
pub proof fn lemma_after_put<K, V>(s: Seq<(K, V)>, k: K, v: V, cap: nat)
    requires
        lru_ok(s, cap),
    ensures
        lru_ok(after_put(s, k, v, cap), cap),
        forall|j: int|
            0 <= j < after_put(s, k, v, cap).len() ==> #[trigger] after_put(s, k, v, cap)[j] == (k, v)
                || s.contains(after_put(s, k, v, cap)[j]),
        has_key(after_put(s, k, v, cap), k),
        value_of(after_put(s, k, v, cap), k) == v,
{
    let w = after_put(s, k, v, cap);
    let u = if has_key(s, k) {
        s.remove(key_pos(s, k))
    } else if s.len() >= cap {
        s.drop_first()
    } else {
        s
    };
    if has_key(s, k) {
        lemma_remove_keeps(s, key_pos(s, k));
    } else if s.len() >= cap {
        assert forall|a: int, b: int| 0 <= a < b < u.len() implies u[a].0 != u[b].0 by {
            assert(u[a] == s[a + 1] && u[b] == s[b + 1]);
        }
        assert forall|j: int| 0 <= j < u.len() implies s.contains(#[trigger] u[j]) by {
            assert(u[j] == s[j + 1]);
        }
    } else {
        assert forall|j: int| 0 <= j < u.len() implies s.contains(#[trigger] u[j]) by {
            assert(u[j] == s[j]);
        }
    }
    assert(w == u.push((k, v)));
    assert(!has_key(u, k)) by {
        if has_key(u, k) && !has_key(s, k) {
            let j = choose|j: int| 0 <= j < u.len() && u[j].0 == k;
            assert(s.contains(u[j]));
            let j2 = choose|j2: int| 0 <= j2 < s.len() && s[j2] == u[j];
        }
    }
    assert forall|a: int, b: int| 0 <= a < b < w.len() implies w[a].0 != w[b].0 by {
        if b == u.len() {
            assert(w[a] == u[a]);
        } else {
            assert(u[a].0 != u[b].0);
        }
    }
    assert forall|j: int| 0 <= j < w.len() implies #[trigger] w[j] == (k, v) || s.contains(w[j]) by {
        if j < u.len() {
            assert(w[j] == u[j]);
        }
    }
    assert(w[w.len() - 1].0 == k);
    let p = key_pos(w, k);
    assert(w[p].0 == k);
    assert(p == w.len() - 1);
}

/// What removing does to the entries: fewer entries, none under the key.
pub proof fn lemma_after_pop<K, V>(s: Seq<(K, V)>, k: K, cap: nat)
    requires
        lru_ok(s, cap),
    ensures
        lru_ok(after_pop(s, k), cap),
        forall|j: int| 0 <= j < after_pop(s, k).len() ==> s.contains(#[trigger] after_pop(s, k)[j]),
        !has_key(after_pop(s, k), k),
{
    if has_key(s, k) {
        lemma_remove_keeps(s, key_pos(s, k));
    }
}

// ---------------------------------------------------------------------------
// The cache
// ---------------------------------------------------------------------------

/// What every cache of the library offers: bounded bookkeeping that never
/// fails on the data it holds.
pub trait Cache<K, V> {
    /// The cache's invariant.
    spec fn ready(&self) -> bool;

    /// The number of entries.
    spec fn occupancy(&self) -> nat;

    /// Whether an entry is held under `key`.
    spec fn holds(&self, key: K) -> bool;

    /// Stores `value` under `key`, evicting the least recently used entry
    /// when a new key meets a full cache.
    fn put(&mut self, key: K, value: V)
        requires
            old(self).ready(),
        ensures
            final(self).ready(),
            final(self).holds(key),
    ;

    /// Removes the entry under `key` and hands back its value.
    fn remove(&mut self, key: &K) -> (r: Option<V>)
        requires
            old(self).ready(),
        ensures
            final(self).ready(),
            !final(self).holds(*key),
            r is Some <==> old(self).holds(*key),
            final(self).occupancy() <= old(self).occupancy(),
    ;

    /// Removes every entry.
    fn clear(&mut self)
        requires
            old(self).ready(),
        ensures
            final(self).ready(),
            final(self).occupancy() == 0,
    ;

    /// The number of entries.
    fn len(&self) -> (r: usize)
        ensures
            r == self.occupancy(),
    ;

    /// Whether there are no entries.
    fn is_empty(&self) -> (r: bool)
        ensures
            r == (self.occupancy() == 0),
    ;
}

/// A bounded cache that evicts the least recently used entry.
#[verifier::reject_recursive_types(K)]
#[verifier::reject_recursive_types(V)]
pub struct LruMemoryCache<K, V> {
    cache: LruCache<K, V>,
}

impl LruMemoryCache<Vec<u8>, Vec<u8>> {
    /// The entries, least recently used first.
    pub closed spec fn entries(&self) -> Seq<(Seq<u8>, Seq<u8>)> {
        byte_cache_order(self.cache)
    }

    /// The number of entries the cache holds at most.
    pub closed spec fn bound(&self) -> nat {
        byte_cache_bound(self.cache)
    }

    pub open spec fn wf(&self) -> bool {
        lru_ok(self.entries(), self.bound())
    }

    /// An empty cache for `capacity` entries; a capacity of zero gets the default size.
    pub fn new(capacity: usize) -> (r: Self)
        ensures
            r.wf(),
            r.entries() == Seq::<(Seq<u8>, Seq<u8>)>::empty(),
            r.bound() == effective_capacity(capacity),
    {
        let cap = if capacity == 0 {
            DEFAULT_CAPACITY
        } else {
            capacity
        };
        LruMemoryCache { cache: byte_cache_new(cap) }
    }

    /// The value under `key`, which becomes the most recently used entry.
    pub fn get_cloned(&mut self, key: &Vec<u8>) -> (r: Option<Vec<u8>>)
        requires
            old(self).wf(),
        ensures
            final(self).wf(),
            final(self).entries() == after_get(old(self).entries(), key@),
            final(self).bound() == old(self).bound(),
            r is Some <==> has_key(old(self).entries(), key@),
            r matches Some(v) ==> v@ == value_of(old(self).entries(), key@),
    {
        proof {
            lemma_after_get(self.entries(), key@, self.bound());
        }
        byte_cache_get(&mut self.cache, key)
    }

    /// The value under `key`, with the recency order left as it is.
    pub fn peek(&self, key: &Vec<u8>) -> (r: Option<Vec<u8>>)
        ensures
            r is Some <==> has_key(self.entries(), key@),
            r matches Some(v) ==> v@ == value_of(self.entries(), key@),
    {
        byte_cache_peek(&self.cache, key)
    }

    /// Stores `value` under `key` as the most recently used entry.
    pub fn insert(&mut self, key: Vec<u8>, value: Vec<u8>)
        requires
            old(self).wf(),
        ensures
            final(self).wf(),
            final(self).entries() == after_put(old(self).entries(), key@, value@, old(self).bound()),
            final(self).bound() == old(self).bound(),
    {
        proof {
            lemma_after_put(self.entries(), key@, value@, self.bound());
        }
        byte_cache_put(&mut self.cache, key, value);
    }

    /// Removes the entry under `key` and hands back its value.
    pub fn invalidate(&mut self, key: &Vec<u8>) -> (r: Option<Vec<u8>>)
        requires
            old(self).wf(),
        ensures
            final(self).wf(),
            final(self).entries() == after_pop(old(self).entries(), key@),
            final(self).bound() == old(self).bound(),
            r is Some <==> has_key(old(self).entries(), key@),
            r matches Some(v) ==> v@ == value_of(old(self).entries(), key@),
    {
        proof {
            lemma_after_pop(self.entries(), key@, self.bound());
        }
        byte_cache_pop(&mut self.cache, key)
    }

    /// Removes every entry.
    pub fn clear(&mut self)
        requires
            old(self).wf(),
        ensures
            final(self).wf(),
            final(self).entries() == Seq::<(Seq<u8>, Seq<u8>)>::empty(),
            final(self).bound() == old(self).bound(),
    {
        byte_cache_clear(&mut self.cache);
    }

    /// The number of entries.
    pub fn len(&self) -> (r: usize)
        ensures
            r == self.entries().len(),
    {
        byte_cache_len(&self.cache)
    }

    /// The number of entries the cache holds at most.
    pub fn capacity(&self) -> (r: usize)
        ensures
            r == self.bound(),
    {
        byte_cache_cap(&self.cache)
    }
}

impl LruMemoryCache<String, Memory> {
    /// The entries, least recently used first.
    pub closed spec fn entries(&self) -> Seq<(Seq<char>, MemoryModel)> {
        record_cache_order(self.cache)
    }

    /// The number of entries the cache holds at most.
    pub closed spec fn bound(&self) -> nat {
        record_cache_bound(self.cache)
    }

    pub open spec fn wf(&self) -> bool {
        lru_ok(self.entries(), self.bound())
    }

    /// An empty cache for `capacity` entries; a capacity of zero gets the default size.
    pub fn new(capacity: usize) -> (r: Self)
        ensures
            r.wf(),
            r.entries() == Seq::<(Seq<char>, MemoryModel)>::empty(),
            r.bound() == effective_capacity(capacity),
    {
        let cap = if capacity == 0 {
            DEFAULT_CAPACITY
        } else {
            capacity
        };
        LruMemoryCache { cache: record_cache_new(cap) }
    }

    /// The value under `key`, which becomes the most recently used entry.
    pub fn get_cloned(&mut self, key: &String) -> (r: Option<Memory>)
        requires
            old(self).wf(),
        ensures
            final(self).wf(),
            final(self).entries() == after_get(old(self).entries(), key@),
            final(self).bound() == old(self).bound(),
            r is Some <==> has_key(old(self).entries(), key@),
            r matches Some(v) ==> v@ == value_of(old(self).entries(), key@),
    {
        proof {
            lemma_after_get(self.entries(), key@, self.bound());
        }
        record_cache_get(&mut self.cache, key)
    }

    /// The value under `key`, with the recency order left as it is.
    pub fn peek(&self, key: &String) -> (r: Option<Memory>)
        ensures
            r is Some <==> has_key(self.entries(), key@),
            r matches Some(v) ==> v@ == value_of(self.entries(), key@),
    {
        record_cache_peek(&self.cache, key)
    }

    /// Stores `value` under `key` as the most recently used entry.
    pub fn insert(&mut self, key: String, value: Memory)
        requires
            old(self).wf(),
        ensures
            final(self).wf(),
            final(self).entries() == after_put(old(self).entries(), key@, value@, old(self).bound()),
            final(self).bound() == old(self).bound(),
    {
        proof {
            lemma_after_put(self.entries(), key@, value@, self.bound());
        }
        record_cache_put(&mut self.cache, key, value);
    }

    /// Removes the entry under `key` and hands back its value.
    pub fn invalidate(&mut self, key: &String) -> (r: Option<Memory>)
        requires
            old(self).wf(),
        ensures
            final(self).wf(),
            final(self).entries() == after_pop(old(self).entries(), key@),
            final(self).bound() == old(self).bound(),
            r is Some <==> has_key(old(self).entries(), key@),
            r matches Some(v) ==> v@ == value_of(old(self).entries(), key@),
    {
        proof {
            lemma_after_pop(self.entries(), key@, self.bound());
        }
        record_cache_pop(&mut self.cache, key)
    }

    /// Removes every entry.
    pub fn clear(&mut self)
        requires
            old(self).wf(),
        ensures
            final(self).wf(),
            final(self).entries() == Seq::<(Seq<char>, MemoryModel)>::empty(),
            final(self).bound() == old(self).bound(),
    {
        record_cache_clear(&mut self.cache);
    }

    /// The number of entries.
    pub fn len(&self) -> (r: usize)
        ensures
            r == self.entries().len(),
    {
        record_cache_len(&self.cache)
    }

    /// The number of entries the cache holds at most.
    pub fn capacity(&self) -> (r: usize)
        ensures
            r == self.bound(),
    {
        record_cache_cap(&self.cache)
    }
}

impl Cache<Vec<u8>, Vec<u8>> for LruMemoryCache<Vec<u8>, Vec<u8>> {
    open spec fn ready(&self) -> bool {
        self.wf()
    }

    open spec fn occupancy(&self) -> nat {
        self.entries().len()
    }

    open spec fn holds(&self, key: Vec<u8>) -> bool {
        has_key(self.entries(), key@)
    }

    fn put(&mut self, key: Vec<u8>, value: Vec<u8>) {
        proof {
            lemma_after_put(self.entries(), key@, value@, self.bound());
        }
        self.insert(key, value);
    }

    fn remove(&mut self, key: &Vec<u8>) -> (r: Option<Vec<u8>>) {
        proof {
            lemma_after_pop(self.entries(), key@, self.bound());
        }
        let ghost s = self.entries();
        let r = self.invalidate(key);
        proof {
            if has_key(s, key@) {
                assert(self.entries() == s.remove(key_pos(s, key@)));
            }
        }
        r
    }

    fn clear(&mut self) {
        LruMemoryCache::<Vec<u8>, Vec<u8>>::clear(self);
    }

    fn len(&self) -> (r: usize) {
        LruMemoryCache::<Vec<u8>, Vec<u8>>::len(self)
    }

    fn is_empty(&self) -> (r: bool) {
        LruMemoryCache::<Vec<u8>, Vec<u8>>::len(self) == 0
    }
}

impl Cache<String, Memory> for LruMemoryCache<String, Memory> {
    open spec fn ready(&self) -> bool {
        self.wf()
    }

    open spec fn occupancy(&self) -> nat {
        self.entries().len()
    }

    open spec fn holds(&self, key: String) -> bool {
        has_key(self.entries(), key@)
    }

    fn put(&mut self, key: String, value: Memory) {
        proof {
            lemma_after_put(self.entries(), key@, value@, self.bound());
        }
        self.insert(key, value);
    }

    fn remove(&mut self, key: &String) -> (r: Option<Memory>) {
        proof {
            lemma_after_pop(self.entries(), key@, self.bound());
        }
        let ghost s = self.entries();
        let r = self.invalidate(key);
        proof {
            if has_key(s, key@) {
                assert(self.entries() == s.remove(key_pos(s, key@)));
            }
        }
        r
    }

    fn clear(&mut self) {
        LruMemoryCache::<String, Memory>::clear(self);
    }

    fn len(&self) -> (r: usize) {
        LruMemoryCache::<String, Memory>::len(self)
    }

    fn is_empty(&self) -> (r: bool) {
        LruMemoryCache::<String, Memory>::len(self) == 0
    }
}

} // verus!
