use vstd::prelude::*;

use crate::errors::CacheError;
use crate::external::now_millis;

verus! {

/// Configuration of the two-tier cache: tier capacities and an optional
/// time-to-live in seconds (`None` means entries never expire).
#[derive(Debug, Clone)]
pub struct CacheConfig {
    pub l1_size: usize,
    pub l2_size: usize,
    pub ttl_seconds: Option<u64>,
    pub enable_compression: bool,
}

impl Default for CacheConfig {
    /// A hot tier of 1000 entries, a warm tier of 10000, one hour of life.
    fn default() -> (r: CacheConfig)
        ensures
            r.l1_size == 1000,
            r.l2_size == 10000,
            r.ttl_seconds == Some(3600u64),
            !r.enable_compression,
    {
        CacheConfig { l1_size: 1000, l2_size: 10000, ttl_seconds: Some(3600), enable_compression: false }
    }
}

/// A cached value with its metadata: creation time, access counter and
/// last-access time, all in milliseconds of a caller-supplied clock.
#[derive(Debug, Clone)]
pub struct CacheEntry {
    pub data: Vec<u8>,
    pub created_at: u64,
    pub access_count: u64,
    pub last_accessed: u64,
}

/// A counter bumped by one, saturating at the type's maximum.
pub open spec fn inc64(x: u64) -> u64 {
    if x == u64::MAX {
        x
    } else {
        (x + 1) as u64
    }
}

/// Whether an entry has outlived `ttl` seconds at time `now`: its age
/// exceeds the ttl, compared in milliseconds. Entries never expire without
/// a ttl, and a clock that moved backwards reads as no age.
pub open spec fn spec_expired(e: CacheEntry, ttl: Option<u64>, now: u64) -> bool {
    match ttl {
        Some(t) => (if now >= e.created_at {
            (now - e.created_at) as int
        } else {
            0
        }) > t * 1000,
        None => false,
    }
}

impl CacheEntry {
    /// A fresh entry created at time `now`, already counted as accessed once.
    pub fn new(data: Vec<u8>, now: u64) -> (r: CacheEntry)
        ensures
            r.data == data,
            r.created_at == now,
            r.access_count == 1,
            r.last_accessed == now,
    {
        CacheEntry { data, created_at: now, access_count: 1, last_accessed: now }
    }

    /// Record an access at time `now`.
    pub fn access(&mut self, now: u64)
        ensures
            final(self).data == old(self).data,
            final(self).created_at == old(self).created_at,
            final(self).access_count == inc64(old(self).access_count),
            final(self).last_accessed == now,
    {
        if self.access_count < u64::MAX {
            self.access_count = self.access_count + 1;
        }
        self.last_accessed = now;
    }

    /// Whether the entry has outlived `ttl_seconds` at time `now`.
    pub fn is_expired(&self, ttl_seconds: u64, now: u64) -> (r: bool)
        ensures
            r == spec_expired(*self, Some(ttl_seconds), now),
    {
        let elapsed_ms = if now >= self.created_at {
            now - self.created_at
        } else {
            0
        };
        match ttl_seconds.checked_mul(1000) {
            Some(limit) => elapsed_ms > limit,
            None => false,
        }
    }
}

#[verifier::external_type_specification]
#[verifier::external_body]
#[verifier::reject_recursive_types(K)]
#[verifier::reject_recursive_types(V)]
#[verifier::reject_recursive_types(S)]
pub struct ExDashMap<K, V, S>(dashmap::DashMap<K, V, S>);

/// The empty tier.
pub open spec fn empty_tier() -> Map<Seq<char>, CacheEntry> {
    Map::empty()
}

/// Two entries carry the same bytes and metadata: equality up to cloning,
/// since a cloned byte vector is promised equal only in its contents.
pub open spec fn entry_like(a: CacheEntry, b: CacheEntry) -> bool {
    &&& a.data@ == b.data@
    &&& a.created_at == b.created_at
    &&& a.access_count == b.access_count
    &&& a.last_accessed == b.last_accessed
}

/// What a cache tier holds, as a map from key characters to entries.
pub uninterp spec fn tier_contents(m: dashmap::DashMap<String, CacheEntry>) -> Map<
    Seq<char>,
    CacheEntry,
>;

/// Relies on dashmap::DashMap::new: a new map holds nothing.
#[verifier::external_body]
fn tier_new() -> (m: dashmap::DashMap<String, CacheEntry>)
    ensures
        tier_contents(m) == empty_tier(),
{
    dashmap::DashMap::new()
}

/// Relies on dashmap::DashMap::get: a clone of the value stored under the
/// key, if any.
#[verifier::external_body]
fn tier_get(m: &dashmap::DashMap<String, CacheEntry>, key: &str) -> (r: Option<CacheEntry>)
    ensures
        (r is Some) == tier_contents(*m).dom().contains(key@),
        r matches Some(e) ==> entry_like(e, tier_contents(*m)[key@]),
{
    m.get(key).map(|e| e.value().clone())
}

/// Relies on dashmap::DashMap::insert: stores the value under the key,
/// replacing and returning what was there.
#[verifier::external_body]
fn tier_insert(
    m: &mut dashmap::DashMap<String, CacheEntry>,
    key: String,
    value: CacheEntry,
) -> (r: Option<CacheEntry>)
    ensures
        tier_contents(*final(m)) == tier_contents(*old(m)).insert(key@, value),
        r == if tier_contents(*old(m)).dom().contains(key@) {
            Some(tier_contents(*old(m))[key@])
        } else {
            None::<CacheEntry>
        },
{
    m.insert(key, value)
}

/// Relies on dashmap::DashMap::remove: deletes the key, returning its value.
#[verifier::external_body]
fn tier_remove(m: &mut dashmap::DashMap<String, CacheEntry>, key: &str) -> (r: Option<CacheEntry>)
    ensures
        tier_contents(*final(m)) == tier_contents(*old(m)).remove(key@),
        r == if tier_contents(*old(m)).dom().contains(key@) {
            Some(tier_contents(*old(m))[key@])
        } else {
            None::<CacheEntry>
        },
{
    m.remove(key).map(|(_, v)| v)
}

/// Relies on dashmap::DashMap::len: how many entries the map holds.
#[verifier::external_body]
fn tier_len(m: &dashmap::DashMap<String, CacheEntry>) -> (r: usize)
    ensures
        r == tier_contents(*m).dom().len(),
{
    m.len()
}

/// Relies on dashmap::DashMap::contains_key.
#[verifier::external_body]
fn tier_contains(m: &dashmap::DashMap<String, CacheEntry>, key: &str) -> (r: bool)
    ensures
        r == tier_contents(*m).dom().contains(key@),
{
    m.contains_key(key)
}

/// Relies on dashmap::DashMap::clear: empties the map.
#[verifier::external_body]
fn tier_clear(m: &mut dashmap::DashMap<String, CacheEntry>)
    ensures
        tier_contents(*final(m)) == empty_tier(),
{
    m.clear()
}

/// Relies on dashmap::DashMap::iter: every entry exactly once, in no
/// promised order.
#[verifier::external_body]
fn tier_entries(m: &dashmap::DashMap<String, CacheEntry>) -> (r: Vec<(String, CacheEntry)>)
    ensures
        forall|i: int|
            0 <= i < r@.len() ==> tier_contents(*m).dom().contains((#[trigger] r@[i]).0@)
                && entry_like(r@[i].1, tier_contents(*m)[r@[i].0@]),
        forall|k: Seq<char>|
            #[trigger] tier_contents(*m).dom().contains(k) ==> exists|i: int|
                0 <= i < r@.len() && (#[trigger] r@[i]).0@ == k,
        forall|i: int, j: int| 0 <= i < j < r@.len() ==> r@[i].0@ != r@[j].0@,
{
    m.iter().map(|e| (e.key().clone(), e.value().clone())).collect()
}

/// Statistics of the tiered cache: monotonic hit/miss/eviction counters and
/// the current size of each tier.
#[derive(Debug, Clone)]
pub struct CacheStats {
    pub hits: u64,
    pub misses: u64,
    pub evictions: u64,
    pub l1_size: usize,
    pub l2_size: usize,
}

impl Default for CacheStats {
    /// All counters and sizes at zero.
    fn default() -> (r: CacheStats)
        ensures
            r.hits == 0 && r.misses == 0 && r.evictions == 0 && r.l1_size == 0 && r.l2_size == 0,
    {
        CacheStats { hits: 0, misses: 0, evictions: 0, l1_size: 0, l2_size: 0 }
    }
}

/// A two-tier cache of byte payloads under string keys: a capacity-bounded
/// hot tier and warm tier, lazy TTL expiry, promotion of warm hits and
/// demotion of evicted hot entries. Time enters only as explicit
/// millisecond values, so every rule about it is checked.
#[derive(Debug)]
pub struct CacheManager {
    pub config: CacheConfig,
    l1_cache: dashmap::DashMap<String, CacheEntry>,
    l2_cache: dashmap::DashMap<String, CacheEntry>,
    stats: CacheStats,
}

impl CacheManager {
    /// What the hot tier holds.
    pub closed spec fn l1_view(self) -> Map<Seq<char>, CacheEntry> {
        tier_contents(self.l1_cache)
    }

    /// What the warm tier holds.
    pub closed spec fn l2_view(self) -> Map<Seq<char>, CacheEntry> {
        tier_contents(self.l2_cache)
    }

    /// The current statistics.
    pub closed spec fn stats_spec(self) -> CacheStats {
        self.stats
    }

    /// The configuration.
    pub closed spec fn config_spec(self) -> CacheConfig {
        self.config
    }

    /// Well-formedness: both tiers are finite, no key is in both at once,
    /// and the statistics carry the true tier sizes.
    pub open spec fn wf(self) -> bool {
        &&& self.l1_view().dom().finite()
        &&& self.l2_view().dom().finite()
        &&& forall|k: Seq<char>|
            #[trigger] self.l1_view().dom().contains(k) ==> !self.l2_view().dom().contains(k)
        &&& self.stats_spec().l1_size == self.l1_view().dom().len()
        &&& self.stats_spec().l2_size == self.l2_view().dom().len()
    }

    /// The entry currently stored for a key, wherever it sits.
    pub open spec fn lookup(self, k: Seq<char>) -> Option<CacheEntry> {
        if self.l1_view().dom().contains(k) {
            Some(self.l1_view()[k])
        } else if self.l2_view().dom().contains(k) {
            Some(self.l2_view()[k])
        } else {
            None
        }
    }

    /// A key holds an unexpired entry of the map at time `now`.
    pub open spec fn fresh_hit(
        m: Map<Seq<char>, CacheEntry>,
        k: Seq<char>,
        ttl: Option<u64>,
        now: u64,
    ) -> bool {
        m.dom().contains(k) && !spec_expired(m[k], ttl, now)
    }

    /// A cache with the default configuration.
    pub fn new() -> (r: CacheManager)
        ensures
            r.wf(),
            r.l1_view() =~= Map::<Seq<char>, CacheEntry>::empty(),
            r.l2_view() =~= Map::<Seq<char>, CacheEntry>::empty(),
            r.stats_spec().hits == 0 && r.stats_spec().misses == 0 && r.stats_spec().evictions
                == 0,
            r.config_spec().l1_size == 1000 && r.config_spec().l2_size == 10000,
    {
        Self::with_config(CacheConfig::default())
    }

    /// A cache with the given configuration, holding nothing.
    pub fn with_config(config: CacheConfig) -> (r: CacheManager)
        ensures
            r.wf(),
            r.l1_view() =~= Map::<Seq<char>, CacheEntry>::empty(),
            r.l2_view() =~= Map::<Seq<char>, CacheEntry>::empty(),
            r.stats_spec().hits == 0 && r.stats_spec().misses == 0 && r.stats_spec().evictions
                == 0,
            r.config_spec() == config,
    {
        let r = CacheManager {
            config,
            l1_cache: tier_new(),
            l2_cache: tier_new(),
            stats: CacheStats::default(),
        };
        proof {
            assert(r.l1_view().dom() =~= Set::<Seq<char>>::empty());
            assert(r.l2_view().dom() =~= Set::<Seq<char>>::empty());
        }
        r
    }

    /// Whether the entry has outlived the configured time-to-live at `now`.
    fn is_entry_expired(&self, entry: &CacheEntry, now: u64) -> (r: bool)
        ensures
            r == spec_expired(*entry, self.config_spec().ttl_seconds, now),
    {
        match self.config.ttl_seconds {
            Some(ttl) => entry.is_expired(ttl, now),
            None => false,
        }
    }

    /// Look a key up at time `now`. A fresh hot hit bumps the entry; a fresh
    /// warm hit is promoted into the hot tier when it has room, resetting
    /// the entry's lifetime. An expired entry is purged from its tier, and
    /// a miss in both tiers is recorded and returns nothing.
    pub fn get_at(&mut self, key: &str, now: u64) -> (r: Option<Vec<u8>>)
        requires
            old(self).wf(),
        ensures
            final(self).wf(),
            final(self).config_spec() == old(self).config_spec(),
            (r is Some) <==> (Self::fresh_hit(
                old(self).l1_view(),
                key@,
                old(self).config_spec().ttl_seconds,
                now,
            ) || Self::fresh_hit(old(self).l2_view(), key@, old(self).config_spec().ttl_seconds, now)),
            r matches Some(d) ==> d@ == (if old(self).l1_view().dom().contains(key@) {
                old(self).l1_view()[key@].data@
            } else {
                old(self).l2_view()[key@].data@
            }),
            r matches Some(d) ==> (final(self).lookup(key@) matches Some(e) && e.data@ == d@
                && e.last_accessed == now),
            r is None ==> !final(self).l1_view().dom().contains(key@) && !final(self).l2_view().dom().contains(key@),
            r is Some ==> final(self).stats_spec().hits == inc64(old(self).stats_spec().hits)
                && final(self).stats_spec().misses == old(self).stats_spec().misses,
            r is None ==> final(self).stats_spec().misses == inc64(old(self).stats_spec().misses)
                && final(self).stats_spec().hits == old(self).stats_spec().hits,
            final(self).stats_spec().evictions == old(self).stats_spec().evictions,
            forall|k2: Seq<char>|
                k2 != key@ ==> ((#[trigger] final(self).l1_view().dom().contains(k2) <==> old(self).l1_view().dom().contains(k2)) && (final(self).l1_view().dom().contains(k2)
                    ==> final(self).l1_view()[k2] == old(self).l1_view()[k2])),
            forall|k2: Seq<char>|
                k2 != key@ ==> ((#[trigger] final(self).l2_view().dom().contains(k2) <==> old(self).l2_view().dom().contains(k2)) && (final(self).l2_view().dom().contains(k2)
                    ==> final(self).l2_view()[k2] == old(self).l2_view()[k2])),
            // a fresh hot hit stays hot, with bumped access metadata
            Self::fresh_hit(old(self).l1_view(), key@, old(self).config_spec().ttl_seconds, now)
                ==> {
                &&& final(self).l1_view().dom() =~= old(self).l1_view().dom()
                &&& final(self).l1_view()[key@].data@ == old(self).l1_view()[key@].data@
                &&& final(self).l1_view()[key@].created_at == old(self).l1_view()[key@].created_at
                &&& final(self).l1_view()[key@].access_count == inc64(
                    old(self).l1_view()[key@].access_count,
                )
                &&& final(self).l1_view()[key@].last_accessed == now
                &&& final(self).l2_view() == old(self).l2_view()
            },
            // a fresh warm hit is promoted when the hot tier has room,
            // resetting the entry's lifetime; otherwise it stays warm,
            // bumped in place
            (!old(self).l1_view().dom().contains(key@) && Self::fresh_hit(
                old(self).l2_view(),
                key@,
                old(self).config_spec().ttl_seconds,
                now,
            )) ==> (if old(self).l1_view().dom().len() < old(self).config_spec().l1_size {
                &&& final(self).l1_view().dom() =~= old(self).l1_view().dom().insert(key@)
                &&& final(self).l1_view()[key@].data@ == old(self).l2_view()[key@].data@
                &&& final(self).l1_view()[key@].created_at == now
                &&& final(self).l1_view()[key@].access_count == 1
                &&& final(self).l1_view()[key@].last_accessed == now
                &&& final(self).l2_view() =~= old(self).l2_view().remove(key@)
            } else {
                &&& final(self).l1_view() == old(self).l1_view()
                &&& final(self).l2_view().dom() =~= old(self).l2_view().dom()
                &&& final(self).l2_view()[key@].data@ == old(self).l2_view()[key@].data@
                &&& final(self).l2_view()[key@].created_at == old(self).l2_view()[key@].created_at
                &&& final(self).l2_view()[key@].access_count == inc64(
                    old(self).l2_view()[key@].access_count,
                )
                &&& final(self).l2_view()[key@].last_accessed == now
            }),
    {
        let ghost k = key@;
        match tier_get(&self.l1_cache, key) {
            Some(entry) => {
                if !self.is_entry_expired(&entry, now) {
                    let mut bumped = entry;
                    bumped.access(now);
                    let data = bumped.data.clone();
                    tier_insert(&mut self.l1_cache, key.to_owned(), bumped);
                    if self.stats.hits < u64::MAX {
                        self.stats.hits = self.stats.hits + 1;
                    }
                    proof {
                        assert(self.l1_view().dom() =~= old(self).l1_view().dom());
                    }
                    return Some(data);
                }
                tier_remove(&mut self.l1_cache, key);
                self.stats.l1_size = tier_len(&self.l1_cache);
            },
            None => {},
        }
        match tier_get(&self.l2_cache, key) {
            Some(entry) => {
                if !self.is_entry_expired(&entry, now) {
                    let mut bumped = entry;
                    bumped.access(now);
                    let data = bumped.data.clone();
                    if tier_len(&self.l1_cache) < self.config.l1_size {
                        // promote: a fresh entry enters the hot tier and the
                        // warm copy goes away
                        tier_remove(&mut self.l2_cache, key);
                        let promoted = CacheEntry::new(data.clone(), now);
                        tier_insert(&mut self.l1_cache, key.to_owned(), promoted);
                        self.stats.l1_size = tier_len(&self.l1_cache);
                        self.stats.l2_size = tier_len(&self.l2_cache);
                    } else {
                        tier_insert(&mut self.l2_cache, key.to_owned(), bumped);
                        proof {
                            assert(self.l2_view().dom() =~= old(self).l2_view().dom());
                        }
                    }
                    if self.stats.hits < u64::MAX {
                        self.stats.hits = self.stats.hits + 1;
                    }
                    return Some(data);
                }
                tier_remove(&mut self.l2_cache, key);
                self.stats.l2_size = tier_len(&self.l2_cache);
            },
            None => {},
        }
        if self.stats.misses < u64::MAX {
            self.stats.misses = self.stats.misses + 1;
        }
        None
    }

    /// Store a value at time `now`. The hot tier at capacity first evicts
    /// one entry with the oldest last-access time, demoting it into the
    /// warm tier only if that has spare room; the new entry then enters the
    /// hot tier unconditionally, and the key leaves the warm tier so that
    /// it is never in both.
    pub fn put_at(&mut self, key: &str, value: Vec<u8>, now: u64) -> (r: Result<(), CacheError>)
        requires
            old(self).wf(),
        ensures
            final(self).wf(),
            final(self).config_spec() == old(self).config_spec(),
            r is Ok,
            final(self).l1_view().dom().contains(key@),
            final(self).l1_view()[key@].data@ == value@,
            final(self).l1_view()[key@].created_at == now,
            final(self).l1_view()[key@].access_count == 1,
            final(self).l1_view()[key@].last_accessed == now,
            !final(self).l2_view().dom().contains(key@),
            final(self).stats_spec().hits == old(self).stats_spec().hits,
            final(self).stats_spec().misses == old(self).stats_spec().misses,
            old(self).l1_view().dom().len() < old(self).config_spec().l1_size ==> {
                &&& final(self).l1_view().dom() =~= old(self).l1_view().dom().insert(key@)
                &&& forall|k2: Seq<char>|
                    k2 != key@ && #[trigger] old(self).l1_view().dom().contains(k2) ==> final(self).l1_view()[k2] == old(self).l1_view()[k2]
                &&& final(self).l2_view() =~= old(self).l2_view().remove(key@)
                &&& final(self).stats_spec().evictions == old(self).stats_spec().evictions
            },
            old(self).l1_view().dom().len() >= old(self).config_spec().l1_size && old(self).l1_view().dom().len() > 0 ==> exists|v: Seq<char>|
                {
                    &&& #[trigger] old(self).l1_view().dom().contains(v)
                    &&& forall|k2: Seq<char>|
                        #[trigger] old(self).l1_view().dom().contains(k2) ==> old(self).l1_view()[v].last_accessed <= old(self).l1_view()[k2].last_accessed
                    &&& final(self).l1_view().dom() =~= old(self).l1_view().dom().remove(v).insert(
                        key@,
                    )
                    &&& forall|k2: Seq<char>|
                        k2 != key@ && #[trigger] final(self).l1_view().dom().contains(k2) ==> final(self).l1_view()[k2] == old(self).l1_view()[k2]
                    &&& (if old(self).l2_view().dom().len() < old(self).config_spec().l2_size && v
                        != key@ {
                        final(self).l2_view() =~= old(self).l2_view().remove(key@).insert(
                            v,
                            old(self).l1_view()[v],
                        )
                    } else {
                        final(self).l2_view() =~= old(self).l2_view().remove(key@)
                    })
                    &&& final(self).stats_spec().evictions == inc64(
                        old(self).stats_spec().evictions,
                    )
                },
    {
        let entry = CacheEntry::new(value, now);
        if tier_len(&self.l1_cache) >= self.config.l1_size && tier_len(&self.l1_cache) > 0 {
            self.evict_l1();
        }
        tier_remove(&mut self.l2_cache, key);
        tier_insert(&mut self.l1_cache, key.to_owned(), entry);
        self.stats.l1_size = tier_len(&self.l1_cache);
        self.stats.l2_size = tier_len(&self.l2_cache);
        Ok(())
    }

    /// Move one least-recently-accessed hot entry out, into the warm tier
    /// if it has room, otherwise dropping it.
    fn evict_l1(&mut self)
        requires
            old(self).wf(),
            old(self).l1_view().dom().len() > 0,
        ensures
            final(self).config_spec() == old(self).config_spec(),
            final(self).l1_view().dom().finite(),
            final(self).l2_view().dom().finite(),
            final(self).stats_spec().hits == old(self).stats_spec().hits,
            final(self).stats_spec().misses == old(self).stats_spec().misses,
            final(self).stats_spec().evictions == inc64(old(self).stats_spec().evictions),
            final(self).stats_spec().l1_size == old(self).stats_spec().l1_size,
            final(self).stats_spec().l2_size == old(self).stats_spec().l2_size,
            exists|v: Seq<char>|
                {
                    &&& #[trigger] old(self).l1_view().dom().contains(v)
                    &&& forall|k2: Seq<char>|
                        #[trigger] old(self).l1_view().dom().contains(k2) ==> old(self).l1_view()[v].last_accessed <= old(self).l1_view()[k2].last_accessed
                    &&& final(self).l1_view() =~= old(self).l1_view().remove(v)
                    &&& (if old(self).l2_view().dom().len() < old(self).config_spec().l2_size {
                        final(self).l2_view() =~= old(self).l2_view().insert(
                            v,
                            old(self).l1_view()[v],
                        )
                    } else {
                        final(self).l2_view() =~= old(self).l2_view()
                    })
                },
    {
        let entries = tier_entries(&self.l1_cache);
        proof {
            assert(old(self).l1_view().dom().len() > 0);
            let some_k = old(self).l1_view().dom().choose();
            assert(old(self).l1_view().dom().contains(some_k));
            assert(entries@.len() > 0) by {
                assert(exists|i: int|
                    0 <= i < entries@.len() && (#[trigger] entries@[i]).0@ == some_k);
            }
        }
        let mut best: usize = 0;
        let mut i: usize = 1;
        while i < entries.len()
            invariant
                0 < entries@.len(),
                0 <= best < entries@.len(),
                0 < i <= entries@.len(),
                forall|j: int|
                    0 <= j < i ==> entries@[best as int].1.last_accessed <= (
                    #[trigger] entries@[j]).1.last_accessed,
            decreases entries@.len() - i,
        {
            if entries[i].1.last_accessed < entries[best].1.last_accessed {
                best = i;
            }
            i = i + 1;
        }
        let ghost v = entries@[best as int].0@;
        proof {
            assert(old(self).l1_view().dom().contains(v));
            assert(entry_like(entries@[best as int].1, old(self).l1_view()[v]));
            assert forall|k2: Seq<char>| #[trigger] old(self).l1_view().dom().contains(k2) implies
                old(self).l1_view()[v].last_accessed <= old(self).l1_view()[k2].last_accessed by {
                let j = choose|j: int| 0 <= j < entries@.len() && (#[trigger] entries@[j]).0@ == k2;
                assert(entry_like(entries@[j].1, old(self).l1_view()[k2]));
                assert(entries@[best as int].1.last_accessed <= entries@[j].1.last_accessed);
            }
        }
        let victim = match tier_remove(&mut self.l1_cache, entries[best].0.as_str()) {
            Some(e) => e,
            None => unreached(),
        };
        if tier_len(&self.l2_cache) < self.config.l2_size {
            let victim_key = entries[best].0.clone();
            tier_insert(&mut self.l2_cache, victim_key, victim);
        }
        if self.stats.evictions < u64::MAX {
            self.stats.evictions = self.stats.evictions + 1;
        }
    }

    /// Delete a key from both tiers; reports whether anything was there.
    pub fn remove(&mut self, key: &str) -> (r: Result<bool, CacheError>)
        requires
            old(self).wf(),
        ensures
            final(self).wf(),
            final(self).config_spec() == old(self).config_spec(),
            r matches Ok(b) && b == (old(self).l1_view().dom().contains(key@) || old(self).l2_view().dom().contains(key@)),
            final(self).l1_view() =~= old(self).l1_view().remove(key@),
            final(self).l2_view() =~= old(self).l2_view().remove(key@),
            final(self).stats_spec().hits == old(self).stats_spec().hits,
            final(self).stats_spec().misses == old(self).stats_spec().misses,
            final(self).stats_spec().evictions == old(self).stats_spec().evictions,
    {
        let l1_removed = tier_remove(&mut self.l1_cache, key).is_some();
        let l2_removed = tier_remove(&mut self.l2_cache, key).is_some();
        self.stats.l1_size = tier_len(&self.l1_cache);
        self.stats.l2_size = tier_len(&self.l2_cache);
        Ok(l1_removed || l2_removed)
    }

    /// Empty both tiers; the monotonic counters keep their values.
    pub fn clear(&mut self) -> (r: Result<(), CacheError>)
        requires
            old(self).wf(),
        ensures
            final(self).wf(),
            final(self).config_spec() == old(self).config_spec(),
            r is Ok,
            final(self).l1_view() =~= Map::<Seq<char>, CacheEntry>::empty(),
            final(self).l2_view() =~= Map::<Seq<char>, CacheEntry>::empty(),
            final(self).stats_spec().hits == old(self).stats_spec().hits,
            final(self).stats_spec().misses == old(self).stats_spec().misses,
            final(self).stats_spec().evictions == old(self).stats_spec().evictions,
    {
        tier_clear(&mut self.l1_cache);
        tier_clear(&mut self.l2_cache);
        self.stats.l1_size = tier_len(&self.l1_cache);
        self.stats.l2_size = tier_len(&self.l2_cache);
        proof {
            assert(self.l1_view().dom() =~= Set::<Seq<char>>::empty());
            assert(self.l2_view().dom() =~= Set::<Seq<char>>::empty());
        }
        Ok(())
    }

    /// Whether either tier holds the key; expiry is not consulted.
    pub fn contains_key(&self, key: &str) -> (r: bool)
        ensures
            r == (self.l1_view().dom().contains(key@) || self.l2_view().dom().contains(key@)),
    {
        tier_contains(&self.l1_cache, key) || tier_contains(&self.l2_cache, key)
    }

    /// Borrow the statistics.
    pub fn stats(&self) -> (r: &CacheStats)
        ensures
            *r == self.stats_spec(),
    {
        &self.stats
    }

    /// Look a key up at the current wall-clock time. What the clock does
    /// not decide is pinned here: an absent key misses, and without a
    /// time-to-live a present key hits with its stored bytes; the full
    /// time-dependent contract is on `get_at`.
    pub fn get(&mut self, key: &str) -> (r: Result<Option<Vec<u8>>, CacheError>)
        requires
            old(self).wf(),
        ensures
            final(self).wf(),
            final(self).config_spec() == old(self).config_spec(),
            r is Ok,
            old(self).lookup(key@) is None ==> r matches Ok(None),
            old(self).config_spec().ttl_seconds is None ==> (old(self).lookup(key@) matches Some(
                e,
            ) ==> (r matches Ok(Some(d)) && d@ == e.data@)),
            r matches Ok(Some(_)) ==> final(self).stats_spec().hits == inc64(
                old(self).stats_spec().hits,
            ) && final(self).stats_spec().misses == old(self).stats_spec().misses,
            r matches Ok(None) ==> final(self).stats_spec().misses == inc64(
                old(self).stats_spec().misses,
            ) && final(self).stats_spec().hits == old(self).stats_spec().hits,
            final(self).stats_spec().evictions == old(self).stats_spec().evictions,
    {
        let now = now_millis();
        Ok(self.get_at(key, now))
    }

    /// Store a value at the current wall-clock time.
    pub fn put(&mut self, key: &str, value: Vec<u8>) -> (r: Result<(), CacheError>)
        requires
            old(self).wf(),
        ensures
            final(self).wf(),
            final(self).config_spec() == old(self).config_spec(),
            r is Ok,
            final(self).l1_view().dom().contains(key@),
            final(self).l1_view()[key@].data@ == value@,
            !final(self).l2_view().dom().contains(key@),
    {
        let now = now_millis();
        self.put_at(key, value, now)
    }
}

impl Default for CacheManager {
    /// A cache with the default configuration.
    fn default() -> (r: CacheManager)
        ensures
            r.wf(),
            r.l1_view() =~= Map::<Seq<char>, CacheEntry>::empty(),
            r.l2_view() =~= Map::<Seq<char>, CacheEntry>::empty(),
    {
        CacheManager::new()
    }
}

/// Tier exclusivity: a well-formed cache never holds a key in both tiers,
/// and every operation above returns a well-formed cache.
pub proof fn lemma_tier_exclusive(c: CacheManager, k: Seq<char>)
    requires
        c.wf(),
    ensures
        !(c.l1_view().dom().contains(k) && c.l2_view().dom().contains(k)),
{
}

} // verus!
