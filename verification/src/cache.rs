//! Response cache with a time-to-live and eviction of the least recently used entry.

use dashmap::DashMap;
use vstd::prelude::*;

use crate::clock::{Clock, LAST_TICK, SECOND};
use crate::stats;

verus! {

/// One past the largest recency stamp.
pub const STAMPS: u128 = 0x1_0000_0000_0000_0000;

/// A cached response.
pub struct EntryView {
    pub body: Seq<u8>,
    pub content_type: Seq<char>,
    pub status: u16,
    /// When the entry was stored.
    pub inserted_at: u128,
    /// Recency stamp of the last use.
    pub last_used: u64,
}

/// What a cache holds, by key.
pub type Entries = Map<Seq<char>, EntryView>;

/// The recency stamp of a clock reading: its low 64 bits.
pub open spec fn stamp_of(tick: u128) -> u64 {
    (tick % STAMPS) as u64
}

impl EntryView {
    /// How long the entry has been stored at `now`.
    pub open spec fn age(self, now: u128) -> int {
        if now >= self.inserted_at {
            now - self.inserted_at
        } else {
            0
        }
    }

    /// Whether the entry has outlived `ttl_seconds` at `now`.
    pub open spec fn expired(self, ttl_seconds: u64, now: u128) -> bool {
        self.age(now) >= ttl_seconds * SECOND
    }

    /// The entry after a use at `now`.
    pub open spec fn touched(self, now: u128) -> EntryView {
        EntryView { last_used: stamp_of(now), ..self }
    }
}

/// A response as it is stored at `now`.
pub open spec fn fresh_entry(
    body: Seq<u8>,
    content_type: Seq<char>,
    status: u16,
    now: u128,
) -> EntryView {
    EntryView { body, content_type, status, inserted_at: now, last_used: stamp_of(now) }
}

/// The state of a [`Cache`].
pub struct CacheView {
    pub entries: Entries,
    pub ttl_seconds: u64,
    pub max_entries: usize,
    pub hits: u64,
    pub misses: u64,
    pub evictions: u64,
    /// The clock that time is measured on.
    pub clock: Clock,
}

/// An empty cache that measures time on `clock`.
pub open spec fn empty_cache(ttl_seconds: u64, max_entries: usize, clock: Clock) -> CacheView {
    CacheView {
        entries: Entries::empty(),
        ttl_seconds,
        max_entries,
        hits: 0,
        misses: 0,
        evictions: 0,
        clock,
    }
}

impl CacheView {
    /// A cache holds finitely many entries.
    pub open spec fn valid(self) -> bool {
        self.entries.dom().finite()
    }

    /// Whether the cache holds an entry for `key` that has not expired at `now`.
    pub open spec fn live(self, key: Seq<char>, now: u128) -> bool {
        self.entries.contains_key(key) && !self.entries[key].expired(self.ttl_seconds, now)
    }

    /// What a lookup of `key` at `now` finds.
    pub open spec fn found(self, key: Seq<char>, now: u128) -> Option<EntryView> {
        if self.live(key, now) {
            Some(self.entries[key].touched(now))
        } else {
            None
        }
    }

    /// The cache after a lookup of `key` at `now`: a live entry counts as used, an expired one
    /// is dropped.
    pub open spec fn after_get(self, key: Seq<char>, now: u128) -> CacheView {
        if self.live(key, now) {
            CacheView {
                entries: self.entries.insert(key, self.entries[key].touched(now)),
                hits: stats::bump(self.hits),
                ..self
            }
        } else {
            CacheView {
                entries: self.entries.remove(key),
                misses: stats::bump(self.misses),
                ..self
            }
        }
    }

    /// The cache with `entry` stored under `key`.
    pub open spec fn with_entry(self, key: Seq<char>, entry: EntryView) -> CacheView {
        CacheView { entries: self.entries.insert(key, entry), ..self }
    }

    /// Whether no entry was used less recently than that of `key`.
    pub open spec fn least_recent(self, key: Seq<char>) -> bool {
        &&& self.entries.contains_key(key)
        &&& forall|other: Seq<char>| #[trigger]
            self.entries.contains_key(other) ==> self.entries[key].last_used
                <= self.entries[other].last_used
    }

    /// The cache after the entry of `key` was evicted.
    pub open spec fn without(self, key: Seq<char>) -> CacheView {
        CacheView {
            entries: self.entries.remove(key),
            evictions: stats::bump(self.evictions),
            ..self
        }
    }

    /// Whether `key` can only be stored in place of another entry.
    pub open spec fn full_for(self, key: Seq<char>) -> bool {
        self.entries.len() >= self.max_entries && !self.entries.contains_key(key)
    }

    /// The cache after a flush.
    pub open spec fn flushed(self) -> CacheView {
        CacheView { entries: Entries::empty(), ..self }
    }

    /// The counters of the cache.
    pub open spec fn summary(self) -> CacheStats {
        CacheStats {
            hits: self.hits,
            misses: self.misses,
            size: self.entries.len() as usize,
            evictions: self.evictions,
        }
    }

    /// Whether the cache holds no more entries than it may. One entry is always accepted.
    pub open spec fn within_capacity(self) -> bool {
        self.entries.len() <= self.max_entries || self.entries.len() <= 1
    }
}

/// Whether evicting from `before` can leave `after`: an empty cache stays as it is, any other
/// loses an entry that was used least recently.
pub open spec fn evicts_to(before: CacheView, after: CacheView) -> bool {
    if before.entries.len() == 0 {
        after == before
    } else {
        exists|victim: Seq<char>| #[trigger]
            before.least_recent(victim) && after == before.without(victim)
    }
}

/// Whether storing `entry` under `key` in `before` can leave `after`: a full cache makes room
/// first.
pub open spec fn stores_to(
    before: CacheView,
    key: Seq<char>,
    entry: EntryView,
    after: CacheView,
) -> bool {
    if before.full_for(key) {
        exists|room: CacheView| #[trigger]
            evicts_to(before, room) && after == room.with_entry(key, entry)
    } else {
        after == before.with_entry(key, entry)
    }
}

/// A cached response. When it was stored and last used is kept on the cache's clock.
pub struct CacheEntry {
    pub body: Vec<u8>,
    pub content_type: String,
    pub status: u16,
    pub inserted_at: u128,
    pub last_used: u64,
}

impl View for CacheEntry {
    type V = EntryView;

    open spec fn view(&self) -> EntryView {
        EntryView {
            body: self.body@,
            content_type: self.content_type@,
            status: self.status,
            inserted_at: self.inserted_at,
            last_used: self.last_used,
        }
    }
}

impl Clone for CacheEntry {
    fn clone(&self) -> (copy: Self)
        ensures
            copy@ == self@,
    {
        let body = self.body.clone();
        assert(body@ =~= self.body@);
        CacheEntry {
            body,
            content_type: self.content_type.clone(),
            status: self.status,
            inserted_at: self.inserted_at,
            last_used: self.last_used,
        }
    }
}

/// The recency stamp of a clock reading.
fn epoch_nanos(tick: u128) -> (stamp: u64)
    ensures
        stamp == stamp_of(tick),
{
    (tick % STAMPS) as u64
}

impl CacheEntry {
    fn is_expired(&self, ttl_seconds: u64, now: u128) -> (yes: bool)
        ensures
            yes == self@.expired(ttl_seconds, now),
    {
        let age: u128 = if now >= self.inserted_at {
            now - self.inserted_at
        } else {
            0
        };
        age >= ttl_seconds as u128 * SECOND
    }

    fn touch(&mut self, now: u128)
        ensures
            final(self)@ == old(self)@.touched(now),
    {
        self.last_used = epoch_nanos(now);
    }

    fn last_used_nanos(&self) -> (stamp: u64)
        ensures
            stamp == self@.last_used,
    {
        self.last_used
    }
}

/// `dashmap::DashMap`, the sharded hash map that holds the entries.
#[verifier::external_type_specification]
#[verifier::external_body]
#[verifier::reject_recursive_types(K)]
#[verifier::reject_recursive_types(V)]
#[verifier::reject_recursive_types(S)]
pub struct ExDashMap<K, V, S>(dashmap::DashMap<K, V, S>);

/// The entries that a map holds, by the text of their keys.
pub uninterp spec fn contents(map: DashMap<String, CacheEntry>) -> Entries;

/// Whether `entries` are finitely many, `count` of them.
pub open spec fn number(entries: Entries, count: nat) -> bool {
    entries.dom().finite() && entries.len() == count
}

/// Whether `rows` name each of `entries` once, with its recency stamp.
pub open spec fn lists(entries: Entries, rows: Seq<(String, u64)>) -> bool {
    &&& forall|i: int|
        0 <= i < rows.len() ==> entries.contains_key((#[trigger] rows[i]).0@)
            && entries[rows[i].0@].last_used == rows[i].1
    &&& forall|key: Seq<char>| #[trigger]
        entries.contains_key(key) ==> exists|i: int|
            0 <= i < rows.len() && (#[trigger] rows[i]).0@ == key
    &&& forall|i: int, j: int|
        0 <= i < j < rows.len() ==> (#[trigger] rows[i]).0@ != (#[trigger] rows[j]).0@
}

/// What a map handed out for a key.
pub open spec fn handed_out(entries: Entries, key: Seq<char>, entry: Option<CacheEntry>) -> bool {
    match entry {
        Some(entry) => entries.contains_key(key) && entry@ == entries[key],
        None => !entries.contains_key(key),
    }
}

/// `DashMap::new` makes a map without entries.
#[verifier::external_body]
fn map_new() -> (map: DashMap<String, CacheEntry>)
    ensures
        contents(map) == Entries::empty(),
{
    DashMap::new()
}

/// `DashMap::len` counts the entries.
#[verifier::external_body]
fn map_len(map: &DashMap<String, CacheEntry>) -> (count: usize)
    ensures
        number(contents(*map), count as nat),
{
    map.len()
}

/// `DashMap::contains_key` says whether there is an entry for the key.
#[verifier::external_body]
fn map_contains_key(map: &DashMap<String, CacheEntry>, key: &str) -> (yes: bool)
    ensures
        yes == contents(*map).contains_key(key@),
{
    map.contains_key(key)
}

/// `DashMap::get` finds the entry for the key, if there is one. A copy of it is handed out.
#[verifier::external_body]
fn map_get(map: &DashMap<String, CacheEntry>, key: &str) -> (entry: Option<CacheEntry>)
    ensures
        handed_out(contents(*map), key@, entry),
{
    map.get(key).map(|found| found.value().clone())
}

/// `DashMap::insert` stores the entry under the key, and hands out the one that it replaces.
#[verifier::external_body]
fn map_insert(map: &mut DashMap<String, CacheEntry>, key: String, entry: CacheEntry) -> (replaced:
    Option<CacheEntry>)
    ensures
        contents(*final(map)) == contents(*old(map)).insert(key@, entry@),
        handed_out(contents(*old(map)), key@, replaced),
{
    map.insert(key, entry)
}

/// `DashMap::remove` takes out the entry for the key, if there is one, and hands it out.
#[verifier::external_body]
fn map_remove(map: &mut DashMap<String, CacheEntry>, key: &str) -> (removed: Option<CacheEntry>)
    ensures
        contents(*final(map)) == contents(*old(map)).remove(key@),
        handed_out(contents(*old(map)), key@, removed),
{
    map.remove(key).map(|pair| pair.1)
}

/// `DashMap::clear` takes out all entries.
#[verifier::external_body]
fn map_clear(map: &mut DashMap<String, CacheEntry>)
    ensures
        contents(*final(map)) == Entries::empty(),
{
    map.clear()
}

/// `DashMap::iter` visits each entry once, in an order of its own. Key and recency stamp of
/// each are handed out.
#[verifier::external_body]
fn map_stamps(map: &DashMap<String, CacheEntry>) -> (rows: Vec<(String, u64)>)
    ensures
        lists(contents(*map), rows@),
{
    map.iter().map(|item| (item.key().clone(), item.value().last_used_nanos())).collect()
}

/// Responses by cache key, each for a limited time, and no more of them than a given number.
pub struct Cache {
    map: DashMap<String, CacheEntry>,
    ttl_seconds: u64,
    max_entries: usize,
    hits: u64,
    misses: u64,
    evictions: u64,
    clock: Clock,
}

impl View for Cache {
    type V = CacheView;

    closed spec fn view(&self) -> CacheView {
        CacheView {
            entries: contents(self.map),
            ttl_seconds: self.ttl_seconds,
            max_entries: self.max_entries,
            hits: self.hits,
            misses: self.misses,
            evictions: self.evictions,
            clock: self.clock,
        }
    }
}

/// The view of an entry that a lookup handed out.
pub open spec fn entry_found(entry: Option<CacheEntry>) -> Option<EntryView> {
    match entry {
        Some(entry) => Some(entry@),
        None => None,
    }
}

impl Cache {
    /// The clock that time is measured on.
    pub open spec fn clock(&self) -> Clock {
        self@.clock
    }

    /// An empty cache with a clock of its own.
    pub fn new(ttl_seconds: u64, max_entries: usize) -> (cache: Cache)
        ensures
            cache@ == empty_cache(ttl_seconds, max_entries, cache.clock()),
    {
        Cache::on_clock(ttl_seconds, max_entries, Clock::start())
    }

    /// An empty cache that measures time on `clock`.
    pub fn on_clock(ttl_seconds: u64, max_entries: usize, clock: Clock) -> (cache: Cache)
        ensures
            cache@ == empty_cache(ttl_seconds, max_entries, clock),
            cache.clock() == clock,
    {
        Cache {
            map: map_new(),
            ttl_seconds,
            max_entries,
            hits: 0,
            misses: 0,
            evictions: 0,
            clock,
        }
    }

    /// Looks up an entry by the clock. `None` on miss or expiry.
    pub fn get(&mut self, key: &str) -> (entry: Option<CacheEntry>)
        ensures
            exists|now: u128|
                now <= LAST_TICK && old(self).clock().reads(now) && entry_found(entry)
                    == old(self)@.found(key@, now) && final(self)@
                    == #[trigger] old(self)@.after_get(key@, now),
            final(self).clock() == old(self).clock(),
    {
        let now: u128 = self.clock.now();
        self.get_at(key, now)
    }

    /// Looks up an entry at `now`. `None` on miss or expiry.
    pub fn get_at(&mut self, key: &str, now: u128) -> (entry: Option<CacheEntry>)
        ensures
            entry_found(entry) == old(self)@.found(key@, now),
            final(self)@ == old(self)@.after_get(key@, now),
            final(self).clock() == old(self).clock(),
    {
        match map_get(&self.map, key) {
            Some(entry) => {
                if entry.is_expired(self.ttl_seconds, now) {
                    let _ = map_remove(&mut self.map, key);
                    self.misses = self.misses.wrapping_add(1);
                    return None;
                }
                let mut used = entry;
                used.touch(now);
                let _ = map_insert(&mut self.map, key.to_owned(), used.clone());
                self.hits = self.hits.wrapping_add(1);
                Some(used)
            },
            None => {
                self.misses = self.misses.wrapping_add(1);
                assert(self@.entries =~= old(self)@.entries.remove(key@));
                None
            },
        }
    }

    /// Stores a response, by the clock. Evicts the least recently used entry if at capacity.
    pub fn insert(&mut self, key: String, body: Vec<u8>, content_type: String, status: u16)
        ensures
            exists|now: u128|
                now <= LAST_TICK && old(self).clock().reads(now) && stores_to(
                    old(self)@,
                    key@,
                    #[trigger] fresh_entry(body@, content_type@, status, now),
                    final(self)@,
                ),
            final(self).clock() == old(self).clock(),
            old(self)@.valid(),
            final(self)@.valid(),
    {
        let now: u128 = self.clock.now();
        self.insert_at(key, body, content_type, status, now);
    }

    /// Stores a response at `now`. Evicts the least recently used entry if at capacity.
    pub fn insert_at(
        &mut self,
        key: String,
        body: Vec<u8>,
        content_type: String,
        status: u16,
        now: u128,
    )
        ensures
            stores_to(
                old(self)@,
                key@,
                fresh_entry(body@, content_type@, status, now),
                final(self)@,
            ),
            final(self).clock() == old(self).clock(),
            old(self)@.valid(),
            final(self)@.valid(),
    {
        if map_len(&self.map) >= self.max_entries && !map_contains_key(&self.map, key.as_str()) {
            self.evict_lru();
            assert(evicts_to(old(self)@, self@));
        }
        let entry = CacheEntry {
            body,
            content_type,
            status,
            inserted_at: now,
            last_used: epoch_nanos(now),
        };
        let _ = map_insert(&mut self.map, key, entry);
    }

    /// Flushes all entries.
    pub fn clear(&mut self)
        ensures
            final(self)@ == old(self)@.flushed(),
            final(self).clock() == old(self).clock(),
    {
        map_clear(&mut self.map);
    }

    /// The counters of the cache.
    pub fn stats(&self) -> (stats: CacheStats)
        ensures
            stats == self@.summary(),
            stats.size == self@.entries.len(),
            self@.valid(),
    {
        CacheStats {
            hits: self.hits,
            misses: self.misses,
            size: map_len(&self.map),
            evictions: self.evictions,
        }
    }

    fn evict_lru(&mut self)
        requires
            old(self)@.valid(),
        ensures
            evicts_to(old(self)@, final(self)@),
            final(self)@.valid(),
    {
        let rows: Vec<(String, u64)> = map_stamps(&self.map);
        if rows.len() == 0 {
            assert(self@.entries.dom() =~= Set::empty());
            return;
        }
        let mut oldest: usize = 0;
        let mut i: usize = 1;
        while i < rows.len()
            invariant
                1 <= i <= rows.len(),
                oldest < rows.len(),
                forall|j: int| 0 <= j < i ==> rows@[oldest as int].1 <= (#[trigger] rows@[j]).1,
            decreases rows.len() - i,
        {
            if rows[i].1 < rows[oldest].1 {
                oldest = i;
            }
            i += 1;
        }
        assert(self@.least_recent(rows@[oldest as int].0@)) by {
            let key = rows@[oldest as int].0@;
            assert forall|other: Seq<char>| #[trigger]
                self@.entries.contains_key(other) implies self@.entries[key].last_used
                <= self@.entries[other].last_used by {
                let j = choose|j: int| 0 <= j < rows@.len() && (#[trigger] rows@[j]).0@ == other;
                assert(rows@[j].0@ == other);
            }
        }
        let _ = map_remove(&mut self.map, rows[oldest].0.as_str());
        self.evictions = self.evictions.wrapping_add(1);
        assert(self@ == old(self)@.without(rows@[oldest as int].0@));
        assert(old(self)@.entries.len() > 0);
    }
}

/// The counters of a cache.
#[derive(Clone, Copy, Debug, PartialEq, Eq, Structural)]
pub struct CacheStats {
    pub hits: u64,
    pub misses: u64,
    pub size: usize,
    pub evictions: u64,
}

/// A stored response is found again, as it was stored, until its time-to-live is over; from then
/// on it is not.
pub proof fn law_read_back(
    before: CacheView,
    key: Seq<char>,
    entry: EntryView,
    after: CacheView,
    now: u128,
)
    requires
        stores_to(before, key, entry, after),
    ensures
        after.found(key, now) == if entry.expired(before.ttl_seconds, now) {
            None
        } else {
            Some(entry.touched(now))
        },
{
}

/// A lookup that finds nothing leaves no entry under the key, and later lookups find nothing
/// either.
pub proof fn law_miss_is_final(cache: CacheView, key: Seq<char>, now: u128, later: u128)
    requires
        cache.found(key, now) is None,
    ensures
        !cache.after_get(key, now).entries.contains_key(key),
        cache.after_get(key, now).found(key, later) is None,
{
}

/// A hit does not prolong the life of an entry: what later lookups find depends on when the
/// entry was stored, not on when it was used.
pub proof fn law_use_does_not_renew(cache: CacheView, key: Seq<char>, now: u128, later: u128)
    requires
        cache.live(key, now),
    ensures
        cache.after_get(key, now).found(key, later) == cache.found(key, later),
{
    let entry = cache.entries[key];
    assert(entry.touched(now).touched(later) == entry.touched(later));
}

/// Without a time-to-live nothing is ever found.
pub proof fn law_zero_ttl(cache: CacheView, key: Seq<char>, now: u128)
    requires
        cache.ttl_seconds == 0,
    ensures
        cache.found(key, now) is None,
{
}

/// Every lookup counts as one hit or as one miss, according to what it finds.
pub proof fn law_lookup_counts_once(cache: CacheView, key: Seq<char>, now: u128)
    ensures
        ({
            let after = cache.after_get(key, now);
            &&& after.evictions == cache.evictions
            &&& cache.found(key, now) is Some ==> after.hits == stats::bump(cache.hits) && after.misses
                == cache.misses
            &&& cache.found(key, now) is None ==> after.hits == cache.hits && after.misses == stats::bump(
                cache.misses,
            )
        }),
{
}

/// A lookup changes no entry but the one looked up.
pub proof fn law_lookup_keeps_other_entries(
    cache: CacheView,
    key: Seq<char>,
    now: u128,
    other: Seq<char>,
)
    requires
        other != key,
    ensures
        cache.after_get(key, now).entries.contains_key(other) == cache.entries.contains_key(other),
        cache.entries.contains_key(other) ==> cache.after_get(key, now).entries[other]
            == cache.entries[other],
{
}

/// The number of entries stays within the capacity, whatever is stored or looked up.
pub proof fn law_capacity(
    before: CacheView,
    key: Seq<char>,
    entry: EntryView,
    after: CacheView,
    now: u128,
)
    requires
        before.valid(),
        before.within_capacity(),
        stores_to(before, key, entry, after),
    ensures
        after.valid(),
        after.within_capacity(),
        before.after_get(key, now).valid(),
        before.after_get(key, now).within_capacity(),
        before.flushed().valid(),
        before.flushed().within_capacity(),
{
    broadcast use vstd::set::group_set_axioms;

    assert(before.entries.insert(key, entry).dom() =~= before.entries.dom().insert(key));
    assert(before.entries.remove(key).dom() =~= before.entries.dom().remove(key));
    let used = before.entries[key].touched(now);
    assert(before.entries.insert(key, used).dom() =~= before.entries.dom().insert(key));
    assert(Entries::empty().dom() =~= Set::empty());
    if before.full_for(key) {
        let room = choose|room: CacheView| #[trigger]
            evicts_to(before, room) && after == room.with_entry(key, entry);
        assert(after.entries.dom() =~= room.entries.dom().insert(key));
        if before.entries.len() > 0 {
            let victim = choose|victim: Seq<char>| #[trigger]
                before.least_recent(victim) && room == before.without(victim);
            assert(room.entries.dom() =~= before.entries.dom().remove(victim));
        }
    }
}

/// Storing in a cache that is not full keeps every other entry as it is. In a full cache, an entry
/// that was used more recently than another stays as it is.
pub proof fn law_eviction_spares_recent(
    before: CacheView,
    key: Seq<char>,
    entry: EntryView,
    after: CacheView,
    kept: Seq<char>,
    older: Seq<char>,
)
    requires
        before.valid(),
        stores_to(before, key, entry, after),
        kept != key,
        before.entries.contains_key(kept),
        !before.full_for(key) || (before.entries.contains_key(older)
            && before.entries[older].last_used < before.entries[kept].last_used),
    ensures
        after.entries.contains_key(kept),
        after.entries[kept] == before.entries[kept],
{
    broadcast use vstd::set::group_set_axioms;

    if before.full_for(key) {
        let room = choose|room: CacheView| #[trigger]
            evicts_to(before, room) && after == room.with_entry(key, entry);
        assert(before.entries.dom().contains(kept));
        assert(before.entries.len() > 0) by {
            if before.entries.len() == 0 {
                before.entries.dom().lemma_len0_is_empty();
            }
        }
        let victim = choose|victim: Seq<char>| #[trigger]
            before.least_recent(victim) && room == before.without(victim);
        assert(before.entries.contains_key(older));
        assert(victim != kept);
    }
}

/// Storing takes out at most one other entry: of two others, one stays.
pub proof fn law_at_most_one_is_evicted(
    before: CacheView,
    key: Seq<char>,
    entry: EntryView,
    after: CacheView,
    one: Seq<char>,
    two: Seq<char>,
)
    requires
        stores_to(before, key, entry, after),
        one != two,
        one != key,
        two != key,
        before.entries.contains_key(one),
        before.entries.contains_key(two),
    ensures
        after.entries.contains_key(one) || after.entries.contains_key(two),
{
}

/// A store counts as one eviction exactly if the cache was full, held something, and had no
/// entry under the key.
pub proof fn law_evictions_are_counted(
    before: CacheView,
    key: Seq<char>,
    entry: EntryView,
    after: CacheView,
)
    requires
        stores_to(before, key, entry, after),
    ensures
        after.hits == before.hits,
        after.misses == before.misses,
        after.evictions == if before.full_for(key) && before.entries.len() > 0 {
            stats::bump(before.evictions)
        } else {
            before.evictions
        },
{
}

/// Whatever is looked up, stored or flushed, time is measured on the same clock, with the same
/// time-to-live.
pub proof fn law_clock_is_kept(
    before: CacheView,
    key: Seq<char>,
    entry: EntryView,
    after: CacheView,
    now: u128,
)
    requires
        stores_to(before, key, entry, after),
    ensures
        after.clock == before.clock,
        after.ttl_seconds == before.ttl_seconds,
        before.after_get(key, now).clock == before.clock,
        before.after_get(key, now).ttl_seconds == before.ttl_seconds,
        before.flushed().clock == before.clock,
        before.flushed().ttl_seconds == before.ttl_seconds,
{
}

/// After a flush nothing is found, and the counters stand where they stood.
pub proof fn law_flush(cache: CacheView, key: Seq<char>, now: u128)
    ensures
        cache.flushed().entries.len() == 0,
        cache.flushed().found(key, now) is None,
        cache.flushed().hits == cache.hits,
        cache.flushed().misses == cache.misses,
        cache.flushed().evictions == cache.evictions,
{
    assert(Entries::empty().dom() =~= Set::empty());
}

/// What a cached entry and a found one hold are their fields.
pub proof fn law_entry_holds_its_fields(entry: CacheEntry, found: Option<CacheEntry>)
    ensures
        entry@.body == entry.body@,
        entry@.content_type == entry.content_type@,
        entry@.status == entry.status,
        entry@.inserted_at == entry.inserted_at,
        entry@.last_used == entry.last_used,
        found is None <==> entry_found(found) is None,
        found matches Some(held) ==> entry_found(found) == Some(held@),
{
}

/// A recency stamp is the clock reading but for whole multiples of the range of stamps, so as long
/// as the clock has not come to the end of that range, later readings have larger stamps.
pub proof fn law_stamps_follow_the_clock(earlier: u128, later: u128)
    ensures
        (earlier - stamp_of(earlier)) % 0x1_0000_0000_0000_0000 == 0,
        later <= u64::MAX && earlier < later ==> stamp_of(earlier) < stamp_of(later),
        later <= u64::MAX ==> stamp_of(later) == later,
{
}

/// An entry lives for its time-to-live, in seconds of a thousand million nanoseconds, from when it
/// was stored.
pub proof fn law_entry_lives_for_its_ttl(entry: EntryView, ttl_seconds: u64, now: u128)
    ensures
        entry.expired(ttl_seconds, now) <==> ttl_seconds == 0 || now >= entry.inserted_at
            + ttl_seconds * 1_000_000_000,
{
}

/// A response is stored as it is, with the time of storing as that of its last use.
pub proof fn law_response_is_stored_as_it_is(
    body: Seq<u8>,
    content_type: Seq<char>,
    status: u16,
    now: u128,
)
    ensures
        fresh_entry(body, content_type, status, now).body == body,
        fresh_entry(body, content_type, status, now).content_type == content_type,
        fresh_entry(body, content_type, status, now).status == status,
        fresh_entry(body, content_type, status, now).inserted_at == now,
        fresh_entry(body, content_type, status, now).last_used == stamp_of(now),
{
}

/// A lookup finds an entry exactly if one is stored under that very key and its time-to-live is
/// not over, and it finds the response that was stored.
pub proof fn law_lookup_finds_what_is_stored(cache: CacheView, key: Seq<char>, now: u128)
    ensures
        cache.found(key, now) is Some <==> {
            &&& cache.entries.contains_key(key)
            &&& cache.ttl_seconds > 0
            &&& now < cache.entries[key].inserted_at + cache.ttl_seconds * 1_000_000_000
        },
        cache.found(key, now) matches Some(entry) ==> {
            &&& entry.body == cache.entries[key].body
            &&& entry.content_type == cache.entries[key].content_type
            &&& entry.status == cache.entries[key].status
            &&& entry.inserted_at == cache.entries[key].inserted_at
            &&& entry.last_used == stamp_of(now)
        },
{
}

/// A lookup that finds an entry leaves it there, used at `now`; one that does not leaves nothing
/// under the key. It changes no other entry and no limit.
pub proof fn law_lookup_marks_the_use(cache: CacheView, key: Seq<char>, now: u128)
    ensures
        ({
            let after = cache.after_get(key, now);
            &&& cache.found(key, now) matches Some(entry) ==> after.entries.contains_key(key)
                && after.entries[key] == entry
            &&& cache.found(key, now) is None ==> !after.entries.contains_key(key)
            &&& forall|other: Seq<char>|
                other != key ==> (#[trigger] after.entries.contains_key(other)
                    <==> cache.entries.contains_key(other))
            &&& forall|other: Seq<char>|
                other != key && #[trigger] cache.entries.contains_key(other)
                    ==> after.entries[other] == cache.entries[other]
            &&& after.ttl_seconds == cache.ttl_seconds
            &&& after.max_entries == cache.max_entries
        }),
{
}

/// Storing puts the entry under its key and adds nothing else. It keeps every other entry as it
/// is, but for one that was used least recently, and that only if the key is new and the cache is
/// at its limit, which counts as an eviction.
pub proof fn law_storing_replaces_only_the_least_recent(
    before: CacheView,
    key: Seq<char>,
    entry: EntryView,
    after: CacheView,
)
    requires
        before.valid(),
        stores_to(before, key, entry, after),
    ensures
        after.entries.contains_key(key) && after.entries[key] == entry,
        forall|other: Seq<char>|
            other != key && #[trigger] after.entries.contains_key(other)
                ==> before.entries.contains_key(other) && after.entries[other]
                == before.entries[other],
        forall|lost: Seq<char>, other: Seq<char>|
            lost != key && #[trigger] before.entries.contains_key(lost) && !(
            #[trigger] after.entries.contains_key(lost)) && #[trigger] before.entries.contains_key(
                other,
            ) ==> before.entries[lost].last_used <= before.entries[other].last_used,
        before.entries.contains_key(key) || before.entries.len() < before.max_entries ==> (forall|
            other: Seq<char>,
        |
            before.entries.contains_key(other) ==> #[trigger] after.entries.contains_key(other)),
        after.entries.len() == if before.entries.contains_key(key) || (before.entries.len()
            >= before.max_entries && before.entries.len() > 0) {
            before.entries.len()
        } else {
            before.entries.len() + 1
        },
        after.evictions == if !before.entries.contains_key(key) && before.entries.len()
            >= before.max_entries && before.entries.len() > 0 {
            stats::bump(before.evictions)
        } else {
            before.evictions
        },
        after.hits == before.hits,
        after.misses == before.misses,
        after.ttl_seconds == before.ttl_seconds,
        after.max_entries == before.max_entries,
{
    broadcast use vstd::set::group_set_axioms;

    assert(before.entries.insert(key, entry).dom() =~= before.entries.dom().insert(key));
    if before.full_for(key) {
        let room = choose|room: CacheView| #[trigger]
            evicts_to(before, room) && after == room.with_entry(key, entry);
        assert(after.entries.dom() =~= room.entries.dom().insert(key));
        if before.entries.len() > 0 {
            let victim = choose|victim: Seq<char>| #[trigger]
                before.least_recent(victim) && room == before.without(victim);
            assert(room.entries.dom() =~= before.entries.dom().remove(victim));
        } else {
            before.entries.dom().lemma_len0_is_empty();
        }
    }
}

/// Storing never leaves more entries than the limit, but that one entry is always accepted.
pub proof fn law_limit_is_kept(
    before: CacheView,
    key: Seq<char>,
    entry: EntryView,
    after: CacheView,
)
    requires
        before.valid(),
        before.entries.len() <= before.max_entries || before.entries.len() <= 1,
        stores_to(before, key, entry, after),
    ensures
        after.entries.len() <= after.max_entries || after.entries.len() <= 1,
{
    law_storing_replaces_only_the_least_recent(before, key, entry, after);
    if before.entries.contains_key(key) && before.entries.len() == 0 {
        before.entries.dom().lemma_len0_is_empty();
    }
}

/// A cache starts empty, with its counters at zero and the limits it was given.
pub proof fn law_start_is_empty(
    ttl_seconds: u64,
    max_entries: usize,
    clock: Clock,
    key: Seq<char>,
)
    ensures
        ({
            let cache = empty_cache(ttl_seconds, max_entries, clock);
            &&& !cache.entries.contains_key(key)
            &&& cache.ttl_seconds == ttl_seconds
            &&& cache.max_entries == max_entries
            &&& cache.hits == 0
            &&& cache.misses == 0
            &&& cache.evictions == 0
            &&& cache.clock == clock
        }),
{
}

/// The summary tells the counters and the number of entries.
pub proof fn law_summary_is_of_the_cache(cache: CacheView)
    ensures
        cache.summary().hits == cache.hits,
        cache.summary().misses == cache.misses,
        cache.summary().evictions == cache.evictions,
        cache.entries.len() <= usize::MAX ==> cache.summary().size == cache.entries.len(),
{
}

/// A flush leaves no entry and changes nothing but the entries.
pub proof fn law_flush_takes_entries_only(cache: CacheView, key: Seq<char>)
    ensures
        !cache.flushed().entries.contains_key(key),
        cache.flushed().ttl_seconds == cache.ttl_seconds,
        cache.flushed().max_entries == cache.max_entries,
{
}

} // verus!
