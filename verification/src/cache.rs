//! Volatile cache of directory listings, bounded in size and in age.

use vstd::prelude::*;
use vstd::hash_map::StringHashMap;
use crate::clock::{monotonic_now, nanos_since};
use crate::text::{lemma_without, remove_all, string_views, without};

verus! {

/// One child of a directory, as a single listing saw it.
#[derive(Debug)]
pub struct FileEntry {
    /// File or directory name.
    pub name: String,
    /// Absolute path.
    pub path: String,
    /// Size in bytes; zero for a directory, whose size a listing does not know.
    pub size_bytes: u64,
    /// Last modification, in seconds since the Unix epoch.
    pub modified: u64,
    /// True for a directory.
    pub is_directory: bool,
}

/// What a `FileEntry` holds, as plain values.
pub struct FileEntryView {
    pub name: Seq<char>,
    pub path: Seq<char>,
    pub size_bytes: u64,
    pub modified: u64,
    pub is_directory: bool,
}

impl View for FileEntry {
    type V = FileEntryView;

    open spec fn view(&self) -> FileEntryView {
        FileEntryView {
            name: self.name@,
            path: self.path@,
            size_bytes: self.size_bytes,
            modified: self.modified,
            is_directory: self.is_directory,
        }
    }
}

impl Clone for FileEntry {
    fn clone(&self) -> (copy: FileEntry)
        ensures
            copy@ == self@,
    {
        FileEntry {
            name: self.name.clone(),
            path: self.path.clone(),
            size_bytes: self.size_bytes,
            modified: self.modified,
            is_directory: self.is_directory,
        }
    }
}

/// What a listing holds, entry by entry.
pub open spec fn listing_view(listing: Seq<FileEntry>) -> Seq<FileEntryView> {
    listing.map_values(|e: FileEntry| e@)
}

/// Copies a listing.
pub fn clone_listing(listing: &Vec<FileEntry>) -> (copy: Vec<FileEntry>)
    ensures
        listing_view(copy@) == listing_view(listing@),
{
    let mut copy: Vec<FileEntry> = Vec::new();
    let mut i: usize = 0;
    while i < listing.len()
        invariant
            i <= listing.len(),
            copy.len() == i,
            forall|j: int| 0 <= j < i ==> copy@[j]@ == listing@[j]@,
        decreases listing.len() - i,
    {
        copy.push(listing[i].clone());
        i = i + 1;
    }
    assert(listing_view(copy@) =~= listing_view(listing@));
    copy
}

/// A listing together with the time at which it was stored.
#[derive(Debug)]
pub struct CacheEntry {
    /// The children of the directory.
    pub entries: Vec<FileEntry>,
    /// When the listing was stored, in nanoseconds on the cache's clock.
    pub timestamp: u128,
}

/// What a `CacheEntry` holds, as plain values.
pub struct CacheEntryView {
    pub entries: Seq<FileEntryView>,
    pub timestamp: u128,
}

impl View for CacheEntry {
    type V = CacheEntryView;

    open spec fn view(&self) -> CacheEntryView {
        CacheEntryView { entries: listing_view(self.entries@), timestamp: self.timestamp }
    }
}

/// Time that has passed at `now` since `timestamp`; zero if the clock went
/// backwards.
pub open spec fn age_at(timestamp: u128, now: u128) -> nat {
    if now >= timestamp {
        (now - timestamp) as nat
    } else {
        0
    }
}

/// An entry stored at `timestamp` is too old at `now` to be handed out.
pub open spec fn is_stale(timestamp: u128, now: u128, ttl: u128) -> bool {
    age_at(timestamp, now) > ttl
}

impl CacheEntry {
    /// Tells whether the entry is older at `now` than `ttl` allows.
    pub fn is_expired(&self, now: u128, ttl: u128) -> (expired: bool)
        ensures
            expired == is_stale(self.timestamp, now, ttl),
    {
        now >= self.timestamp && now - self.timestamp > ttl
    }
}

/// The cache as a mathematical value.
pub struct CacheModel {
    /// The stored listings, by directory path.
    pub entries: Map<Seq<char>, CacheEntryView>,
    /// The access order: the least recently used path first.
    pub order: Seq<Seq<char>>,
    /// The number of listings at which an insertion evicts.
    pub max_size: nat,
    /// The age, in nanoseconds, beyond which a listing is not handed out.
    pub ttl: u128,
}

impl CacheModel {
    /// The cache is finite and every stored path has a place in the access
    /// order.
    pub open spec fn wf(self) -> bool {
        &&& self.entries.dom().finite()
        &&& forall|p: Seq<char>| self.entries.contains_key(p) ==> self.order.contains(p)
    }

    /// Each stored path occurs exactly once in the access order, and nothing
    /// else does.
    pub open spec fn tidy(self) -> bool {
        &&& self.entries.dom().finite()
        &&& crate::text::distinct(self.order)
        &&& forall|p: Seq<char>| self.entries.contains_key(p) <==> self.order.contains(p)
    }

    /// An empty cache with the given limits.
    pub open spec fn empty(max_size: nat, ttl: u128) -> CacheModel {
        CacheModel { entries: Map::empty(), order: Seq::empty(), max_size, ttl }
    }

    /// The listing that a lookup of `path` at `now` hands out.
    pub open spec fn lookup(self, path: Seq<char>, now: u128) -> Option<Seq<FileEntryView>> {
        if self.entries.contains_key(path) && !is_stale(
            self.entries[path].timestamp,
            now,
            self.ttl,
        ) {
            Some(self.entries[path].entries)
        } else {
            None
        }
    }

    /// The cache after a lookup of `path` at `now`: a fresh entry moves to
    /// the end of the access order, a stale one leaves the cache.
    pub open spec fn after_lookup(self, path: Seq<char>, now: u128) -> CacheModel {
        if !self.entries.contains_key(path) {
            self
        } else if is_stale(self.entries[path].timestamp, now, self.ttl) {
            CacheModel {
                entries: self.entries.remove(path),
                order: without(self.order, path),
                ..self
            }
        } else {
            CacheModel { order: without(self.order, path).push(path), ..self }
        }
    }

    /// The cache after the evictions that precede an insertion: while it
    /// holds `max_size` listings or more, the path at the front of the
    /// access order leaves both the cache and the order.
    pub open spec fn evicted(self) -> CacheModel
        decreases self.order.len(),
    {
        if self.entries.len() >= self.max_size && self.order.len() > 0 {
            CacheModel {
                entries: self.entries.remove(self.order[0]),
                order: self.order.drop_first(),
                ..self
            }.evicted()
        } else {
            self
        }
    }

    /// The cache after `listing` is stored for `path` at `now`.
    pub open spec fn after_insert(
        self,
        path: Seq<char>,
        listing: Seq<FileEntryView>,
        now: u128,
    ) -> CacheModel {
        let room = self.evicted();
        CacheModel {
            entries: room.entries.insert(path, CacheEntryView { entries: listing, timestamp: now }),
            order: room.order.push(path),
            ..room
        }
    }

    /// The cache after `path` is dropped.
    pub open spec fn after_invalidate(self, path: Seq<char>) -> CacheModel {
        CacheModel { entries: self.entries.remove(path), order: without(self.order, path), ..self }
    }

    /// The cache after everything is dropped.
    pub open spec fn after_clear(self) -> CacheModel {
        CacheModel { entries: Map::empty(), order: Seq::empty(), ..self }
    }
}

/// Volatile cache of directory listings. A listing older than the time to
/// live is never handed out, and an insertion into a full cache evicts the
/// least recently used paths first.
pub struct DirectoryCache {
    cache: StringHashMap<CacheEntry>,
    max_size: usize,
    ttl: u128,
    access_order: Vec<String>,
    origin: std::time::Instant,
}

impl View for DirectoryCache {
    type V = CacheModel;

    closed spec fn view(&self) -> CacheModel {
        CacheModel {
            entries: self.cache@.map_values(|e: CacheEntry| e@),
            order: string_views(self.access_order@),
            max_size: self.max_size as nat,
            ttl: self.ttl,
        }
    }
}

/// Number of listings that the cache holds by default.
pub const DEFAULT_CACHE_CAPACITY: usize = 50;

/// Default time to live of a listing: 30 seconds, in nanoseconds.
pub const DEFAULT_CACHE_TTL_NANOS: u128 = 30_000_000_000;

impl Default for DirectoryCache {
    fn default() -> (cache: DirectoryCache)
        ensures
            cache@ == CacheModel::empty(DEFAULT_CACHE_CAPACITY as nat, DEFAULT_CACHE_TTL_NANOS),
            cache@.wf(),
    {
        DirectoryCache::with_limits(DEFAULT_CACHE_CAPACITY, DEFAULT_CACHE_TTL_NANOS)
    }
}

impl DirectoryCache {
    /// An empty cache that evicts at `max_size` listings and hands out no
    /// listing older than `ttl_nanos`.
    pub fn with_limits(max_size: usize, ttl_nanos: u128) -> (cache: DirectoryCache)
        ensures
            cache@ == CacheModel::empty(max_size as nat, ttl_nanos),
            cache@.wf(),
    {
        let cache = DirectoryCache {
            cache: StringHashMap::new(),
            max_size,
            ttl: ttl_nanos,
            access_order: Vec::new(),
            origin: monotonic_now(),
        };
        assert(cache@.entries =~= Map::empty());
        assert(cache@.order =~= Seq::empty());
        cache
    }

    /// Number of listings held.
    pub fn len(&self) -> (n: usize)
        ensures
            n == self@.entries.len(),
    {
        proof {
            assert(self@.entries.dom() =~= self.cache@.dom());
        }
        self.cache.len()
    }

    /// The current reading of the cache's clock, in nanoseconds.
    pub fn now(&self) -> u128 {
        nanos_since(&self.origin)
    }

    /// The listing stored for `path`, unless it is older at `now` than the
    /// time to live. A fresh listing becomes the most recently used; a stale
    /// one is dropped.
    pub fn get_at(&mut self, path: &String, now: u128) -> (listing: Option<Vec<FileEntry>>)
        ensures
            final(self)@ == old(self)@.after_lookup(path@, now),
            match listing {
                Some(found) => old(self)@.lookup(path@, now) == Some(listing_view(found@)),
                None => old(self)@.lookup(path@, now) is None,
            },
            old(self)@.wf() ==> final(self)@.wf(),
    {
        let ttl = self.ttl;
        let found = match self.cache.get(path.as_str()) {
            Some(entry) => {
                if entry.is_expired(now, ttl) {
                    None
                } else {
                    Some(clone_listing(&entry.entries))
                }
            },
            None => {
                return None;
            },
        };
        let ghost before = self@;
        proof {
            lemma_without(before.order, path@);
        }
        match found {
            Some(listing) => {
                remove_all(&mut self.access_order, path);
                self.access_order.push(path.clone());
                proof {
                    assert(self@.order =~= without(before.order, path@).push(path@));
                    if before.wf() {
                        CacheModel::lemma_lookup_keeps_wf(before, path@, now);
                    }
                }
                Some(listing)
            },
            None => {
                self.cache.remove(path.as_str());
                remove_all(&mut self.access_order, path);
                proof {
                    assert(self@.entries =~= before.entries.remove(path@));
                    if before.wf() {
                        CacheModel::lemma_lookup_keeps_wf(before, path@, now);
                    }
                }
                None
            },
        }
    }

    /// `get_at` at the current reading of the cache's clock.
    pub fn get(&mut self, path: &String) -> (listing: Option<Vec<FileEntry>>)
        ensures
            exists|now: u128|
                {
                    &&& final(self)@ == #[trigger] old(self)@.after_lookup(path@, now)
                    &&& match listing {
                        Some(found) => old(self)@.lookup(path@, now) == Some(listing_view(found@)),
                        None => old(self)@.lookup(path@, now) is None,
                    }
                },
            old(self)@.wf() ==> final(self)@.wf(),
    {
        let now = self.now();
        self.get_at(path, now)
    }

    /// Stores `entries` as the listing of `path`, stamped with `now`. While
    /// the cache holds `max_size` listings or more, the least recently used
    /// path is evicted first; then `path` becomes the most recently used.
    pub fn insert_at(&mut self, path: String, entries: Vec<FileEntry>, now: u128)
        ensures
            final(self)@ == old(self)@.after_insert(path@, listing_view(entries@), now),
            old(self)@.wf() ==> final(self)@.wf(),
    {
        while self.cache.len() >= self.max_size && self.access_order.len() > 0
            invariant
                self@.evicted() == old(self)@.evicted(),
            decreases self.access_order.len(),
        {
            let ghost before = self@;
            proof {
                assert(before.entries.dom() =~= self.cache@.dom());
            }
            let oldest = self.access_order[0].clone();
            self.cache.remove(oldest.as_str());
            self.access_order.remove(0);
            proof {
                assert(self@.entries =~= before.entries.remove(before.order[0]));
                assert(self@.order =~= before.order.drop_first());
            }
        }
        let ghost room = self@;
        proof {
            assert(room.entries.dom() =~= self.cache@.dom());
            assert(room.evicted() == room);
        }
        let ghost stored = CacheEntryView { entries: listing_view(entries@), timestamp: now };
        self.access_order.push(path.clone());
        self.cache.insert(path, CacheEntry { entries, timestamp: now });
        proof {
            assert(self@.order =~= room.order.push(path@));
            assert(self@.entries =~= room.entries.insert(path@, stored));
            if old(self)@.wf() {
                CacheModel::lemma_insert_keeps_wf(old(self)@, path@, stored.entries, now);
            }
        }
    }

    /// `insert_at` at the current reading of the cache's clock.
    pub fn insert(&mut self, path: String, entries: Vec<FileEntry>)
        ensures
            exists|now: u128| #[trigger]
                old(self)@.after_insert(path@, listing_view(entries@), now) == final(self)@,
            old(self)@.wf() ==> final(self)@.wf(),
    {
        let now = self.now();
        self.insert_at(path, entries, now)
    }

    /// Drops the listing of `path`, if there is one.
    pub fn invalidate(&mut self, path: &String)
        ensures
            final(self)@ == old(self)@.after_invalidate(path@),
            old(self)@.wf() ==> final(self)@.wf(),
    {
        let ghost before = self@;
        self.cache.remove(path.as_str());
        remove_all(&mut self.access_order, path);
        proof {
            assert(self@.entries =~= before.entries.remove(path@));
            lemma_without(before.order, path@);
            if before.wf() {
                assert forall|p: Seq<char>| self@.entries.contains_key(p) implies self@.order.contains(
                    p,
                ) by {
                    assert(before.entries.contains_key(p));
                    assert(before.order.contains(p));
                }
            }
        }
    }

    /// Drops every listing.
    pub fn clear(&mut self)
        ensures
            final(self)@ == old(self)@.after_clear(),
            final(self)@.wf(),
    {
        self.cache.clear();
        self.access_order.clear();
        proof {
            assert(self@.entries =~= Map::empty());
            assert(self@.order =~= Seq::empty());
        }
    }
}

impl CacheModel {
    /// A lookup leaves a well-formed cache well formed.
    pub proof fn lemma_lookup_keeps_wf(self, path: Seq<char>, now: u128)
        requires
            self.wf(),
        ensures
            self.after_lookup(path, now).wf(),
    {
        lemma_without(self.order, path);
        let after = self.after_lookup(path, now);
        let kept = without(self.order, path);
        if !self.entries.contains_key(path) {
        } else if is_stale(self.entries[path].timestamp, now, self.ttl) {
            assert forall|p: Seq<char>| after.entries.contains_key(p) implies after.order.contains(
                p,
            ) by {
                assert(self.entries.contains_key(p));
                assert(self.order.contains(p));
                assert(kept.contains(p));
            }
        } else {
            assert(after.order[after.order.len() - 1] == path);
            assert forall|p: Seq<char>| after.entries.contains_key(p) implies after.order.contains(
                p,
            ) by {
                if p != path {
                    assert(self.entries.contains_key(p));
                    assert(self.order.contains(p));
                    assert(kept.contains(p));
                    let i = choose|i: int| 0 <= i < kept.len() && kept[i] == p;
                    assert(after.order[i] == p);
                }
            }
        }
    }

    /// Eviction leaves a well-formed cache well formed, and with room for
    /// one more listing unless nothing is left to evict.
    pub proof fn lemma_evicted(self)
        requires
            self.wf(),
        ensures
            self.evicted().wf(),
            self.evicted().max_size == self.max_size,
            self.evicted().ttl == self.ttl,
            self.evicted().entries.len() < self.max_size || self.evicted().entries.len() == 0,
            self.evicted().entries.len() <= self.entries.len(),
        decreases self.order.len(),
    {
        if self.entries.len() >= self.max_size && self.order.len() > 0 {
            let next = CacheModel {
                entries: self.entries.remove(self.order[0]),
                order: self.order.drop_first(),
                ..self
            };
            assert forall|p: Seq<char>| next.entries.contains_key(p) implies next.order.contains(
                p,
            ) by {
                assert(self.entries.contains_key(p));
                assert(self.order.contains(p));
                let i = choose|i: int| 0 <= i < self.order.len() && self.order[i] == p;
                assert(next.order[i - 1] == p);
            }
            next.lemma_evicted();
        } else if self.order.len() == 0 {
            if self.entries.len() > 0 {
                let p = self.entries.dom().choose();
                assert(self.entries.contains_key(p));
                assert(self.order.contains(p));
            }
        }
    }

    /// An insertion leaves a well-formed cache well formed.
    pub proof fn lemma_insert_keeps_wf(
        self,
        path: Seq<char>,
        listing: Seq<FileEntryView>,
        now: u128,
    )
        requires
            self.wf(),
        ensures
            self.after_insert(path, listing, now).wf(),
    {
        self.lemma_evicted();
        let room = self.evicted();
        let after = self.after_insert(path, listing, now);
        assert(after.order[after.order.len() - 1] == path);
        assert forall|p: Seq<char>| after.entries.contains_key(p) implies after.order.contains(
            p,
        ) by {
            if p != path {
                assert(room.entries.contains_key(p));
                assert(room.order.contains(p));
                let i = choose|i: int| 0 <= i < room.order.len() && room.order[i] == p;
                assert(after.order[i] == p);
            }
        }
    }
}

/// In a tidy cache the access order is as long as the cache is large.
pub proof fn lemma_tidy_sizes(cache: CacheModel)
    requires
        cache.tidy(),
    ensures
        cache.wf(),
        cache.order.len() == cache.entries.len(),
{
    cache.order.unique_seq_to_set();
    assert(cache.order.to_set() =~= cache.entries.dom());
}

/// A listing that was stored for a path is handed out unchanged by a lookup
/// of that path, as long as no more than the time to live has passed since.
pub proof fn law_listing_round_trip(
    cache: CacheModel,
    path: Seq<char>,
    listing: Seq<FileEntryView>,
    stored_at: u128,
    asked_at: u128,
)
    requires
        cache.wf(),
        age_at(stored_at, asked_at) <= cache.ttl,
    ensures
        cache.after_insert(path, listing, stored_at).lookup(path, asked_at) == Some(listing),
        cache.after_insert(path, listing, stored_at).after_lookup(path, asked_at).lookup(
            path,
            asked_at,
        ) == Some(listing),
{
    cache.lemma_evicted();
}

/// Once more than the time to live has passed, a lookup hands out nothing and
/// drops the listing, and a later insertion stores the new listing alone:
/// nothing of the stale one is left.
pub proof fn law_stale_listing_is_dropped_and_replaced(
    cache: CacheModel,
    path: Seq<char>,
    listing: Seq<FileEntryView>,
    stored_at: u128,
    asked_at: u128,
    replacement: Seq<FileEntryView>,
    replaced_at: u128,
)
    requires
        cache.wf(),
        age_at(stored_at, asked_at) > cache.ttl,
    ensures
        cache.after_insert(path, listing, stored_at).lookup(path, asked_at) is None,
        !cache.after_insert(path, listing, stored_at).after_lookup(
            path,
            asked_at,
        ).entries.contains_key(path),
        !cache.after_insert(path, listing, stored_at).after_lookup(path, asked_at).order.contains(
            path,
        ),
        cache.after_insert(path, listing, stored_at).after_lookup(path, asked_at).after_insert(
            path,
            replacement,
            replaced_at,
        ).entries[path] == (CacheEntryView { entries: replacement, timestamp: replaced_at }),
        cache.after_insert(path, listing, stored_at).after_lookup(path, asked_at).after_insert(
            path,
            replacement,
            replaced_at,
        ).lookup(path, replaced_at) == Some(replacement),
{
    cache.lemma_evicted();
    let stored = cache.after_insert(path, listing, stored_at);
    lemma_without(stored.order, path);
    let dropped = stored.after_lookup(path, asked_at);
    CacheModel::lemma_insert_keeps_wf(cache, path, listing, stored_at);
    CacheModel::lemma_lookup_keeps_wf(stored, path, asked_at);
    dropped.lemma_evicted();
}

/// An insertion of a new path into a tidy cache with room left evicts
/// nothing: the path is stored and becomes the most recently used.
pub proof fn law_insert_with_room_evicts_nothing(
    cache: CacheModel,
    path: Seq<char>,
    listing: Seq<FileEntryView>,
    now: u128,
)
    requires
        cache.tidy(),
        cache.entries.len() < cache.max_size,
        !cache.entries.contains_key(path),
    ensures
        cache.after_insert(path, listing, now).entries == cache.entries.insert(
            path,
            CacheEntryView { entries: listing, timestamp: now },
        ),
        cache.after_insert(path, listing, now).order == cache.order.push(path),
        cache.after_insert(path, listing, now).tidy(),
        cache.after_insert(path, listing, now).entries.len() == cache.entries.len() + 1,
{
    let after = cache.after_insert(path, listing, now);
    lemma_push_keeps_tidy(cache, after, path);
}

/// An insertion of a new path into a tidy cache that is full evicts exactly
/// the least recently used path, the one at the front of the access order,
/// and nothing else.
pub proof fn law_full_cache_evicts_least_recently_used(
    cache: CacheModel,
    path: Seq<char>,
    listing: Seq<FileEntryView>,
    now: u128,
)
    requires
        cache.tidy(),
        cache.max_size > 0,
        cache.entries.len() == cache.max_size,
        !cache.entries.contains_key(path),
    ensures
        cache.order.len() > 0,
        cache.after_insert(path, listing, now).entries == cache.entries.remove(
            cache.order[0],
        ).insert(path, CacheEntryView { entries: listing, timestamp: now }),
        cache.after_insert(path, listing, now).order == cache.order.drop_first().push(path),
        !cache.after_insert(path, listing, now).entries.contains_key(cache.order[0]),
        cache.after_insert(path, listing, now).tidy(),
        cache.after_insert(path, listing, now).entries.len() == cache.max_size,
{
    lemma_tidy_sizes(cache);
    let oldest = cache.order[0];
    assert(cache.order.contains(oldest));
    let next = CacheModel {
        entries: cache.entries.remove(oldest),
        order: cache.order.drop_first(),
        ..cache
    };
    assert(cache.evicted() == next.evicted());
    assert(next.entries.len() == cache.max_size - 1);
    assert(next.evicted() == next);
    assert(next.order.no_duplicates()) by {
        assert forall|i: int, j: int|
            0 <= i < next.order.len() && 0 <= j < next.order.len() && i != j implies next.order[i]
            != next.order[j] by {
            assert(next.order[i] == cache.order[i + 1] && next.order[j] == cache.order[j + 1]);
        }
    }
    assert forall|p: Seq<char>| next.entries.contains_key(p) <==> next.order.contains(p) by {
        if next.entries.contains_key(p) {
            assert(cache.entries.contains_key(p));
            assert(cache.order.contains(p));
            let i = choose|i: int| 0 <= i < cache.order.len() && cache.order[i] == p;
            assert(next.order[i - 1] == p);
        }
        if next.order.contains(p) {
            let i = choose|i: int| 0 <= i < next.order.len() && next.order[i] == p;
            assert(cache.order[i + 1] == p);
            assert(cache.order.contains(p));
        }
    }
    let after = cache.after_insert(path, listing, now);
    lemma_push_keeps_tidy(next, after, path);
    assert(path != oldest);
}

/// Storing a path that a tidy cache does not hold, with nothing to evict,
/// leaves it tidy and one listing larger.
proof fn lemma_push_keeps_tidy(cache: CacheModel, after: CacheModel, path: Seq<char>)
    requires
        cache.tidy(),
        !cache.entries.contains_key(path),
        after.order == cache.order.push(path),
        after.entries.dom() == cache.entries.dom().insert(path),
    ensures
        after.tidy(),
        after.entries.len() == cache.entries.len() + 1,
{
    assert(!cache.order.contains(path));
    assert forall|i: int, j: int|
        0 <= i < after.order.len() && 0 <= j < after.order.len() && i != j implies after.order[i]
        != after.order[j] by {
        if i < cache.order.len() {
            assert(cache.order.contains(cache.order[i]));
        }
        if j < cache.order.len() {
            assert(cache.order.contains(cache.order[j]));
        }
    }
    assert forall|p: Seq<char>| after.entries.contains_key(p) <==> after.order.contains(p) by {
        if after.entries.contains_key(p) {
            if p == path {
                assert(after.order[after.order.len() - 1] == p);
            } else {
                assert(cache.entries.contains_key(p));
                assert(cache.order.contains(p));
                let i = choose|i: int| 0 <= i < cache.order.len() && cache.order[i] == p;
                assert(after.order[i] == p);
            }
        }
        if after.order.contains(p) {
            let i = choose|i: int| 0 <= i < after.order.len() && after.order[i] == p;
            if i < cache.order.len() {
                assert(cache.order[i] == p);
                assert(cache.order.contains(p));
            }
        }
    }
}

/// A lookup leaves a tidy cache tidy; a fresh hit makes the path the most
/// recently used and keeps the others in their order.
pub proof fn law_lookup_keeps_order(cache: CacheModel, path: Seq<char>, now: u128)
    requires
        cache.tidy(),
    ensures
        cache.after_lookup(path, now).tidy(),
        cache.lookup(path, now) is Some ==> cache.after_lookup(path, now).order.last() == path
            && cache.after_lookup(path, now).order.drop_last() == without(cache.order, path),
{
    lemma_without(cache.order, path);
    let after = cache.after_lookup(path, now);
    let kept = without(cache.order, path);
    if !cache.entries.contains_key(path) {
    } else if is_stale(cache.entries[path].timestamp, now, cache.ttl) {
        assert forall|p: Seq<char>| after.entries.contains_key(p) <==> after.order.contains(p) by {
            if p != path {
                assert(cache.entries.contains_key(p) <==> cache.order.contains(p));
            }
        }
    } else {
        let base = CacheModel { entries: cache.entries.remove(path), order: kept, ..cache };
        assert forall|p: Seq<char>| base.entries.contains_key(p) <==> base.order.contains(p) by {
            if p != path {
                assert(cache.entries.contains_key(p) <==> cache.order.contains(p));
            }
        }
        assert(after.entries.dom() =~= base.entries.dom().insert(path));
        lemma_push_keeps_tidy(base, after, path);
        assert(after.order.drop_last() =~= kept);
    }
}

impl CacheModel {
    /// The cache after `listing` is stored at `now` for each of `paths` in
    /// turn.
    pub open spec fn after_inserts(
        self,
        paths: Seq<Seq<char>>,
        listing: Seq<FileEntryView>,
        now: u128,
    ) -> CacheModel
        decreases paths.len(),
    {
        if paths.len() == 0 {
            self
        } else {
            self.after_inserts(paths.drop_last(), listing, now).after_insert(
                paths.last(),
                listing,
                now,
            )
        }
    }
}

/// An empty cache that is filled with distinct paths up to its capacity holds
/// them all, in the order of their insertion.
proof fn lemma_filling(
    max_size: nat,
    ttl: u128,
    paths: Seq<Seq<char>>,
    listing: Seq<FileEntryView>,
    now: u128,
)
    requires
        paths.no_duplicates(),
        paths.len() <= max_size,
    ensures
        CacheModel::empty(max_size, ttl).after_inserts(paths, listing, now).tidy(),
        CacheModel::empty(max_size, ttl).after_inserts(paths, listing, now).order == paths,
        CacheModel::empty(max_size, ttl).after_inserts(paths, listing, now).entries.len()
            == paths.len(),
        CacheModel::empty(max_size, ttl).after_inserts(paths, listing, now).max_size == max_size,
    decreases paths.len(),
{
    let start = CacheModel::empty(max_size, ttl);
    if paths.len() == 0 {
        assert(start.order =~= paths);
    } else {
        let front = paths.drop_last();
        let last = paths.last();
        assert forall|i: int, j: int|
            0 <= i < front.len() && 0 <= j < front.len() && i != j implies front[i]
            != front[j] by {
            assert(front[i] == paths[i] && front[j] == paths[j]);
        }
        lemma_filling(max_size, ttl, front, listing, now);
        let before = start.after_inserts(front, listing, now);
        assert(!before.order.contains(last)) by {
            if before.order.contains(last) {
                let i = choose|i: int| 0 <= i < front.len() && front[i] == last;
                assert(paths[i] == paths[paths.len() - 1]);
            }
        }
        law_insert_with_room_evicts_nothing(before, last, listing, now);
        lemma_tidy_sizes(before);
        before.lemma_evicted();
        assert(front.push(last) =~= paths);
    }
}

/// Of one more distinct path than the cache has room for, inserted into an
/// empty cache one after another, exactly the first is evicted: the cache
/// holds all the others, in the order of their insertion.
pub proof fn law_one_past_capacity_evicts_the_first(
    max_size: nat,
    ttl: u128,
    paths: Seq<Seq<char>>,
    listing: Seq<FileEntryView>,
    now: u128,
)
    requires
        max_size > 0,
        paths.no_duplicates(),
        paths.len() == max_size + 1,
    ensures
        CacheModel::empty(max_size, ttl).after_inserts(paths, listing, now).order
            == paths.drop_first(),
        CacheModel::empty(max_size, ttl).after_inserts(paths, listing, now).entries.len()
            == max_size,
        !CacheModel::empty(max_size, ttl).after_inserts(
            paths,
            listing,
            now,
        ).entries.contains_key(paths[0]),
        forall|i: int|
            1 <= i < paths.len() ==> CacheModel::empty(max_size, ttl).after_inserts(
                paths,
                listing,
                now,
            ).entries.contains_key(#[trigger] paths[i]),
{
    let start = CacheModel::empty(max_size, ttl);
    let front = paths.drop_last();
    let last = paths.last();
    assert forall|i: int, j: int|
        0 <= i < front.len() && 0 <= j < front.len() && i != j implies front[i] != front[j] by {
        assert(front[i] == paths[i] && front[j] == paths[j]);
    }
    lemma_filling(max_size, ttl, front, listing, now);
    let full = start.after_inserts(front, listing, now);
    assert(!full.order.contains(last)) by {
        if full.order.contains(last) {
            let i = choose|i: int| 0 <= i < front.len() && front[i] == last;
            assert(paths[i] == paths[paths.len() - 1]);
        }
    }
    law_full_cache_evicts_least_recently_used(full, last, listing, now);
    let after = start.after_inserts(paths, listing, now);
    assert(after.order =~= paths.drop_first());
    assert(full.order[0] == paths[0]);
    assert forall|i: int| 1 <= i < paths.len() implies after.entries.contains_key(
        #[trigger] paths[i],
    ) by {
        assert(after.order[i - 1] == paths[i]);
        assert(after.order.contains(paths[i]));
    }
}

} // verus!
