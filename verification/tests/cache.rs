use closm_probe::cache::{
    CacheEntry, DirectoryCache, FileEntry, DEFAULT_CACHE_CAPACITY, DEFAULT_CACHE_TTL_NANOS,
};

fn entry(name: &str, size: u64) -> FileEntry {
    FileEntry {
        name: name.to_string(),
        path: format!("/dir/{}", name),
        size_bytes: size,
        modified: 1_700_000_000,
        is_directory: false,
    }
}

fn names(listing: &Vec<FileEntry>) -> Vec<String> {
    listing.iter().map(|e| e.name.clone()).collect()
}

fn p(s: &str) -> String {
    s.to_string()
}

#[test]
fn defaults_are_fifty_listings_and_thirty_seconds() {
    assert_eq!(DEFAULT_CACHE_CAPACITY, 50);
    assert_eq!(DEFAULT_CACHE_TTL_NANOS, 30_000_000_000);
    let cache = DirectoryCache::default();
    assert_eq!(cache.len(), 0);
}

#[test]
fn listing_round_trips_within_ttl() {
    let mut cache = DirectoryCache::with_limits(50, 1_000);
    cache.insert_at(p("/a"), vec![entry("x", 1), entry("y", 2)], 100);
    let got = cache.get_at(&p("/a"), 100).unwrap();
    assert_eq!(names(&got), vec!["x", "y"]);
    assert_eq!(got[0].size_bytes, 1);
    assert_eq!(got[1].path, "/dir/y");
    assert_eq!(got[1].modified, 1_700_000_000);
    let again = cache.get_at(&p("/a"), 1_100).unwrap();
    assert_eq!(names(&again), vec!["x", "y"]);
}

#[test]
fn listing_is_dropped_once_ttl_has_passed() {
    let mut cache = DirectoryCache::with_limits(50, 1_000);
    cache.insert_at(p("/a"), vec![entry("x", 1)], 100);
    assert!(cache.get_at(&p("/a"), 1_101).is_none());
    assert_eq!(cache.len(), 0);
    assert!(cache.get_at(&p("/a"), 100).is_none());
    cache.insert_at(p("/a"), vec![entry("z", 9)], 2_000);
    let got = cache.get_at(&p("/a"), 2_500).unwrap();
    assert_eq!(names(&got), vec!["z"]);
    assert_eq!(cache.len(), 1);
}

#[test]
fn age_exactly_ttl_is_still_fresh() {
    let entry = CacheEntry { entries: Vec::new(), timestamp: 100 };
    assert!(!entry.is_expired(1_100, 1_000));
    assert!(entry.is_expired(1_101, 1_000));
    assert!(!entry.is_expired(50, 1_000));
    assert!(!entry.is_expired(50, 0));
    assert!(entry.is_expired(101, 0));
}

#[test]
fn missing_path_is_a_miss() {
    let mut cache = DirectoryCache::with_limits(2, 1_000);
    assert!(cache.get_at(&p("/nope"), 0).is_none());
    assert_eq!(cache.len(), 0);
}

#[test]
fn capacity_plus_one_evicts_the_first_inserted() {
    let mut cache = DirectoryCache::with_limits(50, 1_000_000);
    for i in 0..51 {
        cache.insert_at(format!("/d{}", i), vec![entry("f", i)], i as u128);
    }
    assert_eq!(cache.len(), 50);
    assert!(cache.get_at(&p("/d0"), 60).is_none());
    for i in 1..51 {
        assert!(cache.get_at(&format!("/d{}", i), 60).is_some());
    }
}

#[test]
fn a_read_protects_a_path_from_eviction() {
    let mut cache = DirectoryCache::with_limits(3, 1_000_000);
    cache.insert_at(p("/a"), vec![], 1);
    cache.insert_at(p("/b"), vec![], 2);
    cache.insert_at(p("/c"), vec![], 3);
    assert!(cache.get_at(&p("/a"), 4).is_some());
    cache.insert_at(p("/d"), vec![], 5);
    assert_eq!(cache.len(), 3);
    assert!(cache.get_at(&p("/b"), 6).is_none());
    assert!(cache.get_at(&p("/a"), 6).is_some());
    assert!(cache.get_at(&p("/c"), 6).is_some());
    assert!(cache.get_at(&p("/d"), 6).is_some());
    cache.insert_at(p("/e"), vec![], 7);
    assert!(cache.get_at(&p("/a"), 8).is_none());
    assert!(cache.get_at(&p("/c"), 8).is_some());
}

#[test]
fn insert_overwrites_and_resets_the_timestamp() {
    let mut cache = DirectoryCache::with_limits(5, 1_000);
    cache.insert_at(p("/a"), vec![entry("old", 1)], 0);
    cache.insert_at(p("/a"), vec![entry("new", 2)], 900);
    assert_eq!(cache.len(), 1);
    let got = cache.get_at(&p("/a"), 1_500).unwrap();
    assert_eq!(names(&got), vec!["new"]);
}

#[test]
fn invalidate_and_clear_remove_unconditionally() {
    let mut cache = DirectoryCache::with_limits(5, 1_000);
    cache.insert_at(p("/a"), vec![], 0);
    cache.insert_at(p("/b"), vec![], 0);
    cache.invalidate(&p("/a"));
    assert_eq!(cache.len(), 1);
    assert!(cache.get_at(&p("/a"), 0).is_none());
    cache.invalidate(&p("/missing"));
    assert_eq!(cache.len(), 1);
    cache.clear();
    assert_eq!(cache.len(), 0);
    assert!(cache.get_at(&p("/b"), 0).is_none());
}

#[test]
fn zero_capacity_keeps_only_the_newest() {
    let mut cache = DirectoryCache::with_limits(0, 1_000);
    cache.insert_at(p("/a"), vec![], 0);
    assert_eq!(cache.len(), 1);
    cache.insert_at(p("/b"), vec![], 0);
    assert_eq!(cache.len(), 1);
    assert!(cache.get_at(&p("/a"), 0).is_none());
    assert!(cache.get_at(&p("/b"), 0).is_some());
}

#[test]
fn clock_driven_calls_round_trip() {
    let mut cache = DirectoryCache::default();
    cache.insert(p("/a"), vec![entry("x", 1)]);
    let got = cache.get(&p("/a")).unwrap();
    assert_eq!(names(&got), vec!["x"]);
    let first = cache.now();
    let second = cache.now();
    assert!(second >= first);
}

#[test]
fn clone_keeps_every_field() {
    let e = FileEntry {
        name: p("n"),
        path: p("/p/n"),
        size_bytes: 7,
        modified: 11,
        is_directory: true,
    };
    let c = e.clone();
    assert_eq!(c.name, "n");
    assert_eq!(c.path, "/p/n");
    assert_eq!(c.size_bytes, 7);
    assert_eq!(c.modified, 11);
    assert!(c.is_directory);
}

#[test]
fn a_read_on_the_default_cache_protects_the_first_path() {
    let mut cache = DirectoryCache::default();
    for i in 0..50 {
        cache.insert_at(format!("/d{}", i), vec![entry("f", i)], i as u128);
    }
    assert_eq!(cache.len(), 50);
    assert!(cache.get_at(&p("/d0"), 50).is_some());
    cache.insert_at(p("/d50"), vec![entry("f", 50)], 51);
    assert_eq!(cache.len(), 50);
    assert!(cache.get_at(&p("/d1"), 52).is_none());
    assert!(cache.get_at(&p("/d0"), 52).is_some());
    for i in 2..51 {
        assert!(cache.get_at(&format!("/d{}", i), 52).is_some());
    }
    assert_eq!(cache.len(), 50);
}
