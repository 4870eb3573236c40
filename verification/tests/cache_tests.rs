use reposnap::cache::{
    check_cache, clear_cache_internal, load_cache, save_cache, update_cache, CacheEntry,
    StoredCache, TokenCache, CACHE_CAPACITY,
};

fn entry(path: &str, modified: u64, token_count: usize) -> CacheEntry {
    CacheEntry { path: path.to_string(), modified, token_count }
}

fn paths(cache: &TokenCache) -> Vec<String> {
    save_cache(cache).into_iter().map(|e| e.path).collect()
}

#[test]
fn capacity_is_one_thousand() {
    assert_eq!(CACHE_CAPACITY, 1000);
}

#[test]
fn new_cache_is_empty() {
    let cache = TokenCache::new();
    assert!(save_cache(&cache).is_empty());
}

#[test]
fn zero_capacity_gives_no_cache() {
    assert!(TokenCache::with_capacity(0).is_none());
    assert!(TokenCache::with_capacity(1).is_some());
}

#[test]
fn lookup_in_empty_cache_misses() {
    let mut cache = TokenCache::new();
    assert_eq!(check_cache("/a", 1, &mut cache), None);
}

#[test]
fn stored_count_is_found_at_its_time() {
    let mut cache = TokenCache::new();
    update_cache("/a".to_string(), 10, 42, &mut cache);
    assert_eq!(check_cache("/a", 10, &mut cache), Some(42));
    assert_eq!(check_cache("/a", 10, &mut cache), Some(42));
}

#[test]
fn stored_count_is_stale_at_another_time() {
    let mut cache = TokenCache::new();
    update_cache("/a".to_string(), 10, 42, &mut cache);
    assert_eq!(check_cache("/a", 11, &mut cache), None);
    assert_eq!(check_cache("/a", 9, &mut cache), None);
    assert_eq!(check_cache("/a", 10, &mut cache), Some(42));
}

#[test]
fn update_replaces_the_older_entry() {
    let mut cache = TokenCache::new();
    update_cache("/a".to_string(), 10, 42, &mut cache);
    update_cache("/a".to_string(), 11, 43, &mut cache);
    assert_eq!(check_cache("/a", 10, &mut cache), None);
    assert_eq!(check_cache("/a", 11, &mut cache), Some(43));
    assert_eq!(save_cache(&cache).len(), 1);
}

#[test]
fn entries_come_most_recently_used_first() {
    let mut cache = TokenCache::new();
    update_cache("/a".to_string(), 1, 1, &mut cache);
    update_cache("/b".to_string(), 2, 2, &mut cache);
    update_cache("/c".to_string(), 3, 3, &mut cache);
    assert_eq!(paths(&cache), vec!["/c", "/b", "/a"]);
    assert_eq!(check_cache("/a", 1, &mut cache), Some(1));
    assert_eq!(paths(&cache), vec!["/a", "/c", "/b"]);
    assert_eq!(check_cache("/c", 99, &mut cache), None);
    assert_eq!(paths(&cache), vec!["/c", "/a", "/b"]);
    let saved = save_cache(&cache);
    assert_eq!(saved[2].modified, 2);
    assert_eq!(saved[2].token_count, 2);
}

#[test]
fn full_cache_drops_the_least_recently_used() {
    let mut cache = TokenCache::with_capacity(2).unwrap();
    update_cache("/a".to_string(), 1, 1, &mut cache);
    update_cache("/b".to_string(), 2, 2, &mut cache);
    assert_eq!(check_cache("/a", 1, &mut cache), Some(1));
    update_cache("/c".to_string(), 3, 3, &mut cache);
    assert_eq!(paths(&cache), vec!["/c", "/a"]);
    assert_eq!(check_cache("/b", 2, &mut cache), None);
}

#[test]
fn update_of_a_known_path_drops_nothing() {
    let mut cache = TokenCache::with_capacity(2).unwrap();
    update_cache("/a".to_string(), 1, 1, &mut cache);
    update_cache("/b".to_string(), 2, 2, &mut cache);
    update_cache("/a".to_string(), 5, 5, &mut cache);
    assert_eq!(paths(&cache), vec!["/a", "/b"]);
}

#[test]
fn clear_forgets_everything() {
    let mut cache = TokenCache::new();
    update_cache("/a".to_string(), 1, 1, &mut cache);
    clear_cache_internal(&mut cache);
    assert!(save_cache(&cache).is_empty());
    assert_eq!(check_cache("/a", 1, &mut cache), None);
    clear_cache_internal(&mut cache);
    assert!(save_cache(&cache).is_empty());
}

#[test]
fn load_from_missing_store_is_empty() {
    let (cache, purge) = load_cache(StoredCache::Missing);
    assert!(save_cache(&cache).is_empty());
    assert!(!purge);
    let (cache, purge) = load_cache(StoredCache::Unavailable);
    assert!(save_cache(&cache).is_empty());
    assert!(!purge);
}

#[test]
fn load_from_corrupt_store_is_empty_and_purges() {
    let (cache, purge) = load_cache(StoredCache::Corrupt);
    assert!(save_cache(&cache).is_empty());
    assert!(purge);
}

#[test]
fn load_stores_the_entries_in_order() {
    let stored = StoredCache::Entries(vec![entry("/a", 1, 10), entry("/b", 2, 20), entry("/a", 3, 30)]);
    let (mut cache, purge) = load_cache(stored);
    assert!(!purge);
    assert_eq!(paths(&cache), vec!["/a", "/b"]);
    assert_eq!(check_cache("/a", 3, &mut cache), Some(30));
    assert_eq!(check_cache("/a", 1, &mut cache), None);
    assert_eq!(check_cache("/b", 2, &mut cache), Some(20));
}

#[test]
fn load_keeps_at_most_the_capacity() {
    let mut list = Vec::new();
    for i in 0..1005u64 {
        list.push(entry(&format!("/f{}", i), i, 1));
    }
    let (mut cache, _) = load_cache(StoredCache::Entries(list));
    assert_eq!(save_cache(&cache).len(), 1000);
    assert_eq!(check_cache("/f0", 0, &mut cache), None);
    assert_eq!(check_cache("/f4", 4, &mut cache), None);
    assert_eq!(check_cache("/f5", 5, &mut cache), Some(1));
    assert_eq!(check_cache("/f1004", 1004, &mut cache), Some(1));
}
