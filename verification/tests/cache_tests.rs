use markdown::cache::{CacheEntry, ContentCache};
use markdown::persist::{load_cache, persist_bytes};

fn entry(content: &str, align: Option<i64>) -> CacheEntry {
    CacheEntry { content: content.to_string(), align }
}

#[test]
fn get_before_any_insert_is_none() {
    let cache = ContentCache::new();
    assert!(cache.get(42).is_none());
    assert!(cache.get(0).is_none());
}

#[test]
fn insert_then_get_returns_the_value() {
    let mut cache = ContentCache::new();
    cache.insert(7, entry("<svg/>", Some(15000)));
    let got = cache.get(7).expect("inserted key must be readable");
    assert_eq!(got.content, "<svg/>");
    assert_eq!(got.align, Some(15000));
}

#[test]
fn reinserting_the_same_entry_changes_nothing() {
    let mut cache = ContentCache::new();
    cache.insert(7, entry("a", None));
    cache.insert(7, entry("a", None));
    let got = cache.get(7).unwrap();
    assert_eq!(got.content, "a");
    assert_eq!(got.align, None);
    assert_eq!(cache.num_entries(), 1);
}

#[test]
fn insert_overwrites_an_existing_key() {
    let mut cache = ContentCache::new();
    cache.insert(7, entry("first", None));
    cache.insert(7, entry("second", Some(-3)));
    let got = cache.get(7).unwrap();
    assert_eq!(got.content, "second");
    assert_eq!(got.align, Some(-3));
    assert_eq!(cache.num_entries(), 1);
}

#[test]
fn distinct_keys_are_independent() {
    let mut cache = ContentCache::new();
    cache.insert(1, entry("one", None));
    cache.insert(2, entry("two", Some(9)));
    assert_eq!(cache.get(1).unwrap().content, "one");
    assert_eq!(cache.get(2).unwrap().content, "two");
    assert!(cache.get(3).is_none());
}

#[test]
fn empty_cache_round_trips_through_its_blob() {
    let cache = ContentCache::new();
    let blob = persist_bytes(&cache);
    let reloaded = load_cache(&blob).expect("a fresh blob must load");
    assert_eq!(reloaded.num_entries(), 0);
    assert!(reloaded.get(0).is_none());
}

#[test]
fn populated_cache_round_trips_through_its_blob() {
    let mut cache = ContentCache::new();
    cache.insert(1, entry("<svg>math</svg>", None));
    cache.insert(2, entry("prüfung ✓", Some(13636)));
    cache.insert(3, entry("", Some(-42)));
    cache.insert(u64::MAX, entry("edge", Some(i64::MIN)));
    let blob = persist_bytes(&cache);
    let reloaded = load_cache(&blob).expect("a written blob must load");
    assert_eq!(reloaded.num_entries(), 4);
    let e1 = reloaded.get(1).unwrap();
    assert_eq!(e1.content, "<svg>math</svg>");
    assert_eq!(e1.align, None);
    let e2 = reloaded.get(2).unwrap();
    assert_eq!(e2.content, "prüfung ✓");
    assert_eq!(e2.align, Some(13636));
    let e3 = reloaded.get(3).unwrap();
    assert_eq!(e3.content, "");
    assert_eq!(e3.align, Some(-42));
    let e4 = reloaded.get(u64::MAX).unwrap();
    assert_eq!(e4.content, "edge");
    assert_eq!(e4.align, Some(i64::MIN));
}

#[test]
fn corrupt_blobs_are_hard_errors() {
    assert!(load_cache(&vec![]).is_err());
    assert!(load_cache(&vec![1, 2, 3]).is_err());
    // a count promising entries that are not there
    let mut blob = vec![0u8; 8];
    blob[0] = 5;
    assert!(load_cache(&blob).is_err());
    // trailing junk after a valid empty cache
    let mut ok = persist_bytes(&ContentCache::new());
    ok.push(0);
    assert!(load_cache(&ok).is_err());
}
