use rsb::checksum::ChecksumCache;

#[test]
fn test_checksum_calculation() {
    let checksum1 = ChecksumCache::checksum_of_contents(b"Hello, World!");
    let checksum2 = ChecksumCache::checksum_of_contents(b"Hello, World!");
    // Same content should produce same checksum
    assert_eq!(checksum1, checksum2);
    // SHA-256 gives 64 hex characters
    assert_eq!(checksum1.len(), 64);
}

#[test]
fn checksum_of_known_contents() {
    assert_eq!(
        ChecksumCache::checksum_of_contents(b"Hello, World!"),
        "dffd6021bb2bd5b0af676290809ec3a53191dd81c7f70a4b28688a362182986f"
    );
    assert_eq!(
        ChecksumCache::checksum_of_contents(b""),
        "e3b0c44298fc1c149afbf4c8996fb92427ae41e4649b934ca495991b7852b855"
    );
}

#[test]
fn test_change_detection() {
    let mut cache = ChecksumCache::new();
    let key = "test:file";
    // First check - no cached checksum
    assert!(cache.get_by_key(key).is_none());
    let checksum1 = ChecksumCache::checksum_of_contents(b"Initial content");
    cache.set_by_key(key.to_string(), checksum1.clone());
    // Second check - should match
    assert_eq!(cache.get_by_key(key), Some(&checksum1));
    // Modified content gives another checksum
    let checksum2 = ChecksumCache::checksum_of_contents(b"Modified content");
    assert_ne!(checksum1, checksum2);
}

#[test]
fn test_clear() {
    let mut cache = ChecksumCache::new();
    let key = "test:file";
    let checksum = ChecksumCache::checksum_of_contents(b"Content");
    cache.set_by_key(key.to_string(), checksum);
    assert!(cache.get_by_key(key).is_some());
    cache.clear();
    assert!(cache.get_by_key(key).is_none());
    assert!(cache.entries().is_empty());
}

#[test]
fn set_overwrites_and_keeps_other_keys() {
    let mut cache = ChecksumCache::new();
    cache.set_by_key("a".to_string(), "1".to_string());
    cache.set_by_key("b".to_string(), "2".to_string());
    cache.set_by_key("a".to_string(), "3".to_string());
    assert_eq!(cache.get_by_key("a"), Some(&"3".to_string()));
    assert_eq!(cache.get_by_key("b"), Some(&"2".to_string()));
    assert_eq!(
        cache.entries(),
        vec![("a".to_string(), "3".to_string()), ("b".to_string(), "2".to_string())]
    );
}

#[test]
fn keys_compare_as_paths() {
    let mut cache = ChecksumCache::new();
    cache.set_by_key("src/main.py".to_string(), "x".to_string());
    assert_eq!(cache.get_by_key("src//main.py"), Some(&"x".to_string()));
    assert_eq!(cache.get_by_key("src/main.py/"), Some(&"x".to_string()));
    assert!(cache.get_by_key("src/main").is_none());
}

#[test]
fn test_cache_persistence() {
    let mut cache1 = ChecksumCache::new();
    let key = "test:file";
    let checksum = ChecksumCache::checksum_of_contents(b"Test content");
    cache1.set_by_key(key.to_string(), checksum.clone());
    let saved = cache1.entries();
    let cache2 = ChecksumCache::from_entries(&saved);
    assert_eq!(cache2.get_by_key(key), Some(&checksum));
}

#[test]
fn reloaded_cache_answers_alike_in_any_order() {
    let mut cache = ChecksumCache::new();
    cache.set_by_key("src/a.py".to_string(), "1".to_string());
    cache.set_by_key("src/b.py".to_string(), "2".to_string());
    cache.set_by_key("src//a.py".to_string(), "3".to_string());
    let mut saved = cache.entries();
    assert_eq!(saved.len(), 2);
    saved.reverse();
    let loaded = ChecksumCache::from_entries(&saved);
    for key in ["src/a.py", "src/b.py", "src/./a.py", "src/c.py"] {
        assert_eq!(loaded.get_by_key(key), cache.get_by_key(key));
    }
    assert_eq!(loaded.get_by_key("src/a.py"), Some(&"3".to_string()));
}
