use kin_lsp::cache::EnrichmentCache;
use kin_lsp::enrichment::EnrichmentResult;
use kin_lsp::types::Hash256;

#[test]
fn cache_insert_and_retrieve() {
    let mut cache = EnrichmentCache::new();
    let hash = Hash256::from_bytes([1; 32]);
    let result = EnrichmentResult::default();
    cache.insert(hash, "test.rs", result);

    assert_eq!(cache.len(), 1);
    assert!(cache.get(&hash).is_some());
    assert!(cache.get(&Hash256::from_bytes([2; 32])).is_none());
}

#[test]
fn cache_invalidate() {
    let mut cache = EnrichmentCache::new();
    let hash = Hash256::from_bytes([1; 32]);
    cache.insert(hash, "test.rs", EnrichmentResult::default());
    cache.invalidate(&hash);
    assert!(cache.is_empty());
}

#[test]
fn a_later_result_replaces_an_earlier_one() {
    let mut cache = EnrichmentCache::default();
    let one = Hash256::from_bytes([1; 32]);
    let two = Hash256::from_bytes([2; 32]);
    let counted = |items_processed: usize| EnrichmentResult {
        items_processed,
        ..EnrichmentResult::default()
    };
    cache.insert(one, "a.rs", counted(1));
    cache.insert(two, "b.rs", counted(2));
    cache.insert(one, "a.rs", counted(3));
    assert_eq!(cache.len(), 2);
    assert_eq!(cache.get(&one).map(|r| r.items_processed), Some(3));
    assert_eq!(cache.get(&two).map(|r| r.items_processed), Some(2));
    cache.invalidate(&one);
    assert!(cache.get(&one).is_none());
    assert_eq!(cache.get(&two).map(|r| r.items_processed), Some(2));
    cache.clear();
    assert!(cache.is_empty());
    assert_eq!(cache.len(), 0);
}
