use rtcache::indexed_min_heap::IndexedMinHeap;

#[test]
fn test_basic_operations() {
    let mut heap = IndexedMinHeap::new();

    // Test empty heap
    assert!(heap.is_empty());
    assert_eq!(heap.len(), 0);
    assert_eq!(heap.peek_min(), None);
    assert_eq!(heap.pop_min(), None);

    // Test insertion
    heap.insert("a", 3);
    heap.insert("b", 1);
    heap.insert("c", 2);

    assert_eq!(heap.len(), 3);
    assert!(!heap.is_empty());

    // Test peek_min
    assert_eq!(heap.peek_min(), Some((&"b", &1)));

    // Test pop_min
    assert_eq!(heap.pop_min(), Some(("b", 1)));
    assert_eq!(heap.pop_min(), Some(("c", 2)));
    assert_eq!(heap.pop_min(), Some(("a", 3)));
    assert_eq!(heap.pop_min(), None);
}

#[test]
fn test_update_priority() {
    let mut heap = IndexedMinHeap::new();

    heap.insert("a", 3);
    heap.insert("b", 2);
    heap.insert("c", 1);

    // Update to a higher priority (smaller number)
    assert!(heap.update_priority(&"b", 0));
    assert_eq!(heap.peek_min(), Some((&"b", &0)));

    // Update to a lower priority (larger number)
    assert!(heap.update_priority(&"c", 4));

    // Update non-existent key
    assert!(!heap.update_priority(&"d", 5));

    // Check final order
    assert_eq!(heap.pop_min(), Some(("b", 0)));
    assert_eq!(heap.pop_min(), Some(("a", 3)));
    assert_eq!(heap.pop_min(), Some(("c", 4)));
}

#[test]
fn test_remove() {
    let mut heap = IndexedMinHeap::new();

    heap.insert("a", 3);
    heap.insert("b", 1);
    heap.insert("c", 2);

    // Remove middle element
    assert_eq!(heap.remove(&"c"), Some(2));
    assert_eq!(heap.len(), 2);

    // Remove non-existent element
    assert_eq!(heap.remove(&"d"), None);

    // Remove remaining elements
    assert_eq!(heap.remove(&"b"), Some(1));
    assert_eq!(heap.remove(&"a"), Some(3));
    assert!(heap.is_empty());
}

#[test]
fn test_duplicate_keys() {
    let mut heap = IndexedMinHeap::new();

    // Insert initial value
    heap.insert("a", 3);
    assert_eq!(heap.len(), 1);

    // Update via insert
    heap.insert("a", 1);
    assert_eq!(heap.len(), 1);
    assert_eq!(heap.peek_min(), Some((&"a", &1)));

    // Update via update_priority
    heap.update_priority(&"a", 2);
    assert_eq!(heap.peek_min(), Some((&"a", &2)));
}
