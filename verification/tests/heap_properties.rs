use rtcache::indexed_min_heap::IndexedMinHeap;

// Pops everything, returning the priorities in the order they came out.
fn drain(heap: &mut IndexedMinHeap<u64, u64>) -> Vec<(u64, u64)> {
    let mut out = Vec::new();
    while let Some(entry) = heap.pop_min() {
        out.push(entry);
    }
    out
}

#[test]
fn pop_min_gives_sorted_priorities() {
    let mut heap = IndexedMinHeap::new();
    let priorities = [50u64, 3, 77, 3, 12, 99, 0, 41, 41, 8, 64, 25, 1, 90, 33];
    for (k, p) in priorities.iter().enumerate() {
        heap.insert(k as u64, *p);
    }
    assert_eq!(heap.len(), priorities.len());
    let out = drain(&mut heap);
    assert_eq!(out.len(), priorities.len());
    for w in out.windows(2) {
        assert!(w[0].1 <= w[1].1);
    }
    let mut got: Vec<u64> = out.iter().map(|e| e.1).collect();
    let mut want = priorities.to_vec();
    got.sort();
    want.sort();
    assert_eq!(got, want);
    assert!(heap.is_empty());
}

#[test]
fn remove_after_insert_returns_inserted_priority() {
    let mut heap = IndexedMinHeap::new();
    heap.insert(7u64, 70u64);
    heap.insert(8, 80);
    heap.insert(7, 5);
    assert_eq!(heap.len(), 2);
    assert_eq!(heap.remove(&7), Some(5));
    assert_eq!(heap.remove(&7), None);
    assert_eq!(heap.peek_min(), Some((&8, &80)));
}

#[test]
fn remove_from_middle_keeps_heap_order() {
    let mut heap = IndexedMinHeap::new();
    for k in 0u64..20 {
        heap.insert(k, (k * 37) % 23);
    }
    assert_eq!(heap.remove(&5), Some((5 * 37) % 23));
    assert_eq!(heap.remove(&0), Some(0));
    assert_eq!(heap.remove(&19), Some((19 * 37) % 23));
    assert_eq!(heap.len(), 17);
    let out = drain(&mut heap);
    assert_eq!(out.len(), 17);
    for w in out.windows(2) {
        assert!(w[0].1 <= w[1].1);
    }
    assert!(out.iter().all(|e| e.0 != 5 && e.0 != 0 && e.0 != 19));
}

#[test]
fn update_priority_moves_entry_both_ways() {
    let mut heap = IndexedMinHeap::new();
    for k in 0u64..10 {
        heap.insert(k, k * 10);
    }
    assert!(heap.update_priority(&9, 1));
    assert_eq!(heap.peek_min(), Some((&0, &0)));
    assert!(heap.update_priority(&0, 1000));
    assert_eq!(heap.peek_min(), Some((&9, &1)));
    assert!(!heap.update_priority(&42, 0));
    let out = drain(&mut heap);
    assert_eq!(out.first(), Some(&(9, 1)));
    assert_eq!(out.last(), Some(&(0, 1000)));
    assert_eq!(out.len(), 10);
}

#[test]
fn peek_matches_pop() {
    let mut heap = IndexedMinHeap::new();
    heap.insert(1u64, 4u64);
    heap.insert(2, 2);
    heap.insert(3, 9);
    let (k, p) = {
        let (k, p) = heap.peek_min().unwrap();
        (*k, *p)
    };
    assert_eq!(heap.pop_min(), Some((k, p)));
    assert_eq!((k, p), (2, 2));
}

#[test]
fn empty_heap_edges() {
    let mut heap: IndexedMinHeap<u64, u64> = IndexedMinHeap::new();
    assert_eq!(heap.remove(&1), None);
    assert!(!heap.update_priority(&1, 1));
    heap.insert(1, 1);
    assert_eq!(heap.pop_min(), Some((1, 1)));
    assert_eq!(heap.pop_min(), None);
    assert_eq!(heap.len(), 0);
}
