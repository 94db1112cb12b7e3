# rtcache

A read-through/write-back cache, with an indexed min-heap, verified with Verus.

- `src/indexed_min_heap.rs`: `IndexedMinHeap<K, P>`, a binary min-heap of
  `(key, priority)` pairs with a map from each key to its position. Its view is
  the map from keys to priorities; every operation is specified against it, and
  `pop_min` / `peek_min` are proved to give a least priority.
- `src/heap_order.rs`: the heap order on a sequence of priorities and the facts
  that sifting up and down preserve.
- `src/order.rs`: the total-order facts the heap takes from a lawful `Ord`.
- `src/cache.rs`: the cache's table of entries (fetching, failed, cached) and the
  functions that look a key up, record a fetch, store, evict and prune, each
  specified by what it does to the table.
- `app/lib.rs`: the asynchronous `Cache` and the `Store` trait: locking, fetch
  tasks, waiting on broadcast channels and the background pruner, calling the
  table functions of the library for every change.
