//! An indexed min-heap: a binary min-heap of `(key, priority)` pairs with a
//! map from each key to its position, so that a key's priority can be
//! changed, or the key removed, without searching for it.
use crate::heap_order::{
    children_in_order, heap_below, heap_but_at, in_order_at, is_ancestor_or_self, is_min_heap,
    lemma_ancestor_child, lemma_ancestor_parent, lemma_ancestor_self, lemma_drop_last,
    lemma_first_is_least, lemma_heap_below_any, lemma_heap_from_parts, lemma_move_last,
    lemma_push_entry, lemma_set_entry, lemma_sift_down_step, lemma_sift_up_step, parent_of,
    swapped,
};
use crate::order::{lawful_order, less, not_after};
use std::collections::HashMap;
use std::hash::Hash;
use vstd::prelude::*;

verus! {

broadcast use vstd::std_specs::hash::group_hash_axioms;

/// A node in the heap. `priority` is used to order nodes (smallest = highest priority).
#[derive(Debug)]
struct HeapNode<K, P> {
    key: K,
    priority: P,
}

/// An indexed min-heap. The smallest `priority` is at the "top".
#[derive(Debug)]
pub struct IndexedMinHeap<K, P> {
    /// The actual heap storage (array-based).
    nodes: Vec<HeapNode<K, P>>,
    /// Maps keys -> index in the `nodes` vector.
    indices: HashMap<K, usize>,
}

/// `clone` on `K` gives back a value equal to its input.
pub open spec fn keys_clone_exactly<K: Clone>() -> bool {
    forall|a: K, b: K| #[trigger] vstd::pervasive::strictly_cloned(a, b) ==> a == b
}

/// What the heap needs of its type parameters: keys that behave as hash-map
/// keys (deterministic hash, `==` is equality, `clone` copies), and
/// priorities ordered by a lawful total order.
pub open spec fn supported_types<K: Eq + Hash + Clone, P: Ord>() -> bool {
    &&& vstd::std_specs::hash::obeys_key_model::<K>()
    &&& keys_clone_exactly::<K>()
    &&& lawful_order::<P>()
}

/// `p` is no larger than any priority in `m`.
pub open spec fn is_least_priority<K, P: PartialOrd>(m: Map<K, P>, p: P) -> bool {
    forall|k: K| #[trigger] m.contains_key(k) ==> not_after(p, m[k])
}

/// Successive calls of `pop_min` give priorities in non-decreasing order:
/// once `(k1, p1)` is popped from a heap holding `m` (so `p1` is least in `m`),
/// whatever the next call pops from `m` without `k1` is no smaller than `p1`.
pub proof fn lemma_pop_min_sorted<K, P: Ord>(m: Map<K, P>, k1: K, p1: P, k2: K)
    requires
        lawful_order::<P>(),
        m.contains_key(k1),
        m[k1] == p1,
        is_least_priority(m, p1),
        m.remove(k1).contains_key(k2),
    ensures
        not_after(p1, m.remove(k1)[k2]),
{
    assert(m.contains_key(k2));
}

/// One `pop_min` after another, as their contracts describe them: each takes
/// an entry of least priority from `maps[i]` and leaves `maps[i + 1]`.
pub open spec fn successive_pops<K, P: PartialOrd>(maps: Seq<Map<K, P>>, popped: Seq<(K, P)>) -> bool {
    &&& maps.len() == popped.len() + 1
    &&& forall|i: int|
        #![trigger popped[i]]
        0 <= i < popped.len() ==> {
            &&& maps[i].contains_key(popped[i].0)
            &&& maps[i][popped[i].0] == popped[i].1
            &&& is_least_priority(maps[i], popped[i].1)
            &&& maps[i + 1] == maps[i].remove(popped[i].0)
        }
}

proof fn lemma_pops_shrink<K, P: PartialOrd>(maps: Seq<Map<K, P>>, popped: Seq<(K, P)>, i: int, j: int)
    requires
        successive_pops(maps, popped),
        maps[0].dom().finite(),
        0 <= i <= j < maps.len(),
    ensures
        maps[j].dom().finite(),
        maps[j].len() == maps[0].len() - j,
        forall|k: K| #[trigger] maps[j].contains_key(k) ==> maps[i].contains_key(k) && maps[i][k]
            == maps[j][k],
    decreases j,
{
    if j > 0 {
        lemma_pops_shrink(maps, popped, if i < j { i } else { j - 1 }, j - 1);
        let q = popped[j - 1];
        assert(maps[j] == maps[j - 1].remove(q.0));
    }
}

/// Draining a heap with `pop_min` gives its entries in non-decreasing order
/// of priority, one key per call, and after as many calls as the heap had
/// entries it is empty (so the next call returns `None`).
pub proof fn lemma_drain_sorted<K, P: Ord>(maps: Seq<Map<K, P>>, popped: Seq<(K, P)>)
    requires
        lawful_order::<P>(),
        successive_pops(maps, popped),
        maps[0].dom().finite(),
    ensures
        maps[popped.len() as int].dom().finite(),
        maps[popped.len() as int].len() == maps[0].len() - popped.len(),
        forall|i: int, j: int|
            0 <= i < j < popped.len() ==> not_after(#[trigger] popped[i].1, #[trigger] popped[j].1)
                && popped[i].0 != popped[j].0,
        forall|i: int|
            0 <= i < popped.len() ==> maps[0].contains_key(#[trigger] popped[i].0)
                && maps[0][popped[i].0] == popped[i].1,
        popped.len() == maps[0].len() ==> maps[popped.len() as int] == Map::<K, P>::empty(),
{
    let n = popped.len() as int;
    lemma_pops_shrink(maps, popped, 0, n);
    assert forall|i: int, j: int| 0 <= i < j < popped.len() implies not_after(
        #[trigger] popped[i].1,
        #[trigger] popped[j].1,
    ) && popped[i].0 != popped[j].0 by {
        lemma_pops_shrink(maps, popped, i + 1, j);
        let pi = popped[i];
        let pj = popped[j];
        assert(maps[i + 1] == maps[i].remove(pi.0));
        assert(maps[j].contains_key(pj.0) && maps[j][pj.0] == pj.1);
        assert(maps[i + 1].contains_key(popped[j].0));
        assert(maps[i].contains_key(popped[j].0));
        assert(maps[i][popped[j].0] == popped[j].1);
    }
    assert forall|i: int| 0 <= i < popped.len() implies maps[0].contains_key(#[trigger] popped[i].0)
        && maps[0][popped[i].0] == popped[i].1 by {
        lemma_pops_shrink(maps, popped, 0, i);
    }
    if n == maps[0].len() {
        assert(maps[n].dom() =~= Set::<K>::empty());
        assert(maps[n] =~= Map::<K, P>::empty());
    }
}

/// Inserting a key that is already present replaces its priority and keeps
/// the number of entries; inserting a new key adds one entry.
pub proof fn lemma_insert_len<K, P>(m: Map<K, P>, k: K, p: P)
    requires
        m.dom().finite(),
    ensures
        m.insert(k, p)[k] == p,
        m.insert(k, p).len() == (if m.contains_key(k) {
            m.len()
        } else {
            m.len() + 1
        }),
{
    if m.contains_key(k) {
        assert(m.insert(k, p).dom() =~= m.dom());
    }
}

/// Removing a key right after inserting it gives back the inserted priority
/// and leaves the heap as removing it from the start would.
pub proof fn lemma_remove_after_insert<K, P>(m: Map<K, P>, k: K, p: P)
    ensures
        m.insert(k, p).contains_key(k),
        m.insert(k, p)[k] == p,
        m.insert(k, p).remove(k) == m.remove(k),
{
    assert(m.insert(k, p).remove(k) =~= m.remove(k));
}

/// `<[T]>::swap` from std: exchanges the elements at positions `i` and `j`
/// (it panics when either is out of bounds, which `requires` rules out).
#[verifier::external_body]
fn swap_in_vec<T>(v: &mut Vec<T>, i: usize, j: usize)
    requires
        i < old(v).len(),
        j < old(v).len(),
    ensures
        final(v)@ == old(v)@.update(i as int, old(v)@[j as int]).update(j as int, old(v)@[i as int]),
{
    v.swap(i, j)
}

/// A copy of `k`, made by `clone`.
fn copy_key<K: Clone>(k: &K) -> (r: K)
    requires
        keys_clone_exactly::<K>(),
    ensures
        r == *k,
{
    let r = k.clone();
    assert(vstd::pervasive::strictly_cloned(*k, r));
    r
}

impl<K, P> View for IndexedMinHeap<K, P> {
    type V = Map<K, P>;

    /// The priority of each key in the heap.
    closed spec fn view(&self) -> Map<K, P> {
        Map::new(
            |k: K| self.indices@.contains_key(k),
            |k: K| self.nodes@[self.indices@[k] as int].priority,
        )
    }
}

impl<K, P> IndexedMinHeap<K, P> where K: Eq + Hash + Clone, P: Ord + Clone {
    /// The priorities in heap order.
    spec fn priorities(&self) -> Seq<P> {
        self.nodes@.map_values(|n: HeapNode<K, P>| n.priority)
    }

    /// The keys in heap order.
    spec fn keys(&self) -> Seq<K> {
        self.nodes@.map_values(|n: HeapNode<K, P>| n.key)
    }

    /// `indices` maps each key to the position of its node, and nothing else.
    spec fn index_consistent(&self) -> bool {
        &&& forall|i: int|
            #![trigger self.nodes@[i]]
            0 <= i < self.nodes@.len() ==> self.indices@.contains_key(self.nodes@[i].key)
                && self.indices@[self.nodes@[i].key] == i
        &&& forall|k: K| #[trigger]
            self.indices@.contains_key(k) ==> self.indices@[k] < self.nodes@.len()
                && self.nodes@[self.indices@[k] as int].key == k
    }

    /// The heap's internal invariant.
    pub closed spec fn well_formed(&self) -> bool {
        &&& supported_types::<K, P>()
        &&& self.index_consistent()
        &&& is_min_heap(self.priorities())
    }

    /// The entry at the top of the heap, if any: what `peek_min` shows and
    /// `pop_min` takes.
    pub closed spec fn top(&self) -> Option<(K, P)> {
        if self.nodes@.len() == 0 {
            None
        } else {
            Some((self.nodes@[0].key, self.nodes@[0].priority))
        }
    }

    proof fn lemma_view_len(&self)
        requires
            self.index_consistent(),
        ensures
            self@.dom().finite(),
            self@.len() == self.nodes@.len(),
    {
        let ks = self.keys();
        assert(self@.dom() =~= ks.to_set()) by {
            assert forall|k: K| self@.dom().contains(k) implies ks.to_set().contains(k) by {
                let i = self.indices@[k] as int;
                assert(ks[i] == k);
            }
            assert forall|k: K| ks.to_set().contains(k) implies self@.dom().contains(k) by {
                let i = choose|i: int| 0 <= i < ks.len() && ks[i] == k;
                assert(self.nodes@[i].key == k);
            }
        }
        assert(ks.no_duplicates()) by {
            assert forall|i: int, j: int| 0 <= i < ks.len() && 0 <= j < ks.len() && i != j implies ks[i]
                != ks[j] by {
                assert(self.nodes@[i].key == ks[i]);
                assert(self.nodes@[j].key == ks[j]);
            }
        }
        ks.unique_seq_to_set();
    }

    proof fn lemma_top(&self)
        requires
            self.well_formed(),
        ensures
            self.top() is None <==> self@.len() == 0,
            self.top() matches Some((k, p)) ==> self@.contains_key(k) && self@[k] == p
                && is_least_priority(self@, p),
    {
        self.lemma_view_len();
        if self.nodes@.len() > 0 {
            let p = self.nodes@[0].priority;
            assert(self.priorities()[0] == p);
            assert forall|k: K| #[trigger] self@.contains_key(k) implies not_after(p, self@[k]) by {
                let i = self.indices@[k] as int;
                lemma_first_is_least(self.priorities(), i);
                assert(self.priorities()[i] == self@[k]);
            }
        }
    }

    /// Giving the node at `idx` a new priority keeps the index and changes
    /// only that key's priority.
    proof fn lemma_set_priority_view(&self, prev: Self, idx: int, p: P)
        requires
            prev.index_consistent(),
            0 <= idx < prev.nodes@.len(),
            self.nodes@.len() == prev.nodes@.len(),
            self.nodes@[idx].key == prev.nodes@[idx].key,
            self.nodes@[idx].priority == p,
            forall|i: int| 0 <= i < prev.nodes@.len() && i != idx ==> self.nodes@[i] == prev.nodes@[i],
            self.indices@ == prev.indices@,
        ensures
            self.index_consistent(),
            self@ == prev@.insert(prev.nodes@[idx].key, p),
    {
        let key = prev.nodes@[idx].key;
        assert forall|i: int|
            #![trigger self.nodes@[i]]
            0 <= i < self.nodes@.len() implies self.indices@.contains_key(self.nodes@[i].key)
            && self.indices@[self.nodes@[i].key] == i by {
            assert(prev.nodes@[i].key == self.nodes@[i].key);
        }
        assert(self@ =~= prev@.insert(key, p)) by {
            assert forall|k: K| #[trigger] self.indices@.contains_key(k) && k != key implies self@[k]
                == prev@[k] by {
                assert(prev.nodes@[prev.indices@[k] as int].key == k);
            }
        }
    }

    /// After the node at `idx` is exchanged with the last one and popped, and
    /// the index updated, the heap holds every key but the removed one, in
    /// order but around `idx`.
    proof fn lemma_removed(&self, prev: Self, idx: int)
        requires
            prev.well_formed(),
            0 <= idx < prev.nodes@.len(),
            self.nodes@ == swapped(prev.nodes@, idx, prev.nodes@.len() - 1).drop_last(),
            self.indices@ == (if idx < prev.nodes@.len() - 1 {
                prev.indices@.remove(prev.nodes@[idx].key).insert(
                    prev.nodes@[prev.nodes@.len() - 1].key,
                    idx as usize,
                )
            } else {
                prev.indices@.remove(prev.nodes@[idx].key)
            }),
        ensures
            self.index_consistent(),
            self@ == prev@.remove(prev.nodes@[idx].key),
            idx < self.nodes@.len() ==> heap_but_at(self.priorities(), idx),
            is_min_heap(self.priorities()) || idx < self.nodes@.len(),
    {
        let n = prev.nodes@.len();
        let s = prev.nodes@;
        let removed = s[idx].key;
        let last = s[n - 1].key;
        let ps = prev.priorities();
        if idx < n - 1 {
            lemma_move_last(ps, idx);
            assert(self.priorities() =~= ps.update(idx, ps.last()).drop_last());
        } else {
            lemma_drop_last(ps);
            assert(self.priorities() =~= ps.drop_last());
        }
        assert forall|i: int|
            #![trigger self.nodes@[i]]
            0 <= i < self.nodes@.len() implies self.indices@.contains_key(self.nodes@[i].key)
            && self.indices@[self.nodes@[i].key] == i by {
            if i != idx {
                assert(self.nodes@[i] == s[i]);
                assert(prev.indices@[s[i].key] == i);
                assert(prev.indices@[s[idx].key] == idx);
                assert(prev.indices@[s[n - 1].key] == n - 1);
            }
        }
        assert forall|k: K| #[trigger] self.indices@.contains_key(k) implies self.indices@[k]
            < self.nodes@.len() && self.nodes@[self.indices@[k] as int].key == k by {
            if !(idx < n - 1 && k == last) {
                let x = prev.indices@[k] as int;
                assert(s[x].key == k);
                assert(prev.indices@[s[idx].key] == idx);
                assert(prev.indices@[s[n - 1].key] == n - 1);
                assert(x != idx);
                if idx < n - 1 {
                    assert(x != n - 1);
                } else {
                    assert(x != n - 1);
                }
                assert(self.nodes@[x] == s[x]);
            }
        }
        assert(self@ =~= prev@.remove(removed)) by {
            assert forall|k: K| #[trigger] self.indices@.contains_key(k) implies self@[k] == prev@[k] by {
                let x = prev.indices@[k] as int;
                assert(s[x].key == k);
                assert(prev.indices@[s[idx].key] == idx);
                assert(prev.indices@[s[n - 1].key] == n - 1);
                if idx < n - 1 && k == last {
                    assert(x == n - 1);
                    assert(self.nodes@[idx] == s[n - 1]);
                } else {
                    assert(self.nodes@[x] == s[x]);
                }
            }
        }
    }

    /// A well-formed heap is one whose key and priority types meet what it needs.
    pub proof fn lemma_types_supported(&self)
        requires
            self.well_formed(),
        ensures
            supported_types::<K, P>(),
    {
    }

    /// A well-formed heap holds finitely many keys.
    pub proof fn lemma_view_finite(&self)
        requires
            self.well_formed(),
        ensures
            self@.dom().finite(),
    {
        self.lemma_view_len();
    }

    /// Creates an empty IndexedMinHeap.
    pub fn new() -> (heap: Self)
        requires
            supported_types::<K, P>(),
        ensures
            heap.well_formed(),
            heap@ == Map::<K, P>::empty(),
            heap@.dom().finite(),
    {
        let heap = Self { nodes: Vec::new(), indices: HashMap::new() };
        assert(heap@ =~= Map::<K, P>::empty());
        heap
    }

    /// Returns the number of items in the heap.
    pub fn len(&self) -> (n: usize)
        requires
            self.well_formed(),
        ensures
            n == self@.len(),
            self@.dom().finite(),
    {
        proof {
            self.lemma_view_len();
        }
        self.nodes.len()
    }

    /// Returns `true` if the heap is empty.
    pub fn is_empty(&self) -> (b: bool)
        requires
            self.well_formed(),
        ensures
            b == (self@.len() == 0),
            b == (self@ == Map::<K, P>::empty()),
            self@.dom().finite(),
    {
        proof {
            self.lemma_view_len();
            if self@.len() == 0 {
                assert(self@.dom() =~= Set::<K>::empty());
                assert(self@ =~= Map::<K, P>::empty());
            }
        }
        self.nodes.is_empty()
    }

    /// Inserts a new `(key, priority)` pair.
    /// If the key already exists, this will overwrite its priority.
    pub fn insert(&mut self, key: K, priority: P)
        requires
            old(self).well_formed(),
        ensures
            final(self).well_formed(),
            final(self)@ == old(self)@.insert(key, priority),
            final(self)@.dom().finite(),
            final(self)@.len() == old(self)@.len() + (if old(self)@.contains_key(key) {
                0int
            } else {
                1int
            }),
    {
        proof {
            self.lemma_view_len();
            lemma_insert_len(self@, key, priority);
        }
        if let Some(found) = self.indices.get(&key) {
            let idx = *found;
            // Key already in heap, update its priority and bubble up/down.
            let ghost s = self.priorities();
            self.nodes[idx].priority = priority;
            proof {
                lemma_set_entry(s, idx as int, priority);
                assert(self.priorities() =~= s.update(idx as int, priority));
                self.lemma_set_priority_view(*old(self), idx as int, priority);
            }
            self.bubble_up(idx);
            self.bubble_down(idx);
        } else {
            // New key
            let idx = self.nodes.len();
            let ghost s = self.priorities();
            let ghost old_indices = self.indices@;
            self.nodes.push(HeapNode { key: copy_key(&key), priority });
            self.indices.insert(key, idx);
            proof {
                lemma_push_entry(s, priority);
                assert(self.priorities() =~= s.push(priority));
                assert forall|i: int|
                    #![trigger self.nodes@[i]]
                    0 <= i < self.nodes@.len() implies self.indices@.contains_key(
                        self.nodes@[i].key,
                    ) && self.indices@[self.nodes@[i].key] == i by {
                    if i < idx {
                        assert(old(self).nodes@[i] == self.nodes@[i]);
                    }
                }
                assert(self@ =~= old(self)@.insert(key, priority)) by {
                    assert forall|k: K| #[trigger] old_indices.contains_key(k) && k != key implies self@[k]
                        == old(self)@[k] by {
                        assert(old(self).nodes@[old_indices[k] as int] == self.nodes@[old_indices[k] as int]);
                    }
                }
            }
            let ghost before = self.nodes@;
            self.bubble_up(idx);
            proof {
                if self.nodes@ == before {
                    lemma_heap_from_parts(self.priorities(), idx as int);
                }
            }
        }
    }

    /// Removes and returns the `(key, priority)` with the smallest priority.
    /// Returns `None` if empty.
    pub fn pop_min(&mut self) -> (r: Option<(K, P)>)
        requires
            old(self).well_formed(),
        ensures
            final(self).well_formed(),
            r == old(self).top(),
            match r {
                None => old(self)@.len() == 0 && final(self)@ == old(self)@,
                Some((k, p)) => {
                    &&& old(self)@.contains_key(k)
                    &&& old(self)@[k] == p
                    &&& is_least_priority(old(self)@, p)
                    &&& final(self)@ == old(self)@.remove(k)
                    &&& final(self)@.len() == old(self)@.len() - 1
                },
            },
            final(self)@.dom().finite(),
    {
        proof {
            self.lemma_top();
            self.lemma_view_len();
        }
        if self.nodes.is_empty() {
            return None;
        }
        // Swap the top with the last
        let last_idx = self.nodes.len() - 1;
        swap_in_vec(&mut self.nodes, 0, last_idx);
        let min_node = self.nodes.pop().unwrap();
        // Remove from indices map
        self.indices.remove(&min_node.key);
        // Now bubble down the new root
        if !self.nodes.is_empty() {
            let k0 = copy_key(&self.nodes[0].key);
            self.indices.insert(k0, 0);
            proof {
                self.lemma_removed(*old(self), 0);
            }
            self.bubble_down(0);
        } else {
            proof {
                self.lemma_removed(*old(self), 0);
            }
        }
        Some((min_node.key, min_node.priority))
    }

    /// Removes a specific key from the heap, returning its priority if it was present.
    pub fn remove(&mut self, key: &K) -> (r: Option<P>)
        requires
            old(self).well_formed(),
        ensures
            final(self).well_formed(),
            r == (if old(self)@.contains_key(*key) {
                Some(old(self)@[*key])
            } else {
                None
            }),
            final(self)@ == old(self)@.remove(*key),
            final(self)@.dom().finite(),
            final(self)@.len() == old(self)@.len() - (if r is Some {
                1int
            } else {
                0int
            }),
    {
        proof {
            self.lemma_view_len();
        }
        let idx = *self.indices.get(key)?;
        // Swap with last
        let last_idx = self.nodes.len() - 1;
        swap_in_vec(&mut self.nodes, idx, last_idx);
        let removed_node = self.nodes.pop().unwrap();
        self.indices.remove(&removed_node.key);
        // If we swapped in a new node at `idx`, bubble it up/down
        if idx < self.nodes.len() {
            let k = copy_key(&self.nodes[idx].key);
            self.indices.insert(k, idx);
            proof {
                self.lemma_removed(*old(self), idx as int);
            }
            self.bubble_up(idx);
            self.bubble_down(idx);
        } else {
            proof {
                self.lemma_removed(*old(self), idx as int);
            }
        }
        Some(removed_node.priority)
    }

    /// Updates the priority of a given key, if it exists.
    pub fn update_priority(&mut self, key: &K, new_priority: P) -> (found: bool)
        requires
            old(self).well_formed(),
        ensures
            final(self).well_formed(),
            found == old(self)@.contains_key(*key),
            final(self)@ == (if found {
                old(self)@.insert(*key, new_priority)
            } else {
                old(self)@
            }),
            final(self)@.dom().finite(),
            final(self)@.len() == old(self)@.len(),
    {
        proof {
            self.lemma_view_len();
            lemma_insert_len(self@, *key, new_priority);
        }
        if let Some(found) = self.indices.get(key) {
            let idx = *found;
            let ghost s = self.priorities();
            self.nodes[idx].priority = new_priority;
            proof {
                lemma_set_entry(s, idx as int, new_priority);
                assert(self.priorities() =~= s.update(idx as int, new_priority));
                self.lemma_set_priority_view(*old(self), idx as int, new_priority);
            }
            self.bubble_up(idx);
            self.bubble_down(idx);
            true
        } else {
            false
        }
    }

    /// Returns a reference to the minimum `(key, priority)` without removing it.
    pub fn peek_min(&self) -> (r: Option<(&K, &P)>)
        requires
            self.well_formed(),
        ensures
            match r {
                None => self.top() is None && self@.len() == 0,
                Some((k, p)) => {
                    &&& self.top() == Some((*k, *p))
                    &&& self@.contains_key(*k)
                    &&& self@[*k] == *p
                    &&& is_least_priority(self@, *p)
                },
            },
            self@.dom().finite(),
    {
        proof {
            self.lemma_top();
            self.lemma_view_len();
        }
        if self.nodes.len() == 0 {
            None
        } else {
            let node = &self.nodes[0];
            Some((&node.key, &node.priority))
        }
    }

    /// Exchanges the nodes at `i` and `j` and records their new positions.
    fn swap_nodes(&mut self, i: usize, j: usize)
        requires
            supported_types::<K, P>(),
            old(self).index_consistent(),
            i < old(self).nodes@.len(),
            j < old(self).nodes@.len(),
        ensures
            final(self).index_consistent(),
            final(self).nodes@ == swapped(old(self).nodes@, i as int, j as int),
            final(self).priorities() == swapped(old(self).priorities(), i as int, j as int),
            final(self)@ == old(self)@,
    {
        let ghost old_nodes = self.nodes@;
        let ghost old_indices = self.indices@;
        swap_in_vec(&mut self.nodes, i, j);
        let ki = copy_key(&self.nodes[i].key);
        self.indices.insert(ki, i);
        let kj = copy_key(&self.nodes[j].key);
        self.indices.insert(kj, j);
        proof {
            assert(self.nodes@ == swapped(old_nodes, i as int, j as int));
            assert(self.priorities() =~= swapped(old(self).priorities(), i as int, j as int));
            assert forall|k: K| #[trigger] self.indices@.contains_key(k) implies self.indices@[k]
                < self.nodes@.len() && self.nodes@[self.indices@[k] as int].key == k by {
                if k != ki && k != kj {
                    assert(old_indices.contains_key(k));
                    let x = old_indices[k] as int;
                    assert(old_nodes[x].key == k);
                    assert(x != i && x != j);
                }
            }
            assert forall|n: int| 0 <= n < self.nodes@.len() implies #[trigger] self.indices@.contains_key(
                self.nodes@[n].key,
            ) && self.indices@[self.nodes@[n].key] == n by {
                if n != i && n != j {
                    assert(old_nodes[n] == self.nodes@[n]);
                    assert(old_indices[old_nodes[n].key] == n);
                    if old_nodes[n].key == old_nodes[i as int].key {
                        assert(old_indices[old_nodes[i as int].key] == i);
                    }
                    if old_nodes[n].key == old_nodes[j as int].key {
                        assert(old_indices[old_nodes[j as int].key] == j);
                    }
                }
            }
            assert(self@ =~= old(self)@) by {
                assert forall|k: K| #[trigger] self.indices@.contains_key(k) implies self@[k]
                    == old(self)@[k] by {
                    assert(old_indices.contains_key(k));
                    assert(old_nodes[old_indices[k] as int].key == k);
                }
            }
        }
    }

    // Helper: bubble up from `idx` if heap property is violated.
    fn bubble_up(&mut self, idx: usize)
        requires
            supported_types::<K, P>(),
            old(self).index_consistent(),
            idx < old(self).nodes@.len(),
            heap_but_at(old(self).priorities(), idx as int),
        ensures
            final(self).index_consistent(),
            final(self)@ == old(self)@,
            final(self).nodes@.len() == old(self).nodes@.len(),
            heap_below(final(self).priorities(), idx as int),
            is_min_heap(final(self).priorities()) || final(self).nodes@ == old(self).nodes@,
            // only the nodes on the way from `idx` to the root move
            forall|i: int|
                0 <= i < old(self).nodes@.len() && !is_ancestor_or_self(i, idx as int)
                    ==> #[trigger] final(self).nodes@[i] == old(self).nodes@[i],
    {
        let ghost start = idx as int;
        proof {
            lemma_ancestor_self(start);
        }
        let mut idx = idx;
        while idx > 0
            invariant_except_break
                supported_types::<K, P>(),
                self.index_consistent(),
                self@ == old(self)@,
                self.nodes@.len() == old(self).nodes@.len(),
                idx < self.nodes@.len(),
                idx <= start,
                heap_but_at(self.priorities(), idx as int),
                idx != start ==> children_in_order(self.priorities(), idx as int),
                idx == start ==> self.nodes@ == old(self).nodes@,
                is_ancestor_or_self(idx as int, start),
                forall|i: int|
                    0 <= i < old(self).nodes@.len() && !is_ancestor_or_self(i, start)
                        ==> #[trigger] self.nodes@[i] == old(self).nodes@[i],
            ensures
                supported_types::<K, P>(),
                self.index_consistent(),
                self@ == old(self)@,
                self.nodes@.len() == old(self).nodes@.len(),
                idx < self.nodes@.len(),
                heap_below(self.priorities(), idx as int),
                idx != start ==> children_in_order(self.priorities(), idx as int),
                idx == start ==> self.nodes@ == old(self).nodes@,
                forall|i: int|
                    0 <= i < old(self).nodes@.len() && !is_ancestor_or_self(i, start)
                        ==> #[trigger] self.nodes@[i] == old(self).nodes@[i],
            decreases idx,
        {
            let parent_idx = (idx - 1) / 2;
            assert(self.priorities()[idx as int] == self.nodes@[idx as int].priority);
            assert(self.priorities()[parent_idx as int] == self.nodes@[parent_idx as int].priority);
            if less(&self.nodes[idx].priority, &self.nodes[parent_idx].priority) {
                proof {
                    lemma_sift_up_step(self.priorities(), idx as int);
                    lemma_ancestor_parent(idx as int, start);
                }
                self.swap_nodes(idx, parent_idx);
                idx = parent_idx;
            } else {
                break;
            }
        }
        proof {
            let s = self.priorities();
            if idx != start {
                lemma_heap_from_parts(s, idx as int);
                lemma_heap_below_any(s, start);
            }
        }
    }

    // Helper: bubble down from `idx` if children have smaller priority.
    fn bubble_down(&mut self, idx: usize)
        requires
            supported_types::<K, P>(),
            old(self).index_consistent(),
            idx < old(self).nodes@.len(),
            heap_below(old(self).priorities(), idx as int),
        ensures
            final(self).index_consistent(),
            final(self)@ == old(self)@,
            final(self).nodes@.len() == old(self).nodes@.len(),
            is_min_heap(final(self).priorities()),
            // only the nodes below `idx` (and `idx` itself) move
            forall|i: int|
                0 <= i < old(self).nodes@.len() && !is_ancestor_or_self(idx as int, i)
                    ==> #[trigger] final(self).nodes@[i] == old(self).nodes@[i],
    {
        let len = self.nodes.len();
        let ghost start = idx as int;
        proof {
            lemma_ancestor_self(start);
        }
        let mut idx = idx;
        loop
            invariant_except_break
                supported_types::<K, P>(),
                self.index_consistent(),
                self@ == old(self)@,
                len == self.nodes@.len(),
                self.nodes@.len() == old(self).nodes@.len(),
                idx < len,
                heap_below(self.priorities(), idx as int),
                is_ancestor_or_self(start, idx as int),
                forall|i: int|
                    0 <= i < old(self).nodes@.len() && !is_ancestor_or_self(start, i)
                        ==> #[trigger] self.nodes@[i] == old(self).nodes@[i],
            ensures
                self.index_consistent(),
                self@ == old(self)@,
                self.nodes@.len() == old(self).nodes@.len(),
                is_min_heap(self.priorities()),
                forall|i: int|
                    0 <= i < old(self).nodes@.len() && !is_ancestor_or_self(start, i)
                        ==> #[trigger] self.nodes@[i] == old(self).nodes@[i],
            decreases len - idx,
        {
            if idx >= len / 2 {
                // no children: the heap is complete
                proof {
                    lemma_heap_from_parts(self.priorities(), idx as int);
                }
                break;
            }
            let left_child = 2 * idx + 1;
            let right_child = 2 * idx + 2;
            let mut smallest = idx;
            let ghost s = self.priorities();
            assert(s[idx as int] == self.nodes@[idx as int].priority);
            assert(s[left_child as int] == self.nodes@[left_child as int].priority);
            if left_child < len && less(
                &self.nodes[left_child].priority,
                &self.nodes[smallest].priority,
            ) {
                smallest = left_child;
            }
            if right_child < len {
                assert(s[right_child as int] == self.nodes@[right_child as int].priority);
            }
            if right_child < len && less(
                &self.nodes[right_child].priority,
                &self.nodes[smallest].priority,
            ) {
                smallest = right_child;
            }
            proof {
                crate::order::lemma_total(s[left_child as int], s[idx as int]);
                if right_child < len {
                    crate::order::lemma_total(s[right_child as int], s[idx as int]);
                    crate::order::lemma_total(s[right_child as int], s[left_child as int]);
                    if smallest == right_child {
                        if crate::order::precedes(s[left_child as int], s[idx as int]) {
                            crate::order::lemma_precedes_trans(
                                s[right_child as int],
                                s[left_child as int],
                                s[idx as int],
                            );
                            crate::order::lemma_precedes_not_after(
                                s[right_child as int],
                                s[left_child as int],
                            );
                        } else {
                            crate::order::lemma_precedes_not_after(
                                s[right_child as int],
                                s[idx as int],
                            );
                            crate::order::lemma_not_after_trans(
                                s[right_child as int],
                                s[idx as int],
                                s[left_child as int],
                            );
                        }
                    }
                }
                if smallest == left_child {
                    crate::order::lemma_irreflexive(s[left_child as int]);
                }
                if smallest == right_child {
                    crate::order::lemma_irreflexive(s[right_child as int]);
                }
            }
            if smallest != idx {
                proof {
                    lemma_sift_down_step(s, idx as int, smallest as int);
                    lemma_ancestor_child(start, idx as int, smallest as int);
                }
                self.swap_nodes(idx, smallest);
                idx = smallest;
            } else {
                proof {
                    lemma_heap_from_parts(s, idx as int);
                }
                break;
            }
        }
    }
}

} // verus!
