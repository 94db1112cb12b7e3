//! The min-heap order on a sequence of priorities laid out as a binary tree
//! (the children of position `d` are `2d + 1` and `2d + 2`), and the facts
//! that sifting up and down rely on.
use crate::order::{
    lawful_order, lemma_irreflexive, lemma_not_after_trans, lemma_precedes_not_after, not_after,
    precedes,
};
use vstd::prelude::*;

verus! {

/// The position of the parent of position `i` (for `i > 0`).
pub open spec fn parent_of(i: int) -> int {
    (i - 1) / 2
}

/// Position `a` is `d` or an ancestor of `d`: it lies on the way from `d` to
/// the root.
pub open spec fn is_ancestor_or_self(a: int, d: int) -> bool
    decreases d,
{
    if d <= 0 {
        a == d
    } else {
        a == d || is_ancestor_or_self(a, parent_of(d))
    }
}

/// Every position is on its own way to the root.
pub proof fn lemma_ancestor_self(d: int)
    ensures
        is_ancestor_or_self(d, d),
{
}

/// The parent of a position on the way from `d` to the root is on it too.
pub proof fn lemma_ancestor_parent(c: int, d: int)
    requires
        is_ancestor_or_self(c, d),
        0 < c,
    ensures
        is_ancestor_or_self(parent_of(c), d),
    decreases d,
{
    if c == d {
        lemma_ancestor_self(parent_of(c));
    } else {
        lemma_ancestor_parent(c, parent_of(d));
    }
}

/// A child of a position below `a` (or of `a` itself) is below `a` too.
pub proof fn lemma_ancestor_child(a: int, c: int, m: int)
    requires
        is_ancestor_or_self(a, c),
        0 <= c,
        m == 2 * c + 1 || m == 2 * c + 2,
    ensures
        is_ancestor_or_self(a, m),
{
    assert(parent_of(m) == c);
}

/// The entry at position `i` is no smaller than its parent's.
pub open spec fn in_order_at<P: PartialOrd>(s: Seq<P>, i: int) -> bool {
    not_after(s[parent_of(i)], s[i])
}

/// Every entry is no smaller than its parent's: the first entry is a minimum.
pub open spec fn is_min_heap<P: PartialOrd>(s: Seq<P>) -> bool {
    forall|i: int| 0 < i < s.len() ==> #[trigger] in_order_at(s, i)
}

/// The heap order holds everywhere except at position `d` and its children;
/// the children of `d` are no smaller than the parent of `d`.
pub open spec fn heap_but_at<P: PartialOrd>(s: Seq<P>, d: int) -> bool {
    &&& forall|i: int|
        0 < i < s.len() && i != d && parent_of(i) != d ==> #[trigger] in_order_at(s, i)
    &&& (0 < d && 2 * d + 1 < s.len() ==> not_after(s[parent_of(d)], s[2 * d + 1]))
    &&& (0 < d && 2 * d + 2 < s.len() ==> not_after(s[parent_of(d)], s[2 * d + 2]))
}

/// As `heap_but_at`, and position `d` is in order with its parent: only the
/// children of `d` may be out of order.
pub open spec fn heap_below<P: PartialOrd>(s: Seq<P>, d: int) -> bool {
    &&& heap_but_at(s, d)
    &&& (0 < d < s.len() ==> in_order_at(s, d))
}

/// The children of position `d` are in order with it.
pub open spec fn children_in_order<P: PartialOrd>(s: Seq<P>, d: int) -> bool {
    &&& (2 * d + 1 < s.len() ==> in_order_at(s, 2 * d + 1))
    &&& (2 * d + 2 < s.len() ==> in_order_at(s, 2 * d + 2))
}

/// `s` with the entries at `i` and `j` exchanged.
pub open spec fn swapped<P>(s: Seq<P>, i: int, j: int) -> Seq<P> {
    s.update(i, s[j]).update(j, s[i])
}

proof fn lemma_parent_facts(i: int, d: int)
    requires
        0 < i,
        0 <= d,
    ensures
        parent_of(i) == d <==> (i == 2 * d + 1 || i == 2 * d + 2),
        0 <= parent_of(i) < i,
{
}

/// In a heap, any position can be taken as the one that may be out of order below.
pub proof fn lemma_heap_below_any<P: Ord>(s: Seq<P>, d: int)
    requires
        lawful_order::<P>(),
        is_min_heap(s),
        0 <= d < s.len(),
    ensures
        heap_below(s, d),
{
    if 0 < d {
        lemma_parent_facts(d, 0);
        if 2 * d + 1 < s.len() {
            lemma_parent_facts(2 * d + 1, d);
            assert(in_order_at(s, d));
            assert(in_order_at(s, 2 * d + 1));
            lemma_not_after_trans(s[parent_of(d)], s[d], s[2 * d + 1]);
        }
        if 2 * d + 2 < s.len() {
            lemma_parent_facts(2 * d + 2, d);
            assert(in_order_at(s, d));
            assert(in_order_at(s, 2 * d + 2));
            lemma_not_after_trans(s[parent_of(d)], s[d], s[2 * d + 2]);
        }
    }
}

/// A position in order with its parent and with its children completes the heap.
pub proof fn lemma_heap_from_parts<P: PartialOrd>(s: Seq<P>, d: int)
    requires
        heap_below(s, d),
        children_in_order(s, d),
        0 <= d,
    ensures
        is_min_heap(s),
{
    assert forall|i: int| 0 < i < s.len() implies #[trigger] in_order_at(s, i) by {
        lemma_parent_facts(i, d);
    }
}

/// One step of sifting up: exchanging an entry with its larger parent moves
/// the disorder up to the parent, whose children are then in order.
pub proof fn lemma_sift_up_step<P: Ord>(s: Seq<P>, d: int)
    requires
        lawful_order::<P>(),
        heap_but_at(s, d),
        0 < d < s.len(),
        precedes(s[d], s[parent_of(d)]),
    ensures
        heap_but_at(swapped(s, d, parent_of(d)), parent_of(d)),
        children_in_order(swapped(s, d, parent_of(d)), parent_of(d)),
{
    let p = parent_of(d);
    let t = swapped(s, d, p);
    lemma_parent_facts(d, 0);
    lemma_parent_facts(d, p);
    lemma_precedes_not_after(s[d], s[p]);
    // the sibling of `d`
    let sb = if d == 2 * p + 1 { 2 * p + 2 } else { 2 * p + 1 };
    lemma_parent_facts(sb, p);
    if sb < s.len() {
        assert(in_order_at(s, sb));
        lemma_not_after_trans(s[d], s[p], s[sb]);
    }
    assert(children_in_order(t, p)) by {
        assert(t[p] == s[d]);
        assert(t[d] == s[p]);
        if sb < s.len() {
            assert(t[sb] == s[sb]);
        }
    }
    assert forall|i: int|
        0 < i < t.len() && i != p && parent_of(i) != p implies #[trigger] in_order_at(t, i) by {
        lemma_parent_facts(i, d);
        lemma_parent_facts(i, p);
        lemma_parent_facts(i, 0);
        if parent_of(i) == d {
            assert(t[i] == s[i]);
            assert(t[d] == s[p]);
        } else {
            assert(in_order_at(s, i));
            assert(t[i] == s[i]);
            assert(t[parent_of(i)] == s[parent_of(i)]);
        }
    }
    if 0 < p {
        lemma_parent_facts(p, 0);
        assert(in_order_at(s, p));
        assert(t[parent_of(p)] == s[parent_of(p)]);
        if sb < s.len() {
            lemma_not_after_trans(s[parent_of(p)], s[p], s[sb]);
        }
    }
}

/// One step of sifting down: exchanging an entry with its smallest child,
/// when that child is smaller, moves the disorder down to that child.
pub proof fn lemma_sift_down_step<P: Ord>(s: Seq<P>, d: int, m: int)
    requires
        lawful_order::<P>(),
        heap_below(s, d),
        0 <= d,
        m == 2 * d + 1 || m == 2 * d + 2,
        m < s.len(),
        precedes(s[m], s[d]),
        2 * d + 1 < s.len() ==> not_after(s[m], s[2 * d + 1]),
        2 * d + 2 < s.len() ==> not_after(s[m], s[2 * d + 2]),
    ensures
        heap_below(swapped(s, d, m), m),
{
    let t = swapped(s, d, m);
    lemma_parent_facts(m, d);
    lemma_precedes_not_after(s[m], s[d]);
    assert(t[m] == s[d]);
    assert(t[d] == s[m]);
    assert(in_order_at(t, m));
    assert forall|i: int|
        0 < i < t.len() && i != m && parent_of(i) != m implies #[trigger] in_order_at(t, i) by {
        lemma_parent_facts(i, d);
        lemma_parent_facts(i, m);
        lemma_parent_facts(i, 0);
        if i == d {
            assert(t[parent_of(d)] == s[parent_of(d)]);
        } else if parent_of(i) == d {
            assert(t[i] == s[i]);
        } else {
            assert(in_order_at(s, i));
            assert(t[i] == s[i]);
            assert(t[parent_of(i)] == s[parent_of(i)]);
        }
    }
    let c1 = 2 * m + 1;
    let c2 = 2 * m + 2;
    lemma_parent_facts(c1, m);
    lemma_parent_facts(c2, m);
    lemma_parent_facts(c1, d);
    lemma_parent_facts(c2, d);
    if c1 < s.len() {
        assert(in_order_at(s, c1));
        assert(t[c1] == s[c1]);
    }
    if c2 < s.len() {
        assert(in_order_at(s, c2));
        assert(t[c2] == s[c2]);
    }
}

/// Giving one entry of a heap a new priority leaves disorder only around it.
pub proof fn lemma_set_entry<P: Ord>(s: Seq<P>, d: int, x: P)
    requires
        lawful_order::<P>(),
        is_min_heap(s),
        0 <= d < s.len(),
    ensures
        heap_but_at(s.update(d, x), d),
{
    lemma_heap_below_any(s, d);
    let t = s.update(d, x);
    assert forall|i: int|
        0 < i < t.len() && i != d && parent_of(i) != d implies #[trigger] in_order_at(t, i) by {
        assert(in_order_at(s, i));
    }
}

/// Appending an entry to a heap leaves disorder only at the new position.
pub proof fn lemma_push_entry<P: Ord>(s: Seq<P>, x: P)
    requires
        is_min_heap(s),
    ensures
        heap_but_at(s.push(x), s.len() as int),
{
    let t = s.push(x);
    assert forall|i: int|
        0 < i < t.len() && i != s.len() && parent_of(i) != s.len() implies #[trigger] in_order_at(
        t,
        i,
    ) by {
        lemma_parent_facts(i, 0);
        assert(in_order_at(s, i));
    }
}

/// Moving the last entry of a heap into position `d` leaves disorder only around `d`.
pub proof fn lemma_move_last<P: Ord>(s: Seq<P>, d: int)
    requires
        lawful_order::<P>(),
        is_min_heap(s),
        0 <= d < s.len() - 1,
    ensures
        heap_but_at(s.update(d, s.last()).drop_last(), d),
{
    lemma_heap_below_any(s, d);
    let t = s.update(d, s.last()).drop_last();
    assert forall|i: int|
        0 < i < t.len() && i != d && parent_of(i) != d implies #[trigger] in_order_at(t, i) by {
        lemma_parent_facts(i, 0);
        assert(in_order_at(s, i));
    }
}

/// Dropping the last entry of a heap leaves a heap.
pub proof fn lemma_drop_last<P: Ord>(s: Seq<P>)
    requires
        is_min_heap(s),
        s.len() > 0,
    ensures
        is_min_heap(s.drop_last()),
{
    let t = s.drop_last();
    assert forall|i: int| 0 < i < t.len() implies #[trigger] in_order_at(t, i) by {
        lemma_parent_facts(i, 0);
        assert(in_order_at(s, i));
    }
}

/// The first entry of a heap is no larger than any entry.
pub proof fn lemma_first_is_least<P: Ord>(s: Seq<P>, i: int)
    requires
        lawful_order::<P>(),
        is_min_heap(s),
        0 <= i < s.len(),
    ensures
        not_after(s[0], s[i]),
    decreases i,
{
    if i == 0 {
        lemma_irreflexive(s[0]);
    } else {
        lemma_parent_facts(i, 0);
        lemma_first_is_least(s, parent_of(i));
        assert(in_order_at(s, i));
        lemma_not_after_trans(s[0], s[parent_of(i)], s[i]);
    }
}

} // verus!
