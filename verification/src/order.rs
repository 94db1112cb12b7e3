//! The order that priorities are compared by, and the facts about it that
//! the heap relies on.
use vstd::prelude::*;
use vstd::std_specs::cmp::OrdSpec;
use vstd::std_specs::cmp::PartialEqSpec;
use vstd::std_specs::cmp::PartialOrdIs;
use vstd::std_specs::cmp::PartialOrdSpec;

verus! {

/// The `Ord` implementation of `P` is a lawful total order, as vstd states
/// the laws (for the primitive integer types vstd proves this).
pub open spec fn lawful_order<P: Ord>() -> bool {
    vstd::laws_cmp::obeys_cmp::<P>()
}

/// `a` is strictly smaller than `b`: what `a < b` computes.
pub open spec fn precedes<P: PartialOrd>(a: P, b: P) -> bool {
    a.is_lt(&b)
}

/// `a` is no larger than `b`: `b < a` does not hold.
pub open spec fn not_after<P: PartialOrd>(a: P, b: P) -> bool {
    !precedes(b, a)
}

/// A lawful order makes `<` follow its specification.
pub proof fn lemma_lt_follows_spec<P: Ord>()
    requires
        lawful_order::<P>(),
    ensures
        P::obeys_partial_cmp_spec(),
{
    reveal(vstd::laws_cmp::obeys_cmp_partial_ord);
}

/// No value is strictly smaller than itself.
pub proof fn lemma_irreflexive<P: Ord>(a: P)
    requires
        lawful_order::<P>(),
    ensures
        not_after(a, a),
{
    reveal(vstd::laws_cmp::obeys_partial_cmp_spec_properties);
    if precedes(a, a) {
        assert(a.partial_cmp_spec(&a) == Some(core::cmp::Ordering::Greater));
    }
}

/// A strict comparison implies the weak one.
pub proof fn lemma_precedes_not_after<P: Ord>(a: P, b: P)
    requires
        lawful_order::<P>(),
        precedes(a, b),
    ensures
        not_after(a, b),
{
    reveal(vstd::laws_cmp::obeys_partial_cmp_spec_properties);
    assert(b.partial_cmp_spec(&a) == Some(core::cmp::Ordering::Greater));
}

/// "Strictly smaller" is transitive.
pub proof fn lemma_precedes_trans<P: Ord>(a: P, b: P, c: P)
    requires
        lawful_order::<P>(),
        precedes(a, b),
        precedes(b, c),
    ensures
        precedes(a, c),
{
    reveal(vstd::laws_cmp::obeys_partial_cmp_spec_properties);
}

/// Of two values, one is no larger than the other.
pub proof fn lemma_total<P: Ord>(a: P, b: P)
    requires
        lawful_order::<P>(),
    ensures
        not_after(a, b) || not_after(b, a),
{
    if precedes(a, b) {
        lemma_precedes_not_after(a, b);
    }
}

/// "No larger than" is transitive.
pub proof fn lemma_not_after_trans<P: Ord>(a: P, b: P, c: P)
    requires
        lawful_order::<P>(),
        not_after(a, b),
        not_after(b, c),
    ensures
        not_after(a, c),
{
    reveal(vstd::laws_cmp::obeys_partial_cmp_spec_properties);
    reveal(vstd::laws_cmp::obeys_cmp_partial_ord);
    reveal(vstd::laws_cmp::obeys_cmp_ord);
    reveal(vstd::laws_eq::obeys_eq_spec_properties);
    if precedes(c, a) {
        let cb = c.partial_cmp_spec(&b);
        let ba = b.partial_cmp_spec(&a);
        assert(cb == Some(c.cmp_spec(&b)));
        assert(ba == Some(b.cmp_spec(&a)));
        if cb == Some(core::cmp::Ordering::Greater) {
            assert(b.partial_cmp_spec(&c) == Some(core::cmp::Ordering::Less));
            assert(b.partial_cmp_spec(&a) == Some(core::cmp::Ordering::Less));
        } else {
            assert(cb == Some(core::cmp::Ordering::Equal));
            assert(c.eq_spec(&b));
            if ba == Some(core::cmp::Ordering::Greater) {
                assert(a.partial_cmp_spec(&b) == Some(core::cmp::Ordering::Less));
                assert(c.partial_cmp_spec(&b) == Some(core::cmp::Ordering::Less));
            } else {
                assert(ba == Some(core::cmp::Ordering::Equal));
                assert(b.eq_spec(&a));
                assert(c.eq_spec(&a));
                assert(c.partial_cmp_spec(&a) == Some(core::cmp::Ordering::Equal));
            }
        }
    }
}

/// What `a < b` returns, under a lawful order.
pub fn less<P: Ord>(a: &P, b: &P) -> (r: bool)
    requires
        lawful_order::<P>(),
    ensures
        r == precedes(*a, *b),
{
    proof {
        lemma_lt_follows_spec::<P>();
    }
    *a < *b
}

} // verus!
