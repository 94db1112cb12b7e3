//! A value held by the cache, with when it was created and last handed out.
use std::sync::Arc;
use tokio::time::Instant;
use vstd::prelude::*;

verus! {

/// `tokio::time::Instant::now`: the current instant. Nothing is promised of
/// the result: it depends on the clock.
#[verifier::external_body]
fn now() -> Instant {
    Instant::now()
}

/// `Arc::try_unwrap` from std: the value when this pointer is the only one
/// to it, otherwise the pointer back. Which of the two comes back depends on
/// the other pointers alive at the time, so only what holds of either is stated.
#[verifier::external_body]
fn arc_try_unwrap<T>(a: Arc<T>) -> (r: Result<T, Arc<T>>)
    ensures
        match r {
            Ok(t) => t == a,
            Err(b) => b == a,
        },
{
    Arc::try_unwrap(a)
}

/// A value held by the cache, with the instants it was first and last handed
/// out, and (in ghost state) how many times it has been handed out since.
pub struct CacheNode<V> {
    value: Arc<V>,
    #[allow(dead_code)]
    first_access_ts: Instant,
    last_access_ts: Instant,
    reads: Ghost<nat>,
}

impl<V> CacheNode<V> {
    /// The value this node holds.
    pub closed spec fn spec_value(&self) -> Arc<V> {
        self.value
    }

    /// When the node was created.
    pub closed spec fn spec_first_access(&self) -> Instant {
        self.first_access_ts
    }

    /// When the node's value was last handed out.
    pub closed spec fn spec_last_access(&self) -> Instant {
        self.last_access_ts
    }

    /// How many times the value has been handed out since the node was
    /// created, each time with a fresh reading of the clock.
    pub closed spec fn spec_reads(&self) -> nat {
        self.reads@
    }

    /// A node for `value`, created now: one reading of the clock gives both
    /// instants, and the value has not been handed out yet.
    pub(crate) fn new(value: Arc<V>) -> (node: Self)
        ensures
            node.spec_value() == value,
            node.spec_first_access() == node.spec_last_access(),
            node.spec_reads() == 0,
    {
        let now = now();
        Self { value, first_access_ts: now, last_access_ts: now, reads: Ghost(0) }
    }

    /// The value this node holds.
    pub(crate) fn value(&self) -> (r: &Arc<V>)
        ensures
            *r == self.spec_value(),
    {
        &self.value
    }

    /// When the node's value was last handed out.
    pub(crate) fn last_access(&self) -> (r: &Instant)
        ensures
            *r == self.spec_last_access(),
    {
        &self.last_access_ts
    }

    /// The value when the cache holds the only pointer to it; the node back otherwise.
    pub(crate) fn try_unwrap(self) -> (r: Result<V, Self>)
        ensures
            match r {
                Ok(v) => v == self.spec_value(),
                Err(node) => node == self,
            },
    {
        let CacheNode { value, first_access_ts, last_access_ts, reads } = self;
        match arc_try_unwrap(value) {
            Ok(value) => Ok(value),
            Err(arc) => Err(CacheNode { value: arc, first_access_ts, last_access_ts, reads }),
        }
    }

    /// Records `at` as the instant the value was last handed out.
    fn record_access(&mut self, at: Instant)
        ensures
            final(self).spec_value() == old(self).spec_value(),
            final(self).spec_first_access() == old(self).spec_first_access(),
            final(self).spec_last_access() == at,
            final(self).spec_reads() == old(self).spec_reads() + 1,
    {
        self.last_access_ts = at;
        self.reads = Ghost(self.reads@ + 1);
    }

    /// Records a handing out of the value, at the current instant. The instant
    /// comes from the clock (`now`), of which nothing is known here; that it
    /// is a fresh reading shows in the count of readings, which only this
    /// function raises (the fields are private to this module).
    pub(crate) fn bump_access_time(&mut self)
        ensures
            final(self).spec_value() == old(self).spec_value(),
            final(self).spec_first_access() == old(self).spec_first_access(),
            final(self).spec_reads() == old(self).spec_reads() + 1,
    {
        let at = now();
        self.record_access(at);
    }
}

} // verus!
