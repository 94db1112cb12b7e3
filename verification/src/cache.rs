//! The bookkeeping of the read-through/write-back cache: what each key's
//! entry holds, and how looking a key up, finishing a fetch, evicting and
//! pruning change the table of entries.
//!
//! The table is the map that the cache keeps behind its lock. Each function
//! here takes that map by `&mut` while the caller holds the lock, decides,
//! updates the map and returns what the caller must do next (wait for a
//! fetch, hand a value back to the store, ...).
use std::collections::HashMap;
use std::hash::Hash;
use std::sync::Arc;
use tokio::sync::broadcast::Receiver;
use tokio::sync::broadcast::Sender;
use tokio::time::Instant;
use vstd::prelude::*;
use vstd::std_specs::iter::IteratorSpec;

pub use crate::cache_node::CacheNode;

verus! {

broadcast use vstd::std_specs::hash::group_hash_axioms;

#[verifier::external_type_specification]
#[verifier::external_body]
pub struct ExInstant(tokio::time::Instant);

#[verifier::external_type_specification]
#[verifier::external_body]
pub struct ExAnyhowError(anyhow::Error);

#[verifier::external_type_specification]
#[verifier::external_body]
#[verifier::reject_recursive_types(T)]
pub struct ExSender<T>(tokio::sync::broadcast::Sender<T>);

#[verifier::external_type_specification]
#[verifier::external_body]
#[verifier::reject_recursive_types(T)]
pub struct ExReceiver<T>(tokio::sync::broadcast::Receiver<T>);

/// The whole nanoseconds from `earlier` to `later` (zero when `earlier` is the
/// later one), as `Instant::duration_since` and `Duration::as_nanos` compute them.
pub uninterp spec fn spec_nanos_since(later: Instant, earlier: Instant) -> u128;

/// `tokio::time::Instant::duration_since`, as whole nanoseconds
/// (`Duration::as_nanos`): the time from `earlier` to `later`, zero when
/// `earlier` is the later one. Its result depends on the two instants alone,
/// so it is named; nothing more is stated of it, instants being opaque here.
#[verifier::external_body]
fn nanos_since(later: &Instant, earlier: &Instant) -> (r: u128)
    ensures
        r == spec_nanos_since(*later, *earlier),
{
    later.duration_since(*earlier).as_nanos()
}

/// `Arc::clone` from std: another pointer to the same value.
#[verifier::external_body]
fn arc_clone<T>(a: &Arc<T>) -> (r: Arc<T>)
    ensures
        r == *a,
{
    Arc::clone(a)
}

/// The sending end of a broadcast channel, with the identity of its channel.
#[verifier::reject_recursive_types(T)]
pub struct ChannelSender<T> {
    pub sender: Sender<T>,
    pub channel: Ghost<int>,
}

/// A receiving end of a broadcast channel, with the identity of its channel.
#[verifier::reject_recursive_types(T)]
pub struct ChannelReceiver<T> {
    pub receiver: Receiver<T>,
    pub channel: Ghost<int>,
}

/// `tokio::sync::broadcast::channel`: a new channel, its sender and its first
/// receiver, both ends of the one channel (they share the channel's state).
/// It panics when `capacity` is zero or over `usize::MAX / 2`, which
/// `requires` rules out.
#[verifier::external_body]
fn broadcast_channel<T: Clone>(capacity: usize) -> (r: (ChannelSender<T>, ChannelReceiver<T>))
    requires
        0 < capacity <= usize::MAX / 2,
    ensures
        r.0.channel@ == r.1.channel@,
{
    let (sender, receiver) = tokio::sync::broadcast::channel(capacity);
    let channel = Ghost(0int);
    (ChannelSender { sender, channel }, ChannelReceiver { receiver, channel })
}

/// `Clone` for `tokio::sync::broadcast::Sender`: another sender on the same channel.
#[verifier::external_body]
fn sender_clone<T>(s: &ChannelSender<T>) -> (r: ChannelSender<T>)
    ensures
        r.channel@ == s.channel@,
{
    ChannelSender { sender: s.sender.clone(), channel: s.channel }
}

/// `tokio::sync::broadcast::Sender::subscribe`: a new receiver on the same channel.
#[verifier::external_body]
fn sender_subscribe<T>(s: &ChannelSender<T>) -> (r: ChannelReceiver<T>)
    ensures
        r.channel@ == s.channel@,
{
    ChannelReceiver { receiver: s.sender.subscribe(), channel: s.channel }
}

/// The state of one key in the cache.
#[verifier::reject_recursive_types(V)]
pub enum CacheEntry<V> {
    /// A fetch from the store is under way; its outcome goes to every
    /// receiver of this channel.
    Fetching(ChannelSender<Result<Arc<V>, Arc<anyhow::Error>>>),
    /// The last fetch failed with this error.
    FetchFailed(Arc<anyhow::Error>),
    /// The cache holds a value.
    Node(CacheNode<V>),
}

/// What an entry amounts to, leaving out channels and instants.
pub enum Slot<V> {
    Fetching,
    Failed(Arc<anyhow::Error>),
    Cached(Arc<V>),
}

impl<V> CacheEntry<V> {
    pub open spec fn slot(self) -> Slot<V> {
        match self {
            CacheEntry::Fetching(_) => Slot::Fetching,
            CacheEntry::FetchFailed(e) => Slot::Failed(e),
            CacheEntry::Node(node) => Slot::Cached(node.spec_value()),
        }
    }
}

/// The slot of each key in a table of entries.
pub open spec fn slots<K, V>(m: Map<K, CacheEntry<V>>) -> Map<K, Slot<V>> {
    m.map_values(|e: CacheEntry<V>| e.slot())
}

/// A fetch from the store failed.
#[derive(Debug)]
pub struct GetError {
    pub fetch_error: Arc<anyhow::Error>,
}

impl GetError {
    pub fn new(fetch_error: Arc<anyhow::Error>) -> (e: Self)
        ensures
            e.fetch_error == fetch_error,
    {
        Self { fetch_error }
    }
}

/// What looking a key up asks of the caller.
#[verifier::reject_recursive_types(V)]
pub enum Lookup<V> {
    /// The key was absent and is now marked as being fetched: the caller
    /// fetches it from the store, hands the outcome to `finish_fetch`, sends
    /// what that returns on `sender`, and waits on `receiver`.
    StartFetch {
        sender: ChannelSender<Result<Arc<V>, Arc<anyhow::Error>>>,
        receiver: ChannelReceiver<Result<Arc<V>, Arc<anyhow::Error>>>,
    },
    /// Another caller is fetching the key: wait on this receiver.
    Wait(ChannelReceiver<Result<Arc<V>, Arc<anyhow::Error>>>),
    /// The cache holds the value.
    Hit(Arc<V>),
    /// The last fetch of the key failed.
    Failed(GetError),
}

/// The channel that a fetch in flight broadcasts its outcome on, if `e` is such a fetch.
pub open spec fn fetch_channel<V>(e: CacheEntry<V>) -> Option<int> {
    match e {
        CacheEntry::Fetching(s) => Some(s.channel@),
        _ => None,
    }
}

/// The channel that a caller told to wait, or to fetch, receives the outcome on.
pub open spec fn lookup_channel<V>(r: Lookup<V>) -> Option<int> {
    match r {
        Lookup::StartFetch { receiver, .. } => Some(receiver.channel@),
        Lookup::Wait(receiver) => Some(receiver.channel@),
        _ => None,
    }
}

/// The channel that the caller told to fetch must broadcast the outcome on.
pub open spec fn broadcast_channel_of<V>(r: Lookup<V>) -> Option<int> {
    match r {
        Lookup::StartFetch { sender, .. } => Some(sender.channel@),
        _ => None,
    }
}

/// `after` is the node `before` once its value has been handed out again:
/// the same value and creation instant, one more reading of the clock
/// recorded as its last access.
pub open spec fn touched<V>(before: CacheEntry<V>, after: CacheEntry<V>) -> bool {
    match (before, after) {
        (CacheEntry::Node(a), CacheEntry::Node(b)) => {
            &&& b.spec_value() == a.spec_value()
            &&& b.spec_first_access() == a.spec_first_access()
            &&& b.spec_reads() == a.spec_reads() + 1
        },
        _ => false,
    }
}

/// `e` is a node made now for `v`: created and last accessed at one reading
/// of the clock, and not handed out since (no instant of an earlier entry
/// carries over).
pub open spec fn fresh_node<V>(e: CacheEntry<V>, v: Arc<V>) -> bool {
    match e {
        CacheEntry::Node(n) => {
            &&& n.spec_value() == v
            &&& n.spec_first_access() == n.spec_last_access()
            &&& n.spec_reads() == 0
        },
        _ => false,
    }
}

/// The entry of `k` in `m`, if any, as a slot.
pub open spec fn slot_of<K, V>(m: Map<K, CacheEntry<V>>, k: K) -> Option<Slot<V>> {
    if m.contains_key(k) {
        Some(m[k].slot())
    } else {
        None
    }
}

/// Looks `k` up in the table: the first step of `Cache::get`.
pub fn begin_get<K: Hash + Eq + Copy, V>(map: &mut HashMap<K, CacheEntry<V>>, k: K) -> (r: Lookup<V>)
    requires
        vstd::std_specs::hash::obeys_key_model::<K>(),
    ensures
        match slot_of(old(map)@, k) {
            None => {
                &&& r is StartFetch
                &&& slots(final(map)@) == slots(old(map)@).insert(k, Slot::Fetching)
                &&& final(map)@.contains_key(k)
                // the caller broadcasts on, and waits on, the channel now recorded for `k`
                &&& broadcast_channel_of(r) == fetch_channel(final(map)@[k])
                &&& lookup_channel(r) == fetch_channel(final(map)@[k])
            },
            Some(Slot::Fetching) => {
                &&& r is Wait
                &&& final(map)@ == old(map)@
                // the caller waits on the channel of the fetch in flight
                &&& lookup_channel(r) == fetch_channel(old(map)@[k])
            },
            Some(Slot::Cached(v)) => {
                &&& r == Lookup::Hit(v)
                &&& slots(final(map)@) == slots(old(map)@)
                &&& final(map)@.contains_key(k)
                &&& touched(old(map)@[k], final(map)@[k])
            },
            Some(Slot::Failed(e)) => r == Lookup::<V>::Failed(GetError { fetch_error: e })
                && final(map)@ == old(map)@,
        },
        final(map)@.remove(k) == old(map)@.remove(k),
{
    match map.remove(&k) {
        None => {
            let (tx, rx) = broadcast_channel(1);
            map.insert(k, CacheEntry::Fetching(sender_clone(&tx)));
            proof {
                assert(slots(map@) =~= slots(old(map)@).insert(k, Slot::Fetching));
                assert(map@.remove(k) =~= old(map)@.remove(k));
            }
            Lookup::StartFetch { sender: tx, receiver: rx }
        },
        Some(CacheEntry::Fetching(tx)) => {
            let rx = sender_subscribe(&tx);
            map.insert(k, CacheEntry::Fetching(tx));
            proof {
                assert(map@ =~= old(map)@);
            }
            Lookup::Wait(rx)
        },
        Some(CacheEntry::Node(mut node)) => {
            node.bump_access_time();
            let v = arc_clone(node.value());
            map.insert(k, CacheEntry::Node(node));
            proof {
                assert(slots(map@) =~= slots(old(map)@));
                assert(map@.remove(k) =~= old(map)@.remove(k));
            }
            Lookup::Hit(v)
        },
        Some(CacheEntry::FetchFailed(e)) => {
            let err = arc_clone(&e);
            map.insert(k, CacheEntry::FetchFailed(e));
            proof {
                assert(map@ =~= old(map)@);
            }
            Lookup::Failed(GetError::new(err))
        },
    }
}

/// The slot that the outcome of a fetch leaves behind.
pub open spec fn fetched_slot<V>(fetch_result: Result<Arc<V>, Arc<anyhow::Error>>) -> Slot<V> {
    match fetch_result {
        Ok(v) => Slot::Cached(v),
        Err(e) => Slot::Failed(e),
    }
}

/// Records the outcome of a fetch of `k` and returns what its waiters get.
/// When a value was inserted while the fetch ran, that value wins and the
/// fetched one is dropped; otherwise the outcome is stored, also when the
/// key was removed meanwhile.
pub fn finish_fetch<K: Hash + Eq + Copy, V>(
    map: &mut HashMap<K, CacheEntry<V>>,
    k: K,
    fetch_result: Result<Arc<V>, Arc<anyhow::Error>>,
) -> (r: Result<Arc<V>, Arc<anyhow::Error>>)
    requires
        vstd::std_specs::hash::obeys_key_model::<K>(),
    ensures
        match slot_of(old(map)@, k) {
            Some(Slot::Cached(v)) => {
                &&& r == Ok::<Arc<V>, Arc<anyhow::Error>>(v)
                &&& slots(final(map)@) == slots(old(map)@)
                &&& final(map)@.contains_key(k)
                &&& touched(old(map)@[k], final(map)@[k])
            },
            _ => {
                &&& r == fetch_result
                &&& slots(final(map)@) == slots(old(map)@).insert(k, fetched_slot(fetch_result))
                &&& final(map)@.contains_key(k)
                &&& (fetch_result matches Ok(v) ==> fresh_node(final(map)@[k], v))
            },
        },
        final(map)@.remove(k) == old(map)@.remove(k),
{
    match map.remove(&k) {
        Some(CacheEntry::Node(mut node)) => {
            // This could mean that the key was inserted while the fetch was
            // happening. In this case, we ignore the fetched value and
            // return the inserted value.
            node.bump_access_time();
            let v = arc_clone(node.value());
            map.insert(k, CacheEntry::Node(node));
            proof {
                assert(slots(map@) =~= slots(old(map)@));
                assert(map@.remove(k) =~= old(map)@.remove(k));
            }
            Ok(v)
        },
        _ => {
            // Still fetching, failed before, or removed while the fetch was happening.
            let r = match fetch_result {
                Ok(value) => {
                    map.insert(k, CacheEntry::Node(CacheNode::new(arc_clone(&value))));
                    Ok(value)
                },
                Err(err) => {
                    map.insert(k, CacheEntry::FetchFailed(arc_clone(&err)));
                    Err(err)
                },
            };
            proof {
                assert(slots(map@) =~= slots(old(map)@).insert(k, fetched_slot(fetch_result)));
                assert(map@.remove(k) =~= old(map)@.remove(k));
            }
            r
        },
    }
}

/// Stores `v` as the value of `k`, replacing whatever entry `k` had: the
/// table side of `Cache::insert`.
pub fn store_value<K: Hash + Eq + Copy, V>(map: &mut HashMap<K, CacheEntry<V>>, k: K, v: Arc<V>)
    requires
        vstd::std_specs::hash::obeys_key_model::<K>(),
    ensures
        slots(final(map)@) == slots(old(map)@).insert(k, Slot::Cached(v)),
        final(map)@.remove(k) == old(map)@.remove(k),
        final(map)@.contains_key(k),
        fresh_node(final(map)@[k], v),
{
    map.insert(k, CacheEntry::Node(CacheNode::new(v)));
    proof {
        assert(slots(map@) =~= slots(old(map)@).insert(k, Slot::Cached(v)));
        assert(map@.remove(k) =~= old(map)@.remove(k));
    }
}

/// Evicts `k` unless its value is in use outside the cache. Returns whether
/// `k` is gone from the table, and the value to hand back to the store when
/// the eviction released one. An entry that is still being fetched, or whose
/// fetch failed, is dropped; an entry whose value is shared stays.
pub fn try_evict_with_lock<K: Hash + Eq + Copy, V>(map: &mut HashMap<K, CacheEntry<V>>, k: K) -> (r: (
    bool,
    Option<V>,
))
    requires
        vstd::std_specs::hash::obeys_key_model::<K>(),
    ensures
        r.0 == !final(map)@.contains_key(k),
        r.0 ==> final(map)@ == old(map)@.remove(k),
        !r.0 ==> final(map)@ == old(map)@,
        match slot_of(old(map)@, k) {
            None => r == (true, None::<V>),
            Some(Slot::Cached(v)) => r == (true, Some(*v)) || r == (false, None::<V>),
            Some(_) => r == (true, None::<V>),
        },
{
    match map.remove(&k) {
        None => {
            proof {
                assert(map@ =~= old(map)@.remove(k));
            }
            (true, None)
        },
        Some(CacheEntry::Node(node)) => {
            // The value goes back to the store when nothing else shares it;
            // otherwise the node goes back into the table.
            let released = release_or_restore(map, k, node.try_unwrap());
            proof {
                if released is None {
                    assert(map@ =~= old(map)@);
                }
            }
            (released.is_some(), released)
        },
        Some(_) => (true, None),
    }
}

/// One key of a sweep of `Cache::evict_all_sync`: once a key of the sweep
/// could not be evicted (`all_done` is false), the rest of the sweep leaves
/// its keys alone. Returns the new `all_done` and the value to hand back to
/// the store, if any.
pub fn evict_all_step<K: Hash + Eq + Copy, V>(
    all_done: bool,
    map: &mut HashMap<K, CacheEntry<V>>,
    k: K,
) -> (r: (bool, Option<V>))
    requires
        vstd::std_specs::hash::obeys_key_model::<K>(),
    ensures
        !all_done ==> r == (false, None::<V>) && final(map)@ == old(map)@,
        all_done ==> r.0 == !final(map)@.contains_key(k),
        all_done && r.0 ==> final(map)@ == old(map)@.remove(k),
        all_done && !r.0 ==> final(map)@ == old(map)@,
        all_done ==> match slot_of(old(map)@, k) {
            None => r == (true, None::<V>),
            Some(Slot::Cached(v)) => r == (true, Some(*v)) || r == (false, None::<V>),
            Some(_) => r == (true, None::<V>),
        },
{
    if all_done {
        try_evict_with_lock(map, k)
    } else {
        (false, None)
    }
}

/// Settles a node that was taken out of the table for `k`, given what
/// `Arc::try_unwrap` gave for its value: a released value stays out of the
/// table and is returned; a node whose value is shared goes back in.
pub fn release_or_restore<K: Hash + Eq + Copy, V>(
    map: &mut HashMap<K, CacheEntry<V>>,
    k: K,
    unwrapped: Result<V, CacheNode<V>>,
) -> (r: Option<V>)
    requires
        vstd::std_specs::hash::obeys_key_model::<K>(),
    ensures
        match unwrapped {
            Ok(v) => r == Some(v) && final(map)@ == old(map)@,
            Err(node) => r == None::<V> && final(map)@ == old(map)@.insert(
                k,
                CacheEntry::Node(node),
            ),
        },
{
    match unwrapped {
        Ok(v) => Some(v),
        Err(node) => {
            map.insert(k, CacheEntry::Node(node));
            None
        },
    }
}

/// Prunes a node that was taken out of the table for `k`, given the
/// nanoseconds since its value was last handed out: a node idle for less
/// than `ttl_nanos` goes back; an idle one gives up its value when nothing
/// outside the cache shares it, and goes back otherwise.
pub fn prune_node<K: Hash + Eq + Copy, V>(
    map: &mut HashMap<K, CacheEntry<V>>,
    k: K,
    node: CacheNode<V>,
    idle_nanos: u128,
    ttl_nanos: u128,
) -> (r: Option<V>)
    requires
        vstd::std_specs::hash::obeys_key_model::<K>(),
    ensures
        idle_nanos < ttl_nanos ==> r == None::<V> && final(map)@ == old(map)@.insert(
            k,
            CacheEntry::Node(node),
        ),
        idle_nanos >= ttl_nanos ==> {
            ||| r == Some(*node.spec_value()) && final(map)@ == old(map)@
            ||| r == None::<V> && final(map)@ == old(map)@.insert(k, CacheEntry::Node(node))
        },
{
    if idle_nanos < ttl_nanos {
        map.insert(k, CacheEntry::Node(node));
        return None;
    }
    release_or_restore(map, k, node.try_unwrap())
}

/// One key of a pruning pass: a value last handed out at least `ttl_nanos`
/// nanoseconds before `now`, and used nowhere outside the cache, is evicted
/// and returned so that it can be handed back to the store. Anything else
/// stays as it is.
pub fn prune_entry<K: Hash + Eq + Copy, V>(
    map: &mut HashMap<K, CacheEntry<V>>,
    k: K,
    now: &Instant,
    ttl_nanos: u128,
) -> (r: Option<V>)
    requires
        vstd::std_specs::hash::obeys_key_model::<K>(),
    ensures
        match r {
            Some(v) => {
                &&& slot_of(old(map)@, k) matches Some(Slot::Cached(a))
                &&& *a == v
                &&& slots(final(map)@) == slots(old(map)@).remove(k)
            },
            None => final(map)@ == old(map)@,
        },
        !(slot_of(old(map)@, k) matches Some(Slot::Cached(_))) ==> r is None,
        r is Some ==> (old(map)@[k] matches CacheEntry::Node(n) && spec_nanos_since(
            *now,
            n.spec_last_access(),
        ) >= ttl_nanos),
        old(map)@.contains_key(k) ==> (old(map)@[k] matches CacheEntry::Node(n) ==> (
        spec_nanos_since(*now, n.spec_last_access()) < ttl_nanos ==> r is None)),
{
    match map.remove(&k) {
        None => None,
        Some(CacheEntry::Node(node)) => {
            let idle_nanos = nanos_since(now, node.last_access());
            let r = prune_node(map, k, node, idle_nanos, ttl_nanos);
            proof {
                if r is Some {
                    assert(slots(map@) =~= slots(old(map)@).remove(k));
                } else {
                    assert(map@ =~= old(map)@);
                }
            }
            r
        },
        Some(entry) => {
            map.insert(k, entry);
            proof {
                assert(map@ =~= old(map)@);
            }
            None
        },
    }
}

/// Drops whatever entry `k` has: the table side of `Cache::remove`.
pub fn forget_key<K: Hash + Eq + Copy, V>(map: &mut HashMap<K, CacheEntry<V>>, k: K)
    requires
        vstd::std_specs::hash::obeys_key_model::<K>(),
    ensures
        final(map)@ == old(map)@.remove(k),
{
    map.remove(&k);
}

/// A read gives back what a write wrote: once `store_value` has stored `v`
/// for `k`, the next `begin_get` of `k` finds `v` in the table.
pub proof fn lemma_get_after_store<K, V>(
    before: Map<K, CacheEntry<V>>,
    after: Map<K, CacheEntry<V>>,
    k: K,
    v: Arc<V>,
)
    requires
        slots(after) == slots(before).insert(k, Slot::Cached(v)),
    ensures
        slot_of(after, k) == Some(Slot::Cached(v)),
{
    assert(slots(after).contains_key(k));
    assert(after.contains_key(k));
    assert(slots(after)[k] == after[k].slot());
}

/// A value stored by `store_value` and then handed out by `begin_get` has
/// been handed out exactly once since it was stored: its entry keeps the
/// instant of the store as its creation, and its last access is the clock
/// reading that `begin_get` made, not one carried over from the store or
/// from the entry that the store replaced.
pub proof fn lemma_hit_after_store_is_recorded<V>(
    stored: CacheEntry<V>,
    after_hit: CacheEntry<V>,
    v: Arc<V>,
)
    requires
        fresh_node(stored, v),
        touched(stored, after_hit),
    ensures
        after_hit matches CacheEntry::Node(n) && n.spec_value() == v && n.spec_reads() == 1,
        stored matches CacheEntry::Node(s) && after_hit matches CacheEntry::Node(n)
            && n.spec_first_access() == s.spec_last_access(),
{
}

/// Every waiter of a fetch receives what the table holds for the key once
/// the fetch is recorded: the value or the error that later `begin_get`
/// calls find, until the entry changes again.
pub proof fn lemma_waiters_agree_with_table<K, V>(
    before: Map<K, CacheEntry<V>>,
    after: Map<K, CacheEntry<V>>,
    k: K,
    fetch_result: Result<Arc<V>, Arc<anyhow::Error>>,
    r: Result<Arc<V>, Arc<anyhow::Error>>,
)
    requires
        match slot_of(before, k) {
            Some(Slot::Cached(v)) => r == Ok::<Arc<V>, Arc<anyhow::Error>>(v) && slots(after)
                == slots(before),
            _ => r == fetch_result && slots(after) == slots(before).insert(
                k,
                fetched_slot(fetch_result),
            ),
        },
    ensures
        slot_of(after, k) == Some(fetched_slot(r)),
{
    if slot_of(before, k) matches Some(Slot::Cached(v)) {
        assert(slots(before).contains_key(k));
        assert(slots(after)[k] == slots(before)[k]);
        assert(slots(after)[k] == after[k].slot());
        assert(slots(before)[k] == before[k].slot());
    } else {
        assert(slots(after).contains_key(k));
        assert(slots(after)[k] == after[k].slot());
    }
}

/// All callers of `get` on a key being fetched see one outcome: the caller
/// that started the fetch and every caller that finds the fetch in flight
/// (while the entry of `k` stays as that call left it) wait on one channel,
/// the one that the starting caller broadcasts the outcome on.
pub proof fn lemma_waiters_share_one_channel<K, V>(
    table: Map<K, CacheEntry<V>>,
    k: K,
    first: Lookup<V>,
    later: Lookup<V>,
)
    requires
        table.contains_key(k),
        table[k] is Fetching,
        broadcast_channel_of(first) == fetch_channel(table[k]),
        lookup_channel(first) == fetch_channel(table[k]),
        lookup_channel(later) == fetch_channel(table[k]),
    ensures
        lookup_channel(later) is Some,
        lookup_channel(later) == lookup_channel(first),
        lookup_channel(later) == broadcast_channel_of(first),
{
}

/// The keys of the table, each once, in the order the map walks them.
pub fn snapshot_keys<K: Hash + Eq + Copy, V>(map: &HashMap<K, CacheEntry<V>>) -> (keys: Vec<K>)
    requires
        vstd::std_specs::hash::obeys_key_model::<K>(),
    ensures
        keys@.to_set() == map@.dom(),
        keys@.no_duplicates(),
{
    let ghost all: Seq<K> = vstd::std_specs::hash::spec_keys_iter(map).remaining().unref();
    let mut keys: Vec<K> = Vec::new();
    for k in it: map.keys()
        invariant
            it.seq() == vstd::std_specs::hash::spec_keys_iter(map).remaining(),
            all == it.seq().unref(),
            keys@ == all.take(it.index()),
    {
        keys.push(*k);
        proof {
            assert(all.take(it.index() + 1) =~= all.take(it.index()).push(*k));
        }
    }
    assert(keys@ =~= all);
    keys
}

} // verus!
