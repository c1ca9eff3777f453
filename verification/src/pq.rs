//! Trusted interface to the outside priority queue that holds per-server
//! deadlines.
//!
//! The queue maps an address (a packed socket address) to a stored
//! priority; `pq_entries` names what a queue holds. The queue hands out
//! its greatest priority first, so the registry stores deadlines inverted
//! (`u64::MAX - deadline`) to pop the earliest deadline first.

use vstd::prelude::*;
use priority_queue::PriorityQueue;
use rustc_hash::FxBuildHasher;

verus! {

#[verifier::external_type_specification]
#[verifier::external_body]
#[verifier::reject_recursive_types(I)]
#[verifier::reject_recursive_types(P)]
#[verifier::reject_recursive_types(H)]
pub struct ExPriorityQueue<I, P, H>(PriorityQueue<I, P, H>);

#[verifier::external_type_specification]
#[verifier::external_body]
pub struct ExFxBuildHasher(FxBuildHasher);

/// The concrete queue type the registry uses: addresses prioritized by
/// inverted deadlines, hashed with the outside crate's hasher.
pub type DeadlineQueue = PriorityQueue<u64, u64, FxBuildHasher>;

/// The entries a deadline queue holds: each stored item mapped to its
/// stored priority.
pub uninterp spec fn pq_entries(q: DeadlineQueue) -> Map<u64, u64>;

/// Relies on `PriorityQueue::with_hasher`: creates an empty queue.
#[verifier::external_body]
pub fn pq_new() -> (r: DeadlineQueue)
    ensures
        pq_entries(r) =~= Map::empty(),
{
    PriorityQueue::with_hasher(FxBuildHasher)
}

/// Relies on `PriorityQueue::push`: inserts the pair, or, if the item is
/// already stored, replaces its priority and returns the old one.
#[verifier::external_body]
pub fn pq_push(q: &mut DeadlineQueue, item: u64, priority: u64) -> (r: Option<u64>)
    ensures
        pq_entries(*final(q)) == pq_entries(*old(q)).insert(item, priority),
        r == (if pq_entries(*old(q)).dom().contains(item) {
            Some(pq_entries(*old(q))[item])
        } else {
            Option::<u64>::None
        }),
{
    q.push(item, priority)
}

/// Relies on `PriorityQueue::pop`: removes and returns a pair with the
/// greatest stored priority, or nothing from an empty queue. Which of two
/// equally prioritized items leaves is not specified.
#[verifier::external_body]
pub fn pq_pop(q: &mut DeadlineQueue) -> (r: Option<(u64, u64)>)
    ensures
        match r {
            Option::None => {
                &&& pq_entries(*final(q)) == pq_entries(*old(q))
                &&& forall|k: u64| !(#[trigger] pq_entries(*old(q)).dom().contains(k))
            },
            Some((k, p)) => {
                &&& pq_entries(*old(q)).dom().contains(k)
                &&& pq_entries(*old(q))[k] == p
                &&& forall|k2: u64|
                    #[trigger] pq_entries(*old(q)).dom().contains(k2) ==> pq_entries(*old(q))[k2]
                        <= p
                &&& pq_entries(*final(q)) == pq_entries(*old(q)).remove(k)
            },
        },
{
    q.pop()
}

/// Relies on `PriorityQueue::peek`: a pair with the greatest stored
/// priority, without removing it.
#[verifier::external_body]
pub fn pq_peek(q: &DeadlineQueue) -> (r: Option<(u64, u64)>)
    ensures
        match r {
            Option::None => forall|k: u64| !(#[trigger] pq_entries(*q).dom().contains(k)),
            Some((k, p)) => {
                &&& pq_entries(*q).dom().contains(k)
                &&& pq_entries(*q)[k] == p
                &&& forall|k2: u64|
                    #[trigger] pq_entries(*q).dom().contains(k2) ==> pq_entries(*q)[k2] <= p
            },
        },
{
    match q.peek() {
        Some((&k, &p)) => Some((k, p)),
        None => None,
    }
}

/// Relies on `PriorityQueue::remove`: removes the entry for the item, if
/// one is stored, and returns it.
#[verifier::external_body]
pub fn pq_remove(q: &mut DeadlineQueue, item: u64) -> (r: Option<(u64, u64)>)
    ensures
        pq_entries(*final(q)) == pq_entries(*old(q)).remove(item),
        r == (if pq_entries(*old(q)).dom().contains(item) {
            Some((item, pq_entries(*old(q))[item]))
        } else {
            Option::<(u64, u64)>::None
        }),
{
    q.remove(&item)
}

/// Relies on `PriorityQueue::iter`: yields each stored item exactly once,
/// in arbitrary order.
#[verifier::external_body]
pub fn pq_items(q: &DeadlineQueue) -> (r: Vec<u64>)
    ensures
        r@.to_set() == pq_entries(*q).dom(),
        r@.no_duplicates(),
{
    q.iter().map(|(i, _p)| *i).collect()
}

} // verus!
