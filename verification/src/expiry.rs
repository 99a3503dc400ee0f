//! The expiry queues: for each priority tier, the identifiers of that tier
//! keyed by the time at which each was last seen.
//!
//! A queue is a `PriorityQueue` of the `priority-queue` crate, opaque to the
//! verifier. What is proved about a queue rests on the contracts of the four
//! private functions that touch it.

use vstd::prelude::*;
use priority_queue::PriorityQueue;
use crate::OID;

verus! {

/// Declares `priority_queue::PriorityQueue` as a type of which nothing is
/// known but what the functions below say.
#[verifier::external_type_specification]
#[verifier::external_body]
#[verifier::reject_recursive_types(I)]
#[verifier::reject_recursive_types(P)]
#[verifier::reject_recursive_types(H)]
pub struct ExPriorityQueue<I, P, H>(PriorityQueue<I, P, H>);

/// Instants, in milliseconds since the Unix epoch.
pub type Timestamp = i64;

/// The queue of one tier: identifiers, each with the instant it was last seen.
pub type ExpiryQueue = PriorityQueue<OID, Timestamp>;

/// The identifiers that a queue holds, each with the instant it is keyed by.
pub uninterp spec fn queue_entries(q: ExpiryQueue) -> Map<OID, Timestamp>;

/// Number of tiers: one for each priority.
pub const TIERS: usize = 256;

/// The tier of a priority: tiers are numbered from the lowest priority up.
pub open spec fn tier_of(priority: i8) -> int {
    priority as int + 128
}

/// Calls `PriorityQueue::new`: the new queue holds nothing.
#[verifier::external_body]
fn queue_new() -> (q: ExpiryQueue)
    ensures
        queue_entries(q) == (Map::<OID, Timestamp>::empty()),
{
    PriorityQueue::new()
}

/// Calls `PriorityQueue::push`: afterwards the item is in the queue under the
/// new key, whether or not it was there before; the other items are as they
/// were.
#[verifier::external_body]
fn queue_push(q: &mut ExpiryQueue, id: OID, seen: Timestamp)
    ensures
        queue_entries(*final(q)) == queue_entries(*old(q)).insert(id, seen),
{
    q.push(id, seen);
}

/// Calls `PriorityQueue::remove`: afterwards the item is not in the queue; the
/// other items are as they were.
#[verifier::external_body]
fn queue_remove(q: &mut ExpiryQueue, id: OID)
    ensures
        queue_entries(*final(q)) == queue_entries(*old(q)).remove(id),
{
    q.remove(&id);
}

/// Calls `PriorityQueue::get_priority`: the key of the item, if it is in the
/// queue.
#[verifier::external_body]
fn queue_key(q: &ExpiryQueue, id: OID) -> (key: Option<Timestamp>)
    ensures
        key == (if queue_entries(*q).contains_key(id) {
            Some(queue_entries(*q)[id])
        } else {
            None
        }),
{
    q.get_priority(&id).copied()
}

/// The index of the tier of a priority.
pub fn tier_index(priority: i8) -> (tier: usize)
    ensures
        tier == tier_of(priority),
        tier < TIERS,
{
    (priority as i16 + 128) as usize
}

/// The expiry queues of a store, one for each tier. Only the store changes
/// them, together with what it knows of the object concerned.
pub(crate) struct Tiers {
    queues: Vec<ExpiryQueue>,
}

impl Tiers {
    /// Whether there is a queue for every tier.
    pub(crate) closed spec fn wf(&self) -> bool {
        self.queues@.len() == TIERS
    }

    /// What the queue of tier `tier` holds.
    pub(crate) closed spec fn entries(&self, tier: int) -> Map<OID, Timestamp> {
        queue_entries(self.queues@[tier])
    }

    /// Empty queues, one for each tier.
    pub(crate) fn new() -> (tiers: Tiers)
        ensures
            tiers.wf(),
            forall|tier: int| 0 <= tier < TIERS ==> tiers.entries(tier) == Map::<
                OID,
                Timestamp,
            >::empty(),
    {
        let mut queues: Vec<ExpiryQueue> = Vec::new();
        let mut i: usize = 0;
        while i < TIERS
            invariant
                i <= TIERS,
                queues@.len() == i,
                forall|tier: int|
                    0 <= tier < i ==> queue_entries(#[trigger] queues@[tier]) == Map::<
                        OID,
                        Timestamp,
                    >::empty(),
            decreases TIERS - i,
        {
            queues.push(queue_new());
            i += 1;
        }
        Tiers { queues }
    }

    /// Puts `id` into the queue of `tier` under the key `seen`, or changes its
    /// key there. The other queues stay as they are.
    pub(crate) fn push(&mut self, tier: usize, id: OID, seen: Timestamp)
        requires
            old(self).wf(),
            tier < TIERS,
        ensures
            final(self).wf(),
            final(self).entries(tier as int) == old(self).entries(tier as int).insert(id, seen),
            forall|other: int|
                0 <= other < TIERS && other != tier ==> final(self).entries(other) == old(
                    self,
                ).entries(other),
    {
        queue_push(&mut self.queues[tier], id, seen);
    }

    /// Takes `id` out of the queue of `tier`. The other queues stay as they
    /// are.
    pub(crate) fn remove(&mut self, tier: usize, id: OID)
        requires
            old(self).wf(),
            tier < TIERS,
        ensures
            final(self).wf(),
            final(self).entries(tier as int) == old(self).entries(tier as int).remove(id),
            forall|other: int|
                0 <= other < TIERS && other != tier ==> final(self).entries(other) == old(
                    self,
                ).entries(other),
    {
        queue_remove(&mut self.queues[tier], id);
    }

    /// The key under which `id` stands in the queue of `tier`.
    pub(crate) fn key(&self, tier: usize, id: OID) -> (key: Option<Timestamp>)
        requires
            self.wf(),
            tier < TIERS,
        ensures
            key == (if self.entries(tier as int).contains_key(id) {
                Some(self.entries(tier as int)[id])
            } else {
                None
            }),
    {
        queue_key(&self.queues[tier], id)
    }
}

} // verus!
