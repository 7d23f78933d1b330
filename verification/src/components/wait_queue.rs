//! The queue of scheduled messages that wait for a slot, kept in a
//! `priority_queue::PriorityQueue` ordered by fewest remaining bytes first.
use priority_queue::PriorityQueue;
use std::cmp::Reverse;
use std::hash::Hash;
use vstd::prelude::*;

verus! {

/// `priority_queue::PriorityQueue`, carried as an opaque value.
#[verifier::external_type_specification]
#[verifier::external_body]
#[verifier::reject_recursive_types(I)]
#[verifier::reject_recursive_types(P)]
#[verifier::reject_recursive_types(H)]
pub struct ExPriorityQueue<I: Hash + Eq, P: Ord, H>(PriorityQueue<I, P, H>);

/// `std::cmp::Reverse`, carried as an opaque value.
#[verifier::external_type_specification]
#[verifier::external_body]
#[verifier::reject_recursive_types(T)]
pub struct ExReverse<T>(Reverse<T>);

/// The queue of `(message id, remaining bytes)` items.
pub type WaitQueue = PriorityQueue<(u64, u64), Reverse<u64>>;

/// What a queue holds: each waiting `(message id, remaining bytes)` item with
/// the key it was pushed under.
pub uninterp spec fn spec_queue_contents(queue: WaitQueue) -> Map<(u64, u64), u64>;

/// The contents of a queue that holds nothing.
pub open spec fn spec_nothing_queued() -> Map<(u64, u64), u64> {
    Map::empty()
}

/// Makes an empty queue with `PriorityQueue::new`.
///
/// Trusted: the new queue holds nothing.
#[verifier::external_body]
pub(crate) fn queue_new() -> (queue: WaitQueue)
    ensures
        spec_queue_contents(queue) == spec_nothing_queued(),
{
    PriorityQueue::new()
}

/// Puts `item` into the queue under `key` with `PriorityQueue::push`.
///
/// Trusted: the item is in the queue afterwards under the new key, whether or
/// not an equal item was there before, and no other item is touched.
#[verifier::external_body]
pub(crate) fn queue_push(queue: &mut WaitQueue, item: (u64, u64), key: u64)
    ensures
        spec_queue_contents(*final(queue)) == spec_queue_contents(*old(queue)).insert(item, key),
{
    queue.push(item, Reverse(key));
}

/// Takes the item of greatest priority out of the queue with
/// `PriorityQueue::pop`; under `Reverse` that is an item of least key.
///
/// Trusted: an empty queue gives `None` and stays as it is. Any other queue
/// gives one of its items together with its key, no key in the queue was
/// smaller, and exactly that item has left. Which of several items of equal
/// key leaves is not said.
#[verifier::external_body]
pub(crate) fn queue_pop(queue: &mut WaitQueue) -> (popped: Option<((u64, u64), u64)>)
    ensures
        match popped {
            None => {
                &&& spec_queue_contents(*old(queue)) == spec_nothing_queued()
                &&& spec_queue_contents(*final(queue)) == spec_queue_contents(*old(queue))
            },
            Some((item, key)) => {
                &&& spec_queue_contents(*old(queue)).contains_key(item)
                &&& spec_queue_contents(*old(queue))[item] == key
                &&& forall|other: (u64, u64)|
                    spec_queue_contents(*old(queue)).contains_key(other) ==> key
                        <= #[trigger] spec_queue_contents(*old(queue))[other]
                &&& spec_queue_contents(*final(queue)) == spec_queue_contents(*old(queue)).remove(
                    item,
                )
            },
        },
{
    queue.pop().map(|(item, key)| (item, key.0))
}

} // verus!
