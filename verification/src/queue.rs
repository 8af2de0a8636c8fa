//! Queues of what is yet to be reported.

use std::collections::VecDeque;
use vstd::prelude::*;

verus! {

/// An empty queue that could hold more than this gives memory back.
pub const EMPTY_QUEUE_SHRINK_THRESHOLD: usize = 100;

/// `VecDeque::capacity`: how many elements fit without another allocation, which is no fewer than
/// there are.
#[verifier::external_body]
fn capacity<T>(queue: &VecDeque<T>) -> (capacity: usize)
    ensures
        capacity >= queue@.len(),
{
    queue.capacity()
}

/// `VecDeque::shrink_to_fit`: gives memory back, and keeps all elements in their order.
#[verifier::external_body]
fn shrink_to_fit<T>(queue: &mut VecDeque<T>)
    ensures
        final(queue)@ == old(queue)@,
{
    queue.shrink_to_fit()
}

/// The queue without its first element.
pub open spec fn tail<T>(queue: Seq<T>) -> Seq<T> {
    if queue.len() == 0 {
        queue
    } else {
        queue.drop_first()
    }
}

/// The first element of the queue.
pub open spec fn head<T>(queue: Seq<T>) -> Option<T> {
    if queue.len() == 0 {
        None
    } else {
        Some(queue[0])
    }
}

/// Takes the first element out. A queue that was empty gives back the memory that it had for many.
pub(crate) fn pop<T>(queue: &mut VecDeque<T>) -> (popped: Option<T>)
    ensures
        popped == head(old(queue)@),
        final(queue)@ == tail(old(queue)@),
{
    let popped = queue.pop_front();
    if popped.is_none() && capacity(queue) > EMPTY_QUEUE_SHRINK_THRESHOLD {
        shrink_to_fit(queue);
    }
    popped
}

} // verus!
