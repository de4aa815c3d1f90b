//! The queue of content hashes that wait for a worker.
//!
//! The queue is a `concurrent_queue::ConcurrentQueue`. Verus does not look
//! inside it: the hashes that wait in it are named by [`queue_items`], its
//! capacity by [`queue_capacity`] and whether it was closed by
//! [`queue_closed`]. The functions below state, over these names, what each
//! call does. None of these statements is proved.
//!
//! Every call that changes the queue takes it by `&mut`: the statements hold
//! of a queue that nothing else works on during the call.

use concurrent_queue::ConcurrentQueue;
use vstd::prelude::*;

verus! {

/// `concurrent_queue::ConcurrentQueue`, opaque to the verifier.
#[verifier::external_type_specification]
#[verifier::external_body]
#[verifier::reject_recursive_types(T)]
pub struct ExConcurrentQueue<T>(ConcurrentQueue<T>);

/// The most items that a queue of this crate is made for. A bounded queue
/// sets aside a slot for each item when it is made, and on every platform
/// that many slots can still be addressed.
pub const MAX_QUEUE_CAPACITY: usize = 0x7ff_ffff;

/// The hashes that wait in a queue, the one that leaves next first.
pub uninterp spec fn queue_items(queue: ConcurrentQueue<String>) -> Seq<Seq<char>>;

/// The number of items that a bounded queue was made for; `None` for a queue
/// without a bound.
pub uninterp spec fn queue_capacity(queue: ConcurrentQueue<String>) -> Option<nat>;

/// Whether a queue was closed, so that it takes no more items.
pub uninterp spec fn queue_closed(queue: ConcurrentQueue<String>) -> bool;

/// Whether a queue takes one more item.
pub open spec fn queue_has_room(queue: ConcurrentQueue<String>) -> bool {
    &&& !queue_closed(queue)
    &&& queue_capacity(queue) matches Some(capacity) ==> queue_items(queue).len() < capacity
}

/// `ConcurrentQueue::bounded`: an open, empty queue for `capacity` items.
/// The call panics on a capacity of zero and on one for which the slots
/// cannot be laid out; both are left out here.
#[verifier::external_body]
pub(crate) fn queue_bounded(capacity: usize) -> (queue: ConcurrentQueue<String>)
    requires
        0 < capacity <= MAX_QUEUE_CAPACITY,
    ensures
        queue_items(queue).len() == 0,
        queue_capacity(queue) == Some(capacity as nat),
        !queue_closed(queue),
{
    ConcurrentQueue::bounded(capacity)
}

/// `ConcurrentQueue::push`: where the queue has room, `hash` joins it at the
/// end; where it is full or closed, the queue stays as it is and the call
/// returns `false`.
#[verifier::external_body]
pub(crate) fn queue_push(queue: &mut ConcurrentQueue<String>, hash: String) -> (pushed: bool)
    ensures
        pushed == queue_has_room(*old(queue)),
        queue_items(*final(queue)) == if pushed {
            queue_items(*old(queue)).push(hash@)
        } else {
            queue_items(*old(queue))
        },
        queue_capacity(*final(queue)) == queue_capacity(*old(queue)),
        queue_closed(*final(queue)) == queue_closed(*old(queue)),
{
    queue.push(hash).is_ok()
}

/// `ConcurrentQueue::pop`: the hash at the front leaves the queue and is
/// returned; an empty queue stays as it is and gives `None`.
#[verifier::external_body]
pub(crate) fn queue_pop(queue: &mut ConcurrentQueue<String>) -> (popped: Option<String>)
    ensures
        popped is Some == (queue_items(*old(queue)).len() > 0),
        popped is Some ==> popped.unwrap()@ == queue_items(*old(queue)).first(),
        queue_items(*final(queue)) == if popped is Some {
            queue_items(*old(queue)).drop_first()
        } else {
            queue_items(*old(queue))
        },
        queue_capacity(*final(queue)) == queue_capacity(*old(queue)),
        queue_closed(*final(queue)) == queue_closed(*old(queue)),
{
    queue.pop().ok()
}

/// `ConcurrentQueue::len`: the number of hashes that wait in the queue.
#[verifier::external_body]
pub(crate) fn queue_len(queue: &ConcurrentQueue<String>) -> (count: usize)
    ensures
        count == queue_items(*queue).len(),
{
    queue.len()
}

} // verus!
