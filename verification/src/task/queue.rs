//! The bounded queue of `crossbeam-queue`, over which interrupts hand work to tasks.

use crossbeam_queue::ArrayQueue;
use vstd::prelude::*;

verus! {

/// The type `crossbeam_queue::ArrayQueue`.
#[verifier::external_type_specification]
#[verifier::external_body]
#[verifier::reject_recursive_types(T)]
pub struct ExArrayQueue<T>(ArrayQueue<T>);

/// The items of a queue, the oldest first.
pub uninterp spec fn items(q: ArrayQueue<u64>) -> Seq<u64>;

/// How many items a queue holds at most.
pub uninterp spec fn capacity(q: ArrayQueue<u64>) -> nat;

/// `crossbeam_queue::ArrayQueue::new` makes an empty queue for `n` items. It panics if that is 0
/// or too large.
#[verifier::external_body]
pub(crate) fn new_queue(n: usize) -> (q: ArrayQueue<u64>)
    requires
        0 < n <= 0x1_0000,
    ensures
        items(q) == Seq::<u64>::empty(),
        capacity(q) == n,
{
    ArrayQueue::new(n)
}

/// `crossbeam_queue::ArrayQueue::push` adds an item at the end, or refuses it if the queue is
/// full. The result says which.
#[verifier::external_body]
pub(crate) fn push(q: &mut ArrayQueue<u64>, item: u64) -> (added: bool)
    ensures
        added == (items(*old(q)).len() < capacity(*old(q))),
        items(*final(q)) == if added {
            items(*old(q)).push(item)
        } else {
            items(*old(q))
        },
        capacity(*final(q)) == capacity(*old(q)),
{
    q.push(item).is_ok()
}

/// `crossbeam_queue::ArrayQueue::pop` takes the oldest item, if there is one.
#[verifier::external_body]
pub(crate) fn pop(q: &mut ArrayQueue<u64>) -> (item: Option<u64>)
    ensures
        match item {
            Some(x) => items(*old(q)).len() > 0 && x == items(*old(q))[0] && items(*final(q))
                == items(*old(q)).remove(0),
            None => items(*old(q)).len() == 0 && items(*final(q)) == items(*old(q)),
        },
        capacity(*final(q)) == capacity(*old(q)),
{
    q.pop()
}

/// `crossbeam_queue::ArrayQueue::is_empty` says whether there is no item.
#[verifier::external_body]
pub(crate) fn is_empty(q: &ArrayQueue<u64>) -> (empty: bool)
    ensures
        empty == (items(*q).len() == 0),
{
    q.is_empty()
}

} // verus!
