//! A sliding window over a queue: once it is full, the oldest entry leaves
//! for each new one.

use vstd::prelude::*;
use vstd::std_specs::iter::IteratorSpec;
use std::collections::VecDeque;
use std::collections::vec_deque::Iter;

verus! {

/// The queue after `newest` was pushed into a window of `capacity` entries:
/// if the queue holds exactly `capacity` entries, its oldest one is dropped
/// first. (A window of capacity zero, or one that is over its capacity,
/// drops nothing.)
pub open spec fn pushed<T>(queue: Seq<T>, capacity: nat, newest: T) -> Seq<T> {
    if queue.len() == capacity && capacity > 0 {
        queue.drop_first().push(newest)
    } else {
        queue.push(newest)
    }
}

/// Pushes `newest` into the window.
pub fn push_into<T>(queue: &mut VecDeque<T>, capacity: usize, newest: T)
    ensures
        final(queue)@ == pushed(old(queue)@, capacity as nat, newest),
{
    if queue.len() == capacity {
        let _ = queue.pop_front();
    }
    queue.push_back(newest);
    assert(queue@ =~= pushed(old(queue)@, capacity as nat, newest));
}

/// An iterator over the queue, oldest entry first.
pub fn iter_over<T>(queue: &VecDeque<T>) -> (iter: Iter<'_, T>)
    ensures
        vstd::std_specs::vecdeque::into_iter_elts(iter) == queue@.as_ref(),
{
    broadcast use vstd::std_specs::vecdeque::axiom_spec_iter;

    queue.iter()
}

/// The newest entry, if there is one.
pub fn newest_of<T>(queue: &VecDeque<T>) -> (newest: Option<&T>)
    ensures
        queue@.len() == 0 ==> newest is None,
        queue@.len() > 0 ==> newest == Some(&queue@.last()),
{
    let len = queue.len();
    if len == 0 {
        None
    } else {
        Some(&queue[len - 1])
    }
}

/// A window that starts within its capacity stays within it.
pub proof fn lemma_window_stays_within<T>(queue: Seq<T>, capacity: nat, newest: T)
    requires
        capacity > 0,
        queue.len() <= capacity,
    ensures
        pushed(queue, capacity, newest).len() <= capacity,
        pushed(queue, capacity, newest).len() >= 1,
        pushed(queue, capacity, newest).last() == newest,
        queue.len() < capacity ==> pushed(queue, capacity, newest) == queue.push(newest),
{
}

} // verus!
