//! The window: a bounded first-in, first-out queue of outstanding tasks.

use vstd::prelude::*;
use std::collections::VecDeque;
use crate::pool::Task;

verus! {

/// Moves the items of a vector into a queue, the first item at the front.
pub fn into_queue<T>(v: Vec<T>) -> (q: VecDeque<T>)
    ensures
        q@ == v@,
{
    let mut v = v;
    let mut q: VecDeque<T> = VecDeque::new();
    let ghost all = v@;
    while v.len() > 0
        invariant
            v@ + q@ == all,
        decreases v.len(),
    {
        let ghost before_v = v@;
        let ghost before_q = q@;
        match v.pop() {
            Some(x) => {
                q.push_front(x);
                assert(v@ + q@ =~= before_v + before_q);
            },
            None => {},
        }
    }
    assert(v@ + q@ =~= q@);
    q
}

/// The outstanding tasks of one adaptor, oldest first, never more of them
/// than the capacity it was made with.
#[verifier::reject_recursive_types(Out)]
pub struct Window<Out> {
    tasks: VecDeque<Task<Out>>,
    capacity: usize,
}

impl<Out> Window<Out> {
    /// The outstanding tasks, oldest first. The capacity is no part of the
    /// view: `spec_capacity` states it.
    pub closed spec fn view(&self) -> Seq<Task<Out>> {
        self.tasks@
    }

    /// The largest number of tasks the window holds.
    pub closed spec fn spec_capacity(&self) -> nat {
        self.capacity as nat
    }

    /// The bound on the window's length.
    pub open spec fn wf(&self) -> bool {
        self@.len() <= self.spec_capacity()
    }

    /// An empty window for at most `capacity` tasks.
    pub fn new(capacity: usize) -> (w: Self)
        ensures
            w.wf(),
            w@ == Seq::<Task<Out>>::empty(),
            w.spec_capacity() == capacity,
    {
        Window { tasks: VecDeque::new(), capacity }
    }

    /// The number of outstanding tasks.
    pub fn len(&self) -> (n: usize)
        requires
            self.wf(),
        ensures
            n == self@.len(),
            n <= self.spec_capacity(),
    {
        self.tasks.len()
    }

    /// The capacity the window was made with.
    pub fn capacity(&self) -> (n: usize)
        ensures
            n == self.spec_capacity(),
    {
        self.capacity
    }

    /// Whether no further task fits.
    pub fn is_full(&self) -> (full: bool)
        requires
            self.wf(),
        ensures
            full == (self@.len() == self.spec_capacity()),
    {
        self.tasks.len() >= self.capacity
    }

    /// Appends a task behind all others. The window must not be full.
    pub fn push(&mut self, task: Task<Out>)
        requires
            old(self).wf(),
            old(self)@.len() < old(self).spec_capacity(),
        ensures
            final(self).wf(),
            final(self)@ == old(self)@.push(task),
            final(self).spec_capacity() == old(self).spec_capacity(),
    {
        self.tasks.push_back(task);
    }

    /// Removes the oldest task, if there is one.
    pub fn pop(&mut self) -> (front: Option<Task<Out>>)
        requires
            old(self).wf(),
        ensures
            final(self).wf(),
            final(self).spec_capacity() == old(self).spec_capacity(),
            old(self)@.len() == 0 ==> front is None && final(self)@ == old(self)@,
            old(self)@.len() > 0 ==> front == Some(old(self)@[0]) && final(self)@ == old(
                self,
            )@.drop_first(),
    {
        let front = self.tasks.pop_front();
        proof {
            if old(self)@.len() > 0 {
                assert(self.tasks@ =~= old(self)@.drop_first());
            }
        }
        front
    }
}

} // verus!
