//! The order-preserving task queue.
//!
//! The pipeline executes up to N chunk transforms in parallel but must write
//! results in submission order. This module captures the part of that worker
//! pool that can be stated and proved: the delivery discipline. A
//! [`TaskRequestSender`] accepts one result per submitted task; closing it
//! with [`TaskRequestSender::finish`] yields a [`TaskResponseReceiver`] that
//! delivers the results strictly in submission order, and reports the end of
//! the stream with `None` once all of them have been delivered. Running the
//! tasks on operating-system threads is the embedding application's
//! business; whatever order the workers complete in, what the receiver hands
//! out is fixed by this contract.

use vstd::prelude::*;

verus! {

/// The sending side of a task channel. Tasks are submitted in the order the
/// pipeline produces them; the submission order is the delivery order.
pub struct TaskRequestSender<T> {
    /// The results of the submitted tasks, in submission order.
    pending: Vec<T>,
    /// The size of the worker pool this channel was created for.
    size: usize,
}

impl<T> View for TaskRequestSender<T> {
    type V = Seq<T>;

    closed spec fn view(&self) -> Seq<T> {
        self.pending@
    }
}

impl<T> TaskRequestSender<T> {
    /// The size of the worker pool this channel was created for.
    pub closed spec fn pool_size(&self) -> nat {
        self.size as nat
    }

    /// Submits the result of the next task. Submission order determines
    /// delivery order, no matter how long the task itself takes to run.
    pub fn send(&mut self, result: T)
        ensures
            final(self)@ == old(self)@.push(result),
            final(self).pool_size() == old(self).pool_size(),
    {
        self.pending.push(result);
    }

    /// Closes the sending side. The receiving side delivers exactly the
    /// submitted results, in submission order.
    pub fn finish(self) -> (r: TaskResponseReceiver<T>)
        ensures
            r@ == self@,
    {
        TaskResponseReceiver { results: self.pending }
    }
}

/// The receiving side of a task channel.
pub struct TaskResponseReceiver<T> {
    /// The results not yet delivered, in submission order.
    results: Vec<T>,
}

impl<T> View for TaskResponseReceiver<T> {
    type V = Seq<T>;

    closed spec fn view(&self) -> Seq<T> {
        self.results@
    }
}

impl<T> TaskResponseReceiver<T> {
    /// Receives the next task response from the channel. Task responses are
    /// the return values of each task, and are received in the same order in
    /// which the task requests were sent. This returns `None` exactly when
    /// all responses have been received.
    pub fn recv(&mut self) -> (r: Option<T>)
        ensures
            old(self)@.len() > 0 ==> {
                &&& r == Some(old(self)@.first())
                &&& final(self)@ == old(self)@.drop_first()
            },
            old(self)@.len() == 0 ==> {
                &&& r is None
                &&& final(self)@ == old(self)@
            },
    {
        if self.results.len() > 0 {
            Some(self.results.remove(0))
        } else {
            None
        }
    }
}

/// Creates a task channel for a pool of the given size. The sender accepts
/// task results; closing it hands back the receiver, which yields the
/// results in submission order.
pub fn task_channel<T>(size: usize) -> (r: TaskRequestSender<T>)
    requires
        size >= 1,
    ensures
        r@ == Seq::<T>::empty(),
        r.pool_size() == size,
{
    TaskRequestSender { pending: Vec::new(), size }
}

} // verus!
