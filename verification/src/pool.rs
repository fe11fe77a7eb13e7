//! The worker pool: the only part of the library that reaches other threads.
//!
//! A task runs on a worker and hands its result back through a channel of its
//! own. Work that panics never sends: the one who waits is told so, and no
//! panic reaches the waiting thread.

use vstd::prelude::*;
use futures::Future;
use futures::sync::oneshot::Canceled;
use futures::sync::oneshot::Receiver;
use futures::sync::oneshot::Sender;
use futures_cpupool::CpuFuture;
use futures_cpupool::CpuPool;

verus! {

/// `futures_cpupool::CpuPool`, a handle to a fixed set of worker threads.
/// Nothing is known of what is inside.
#[verifier::external_type_specification]
#[verifier::external_body]
pub struct ExCpuPool(futures_cpupool::CpuPool);

/// `futures_cpupool::CpuFuture`, the handle to one piece of work that was
/// given to a pool. Nothing is known of what is inside.
#[verifier::external_type_specification]
#[verifier::external_body]
#[verifier::reject_recursive_types(T)]
#[verifier::reject_recursive_types(E)]
pub struct ExCpuFuture<T, E>(futures_cpupool::CpuFuture<T, E>);

/// `futures::sync::oneshot::Sender`, the sending half of a channel for one
/// value. Nothing is known of what is inside.
#[verifier::external_type_specification]
#[verifier::external_body]
#[verifier::reject_recursive_types(T)]
pub struct ExSender<T>(futures::sync::oneshot::Sender<T>);

/// `futures::sync::oneshot::Receiver`, the receiving half of that channel.
/// Nothing is known of what is inside.
#[verifier::external_type_specification]
#[verifier::external_body]
#[verifier::reject_recursive_types(T)]
pub struct ExReceiver<T>(futures::sync::oneshot::Receiver<T>);

/// `futures::sync::oneshot::Canceled`, what a receiver gets where its sender
/// went away without sending.
#[verifier::external_type_specification]
#[verifier::external_body]
pub struct ExCanceled(futures::sync::oneshot::Canceled);

/// A unit of work that was handed to the pool and has not been awaited yet.
///
/// A task can only be made by handing a function to the pool, and it
/// remembers what that function promised of its result.
#[verifier::reject_recursive_types(Out)]
pub struct Task<Out> {
    handle: CpuFuture<(), ()>,
    receiver: Receiver<Out>,
    promise: Ghost<spec_fn(Out) -> bool>,
}

impl<Out> Task<Out> {
    /// Whether `y` is a result that the submitted function may produce.
    pub closed spec fn promised(&self, y: Out) -> bool {
        (self.promise@)(y)
    }
}

/// The number of workers for a detected number of logical CPUs: that number,
/// and one worker where the detection yields none.
pub open spec fn spec_pool_size(detected: usize) -> usize {
    if detected == 0 {
        1
    } else {
        detected
    }
}

/// The number of tasks that may be outstanding with `size` workers: twice the
/// number of workers, or the largest `usize` where that does not fit.
pub open spec fn spec_window_capacity(size: usize) -> usize {
    if 2 * size <= usize::MAX {
        (2 * size) as usize
    } else {
        usize::MAX
    }
}

/// The number of workers for a detected number of logical CPUs.
pub fn pool_size(detected: usize) -> (size: usize)
    ensures
        size == spec_pool_size(detected),
        size >= 1,
{
    if detected == 0 {
        1
    } else {
        detected
    }
}

/// The capacity of the window of a pool of `size` workers.
pub fn window_capacity(size: usize) -> (capacity: usize)
    ensures
        capacity == spec_window_capacity(size),
        size >= 1 ==> capacity >= 2,
{
    if size <= usize::MAX / 2 {
        2 * size
    } else {
        usize::MAX
    }
}

/// Runs a task on its worker: one call of `g`, whose result goes into the
/// task's channel.
pub(crate) fn deliver<Out, G: FnOnce() -> Out>(g: G, tx: Sender<Out>)
    requires
        g.requires(()),
{
    let y = g();
    send_result(tx, y);
}

/// Calls `Sender::send`, which puts `y` into the channel for the receiver to
/// take. Nothing is claimed here; what the receiver gets is claimed at `wait`.
#[verifier::external_body]
pub(crate) fn send_result<Out>(tx: Sender<Out>, y: Out) {
    let _ = tx.send(y);
}

/// Calls `num_cpus::get`. The count depends on the machine, so nothing is
/// claimed of it.
#[verifier::external_body]
pub(crate) fn detect_cpus() -> (n: usize) {
    num_cpus::get()
}

/// Calls `CpuPool::new`, which starts `size` worker threads and panics on a
/// size of zero: that size is left out. Whether the system can start that
/// many threads is not known here.
#[verifier::external_body]
pub(crate) fn start_pool(size: usize) -> (pool: CpuPool)
    requires
        size > 0,
{
    CpuPool::new(size)
}

/// Makes a channel with `oneshot::channel` and calls `CpuPool::spawn_fn` with
/// a closure that runs `deliver(g, tx)` once on a worker thread; the new task
/// keeps the pool's handle and the receiver. Claimed: whatever that task
/// promises of its result, `g` ensures of its own result. Not proved: that
/// the receiver gets what this call of `g` returned and nothing else.
#[verifier::external_body]
pub(crate) fn submit<Out, G>(pool: &CpuPool, g: G) -> (task: Task<Out>) where
    G: FnOnce() -> Out + Send + 'static,
    Out: Send + 'static,

    requires
        g.requires(()),
    ensures
        forall|y: Out| #[trigger] task.promised(y) ==> g.ensures((), y),
{
    let (tx, rx) = futures::sync::oneshot::channel();
    Task {
        promise: Ghost(|y: Out| call_ensures(g, (), y)),
        receiver: rx,
        handle: pool.spawn_fn(move || Ok(deliver(g, tx))),
    }
}

/// Calls `Future::wait` on the task's receiver, which blocks until the worker
/// has sent the result or has dropped the sender. The sender is dropped
/// unsent where the work panicked on its worker: the pool catches that panic,
/// and the receiver then gives `Canceled`. Claimed: a value that comes back
/// is one that the task promised. Which of the two comes back depends on the
/// work, and nothing is claimed of it.
#[verifier::external_body]
pub(crate) fn wait<Out: Send + 'static>(task: Task<Out>) -> (r: Result<Out, Canceled>)
    ensures
        r matches Ok(y) ==> task.promised(y),
{
    task.receiver.wait()
}

} // verus!
