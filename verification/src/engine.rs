//! The mapping engine: one task per item, results in the order of the source.

use vstd::prelude::*;
use std::collections::VecDeque;
use std::sync::Arc;
use futures::sync::oneshot::Canceled;
use futures_cpupool::CpuPool;
use crate::pool::{
    detect_cpus, pool_size, spec_pool_size, spec_window_capacity, start_pool, submit, wait,
    window_capacity,
};
use crate::window::{into_queue, Window};
use crate::work::{is_work_of, PerItem, Work};

verus! {

/// A task that did not hand back a result, with the place in the source of
/// the item it was working on (the first item has position 0).
#[derive(Debug, Clone, Copy, PartialEq, Eq, Structural)]
pub struct TaskFailure {
    pub position: usize,
}

/// What the consumer is handed for the task at `position`, given what came
/// back from its worker: the value, or a failure that names the position.
pub fn outcome_at<B>(outcome: Result<B, Canceled>, position: usize) -> (r: Result<B, TaskFailure>)
    ensures
        outcome matches Ok(y) ==> r == Ok::<B, TaskFailure>(y),
        outcome is Err ==> (r matches Err(e) && e.position == position),
{
    match outcome {
        Ok(y) => Ok(y),
        Err(_) => Err(TaskFailure { position }),
    }
}

/// All values of `results`, in order, where every one of them is a value;
/// else the first failure among them.
pub fn gather<B>(results: Vec<Result<B, TaskFailure>>) -> (r: Result<Vec<B>, TaskFailure>)
    ensures
        r is Ok <==> (forall|i: int| 0 <= i < results@.len() ==> (#[trigger] results@[i]) is Ok),
        r matches Ok(out) ==> {
            &&& out@.len() == results@.len()
            &&& forall|i: int|
                0 <= i < results@.len() ==> results@[i] == Ok::<B, TaskFailure>(#[trigger] out@[i])
        },
        r matches Err(e) ==> exists|k: int|
            {
                &&& 0 <= k < results@.len()
                &&& #[trigger] results@[k] == Err::<B, TaskFailure>(e)
                &&& forall|i: int| 0 <= i < k ==> (#[trigger] results@[i]) is Ok
            },
{
    let mut rest = into_queue(results);
    let mut out: Vec<B> = Vec::new();
    while rest.len() > 0
        invariant
            out@.len() + rest@.len() == results@.len(),
            rest@ == results@.skip(out@.len() as int),
            forall|i: int|
                0 <= i < out@.len() ==> results@[i] == Ok::<B, TaskFailure>(#[trigger] out@[i]),
        decreases rest@.len(),
    {
        let ghost done = out@.len() as int;
        match rest.pop_front() {
            Some(Ok(y)) => {
                out.push(y);
                assert(rest@ =~= results@.skip(done + 1));
            },
            Some(Err(e)) => {
                proof {
                    assert(results@[done] == Err::<B, TaskFailure>(e));
                    assert forall|i: int| 0 <= i < done implies (#[trigger] results@[i]) is Ok by {
                        assert(results@[i] == Ok::<B, TaskFailure>(out@[i]));
                    }
                }
                return Err(e);
            },
            None => {},
        }
    }
    proof {
        assert forall|i: int| 0 <= i < results@.len() implies (#[trigger] results@[i]) is Ok by {
            assert(results@[i] == Ok::<B, TaskFailure>(out@[i]));
        }
    }
    Ok(out)
}

/// An adaptor that does the work `W` on each item of a source, on a worker
/// pool, and hands out the results in the order of the source.
#[must_use]
#[verifier::reject_recursive_types(T)]
#[verifier::reject_recursive_types(B)]
#[verifier::reject_recursive_types(W)]
pub struct MapEngine<T, B, W> {
    pool: CpuPool,
    queue: Window<B>,
    iter: VecDeque<T>,
    f: Arc<W>,
    delivered: usize,
    in_flight: Ghost<Seq<T>>,
}

impl<T: Send + 'static, B: Send + 'static, W: Work<T, B> + Send + Sync + 'static> MapEngine<
    T,
    B,
    W,
> {
    /// The work that is done on each item.
    pub closed spec fn work(&self) -> W {
        *self.f
    }

    /// The items whose results have not been handed out yet, in source order:
    /// first those that were submitted, then those still in the source.
    pub closed spec fn pending(&self) -> Seq<T> {
        self.in_flight@ + self.iter@
    }

    /// The items that are still in the source.
    pub closed spec fn unsubmitted(&self) -> Seq<T> {
        self.iter@
    }

    /// The number of tasks that were submitted and not yet awaited.
    pub closed spec fn outstanding(&self) -> nat {
        self.queue@.len()
    }

    /// The largest number of outstanding tasks.
    pub closed spec fn capacity(&self) -> nat {
        self.queue.spec_capacity()
    }

    /// The number of results handed out so far.
    pub closed spec fn position(&self) -> nat {
        self.delivered as nat
    }

    /// The engine's invariant: the window is within its capacity, every
    /// outstanding task promises a result of the work on its own item, and
    /// the work accepts every item still in the source.
    pub closed spec fn wf(&self) -> bool {
        &&& self.queue.wf()
        &&& self.queue.spec_capacity() > 0
        &&& self.in_flight@.len() == self.queue@.len()
        &&& forall|i: int, y: B|
            0 <= i < self.queue@.len() && #[trigger] self.queue@[i].promised(y) ==> (
            *self.f).relates(self.in_flight@[i], y)
        &&& forall|j: int|
            0 <= j < self.iter@.len() ==> (*self.f).accepts(#[trigger] self.iter@[j])
        &&& self.delivered + self.in_flight@.len() + self.iter@.len() <= usize::MAX
    }

    /// The window is full, or the source is used up.
    pub open spec fn primed(&self) -> bool {
        self.outstanding() < self.capacity() ==> self.unsubmitted().len() == 0
    }

    /// The window never holds more tasks than its capacity, and the tasks in
    /// it are for the next pending items, in their order: what is still in
    /// the source comes behind them.
    pub proof fn lemma_outstanding_bounded(&self)
        requires
            self.wf(),
        ensures
            self.capacity() > 0,
            self.outstanding() <= self.capacity(),
            self.outstanding() <= self.pending().len(),
            self.unsubmitted() == self.pending().skip(self.outstanding() as int),
            self.position() + self.pending().len() <= usize::MAX,
    {
        assert(self.iter@ =~= (self.in_flight@ + self.iter@).skip(self.queue@.len() as int));
    }

    /// A primed engine keeps as many tasks outstanding as the window takes,
    /// or one for every pending item where those are fewer.
    pub proof fn lemma_primed_outstanding(&self)
        requires
            self.wf(),
            self.primed(),
        ensures
            self.outstanding() == if self.pending().len() <= self.capacity() {
                self.pending().len()
            } else {
                self.capacity()
            },
            self.outstanding() == 0 <==> self.pending().len() == 0,
    {
    }

    /// Pulls one item from the source, if it has one, and submits the work on
    /// it as a new task behind all others.
    pub fn spawn(&mut self)
        requires
            old(self).wf(),
            old(self).outstanding() < old(self).capacity(),
        ensures
            final(self).wf(),
            final(self).pending() == old(self).pending(),
            final(self).work() == old(self).work(),
            final(self).capacity() == old(self).capacity(),
            final(self).position() == old(self).position(),
            old(self).unsubmitted().len() == 0 ==> final(self).outstanding() == old(
                self,
            ).outstanding() && final(self).unsubmitted() == old(self).unsubmitted(),
            old(self).unsubmitted().len() > 0 ==> final(self).outstanding() == old(
                self,
            ).outstanding() + 1 && final(self).unsubmitted() == old(self).unsubmitted().drop_first(),
    {
        match self.iter.pop_front() {
            None => {},
            Some(item) => {
                let f = self.f.clone();
                let ghost sent = item;
                let g = move || -> (y: B)
                    ensures
                        (*f).relates(item, y),
                    { (*f).run(item) };
                let task = submit(&self.pool, g);
                self.queue.push(task);
                proof {
                    self.in_flight@ = self.in_flight@.push(sent);
                    assert(self.iter@ =~= old(self).iter@.drop_first());
                    assert(self.in_flight@ + self.iter@ =~= old(self).in_flight@ + old(
                        self,
                    ).iter@);
                }
            },
        }
    }

    /// Hands out the next result. Waits for the oldest outstanding task, then
    /// submits one more item of the source in its place. A task whose work
    /// gave no result (it panicked on its worker) is handed out as a failure
    /// with the position of its item; the tasks behind it are not touched.
    pub fn next(&mut self) -> (r: Option<Result<B, TaskFailure>>)
        requires
            old(self).wf(),
            old(self).primed(),
        ensures
            final(self).wf(),
            final(self).primed(),
            final(self).work() == old(self).work(),
            final(self).capacity() == old(self).capacity(),
            old(self).pending().len() == 0 ==> r is None && final(self).pending() == old(
                self,
            ).pending() && final(self).position() == old(self).position(),
            old(self).pending().len() > 0 ==> r is Some && final(self).pending() == old(
                self,
            ).pending().drop_first() && final(self).position() == old(self).position() + 1,
            r matches Some(Ok(y)) ==> old(self).work().relates(old(self).pending()[0], y),
            r matches Some(Err(e)) ==> e.position == old(self).position(),
    {
        match self.queue.pop() {
            None => None,
            Some(task) => {
                let outcome = wait(task);
                let position = self.delivered;
                self.delivered = self.delivered + 1;
                proof {
                    self.in_flight@ = self.in_flight@.drop_first();
                    assert(self.in_flight@ + self.iter@ =~= (old(self).in_flight@ + old(
                        self,
                    ).iter@).drop_first());
                }
                self.spawn();
                Some(outcome_at(outcome, position))
            },
        }
    }

    /// Whether the source takes one more item: the positions of all items,
    /// handed out or pending, must fit in a `usize`.
    pub fn has_room(&self) -> (room: bool)
        requires
            self.wf(),
        ensures
            room == (self.position() + self.pending().len() < usize::MAX),
    {
        let waiting = self.queue.len();
        let left = self.iter.len();
        self.delivered + waiting + left < usize::MAX
    }

    /// Puts one more item behind all others of the source, and submits the
    /// oldest item of the source where the window has room. A primed engine
    /// stays primed.
    pub fn feed(&mut self, item: T)
        requires
            old(self).wf(),
            old(self).work().accepts(item),
            old(self).position() + old(self).pending().len() < usize::MAX,
        ensures
            final(self).wf(),
            final(self).pending() == old(self).pending().push(item),
            final(self).work() == old(self).work(),
            final(self).capacity() == old(self).capacity(),
            final(self).position() == old(self).position(),
            final(self).outstanding() == if old(self).outstanding() < old(self).capacity() {
                old(self).outstanding() + 1
            } else {
                old(self).outstanding()
            },
            old(self).primed() ==> final(self).primed(),
    {
        self.iter.push_back(item);
        proof {
            assert(self.in_flight@ + self.iter@ =~= (old(self).in_flight@ + old(self).iter@).push(
                item,
            ));
        }
        if self.queue.len() < self.queue.capacity() {
            self.spawn();
        }
    }

    /// The number of tasks that the window still takes.
    pub fn free_slots(&self) -> (n: usize)
        requires
            self.wf(),
        ensures
            n == self.capacity() - self.outstanding(),
    {
        self.queue.capacity() - self.queue.len()
    }

    /// Whether nothing is pending: no task is outstanding and the source is
    /// used up.
    pub fn is_idle(&self) -> (idle: bool)
        requires
            self.wf(),
        ensures
            idle == (self.pending().len() == 0),
    {
        self.queue.len() == 0 && self.iter.len() == 0
    }

    /// The number of outstanding tasks.
    pub fn outstanding_len(&self) -> (n: usize)
        requires
            self.wf(),
        ensures
            n == self.outstanding(),
            n <= self.capacity(),
    {
        self.queue.len()
    }

    /// The largest number of tasks that the engine lets be outstanding.
    pub fn window_size(&self) -> (n: usize)
        ensures
            n == self.capacity(),
    {
        self.queue.capacity()
    }

    /// Awaits every task that is left and hands out what each came to, in
    /// the order of the source: a result of the work on its item, or a failure
    /// with the position of that item. A failure holds up nothing behind it.
    pub fn drain(self) -> (out: Vec<Result<B, TaskFailure>>)
        requires
            self.wf(),
            self.primed(),
        ensures
            out@.len() == self.pending().len(),
            forall|i: int|
                0 <= i < out@.len() ==> match #[trigger] out@[i] {
                    Ok(y) => self.work().relates(self.pending()[i], y),
                    Err(e) => e.position == self.position() + i,
                },
    {
        let mut engine = self;
        let mut out: Vec<Result<B, TaskFailure>> = Vec::new();
        loop
            invariant
                engine.wf(),
                engine.primed(),
                engine.work() == self.work(),
                out@.len() + engine.pending().len() == self.pending().len(),
                engine.pending() == self.pending().skip(out@.len() as int),
                engine.position() == self.position() + out@.len(),
                forall|i: int|
                    0 <= i < out@.len() ==> match #[trigger] out@[i] {
                        Ok(y) => self.work().relates(self.pending()[i], y),
                        Err(e) => e.position == self.position() + i,
                    },
            decreases engine.pending().len(),
        {
            let ghost before = engine.pending();
            let ghost done = out@;
            match engine.next() {
                None => {
                    return out;
                },
                Some(r) => {
                    out.push(r);
                    proof {
                        assert(before[0] == self.pending()[done.len() as int]);
                        assert(before.drop_first() =~= self.pending().skip(out@.len() as int));
                    }
                },
            }
        }
    }

    /// Awaits every task that is left and hands out all results, in order, or
    /// the first failure: `gather` of what `drain` gives.
    pub fn collect(self) -> (r: Result<Vec<B>, TaskFailure>)
        requires
            self.wf(),
            self.primed(),
        ensures
            r matches Ok(out) ==> is_work_of(self.work(), self.pending(), out@),
            r matches Err(e) ==> self.position() <= e.position < self.position()
                + self.pending().len(),
    {
        let results = self.drain();
        let r = gather(results);
        proof {
            if r is Ok {
                let out = r->Ok_0;
                assert forall|i: int| 0 <= i < out@.len() implies self.work().relates(
                    self.pending()[i],
                    #[trigger] out@[i],
                ) by {
                    assert(results@[i] == Ok::<B, TaskFailure>(out@[i]));
                }
            } else {
                let e = r->Err_0;
                let k = choose|k: int|
                    0 <= k < results@.len() && #[trigger] results@[k] == Err::<B, TaskFailure>(e);
                assert(e.position == self.position() + k);
            }
        }
        r
    }
}

/// Does `work` on each item of `source`, on a pool of `workers` threads, or
/// of one thread where `workers` is zero. Up to twice that many items are
/// submitted at once, before the first result is asked for.
/// The threads are started at once: ask for no more than the system gives.
pub fn start<T, B, W>(source: Vec<T>, work: W, workers: usize) -> (engine: MapEngine<T, B, W>) where
    T: Send + 'static,
    B: Send + 'static,
    W: Work<T, B> + Send + Sync + 'static,

    requires
        forall|i: int| 0 <= i < source@.len() ==> work.accepts(#[trigger] source@[i]),
    ensures
        engine.wf(),
        engine.primed(),
        engine.work() == work,
        engine.pending() == source@,
        engine.position() == 0,
        engine.capacity() == spec_window_capacity(spec_pool_size(workers)),
        engine.outstanding() == if source@.len() <= engine.capacity() {
            source@.len()
        } else {
            engine.capacity()
        },
{
    let workers = pool_size(workers);
    let capacity = window_capacity(workers);
    let total = source.len();
    let mut res = MapEngine {
        pool: start_pool(workers),
        queue: Window::new(capacity),
        iter: into_queue(source),
        f: Arc::new(work),
        delivered: 0,
        in_flight: Ghost(Seq::empty()),
    };
    assert(res.in_flight@ + res.iter@ =~= source@);
    assert(res.iter@.len() == total);
    let mut n: usize = 0;
    while n < capacity && res.iter.len() > 0
        invariant
            n <= capacity,
            capacity == res.capacity(),
            res.wf(),
            res.work() == work,
            res.pending() == source@,
            res.position() == 0,
            res.outstanding() + res.unsubmitted().len() == source@.len(),
            res.outstanding() == if source@.len() <= n {
                source@.len()
            } else {
                n as nat
            },
        decreases capacity - n,
    {
        res.spawn();
        n = n + 1;
    }
    res
}

/// Maps `source` by `f` on a pool of `workers` threads, or of one thread
/// where `workers` is zero.
pub fn with_workers<T, B, F>(source: Vec<T>, f: F, workers: usize) -> (engine: MapEngine<
    T,
    B,
    PerItem<F>,
>) where T: Send + 'static, B: Send + 'static, F: Fn(T) -> B + Send + Sync + 'static
    requires
        forall|i: int| 0 <= i < source@.len() ==> call_requires(f, (#[trigger] source@[i],)),
    ensures
        engine.wf(),
        engine.primed(),
        engine.work() == (PerItem { f }),
        forall|x: T| #[trigger] engine.work().accepts(x) <==> call_requires(f, (x,)),
        forall|x: T, y: B| #[trigger] engine.work().relates(x, y) <==> call_ensures(f, (x,), y),
        engine.pending() == source@,
        engine.position() == 0,
        engine.capacity() == spec_window_capacity(spec_pool_size(workers)),
        engine.outstanding() == if source@.len() <= engine.capacity() {
            source@.len()
        } else {
            engine.capacity()
        },
{
    start(source, PerItem { f }, workers)
}

/// Maps `source` by `f` on a pool with one worker for each logical CPU of the
/// machine (one worker where none is detected).
pub fn par_map<T, B, F>(source: Vec<T>, f: F) -> (engine: MapEngine<T, B, PerItem<F>>) where
    T: Send + 'static,
    B: Send + 'static,
    F: Fn(T) -> B + Send + Sync + 'static,

    requires
        forall|i: int| 0 <= i < source@.len() ==> call_requires(f, (#[trigger] source@[i],)),
    ensures
        engine.wf(),
        engine.primed(),
        engine.work() == (PerItem { f }),
        forall|x: T| #[trigger] engine.work().accepts(x) <==> call_requires(f, (x,)),
        forall|x: T, y: B| #[trigger] engine.work().relates(x, y) <==> call_ensures(f, (x,), y),
        engine.pending() == source@,
        engine.position() == 0,
        engine.capacity() >= 2,
        exists|cpus: usize|
            engine.capacity() == spec_window_capacity(#[trigger] spec_pool_size(cpus)),
        engine.outstanding() == if source@.len() <= engine.capacity() {
            source@.len()
        } else {
            engine.capacity()
        },
{
    with_workers(source, f, detect_cpus())
}

} // verus!
