//! The flattening engine: each task gives a sequence, and the sequences are
//! handed out item by item, one behind the other.

use vstd::prelude::*;
use std::collections::VecDeque;
use crate::engine::{gather, start, MapEngine, TaskFailure};
use crate::pool::detect_cpus;
use crate::work::{PerItem, Work};
use crate::pool::{spec_pool_size, spec_window_capacity};
use crate::window::into_queue;

verus! {

/// The work `f` may give, on `x`, a vector that holds `s`.
pub open spec fn yields<T, B, W: Work<T, Vec<B>>>(f: W, x: T, s: Seq<B>) -> bool {
    exists|v: Vec<B>| v@ == s && f.relates(x, v)
}

/// The work `f` gives at most one result for each input.
pub open spec fn is_single_valued<T, B, W: Work<T, B>>(f: W) -> bool {
    forall|x: T, y: B, z: B|
        #![trigger f.relates(x, y), f.relates(x, z)]
        f.relates(x, y) && f.relates(x, z) ==> y == z
}

/// `parts` holds, for each of `inputs` in order, a sequence that `f` may give
/// on it.
pub open spec fn is_flat_map_of<T, B, W: Work<T, Vec<B>>>(
    f: W,
    inputs: Seq<T>,
    parts: Seq<Seq<B>>,
) -> bool {
    &&& parts.len() == inputs.len()
    &&& forall|i: int| 0 <= i < inputs.len() ==> yields(f, inputs[i], #[trigger] parts[i])
}

/// `out` is what mapping `inputs` by `f` and putting the results one behind
/// the other, in order, may give.
pub open spec fn flat_maps_to<T, B, W: Work<T, Vec<B>>>(f: W, inputs: Seq<T>, out: Seq<B>) -> bool {
    exists|parts: Seq<Seq<B>>| is_flat_map_of(f, inputs, parts) && out == parts.flatten()
}

/// Two flat maps of the same inputs by work that gives one result for each
/// input are equal.
pub proof fn lemma_flat_map_unique<T, B, W: Work<T, Vec<B>>>(
    f: W,
    inputs: Seq<T>,
    a: Seq<B>,
    b: Seq<B>,
)
    requires
        is_single_valued(f),
        flat_maps_to(f, inputs, a),
        flat_maps_to(f, inputs, b),
    ensures
        a == b,
{
    let pa = choose|w: Seq<Seq<B>>| is_flat_map_of(f, inputs, w) && a == w.flatten();
    let pb = choose|w: Seq<Seq<B>>| is_flat_map_of(f, inputs, w) && b == w.flatten();
    assert forall|i: int| 0 <= i < pa.len() implies pa[i] == pb[i] by {
        assert(yields(f, inputs[i], pa[i]));
        assert(yields(f, inputs[i], pb[i]));
        let va = choose|v: Vec<B>| v@ == pa[i] && f.relates(inputs[i], v);
        let vb = choose|v: Vec<B>| v@ == pb[i] && f.relates(inputs[i], v);
        assert(va == vb);
    }
    assert(pa =~= pb);
}

/// An adaptor that maps each item of a source to a sequence on a worker pool
/// and hands out the items of those sequences.
#[must_use]
#[verifier::reject_recursive_types(T)]
#[verifier::reject_recursive_types(B)]
#[verifier::reject_recursive_types(W)]
pub struct FlatMap<T, B, W> {
    inner: MapEngine<T, Vec<B>, W>,
    cur_iter: VecDeque<B>,
}

impl<T: Send + 'static, B: Send + 'static, W: Work<T, Vec<B>> + Send + Sync + 'static> FlatMap<
    T,
    B,
    W,
> {
    /// The work that is done on each item of the source.
    pub closed spec fn work(&self) -> W {
        self.inner.work()
    }

    /// The items of the source whose sequences were not taken up yet.
    pub closed spec fn pending(&self) -> Seq<T> {
        self.inner.pending()
    }

    /// The items still in the source.
    pub closed spec fn unsubmitted(&self) -> Seq<T> {
        self.inner.unsubmitted()
    }

    /// What is left of the sequence that is being handed out.
    pub closed spec fn current(&self) -> Seq<B> {
        self.cur_iter@
    }

    /// The number of tasks that were submitted and not yet awaited.
    pub closed spec fn outstanding(&self) -> nat {
        self.inner.outstanding()
    }

    /// The largest number of outstanding tasks.
    pub closed spec fn capacity(&self) -> nat {
        self.inner.capacity()
    }

    /// The number of tasks whose result was awaited so far.
    pub closed spec fn position(&self) -> nat {
        self.inner.position()
    }

    /// The invariant of the engine underneath.
    pub closed spec fn wf(&self) -> bool {
        self.inner.wf()
    }

    /// The window is full, or the source is used up.
    pub open spec fn primed(&self) -> bool {
        self.outstanding() < self.capacity() ==> self.unsubmitted().len() == 0
    }

    /// The window never holds more tasks than its capacity, and the tasks in
    /// it are for the next pending items, in their order.
    pub proof fn lemma_outstanding_bounded(&self)
        requires
            self.wf(),
        ensures
            self.capacity() > 0,
            self.outstanding() <= self.capacity(),
            self.outstanding() <= self.pending().len(),
            self.unsubmitted() == self.pending().skip(self.outstanding() as int),
    {
        self.inner.lemma_outstanding_bounded();
    }

    /// A primed engine keeps as many tasks outstanding as the window takes,
    /// or one for every pending item where those are fewer.
    pub proof fn lemma_primed_outstanding(&self)
        requires
            self.wf(),
            self.primed(),
        ensures
            self.outstanding() == if self.pending().len() <= self.capacity() {
                self.pending().len()
            } else {
                self.capacity()
            },
    {
        self.inner.lemma_primed_outstanding();
    }

    /// Pulls one item from the source, if it has one, and submits the work on
    /// it as a new task behind all others.
    pub fn spawn(&mut self)
        requires
            old(self).wf(),
            old(self).outstanding() < old(self).capacity(),
        ensures
            final(self).wf(),
            final(self).pending() == old(self).pending(),
            final(self).current() == old(self).current(),
            final(self).work() == old(self).work(),
            final(self).capacity() == old(self).capacity(),
            final(self).position() == old(self).position(),
            old(self).unsubmitted().len() == 0 ==> final(self).outstanding() == old(
                self,
            ).outstanding() && final(self).unsubmitted() == old(self).unsubmitted(),
            old(self).unsubmitted().len() > 0 ==> final(self).outstanding() == old(
                self,
            ).outstanding() + 1 && final(self).unsubmitted() == old(self).unsubmitted().drop_first(),
    {
        self.inner.spawn();
    }

    /// Whether the source takes one more item: the positions of all items
    /// must fit in a `usize`.
    pub fn has_room(&self) -> (room: bool)
        requires
            self.wf(),
        ensures
            room == (self.position() + self.pending().len() < usize::MAX),
    {
        self.inner.has_room()
    }

    /// Puts one more item behind all others of the source, and submits the
    /// oldest item of the source where the window has room. A primed engine
    /// stays primed.
    pub fn feed(&mut self, item: T)
        requires
            old(self).wf(),
            old(self).work().accepts(item),
            old(self).position() + old(self).pending().len() < usize::MAX,
        ensures
            final(self).wf(),
            final(self).pending() == old(self).pending().push(item),
            final(self).current() == old(self).current(),
            final(self).work() == old(self).work(),
            final(self).capacity() == old(self).capacity(),
            final(self).position() == old(self).position(),
            final(self).outstanding() == if old(self).outstanding() < old(self).capacity() {
                old(self).outstanding() + 1
            } else {
                old(self).outstanding()
            },
            old(self).primed() ==> final(self).primed(),
    {
        self.inner.feed(item);
    }

    /// The number of tasks that the window still takes.
    pub fn free_slots(&self) -> (n: usize)
        requires
            self.wf(),
        ensures
            n == self.capacity() - self.outstanding(),
    {
        self.inner.free_slots()
    }

    /// Whether nothing is left to hand out: the current sequence is used up,
    /// no task is outstanding and the source is used up.
    pub fn is_idle(&self) -> (idle: bool)
        requires
            self.wf(),
        ensures
            idle == (self.current().len() == 0 && self.pending().len() == 0),
    {
        self.cur_iter.len() == 0 && self.inner.is_idle()
    }

    /// The number of outstanding tasks.
    pub fn outstanding_len(&self) -> (n: usize)
        requires
            self.wf(),
        ensures
            n == self.outstanding(),
            n <= self.capacity(),
    {
        self.inner.outstanding_len()
    }

    /// The largest number of tasks that the engine lets be outstanding.
    pub fn window_size(&self) -> (n: usize)
        ensures
            n == self.capacity(),
    {
        self.inner.window_size()
    }

    /// Hands out the next item. What is left of the current sequence goes
    /// first. Once it is used up, the oldest outstanding tasks are awaited,
    /// one after the other and each replaced by a new one, until one gives a
    /// sequence that is not empty, or one has failed: its failure is handed
    /// out in place of its items. `final(self).position() -
    /// old(self).position()` tasks were awaited on the way.
    pub fn next(&mut self) -> (r: Option<Result<B, TaskFailure>>)
        requires
            old(self).wf(),
            old(self).primed(),
        ensures
            final(self).wf(),
            final(self).primed(),
            final(self).work() == old(self).work(),
            final(self).capacity() == old(self).capacity(),
            old(self).position() <= final(self).position() <= old(self).position() + old(
                self,
            ).pending().len(),
            final(self).pending() == old(self).pending().skip(
                final(self).position() - old(self).position(),
            ),
            old(self).current().len() == 0 && old(self).pending().len() == 0 ==> r is None,
            r is None ==> final(self).current().len() == 0 && final(self).pending().len() == 0,
            old(self).current().len() > 0 ==> {
                &&& r == Some(Ok::<B, TaskFailure>(old(self).current()[0]))
                &&& final(self).current() == old(self).current().drop_first()
                &&& final(self).position() == old(self).position()
            },
            old(self).current().len() == 0 ==> {
                let k = final(self).position() - old(self).position();
                &&& forall|i: int|
                    0 <= i < k - 1 ==> yields(
                        old(self).work(),
                        #[trigger] old(self).pending()[i],
                        Seq::<B>::empty(),
                    )
                &&& match r {
                    None => {
                        &&& k == old(self).pending().len()
                        &&& final(self).current().len() == 0
                        &&& k > 0 ==> yields(
                            old(self).work(),
                            old(self).pending()[k - 1],
                            Seq::<B>::empty(),
                        )
                    },
                    Some(Ok(x)) => {
                        &&& k >= 1
                        &&& yields(
                            old(self).work(),
                            old(self).pending()[k - 1],
                            seq![x] + final(self).current(),
                        )
                    },
                    Some(Err(e)) => {
                        &&& k >= 1
                        &&& e.position == old(self).position() + k - 1
                        &&& final(self).current().len() == 0
                    },
                }
            },
    {
        loop
            invariant
                self.wf(),
                self.primed(),
                self.work() == old(self).work(),
                self.capacity() == old(self).capacity(),
                old(self).position() <= self.position() <= old(self).position() + old(
                    self,
                ).pending().len(),
                self.pending() == old(self).pending().skip(
                    self.position() - old(self).position(),
                ),
                self.position() == old(self).position() ==> self.current() == old(self).current(),
                self.position() > old(self).position() ==> {
                    let k = self.position() - old(self).position();
                    &&& old(self).current().len() == 0
                    &&& forall|i: int|
                        0 <= i < k - 1 ==> yields(
                            old(self).work(),
                            #[trigger] old(self).pending()[i],
                            Seq::<B>::empty(),
                        )
                    &&& yields(old(self).work(), old(self).pending()[k - 1], self.current())
                },
            decreases self.pending().len(),
        {
            let ghost cur = self.cur_iter@;
            let ghost k = self.position() - old(self).position();
            match self.cur_iter.pop_front() {
                Some(item) => {
                    proof {
                        assert(self.cur_iter@ =~= cur.drop_first());
                        assert(seq![item] + self.cur_iter@ =~= cur);
                    }
                    return Some(Ok(item));
                },
                None => {},
            }
            assert(cur =~= Seq::<B>::empty());
            let ghost before = self.inner.pending();
            match self.inner.next() {
                None => {
                    return None;
                },
                Some(Err(e)) => {
                    proof {
                        assert(before.drop_first() =~= old(self).pending().skip(k + 1));
                    }
                    return Some(Err(e));
                },
                Some(Ok(v)) => {
                    proof {
                        assert(before.drop_first() =~= old(self).pending().skip(k + 1));
                        assert(before[0] == old(self).pending()[k]);
                        assert(yields(old(self).work(), old(self).pending()[k], v@));
                    }
                    self.cur_iter = into_queue(v);
                },
            }
        }
    }

    /// Hands out all items that are left, in order, or the first failure:
    /// what is left of the current sequence, then `flatten` of `gather` of
    /// what draining the tasks gives.
    pub fn collect(self) -> (r: Result<Vec<B>, TaskFailure>)
        requires
            self.wf(),
            self.primed(),
        ensures
            r matches Ok(out) ==> exists|rest: Seq<B>|
                out@ == self.current() + rest && flat_maps_to(self.work(), self.pending(), rest),
            r matches Err(e) ==> self.position() <= e.position < self.position()
                + self.pending().len(),
    {
        let engine = self.inner;
        let mut cur = self.cur_iter;
        let mut out: Vec<B> = Vec::new();
        while cur.len() > 0
            invariant
                out@ + cur@ == self.cur_iter@,
            decreases cur@.len(),
        {
            let ghost before_out = out@;
            let ghost before_cur = cur@;
            match cur.pop_front() {
                Some(x) => {
                    out.push(x);
                    assert(out@ + cur@ =~= before_out + before_cur);
                },
                None => {},
            }
        }
        assert(out@ =~= self.cur_iter@);
        let results = engine.drain();
        match gather(results) {
            Err(e) => {
                proof {
                    let k = choose|k: int|
                        0 <= k < results@.len() && #[trigger] results@[k] == Err::<
                            Vec<B>,
                            TaskFailure,
                        >(e);
                    assert(e.position == engine.position() + k);
                }
                Err(e)
            },
            Ok(vs) => {
                let ghost parts = vs@.map_values(|v: Vec<B>| v@);
                let mut rest = flatten(vs);
                let ghost tail = rest@;
                proof {
                    assert forall|i: int| 0 <= i < parts.len() implies yields(
                        self.work(),
                        self.pending()[i],
                        #[trigger] parts[i],
                    ) by {
                        assert(results@[i] == Ok::<Vec<B>, TaskFailure>(vs@[i]));
                        assert(self.work().relates(self.pending()[i], vs@[i]));
                    }
                    assert(is_flat_map_of(self.work(), self.pending(), parts));
                    assert(flat_maps_to(self.work(), self.pending(), tail));
                }
                out.append(&mut rest);
                assert(out@ == self.current() + tail);
                Ok(out)
            },
        }
    }
}

/// Puts the vectors one behind the other, in order.
pub fn flatten<B>(parts: Vec<Vec<B>>) -> (out: Vec<B>)
    ensures
        out@ == parts@.map_values(|v: Vec<B>| v@).flatten(),
{
    let ghost views = parts@.map_values(|v: Vec<B>| v@);
    let mut rest = into_queue(parts);
    let mut out: Vec<B> = Vec::new();
    let ghost done: Seq<Seq<B>> = Seq::empty();
    assert(done.flatten() =~= out@);
    while rest.len() > 0
        invariant
            views == parts@.map_values(|v: Vec<B>| v@),
            done.len() + rest@.len() == parts@.len(),
            rest@ == parts@.skip(done.len() as int),
            done == views.take(done.len() as int),
            out@ == done.flatten(),
        decreases rest@.len(),
    {
        let ghost before = done;
        match rest.pop_front() {
            Some(v) => {
                let mut v = v;
                proof {
                    assert(v == parts@[before.len() as int]);
                    done = done.push(v@);
                    before.lemma_flatten_push(v@);
                    assert(rest@ =~= parts@.skip(done.len() as int));
                    assert(done =~= views.take(done.len() as int));
                }
                out.append(&mut v);
            },
            None => {},
        }
    }
    assert(done =~= views);
    out
}

/// Does `work`, which gives a sequence, on each item of `source`, on a pool
/// of `workers` threads (one where `workers` is zero), and flattens the
/// results. Up to twice that many items are submitted at once.
pub fn flat_start<T, B, W>(source: Vec<T>, work: W, workers: usize) -> (engine: FlatMap<
    T,
    B,
    W,
>) where T: Send + 'static, B: Send + 'static, W: Work<T, Vec<B>> + Send + Sync + 'static
    requires
        forall|i: int| 0 <= i < source@.len() ==> work.accepts(#[trigger] source@[i]),
    ensures
        engine.wf(),
        engine.primed(),
        engine.work() == work,
        engine.pending() == source@,
        engine.current() == Seq::<B>::empty(),
        engine.position() == 0,
        engine.capacity() == spec_window_capacity(spec_pool_size(workers)),
        engine.outstanding() == if source@.len() <= engine.capacity() {
            source@.len()
        } else {
            engine.capacity()
        },
{
    FlatMap { inner: start(source, work, workers), cur_iter: VecDeque::new() }
}

/// Maps each item of `source` by `f` on a pool of `workers` threads, or of
/// one thread where `workers` is zero, and flattens the results.
pub fn flat_with_workers<T, B, F>(source: Vec<T>, f: F, workers: usize) -> (engine: FlatMap<
    T,
    B,
    PerItem<F>,
>) where T: Send + 'static, B: Send + 'static, F: Fn(T) -> Vec<B> + Send + Sync + 'static
    requires
        forall|i: int| 0 <= i < source@.len() ==> call_requires(f, (#[trigger] source@[i],)),
    ensures
        engine.wf(),
        engine.primed(),
        engine.work() == (PerItem { f }),
        forall|x: T| #[trigger] engine.work().accepts(x) <==> call_requires(f, (x,)),
        forall|x: T, y: Vec<B>| #[trigger] engine.work().relates(x, y) <==> call_ensures(f, (x,), y),
        engine.pending() == source@,
        engine.current() == Seq::<B>::empty(),
        engine.position() == 0,
        engine.capacity() == spec_window_capacity(spec_pool_size(workers)),
        engine.outstanding() == if source@.len() <= engine.capacity() {
            source@.len()
        } else {
            engine.capacity()
        },
{
    flat_start(source, PerItem { f }, workers)
}

/// Maps each item of `source` by `f` and flattens the results, on a pool with
/// one worker for each logical CPU of the machine.
pub fn par_flat_map<T, B, F>(source: Vec<T>, f: F) -> (engine: FlatMap<T, B, PerItem<F>>) where
    T: Send + 'static,
    B: Send + 'static,
    F: Fn(T) -> Vec<B> + Send + Sync + 'static,

    requires
        forall|i: int| 0 <= i < source@.len() ==> call_requires(f, (#[trigger] source@[i],)),
    ensures
        engine.wf(),
        engine.primed(),
        engine.work() == (PerItem { f }),
        forall|x: T| #[trigger] engine.work().accepts(x) <==> call_requires(f, (x,)),
        forall|x: T, y: Vec<B>| #[trigger] engine.work().relates(x, y) <==> call_ensures(f, (x,), y),
        engine.pending() == source@,
        engine.current() == Seq::<B>::empty(),
        engine.position() == 0,
        engine.capacity() >= 2,
        exists|cpus: usize|
            engine.capacity() == spec_window_capacity(#[trigger] spec_pool_size(cpus)),
        engine.outstanding() == if source@.len() <= engine.capacity() {
            source@.len()
        } else {
            engine.capacity()
        },
{
    flat_with_workers(source, f, detect_cpus())
}

} // verus!
