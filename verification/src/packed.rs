//! The packed adaptors: the source is cut into batches, and one task maps a
//! whole batch.

use vstd::prelude::*;
use crate::flat::{flat_maps_to, flat_start, is_flat_map_of, yields, FlatMap};
use crate::pack::{batch_len, batches, lemma_batches_concat, lemma_batches_step, pack};
use crate::pool::{spec_pool_size, spec_window_capacity};
use crate::work::{
    is_deterministic, is_map_of, is_work_of, lemma_map_unique, lemma_per_item_is_map, PerItem, Work,
};
use crate::pool::detect_cpus;
use crate::window::into_queue;

verus! {

/// Item `j` of batch `i` is item `i * nb + j` of the source.
pub proof fn lemma_batch_item<T>(s: Seq<T>, nb: nat, i: int, j: int)
    requires
        nb > 0,
        0 <= i < batches(s, nb).len(),
        0 <= j < batches(s, nb)[i].len(),
    ensures
        0 <= i * nb + j < s.len(),
        batches(s, nb)[i][j] == s[i * nb + j],
    decreases i,
{
    let k = batch_len(s.len(), nb) as int;
    lemma_batches_step(s, nb);
    if i > 0 {
        let rest = s.skip(k);
        assert(batches(s, nb)[i] == batches(s, nb).drop_first()[i - 1]);
        assert(rest.len() > 0);
        assert(k == nb);
        lemma_batch_item(rest, nb, i - 1, j);
        assert((i - 1) * nb + nb == i * nb) by (nonlinear_arith);
    } else {
        assert(i * nb == 0) by (nonlinear_arith)
            requires
                i == 0,
        ;
    }
}

/// Putting two sequences of sequences one behind the other and flattening
/// gives the two flattened sequences one behind the other.
pub proof fn lemma_flatten_concat<B>(a: Seq<Seq<B>>, b: Seq<Seq<B>>)
    ensures
        (a + b).flatten() == a.flatten() + b.flatten(),
    decreases b.len(),
{
    if b.len() == 0 {
        assert(a + b =~= a);
        assert(a.flatten() + b.flatten() =~= a.flatten());
    } else {
        let front = b.drop_last();
        lemma_flatten_concat(a, front);
        (a + front).lemma_flatten_push(b.last());
        front.lemma_flatten_push(b.last());
        assert(front.push(b.last()) =~= b);
        assert((a + front).push(b.last()) =~= a + b);
        assert((a.flatten() + front.flatten()) + b.last() =~= a.flatten() + (front.flatten()
            + b.last()));
    }
}

/// Mapping batch by batch is mapping item by item: where each of `parts` is a
/// map of its batch, `parts` flattened is a map of the batches flattened.
pub proof fn lemma_map_of_batches<T, B, F: Fn(T) -> B>(
    f: F,
    chunks: Seq<Seq<T>>,
    parts: Seq<Seq<B>>,
)
    requires
        chunks.len() == parts.len(),
        forall|i: int| 0 <= i < chunks.len() ==> is_map_of(f, #[trigger] chunks[i], parts[i]),
    ensures
        is_map_of(f, chunks.flatten(), parts.flatten()),
    decreases chunks.len(),
{
    if chunks.len() > 0 {
        let c = chunks.drop_first();
        let p = parts.drop_first();
        assert forall|i: int| 0 <= i < c.len() implies is_map_of(f, #[trigger] c[i], p[i]) by {
            assert(is_map_of(f, chunks[i + 1], parts[i + 1]));
        }
        lemma_map_of_batches(f, c, p);
        assert(is_map_of(f, chunks[0], parts[0]));
        let ins = chunks.flatten();
        let outs = parts.flatten();
        assert(ins == chunks[0] + c.flatten());
        assert(outs == parts[0] + p.flatten());
        assert forall|i: int| 0 <= i < ins.len() implies call_ensures(
            f,
            (ins[i],),
            #[trigger] outs[i],
        ) by {
            if i < chunks[0].len() {
                assert(outs[i] == parts[0][i]);
            } else {
                assert(outs[i] == p.flatten()[i - chunks[0].len()]);
            }
        }
    }
}

/// Flat-mapping batch by batch is flat-mapping item by item.
pub proof fn lemma_flat_map_of_batches<T, B, W: Work<T, Vec<B>>>(
    f: W,
    chunks: Seq<Seq<T>>,
    parts: Seq<Seq<B>>,
)
    requires
        chunks.len() == parts.len(),
        forall|i: int| 0 <= i < chunks.len() ==> flat_maps_to(f, #[trigger] chunks[i], parts[i]),
    ensures
        flat_maps_to(f, chunks.flatten(), parts.flatten()),
    decreases chunks.len(),
{
    if chunks.len() == 0 {
        let none = Seq::<Seq<B>>::empty();
        assert(is_flat_map_of(f, chunks.flatten(), none));
        assert(parts.flatten() == none.flatten());
    } else {
        let c = chunks.drop_first();
        let p = parts.drop_first();
        assert forall|i: int| 0 <= i < c.len() implies flat_maps_to(f, #[trigger] c[i], p[i]) by {
            assert(flat_maps_to(f, chunks[i + 1], parts[i + 1]));
        }
        lemma_flat_map_of_batches(f, c, p);
        assert(flat_maps_to(f, chunks[0], parts[0]));
        let head = choose|w: Seq<Seq<B>>|
            is_flat_map_of(f, chunks[0], w) && parts[0] == w.flatten();
        let tail = choose|w: Seq<Seq<B>>|
            is_flat_map_of(f, c.flatten(), w) && p.flatten() == w.flatten();
        lemma_flatten_concat(head, tail);
        let ins = chunks.flatten();
        assert(ins == chunks[0] + c.flatten());
        assert forall|i: int| 0 <= i < ins.len() implies yields(
            f,
            ins[i],
            #[trigger] (head + tail)[i],
        ) by {
            if i < head.len() {
                assert((head + tail)[i] == head[i]);
            } else {
                assert((head + tail)[i] == tail[i - head.len()]);
            }
        }
        assert(is_flat_map_of(f, ins, head + tail));
    }
}

/// Maps the items of one batch by `f`, in order.
pub fn map_batch<T, B, F: Fn(T) -> B>(f: &F, batch: Vec<T>) -> (out: Vec<B>)
    requires
        forall|j: int| 0 <= j < batch@.len() ==> call_requires(*f, (#[trigger] batch@[j],)),
    ensures
        is_map_of(*f, batch@, out@),
{
    let mut rest = into_queue(batch);
    let mut out: Vec<B> = Vec::new();
    while rest.len() > 0
        invariant
            out@.len() + rest@.len() == batch@.len(),
            rest@ == batch@.skip(out@.len() as int),
            forall|j: int| 0 <= j < batch@.len() ==> call_requires(*f, (#[trigger] batch@[j],)),
            forall|j: int|
                0 <= j < out@.len() ==> call_ensures(*f, (batch@[j],), #[trigger] out@[j]),
        decreases rest@.len(),
    {
        let ghost done = out@.len() as int;
        match rest.pop_front() {
            Some(x) => {
                assert(x == batch@[done]);
                let y = f(x);
                out.push(y);
                assert(rest@ =~= batch@.skip(done + 1));
            },
            None => {},
        }
    }
    out
}

/// Maps the items of one batch by `f` and puts the results one behind the
/// other, in order.
pub fn flat_map_batch<T, B, F: Fn(T) -> Vec<B>>(f: &F, batch: Vec<T>) -> (out: Vec<B>)
    requires
        forall|j: int| 0 <= j < batch@.len() ==> call_requires(*f, (#[trigger] batch@[j],)),
    ensures
        flat_maps_to(PerItem { f: *f }, batch@, out@),
{
    let ghost w = PerItem { f: *f };
    let mut rest = into_queue(batch);
    let mut out: Vec<B> = Vec::new();
    let ghost parts: Seq<Seq<B>> = Seq::empty();
    assert(parts.flatten() =~= out@);
    while rest.len() > 0
        invariant
            parts.len() + rest@.len() == batch@.len(),
            rest@ == batch@.skip(parts.len() as int),
            forall|j: int| 0 <= j < batch@.len() ==> call_requires(*f, (#[trigger] batch@[j],)),
            w == (PerItem { f: *f }),
            forall|j: int| 0 <= j < parts.len() ==> yields(w, batch@[j], #[trigger] parts[j]),
            out@ == parts.flatten(),
        decreases rest@.len(),
    {
        let ghost done = parts;
        match rest.pop_front() {
            Some(x) => {
                assert(x == batch@[done.len() as int]);
                let mut v = f(x);
                proof {
                    parts = parts.push(v@);
                    done.lemma_flatten_push(v@);
                    assert(w.relates(batch@[done.len() as int], v));
                    assert(yields(w, batch@[done.len() as int], v@));
                    assert(rest@ =~= batch@.skip(parts.len() as int));
                }
                out.append(&mut v);
            },
            None => {},
        }
    }
    assert(is_flat_map_of(w, batch@, parts));
    out
}

/// The work of mapping a whole batch by a function, item by item.
pub struct PerBatch<F> {
    pub f: F,
}

impl<T, B, F: Fn(T) -> B> Work<Vec<T>, Vec<B>> for PerBatch<F> {
    open spec fn accepts(&self, batch: Vec<T>) -> bool {
        forall|j: int| 0 <= j < batch@.len() ==> call_requires(self.f, (#[trigger] batch@[j],))
    }

    open spec fn relates(&self, batch: Vec<T>, out: Vec<B>) -> bool {
        is_map_of(self.f, batch@, out@)
    }

    fn run(&self, batch: Vec<T>) -> (out: Vec<B>) {
        map_batch(&self.f, batch)
    }
}

/// The work of mapping each item of a batch to a sequence by a function and
/// putting the sequences one behind the other.
pub struct FlatPerBatch<F> {
    pub f: F,
}

impl<T, B, F: Fn(T) -> Vec<B>> Work<Vec<T>, Vec<B>> for FlatPerBatch<F> {
    open spec fn accepts(&self, batch: Vec<T>) -> bool {
        forall|j: int| 0 <= j < batch@.len() ==> call_requires(self.f, (#[trigger] batch@[j],))
    }

    open spec fn relates(&self, batch: Vec<T>, out: Vec<B>) -> bool {
        flat_maps_to(PerItem { f: self.f }, batch@, out@)
    }

    fn run(&self, batch: Vec<T>) -> (out: Vec<B>) {
        flat_map_batch(&self.f, batch)
    }
}

/// `chunks` holds the batches of `source`, in order.
pub open spec fn is_packed<T>(source: Seq<T>, nb: nat, chunks: Seq<Vec<T>>) -> bool {
    &&& chunks.len() == batches(source, nb).len()
    &&& forall|i: int| 0 <= i < chunks.len() ==> (#[trigger] chunks[i])@ == batches(source, nb)[i]
}

/// Batching is no change of meaning: what the packed map gives on the
/// batches of a source is a map of the source, item by item.
pub proof fn lemma_packed_map_is_map<T, B, F: Fn(T) -> B>(
    f: F,
    source: Seq<T>,
    nb: nat,
    chunks: Seq<Vec<T>>,
    out: Seq<B>,
)
    requires
        nb > 0,
        is_packed(source, nb, chunks),
        flat_maps_to(PerBatch { f }, chunks, out),
    ensures
        is_map_of(f, source, out),
{
    let w = PerBatch { f };
    let cut = batches(source, nb);
    let parts = choose|p: Seq<Seq<B>>| is_flat_map_of(w, chunks, p) && out == p.flatten();
    assert forall|i: int| 0 <= i < cut.len() implies is_map_of(f, #[trigger] cut[i], parts[i]) by {
        assert(yields(w, chunks[i], parts[i]));
        let v = choose|v: Vec<B>| v@ == parts[i] && w.relates(chunks[i], v);
        assert(is_map_of(f, chunks[i]@, v@));
    }
    lemma_map_of_batches(f, cut, parts);
    lemma_batches_concat(source, nb);
}

/// For a function that gives one result for each input, the packed map and
/// the plain map of one source give the same results, whatever the batch
/// size.
pub proof fn lemma_packed_map_equals_map<T, B, F: Fn(T) -> B>(
    f: F,
    source: Seq<T>,
    nb: nat,
    chunks: Seq<Vec<T>>,
    packed: Seq<B>,
    plain: Seq<B>,
)
    requires
        nb > 0,
        is_deterministic(f),
        is_packed(source, nb, chunks),
        flat_maps_to(PerBatch { f }, chunks, packed),
        is_work_of(PerItem { f }, source, plain),
    ensures
        packed == plain,
{
    lemma_packed_map_is_map(f, source, nb, chunks, packed);
    lemma_per_item_is_map(f, source, plain);
    lemma_map_unique(f, source, packed, plain);
}

/// What the packed flat map gives on the batches of a source is a flat map
/// of the source, item by item.
pub proof fn lemma_packed_flat_map_is_flat_map<T, B, F: Fn(T) -> Vec<B>>(
    f: F,
    source: Seq<T>,
    nb: nat,
    chunks: Seq<Vec<T>>,
    out: Seq<B>,
)
    requires
        nb > 0,
        is_packed(source, nb, chunks),
        flat_maps_to(FlatPerBatch { f }, chunks, out),
    ensures
        flat_maps_to(PerItem { f }, source, out),
{
    let w = FlatPerBatch { f };
    let cut = batches(source, nb);
    let parts = choose|p: Seq<Seq<B>>| is_flat_map_of(w, chunks, p) && out == p.flatten();
    assert forall|i: int| 0 <= i < cut.len() implies flat_maps_to(
        PerItem { f },
        #[trigger] cut[i],
        parts[i],
    ) by {
        assert(yields(w, chunks[i], parts[i]));
        let v = choose|v: Vec<B>| v@ == parts[i] && w.relates(chunks[i], v);
        assert(flat_maps_to(PerItem { f }, chunks[i]@, v@));
    }
    lemma_flat_map_of_batches(PerItem { f }, cut, parts);
    lemma_batches_concat(source, nb);
}

/// Maps `source` by `f`, `nb` items to a task, on a pool of `workers` threads (one where
/// `workers` is zero). The items of the adaptor's source are the batches of
/// `source`; with `nb` zero there are none.
pub fn packed_map_with_workers<T, B, F>(
    source: Vec<T>,
    nb: usize,
    f: F,
    workers: usize,
) -> (engine: FlatMap<
    Vec<T>,
    B,
    PerBatch<F>,
>) where T: Send + 'static, B: Send + 'static, F: Fn(T) -> B + Send + Sync + 'static
    requires
        forall|i: int| 0 <= i < source@.len() ==> call_requires(f, (#[trigger] source@[i],)),
    ensures
        engine.wf(),
        engine.primed(),
        engine.work() == (PerBatch { f }),
        forall|x: Vec<T>| #[trigger] engine.work().accepts(x) <==> (forall|j: int|
            0 <= j < x@.len() ==> call_requires(f, (#[trigger] x@[j],))),
        forall|x: Vec<T>, y: Vec<B>| #[trigger] engine.work().relates(x, y) <==> is_map_of(f, x@, y@),
        is_packed(source@, nb as nat, engine.pending()),
        engine.current() == Seq::<B>::empty(),
        engine.position() == 0,
        engine.capacity() == spec_window_capacity(spec_pool_size(workers)),
        engine.outstanding() == if engine.pending().len() <= engine.capacity() {
            engine.pending().len()
        } else {
            engine.capacity()
        },
{
    let chunks = pack(source, nb).collect();
    let work = PerBatch { f };
    proof {
        assert forall|i: int| 0 <= i < chunks@.len() implies work.accepts(
            #[trigger] chunks@[i],
        ) by {
            assert forall|j: int| 0 <= j < chunks@[i]@.len() implies call_requires(
                f,
                (#[trigger] chunks@[i]@[j],),
            ) by {
                lemma_batch_item(source@, nb as nat, i, j);
            }
        }
    }
    flat_start(chunks, work, workers)
}

/// Maps `source` by `f`, `nb` items to a task, on a pool with one worker for each logical
/// CPU of the machine. Batching changes how the work is handed out, not what comes back.
pub fn par_packed_map<T, B, F>(source: Vec<T>, nb: usize, f: F) -> (engine: FlatMap<
    Vec<T>,
    B,
    PerBatch<F>,
>) where T: Send + 'static, B: Send + 'static, F: Fn(T) -> B + Send + Sync + 'static
    requires
        forall|i: int| 0 <= i < source@.len() ==> call_requires(f, (#[trigger] source@[i],)),
    ensures
        engine.wf(),
        engine.primed(),
        engine.work() == (PerBatch { f }),
        forall|x: Vec<T>| #[trigger] engine.work().accepts(x) <==> (forall|j: int|
            0 <= j < x@.len() ==> call_requires(f, (#[trigger] x@[j],))),
        forall|x: Vec<T>, y: Vec<B>| #[trigger] engine.work().relates(x, y) <==> is_map_of(f, x@, y@),
        is_packed(source@, nb as nat, engine.pending()),
        engine.current() == Seq::<B>::empty(),
        engine.position() == 0,
        engine.capacity() >= 2,
        exists|cpus: usize|
            engine.capacity() == spec_window_capacity(#[trigger] spec_pool_size(cpus)),
        engine.outstanding() == if engine.pending().len() <= engine.capacity() {
            engine.pending().len()
        } else {
            engine.capacity()
        },
{
    packed_map_with_workers(source, nb, f, detect_cpus())
}

/// Maps each item of `source` by `f` and flattens the results, `nb` items to a task, on a pool of `workers` threads (one where
/// `workers` is zero). The items of the adaptor's source are the batches of
/// `source`; with `nb` zero there are none.
pub fn packed_flat_map_with_workers<T, B, F>(
    source: Vec<T>,
    nb: usize,
    f: F,
    workers: usize,
) -> (engine: FlatMap<
    Vec<T>,
    B,
    FlatPerBatch<F>,
>) where T: Send + 'static, B: Send + 'static, F: Fn(T) -> Vec<B> + Send + Sync + 'static
    requires
        forall|i: int| 0 <= i < source@.len() ==> call_requires(f, (#[trigger] source@[i],)),
    ensures
        engine.wf(),
        engine.primed(),
        engine.work() == (FlatPerBatch { f }),
        forall|x: Vec<T>| #[trigger] engine.work().accepts(x) <==> (forall|j: int|
            0 <= j < x@.len() ==> call_requires(f, (#[trigger] x@[j],))),
        forall|x: Vec<T>, y: Vec<B>| #[trigger] engine.work().relates(x, y) <==> flat_maps_to(
            PerItem { f },
            x@,
            y@,
        ),
        is_packed(source@, nb as nat, engine.pending()),
        engine.current() == Seq::<B>::empty(),
        engine.position() == 0,
        engine.capacity() == spec_window_capacity(spec_pool_size(workers)),
        engine.outstanding() == if engine.pending().len() <= engine.capacity() {
            engine.pending().len()
        } else {
            engine.capacity()
        },
{
    let chunks = pack(source, nb).collect();
    let work = FlatPerBatch { f };
    proof {
        assert forall|i: int| 0 <= i < chunks@.len() implies work.accepts(
            #[trigger] chunks@[i],
        ) by {
            assert forall|j: int| 0 <= j < chunks@[i]@.len() implies call_requires(
                f,
                (#[trigger] chunks@[i]@[j],),
            ) by {
                lemma_batch_item(source@, nb as nat, i, j);
            }
        }
    }
    flat_start(chunks, work, workers)
}

/// Maps each item of `source` by `f` and flattens the results, `nb` items to a task, on a pool with one worker for each logical
/// CPU of the machine. What comes back is what flat-mapping item by item gives.
pub fn par_packed_flat_map<T, B, F>(source: Vec<T>, nb: usize, f: F) -> (engine: FlatMap<
    Vec<T>,
    B,
    FlatPerBatch<F>,
>) where T: Send + 'static, B: Send + 'static, F: Fn(T) -> Vec<B> + Send + Sync + 'static
    requires
        forall|i: int| 0 <= i < source@.len() ==> call_requires(f, (#[trigger] source@[i],)),
    ensures
        engine.wf(),
        engine.primed(),
        engine.work() == (FlatPerBatch { f }),
        forall|x: Vec<T>| #[trigger] engine.work().accepts(x) <==> (forall|j: int|
            0 <= j < x@.len() ==> call_requires(f, (#[trigger] x@[j],))),
        forall|x: Vec<T>, y: Vec<B>| #[trigger] engine.work().relates(x, y) <==> flat_maps_to(
            PerItem { f },
            x@,
            y@,
        ),
        is_packed(source@, nb as nat, engine.pending()),
        engine.current() == Seq::<B>::empty(),
        engine.position() == 0,
        engine.capacity() >= 2,
        exists|cpus: usize|
            engine.capacity() == spec_window_capacity(#[trigger] spec_pool_size(cpus)),
        engine.outstanding() == if engine.pending().len() <= engine.capacity() {
            engine.pending().len()
        } else {
            engine.capacity()
        },
{
    packed_flat_map_with_workers(source, nb, f, detect_cpus())
}

} // verus!
