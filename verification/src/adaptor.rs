//! The adaptors as methods of a source.

use vstd::prelude::*;
use crate::engine::MapEngine;
use crate::flat::{flat_maps_to, FlatMap};
use crate::pack::Pack;
use crate::packed::{is_packed, FlatPerBatch, PerBatch};
use crate::pool::{spec_pool_size, spec_window_capacity};
use crate::work::{is_map_of, PerItem, Work};

verus! {

/// A source of items with the parallel adaptors as its methods.
pub trait ParMap: Sized {
    type Item;

    /// The items of the source, in order.
    spec fn items(&self) -> Seq<Self::Item>;

    /// Maps the items by `f` on a worker pool. The results come in the order
    /// of the items, whatever the order in which the workers finish.
    fn par_map<B, F>(self, f: F) -> (engine: MapEngine<Self::Item, B, PerItem<F>>) where
        F: Sync + Send + 'static + Fn(Self::Item) -> B,
        B: Send + 'static,
        Self::Item: Send + 'static,

        requires
            forall|i: int|
                0 <= i < self.items().len() ==> #[trigger] call_requires(f, (self.items()[i],)),
        ensures
            engine.wf(),
            engine.primed(),
            engine.work() == (PerItem { f }),
            forall|x: Self::Item| #[trigger] engine.work().accepts(x) <==> call_requires(f, (x,)),
            forall|x: Self::Item, y: B| #[trigger]
                engine.work().relates(x, y) <==> call_ensures(f, (x,), y),
            engine.pending() == self.items(),
            engine.position() == 0,
            engine.capacity() >= 2,
            exists|cpus: usize|
                engine.capacity() == spec_window_capacity(#[trigger] spec_pool_size(cpus)),
            engine.outstanding() == if self.items().len() <= engine.capacity() {
                self.items().len()
            } else {
                engine.capacity()
            },
    ;

    /// Maps each item to a sequence by `f` on a worker pool and hands out the
    /// items of those sequences, in order.
    fn par_flat_map<B, F>(self, f: F) -> (engine: FlatMap<Self::Item, B, PerItem<F>>) where
        F: Sync + Send + 'static + Fn(Self::Item) -> Vec<B>,
        B: Send + 'static,
        Self::Item: Send + 'static,

        requires
            forall|i: int|
                0 <= i < self.items().len() ==> #[trigger] call_requires(f, (self.items()[i],)),
        ensures
            engine.wf(),
            engine.primed(),
            engine.work() == (PerItem { f }),
            forall|x: Self::Item| #[trigger] engine.work().accepts(x) <==> call_requires(f, (x,)),
            forall|x: Self::Item, y: Vec<B>| #[trigger]
                engine.work().relates(x, y) <==> call_ensures(f, (x,), y),
            engine.pending() == self.items(),
            engine.current() == Seq::<B>::empty(),
            engine.position() == 0,
            engine.capacity() >= 2,
            exists|cpus: usize|
                engine.capacity() == spec_window_capacity(#[trigger] spec_pool_size(cpus)),
            engine.outstanding() == if self.items().len() <= engine.capacity() {
                self.items().len()
            } else {
                engine.capacity()
            },
    ;

    /// Groups the items into batches of `nb`; the last may be shorter.
    fn pack(self, nb: usize) -> (p: Pack<Self::Item>)
        ensures
            p.remaining() == self.items(),
            p.size() == nb,
    ;

    /// As `par_map`, with `nb` items to a task: the adaptor's source holds the
    /// batches of the items, and one task maps a whole batch.
    fn par_packed_map<B, F>(self, nb: usize, f: F) -> (engine: FlatMap<
        Vec<Self::Item>,
        B,
        PerBatch<F>,
    >) where
        F: Sync + Send + 'static + Fn(Self::Item) -> B,
        B: Send + 'static,
        Self::Item: Send + 'static,

        requires
            forall|i: int|
                0 <= i < self.items().len() ==> #[trigger] call_requires(f, (self.items()[i],)),
        ensures
            engine.wf(),
            engine.primed(),
            engine.work() == (PerBatch { f }),
            forall|x: Vec<Self::Item>, y: Vec<B>| #[trigger]
                engine.work().relates(x, y) <==> is_map_of(f, x@, y@),
            is_packed(self.items(), nb as nat, engine.pending()),
            engine.current() == Seq::<B>::empty(),
            engine.position() == 0,
            engine.capacity() >= 2,
            exists|cpus: usize|
                engine.capacity() == spec_window_capacity(#[trigger] spec_pool_size(cpus)),
            engine.outstanding() == if engine.pending().len() <= engine.capacity() {
                engine.pending().len()
            } else {
                engine.capacity()
            },
    ;

    /// As `par_flat_map`, with `nb` items to a task.
    fn par_packed_flat_map<B, F>(self, nb: usize, f: F) -> (engine: FlatMap<
        Vec<Self::Item>,
        B,
        FlatPerBatch<F>,
    >) where
        F: Sync + Send + 'static + Fn(Self::Item) -> Vec<B>,
        B: Send + 'static,
        Self::Item: Send + 'static,

        requires
            forall|i: int|
                0 <= i < self.items().len() ==> #[trigger] call_requires(f, (self.items()[i],)),
        ensures
            engine.wf(),
            engine.primed(),
            engine.work() == (FlatPerBatch { f }),
            forall|x: Vec<Self::Item>, y: Vec<B>| #[trigger]
                engine.work().relates(x, y) <==> flat_maps_to(PerItem { f }, x@, y@),
            is_packed(self.items(), nb as nat, engine.pending()),
            engine.current() == Seq::<B>::empty(),
            engine.position() == 0,
            engine.capacity() >= 2,
            exists|cpus: usize|
                engine.capacity() == spec_window_capacity(#[trigger] spec_pool_size(cpus)),
            engine.outstanding() == if engine.pending().len() <= engine.capacity() {
                engine.pending().len()
            } else {
                engine.capacity()
            },
    ;
}

impl<T> ParMap for Vec<T> {
    type Item = T;

    open spec fn items(&self) -> Seq<T> {
        self@
    }

    fn par_map<B, F>(self, f: F) -> (engine: MapEngine<T, B, PerItem<F>>) where
        F: Sync + Send + 'static + Fn(T) -> B,
        B: Send + 'static,
        T: Send + 'static,
    {
        proof {
            assert forall|i: int| 0 <= i < self@.len() implies call_requires(
                f,
                (#[trigger] self@[i],),
            ) by {
                assert(call_requires(f, (self.items()[i],)));
            }
        }
        crate::engine::par_map(self, f)
    }

    fn par_flat_map<B, F>(self, f: F) -> (engine: FlatMap<T, B, PerItem<F>>) where
        F: Sync + Send + 'static + Fn(T) -> Vec<B>,
        B: Send + 'static,
        T: Send + 'static,
    {
        proof {
            assert forall|i: int| 0 <= i < self@.len() implies call_requires(
                f,
                (#[trigger] self@[i],),
            ) by {
                assert(call_requires(f, (self.items()[i],)));
            }
        }
        crate::flat::par_flat_map(self, f)
    }

    fn pack(self, nb: usize) -> (p: Pack<T>) {
        crate::pack::pack(self, nb)
    }

    fn par_packed_map<B, F>(self, nb: usize, f: F) -> (engine: FlatMap<Vec<T>, B, PerBatch<F>>) where
        F: Sync + Send + 'static + Fn(T) -> B,
        B: Send + 'static,
        T: Send + 'static,
    {
        proof {
            assert forall|i: int| 0 <= i < self@.len() implies call_requires(
                f,
                (#[trigger] self@[i],),
            ) by {
                assert(call_requires(f, (self.items()[i],)));
            }
        }
        crate::packed::par_packed_map(self, nb, f)
    }

    fn par_packed_flat_map<B, F>(self, nb: usize, f: F) -> (engine: FlatMap<
        Vec<T>,
        B,
        FlatPerBatch<F>,
    >) where
        F: Sync + Send + 'static + Fn(T) -> Vec<B>,
        B: Send + 'static,
        T: Send + 'static,
    {
        proof {
            assert forall|i: int| 0 <= i < self@.len() implies call_requires(
                f,
                (#[trigger] self@[i],),
            ) by {
                assert(call_requires(f, (self.items()[i],)));
            }
        }
        crate::packed::par_packed_flat_map(self, nb, f)
    }
}

} // verus!
