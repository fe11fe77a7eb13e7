//! Batching: consecutive items of a source grouped into chunks of a fixed size.

use vstd::prelude::*;
use std::collections::VecDeque;
use crate::window::into_queue;

verus! {

/// The length of the first batch cut from a source of `len` items.
pub open spec fn batch_len(len: nat, nb: nat) -> nat {
    if len <= nb {
        len
    } else {
        nb
    }
}

/// The batches of size `nb` that `s` is cut into, in order. The last one holds
/// what is left and may be shorter; none is empty. With `nb` zero there is no
/// batch at all.
pub open spec fn batches<T>(s: Seq<T>, nb: nat) -> Seq<Seq<T>>
    decreases s.len(),
{
    if s.len() == 0 || nb == 0 {
        Seq::empty()
    } else {
        let k = batch_len(s.len(), nb) as int;
        seq![s.take(k)] + batches(s.skip(k), nb)
    }
}

/// Cutting one batch off the front: the first batch is the first `nb` items
/// (or all of them), the other batches are the batches of the rest.
pub proof fn lemma_batches_step<T>(s: Seq<T>, nb: nat)
    requires
        s.len() > 0,
        nb > 0,
    ensures
        batches(s, nb).len() > 0,
        batches(s, nb)[0] == s.take(batch_len(s.len(), nb) as int),
        batches(s, nb).drop_first() == batches(s.skip(batch_len(s.len(), nb) as int), nb),
{
    let k = batch_len(s.len(), nb) as int;
    assert(batches(s, nb).drop_first() =~= batches(s.skip(k), nb));
}

/// A source of `n` items gives `ceil(n / nb)` batches; an empty one gives none.
pub proof fn lemma_batches_count<T>(s: Seq<T>, nb: nat)
    requires
        nb > 0,
    ensures
        batches(s, nb).len() == (s.len() + nb - 1) / (nb as int),
        s.len() == 0 ==> batches(s, nb).len() == 0,
    decreases s.len(),
{
    let n = s.len() as int;
    let d = nb as int;
    if n == 0 {
        assert((n + d - 1) / d == 0) by (nonlinear_arith)
            requires
                n == 0,
                d > 0,
        ;
    } else {
        let k = batch_len(s.len(), nb) as int;
        lemma_batches_count(s.skip(k), nb);
        let m = n - k;
        assert(s.skip(k).len() == m);
        assert(batches(s, nb).len() == 1 + batches(s.skip(k), nb).len());
        if n <= d {
            assert((m + d - 1) / d == 0 && (n + d - 1) / d == 1) by (nonlinear_arith)
                requires
                    m == 0,
                    0 < n <= d,
            ;
        } else {
            assert((n + d - 1) / d == 1 + (m + d - 1) / d) by (nonlinear_arith)
                requires
                    m == n - d,
                    d > 0,
            ;
        }
    }
}

/// Every batch but the last holds exactly `nb` items, and the last holds
/// between one and `nb`.
pub proof fn lemma_batches_lengths<T>(s: Seq<T>, nb: nat)
    requires
        nb > 0,
    ensures
        forall|i: int|
            0 <= i < batches(s, nb).len() - 1 ==> (#[trigger] batches(s, nb)[i]).len() == nb,
        forall|i: int|
            0 <= i < batches(s, nb).len() ==> 1 <= (#[trigger] batches(s, nb)[i]).len() <= nb,
    decreases s.len(),
{
    if s.len() > 0 {
        let k = batch_len(s.len(), nb) as int;
        let rest = batches(s.skip(k), nb);
        lemma_batches_count(s.skip(k), nb);
        lemma_batches_lengths(s.skip(k), nb);
        assert forall|i: int| 0 <= i < batches(s, nb).len() implies 1 <= (#[trigger] batches(
            s,
            nb,
        )[i]).len() <= nb && (i < batches(s, nb).len() - 1 ==> batches(s, nb)[i].len() == nb) by {
            if i > 0 {
                assert(batches(s, nb)[i] == rest[i - 1]);
            } else if rest.len() > 0 {
                assert(s.skip(k).len() > 0);
            }
        }
    }
}

/// The batches, put one behind the other, give the source back.
pub proof fn lemma_batches_concat<T>(s: Seq<T>, nb: nat)
    requires
        nb > 0,
    ensures
        batches(s, nb).flatten() == s,
    decreases s.len(),
{
    if s.len() == 0 {
        assert(batches(s, nb).flatten() =~= s);
    } else {
        let k = batch_len(s.len(), nb) as int;
        lemma_batches_concat(s.skip(k), nb);
        lemma_batches_step(s, nb);
        assert(batches(s, nb).flatten() == batches(s, nb).first() + batches(
            s,
            nb,
        ).drop_first().flatten());
        assert(s.take(k) + s.skip(k) =~= s);
    }
}

/// An adaptor that hands out the items of a source in batches of `nb`.
#[must_use]
pub struct Pack<T> {
    iter: VecDeque<T>,
    nb: usize,
}

impl<T> Pack<T> {
    /// The items that were not handed out yet, in order.
    pub closed spec fn remaining(&self) -> Seq<T> {
        self.iter@
    }

    /// The size of a full batch.
    pub closed spec fn size(&self) -> nat {
        self.nb as nat
    }

    /// Puts one more item behind all others of the source.
    pub fn feed(&mut self, item: T)
        ensures
            final(self).remaining() == old(self).remaining().push(item),
            final(self).size() == old(self).size(),
    {
        self.iter.push_back(item);
    }

    /// The next batch: the first `nb` items that are left, or all of them
    /// where fewer are left. None once the source is used up, and never an
    /// empty batch.
    pub fn next(&mut self) -> (r: Option<Vec<T>>)
        ensures
            final(self).size() == old(self).size(),
            r is None <==> batches(old(self).remaining(), old(self).size()).len() == 0,
            r is None <==> (old(self).remaining().len() == 0 || old(self).size() == 0),
            r is None ==> final(self).remaining() == old(self).remaining(),
            r matches Some(v) ==> {
                &&& v@ == batches(old(self).remaining(), old(self).size())[0]
                &&& v@ == old(self).remaining().take(v@.len() as int)
                &&& v@.len() == batch_len(old(self).remaining().len(), old(self).size())
                &&& final(self).remaining() == old(self).remaining().skip(v@.len() as int)
                &&& batches(final(self).remaining(), final(self).size()) == batches(
                    old(self).remaining(),
                    old(self).size(),
                ).drop_first()
            },
    {
        let mut item: Vec<T> = Vec::new();
        while item.len() < self.nb && self.iter.len() > 0
            invariant
                self.nb == old(self).nb,
                item@.len() <= self.nb,
                item@ + self.iter@ == old(self).iter@,
            decreases self.iter@.len(),
        {
            let ghost before_item = item@;
            let ghost before_iter = self.iter@;
            match self.iter.pop_front() {
                Some(x) => {
                    item.push(x);
                    assert(item@ + self.iter@ =~= before_item + before_iter);
                },
                None => {},
            }
        }
        proof {
            let s = old(self).iter@;
            assert(item@ =~= s.take(item@.len() as int));
            assert(self.iter@ =~= s.skip(item@.len() as int));
            if item@.len() > 0 {
                lemma_batches_step(s, self.nb as nat);
            }
        }
        if item.len() == 0 {
            None
        } else {
            Some(item)
        }
    }

    /// All batches that are left, in order.
    pub fn collect(self) -> (out: Vec<Vec<T>>)
        ensures
            out@.len() == batches(self.remaining(), self.size()).len(),
            forall|i: int|
                0 <= i < out@.len() ==> (#[trigger] out@[i])@ == batches(
                    self.remaining(),
                    self.size(),
                )[i],
    {
        let mut pack = self;
        let mut out: Vec<Vec<T>> = Vec::new();
        let ghost all = batches(self.remaining(), self.size());
        loop
            invariant
                pack.size() == self.size(),
                all == batches(self.remaining(), self.size()),
                out@.len() <= all.len(),
                batches(pack.remaining(), pack.size()) == all.skip(out@.len() as int),
                forall|i: int| 0 <= i < out@.len() ==> (#[trigger] out@[i])@ == all[i],
            decreases pack.remaining().len(),
        {
            let ghost done = out@.len() as int;
            match pack.next() {
                None => {
                    return out;
                },
                Some(v) => {
                    out.push(v);
                    proof {
                        assert(all.skip(done)[0] == all[done]);
                        assert(all.skip(done).drop_first() =~= all.skip(done + 1));
                    }
                },
            }
        }
    }
}

/// Batches `source` by `nb` items.
pub fn pack<T>(source: Vec<T>, nb: usize) -> (p: Pack<T>)
    ensures
        p.remaining() == source@,
        p.size() == nb,
{
    Pack { iter: into_queue(source), nb }
}

} // verus!
