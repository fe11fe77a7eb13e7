//! What a task does with an item of the source.

use vstd::prelude::*;

verus! {

/// The work of one task: it takes an item of the source and gives a result.
pub trait Work<T, B> {
    /// Whether the work may be given `x`.
    spec fn accepts(&self, x: T) -> bool;

    /// Whether `y` is a result that the work may give on `x`.
    spec fn relates(&self, x: T, y: B) -> bool;

    /// Does the work on `x`.
    fn run(&self, x: T) -> (y: B)
        requires
            self.accepts(x),
        ensures
            self.relates(x, y),
    ;
}

/// The work of calling a function on the item.
pub struct PerItem<F> {
    pub f: F,
}

impl<T, B, F: Fn(T) -> B> Work<T, B> for PerItem<F> {
    open spec fn accepts(&self, x: T) -> bool {
        call_requires(self.f, (x,))
    }

    open spec fn relates(&self, x: T, y: B) -> bool {
        call_ensures(self.f, (x,), y)
    }

    fn run(&self, x: T) -> (y: B) {
        (self.f)(x)
    }
}

/// `out` is what doing `w` on each of `inputs`, in order, may give.
pub open spec fn is_work_of<T, B, W: Work<T, B>>(w: W, inputs: Seq<T>, out: Seq<B>) -> bool {
    &&& out.len() == inputs.len()
    &&& forall|i: int| 0 <= i < inputs.len() ==> w.relates(inputs[i], #[trigger] out[i])
}

/// `out` is what mapping `inputs` by `f`, item by item and in order, may give.
pub open spec fn is_map_of<T, B, F: Fn(T) -> B>(f: F, inputs: Seq<T>, out: Seq<B>) -> bool {
    &&& out.len() == inputs.len()
    &&& forall|i: int| 0 <= i < inputs.len() ==> call_ensures(f, (inputs[i],), #[trigger] out[i])
}

/// `f` gives at most one result for each input.
pub open spec fn is_deterministic<T, B, F: Fn(T) -> B>(f: F) -> bool {
    forall|x: T, y: B, z: B|
        #![trigger call_ensures(f, (x,), y), call_ensures(f, (x,), z)]
        call_ensures(f, (x,), y) && call_ensures(f, (x,), z) ==> y == z
}

/// Two maps of the same inputs by a function that gives one result for each
/// input are equal: it does not matter by which adaptor, in which batches or
/// on which worker the function was called.
pub proof fn lemma_map_unique<T, B, F: Fn(T) -> B>(f: F, inputs: Seq<T>, a: Seq<B>, b: Seq<B>)
    requires
        is_deterministic(f),
        is_map_of(f, inputs, a),
        is_map_of(f, inputs, b),
    ensures
        a == b,
{
    assert forall|i: int| 0 <= i < a.len() implies a[i] == b[i] by {
        assert(call_ensures(f, (inputs[i],), a[i]));
        assert(call_ensures(f, (inputs[i],), b[i]));
    }
    assert(a =~= b);
}

/// The work of calling `f` on each item gives the maps by `f`.
pub proof fn lemma_per_item_is_map<T, B, F: Fn(T) -> B>(f: F, inputs: Seq<T>, out: Seq<B>)
    ensures
        is_work_of(PerItem { f }, inputs, out) <==> is_map_of(f, inputs, out),
{
    let w = PerItem { f };
    if is_work_of(w, inputs, out) {
        assert forall|i: int| 0 <= i < inputs.len() implies call_ensures(
            f,
            (inputs[i],),
            #[trigger] out[i],
        ) by {
            assert(w.relates(inputs[i], out[i]));
        }
    }
    if is_map_of(f, inputs, out) {
        assert forall|i: int| 0 <= i < inputs.len() implies w.relates(
            inputs[i],
            #[trigger] out[i],
        ) by {
            assert(call_ensures(f, (inputs[i],), out[i]));
        }
    }
}

} // verus!
