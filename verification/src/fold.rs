//! Reduction of a window to one value: a leaf function turns a whole window
//! into a partial result, and a combiner merges two partial results.

use crate::capability::Local;
use crate::capability::Shared;
use crate::index::count;
use crate::index::cut_fits;
use crate::index::indices;
use crate::index::lower_cells;
use crate::index::lower_shape;
use crate::index::upper_cells;
use crate::index::upper_shape;
use crate::partition::lemma_cut_inside;
use crate::partition::plan;
use crate::partition::step_for;
use crate::partition::Step;
use crate::partition::SPLIT_SIZE;
use crate::window::view_split_at;
use crate::window::window_cells;
use crate::window::window_shape;
use crate::window::window_strides;
use crate::window::Window;
use vstd::prelude::*;

verus! {

/// `rayon::join`. Trusted: it runs both closures, possibly on two workers,
/// returns when both are done, and hands back what the first returned and
/// what the second returned, in that order.
pub assume_specification<A, B, RA, RB>[ rayon::join::<A, B, RA, RB> ](oper_a: A, oper_b: B) -> (results: (
    RA,
    RB,
)) where A: FnOnce() -> RA + Send, B: FnOnce() -> RB + Send, RA: Send, RB: Send
    requires
        oper_a.requires(()),
        oper_b.requires(()),
    ensures
        oper_a.ensures((), results.0),
        oper_b.ensures((), results.1),
;

/// `result` is what the partitioner may return for `window`: what `f` returns
/// for the whole window where the window is not cut, and else what `g`
/// returns for a result of the lower half and a result of the upper half, in
/// that order.
pub open spec fn reduces<B, F, G>(window: Window<'_>, f: &F, g: &G, result: B) -> bool where
    F: Fn(Window<'_>) -> B,
    G: Fn(B, B) -> B,

    decreases count(window_shape(window)),
    when window.wf()
    via reduces_decreases::<B, F, G>
{
    match step_for(window_shape(window), window_strides(window)) {
        Step::Whole => call_ensures(*f, (window,), result),
        Step::Cut { axis, mid } => exists|lower: Window<'_>, upper: Window<'_>, below: B, above: B|
            #![trigger window.cut_into(axis as int, mid as int, lower, upper), call_ensures(*g, (below, above), result)]
            {
                &&& window.cut_into(axis as int, mid as int, lower, upper)
                &&& reduces(lower, f, g, below)
                &&& reduces(upper, f, g, above)
                &&& call_ensures(*g, (below, above), result)
            },
    }
}

#[via_fn]
proof fn reduces_decreases<B, F, G>(window: Window<'_>, f: &F, g: &G, result: B) where
    F: Fn(Window<'_>) -> B,
    G: Fn(B, B) -> B,
 {
    if count(window_shape(window)) > SPLIT_SIZE {
        lemma_cut_inside(window_shape(window), window_strides(window));
    }
}

/// `f` may be called on every well-formed window, and `g` on every pair of
/// partial results.
pub open spec fn callable<B, F, G>(f: &F, g: &G) -> bool where F: Fn(Window<'_>) -> B, G: Fn(B, B) -> B {
    &&& forall|window: Window<'_>| window.wf() ==> call_requires(*f, (window,))
    &&& forall|below: B, above: B| call_requires(*g, (below, above))
}

/// The partitioner for `fold`: a window of at most `SPLIT_SIZE` elements goes
/// whole to `f`; a larger one is cut in two, both halves are reduced
/// concurrently, and `g` combines the result of the lower half with that of
/// the upper half.
fn fold_helper<'a, B, F, G>(window: Window<'a>, f: &F, g: &G) -> (result: B) where
    F: Fn(Window<'_>) -> B + Sync,
    G: Fn(B, B) -> B + Sync,
    B: Send,

    requires
        window.wf(),
        callable(f, g),
    ensures
        reduces(window, f, g, result),
    decreases count(window_shape(window)),
{
    let ghost whole = window;
    match plan(&window) {
        Step::Whole => f(window),
        Step::Cut { axis, mid } => {
            proof {
                lemma_cut_inside(window_shape(window), window_strides(window));
            }
            let (lower, upper) = view_split_at(window, axis, mid);
            let (below, above) = rayon::join(
                move || -> (partial: B)
                    ensures reduces(lower, f, g, partial)
                    { fold_helper(lower, f, g) },
                move || -> (partial: B)
                    ensures reduces(upper, f, g, partial)
                    { fold_helper(upper, f, g) },
            );
            let result = g(below, above);
            assert(whole.cut_into(axis as int, mid as int, lower, upper));
            assert(call_ensures(*g, (below, above), result));
            result
        },
    }
}

/// The sequential executor for `fold`: the leaf function is called once, on
/// the whole window, and its result is returned as it is.
fn fold_whole<B, F>(window: Window<'_>, f: &F) -> (result: B) where F: Fn(Window<'_>) -> B
    requires
        call_requires(*f, (window,)),
    ensures
        call_ensures(*f, (window,), result),
{
    f(window)
}

/// A leaf function and a combiner, each with its capability, that `fold` can
/// run: the implementations decide, from the capabilities alone, between the
/// partitioner and the sequential executor.
pub trait Fold<B, C>: Sized {
    /// The two functions may be called on what `fold` hands them for
    /// `window`.
    spec fn ready(&self, combine: &C, window: Window<'_>) -> bool;

    /// `result` is what `fold` may return for `window`.
    spec fn yields(&self, combine: &C, window: Window<'_>, result: B) -> bool;

    /// Reduces `window` to one value.
    fn fold(self, combine: C, window: Window<'_>) -> (result: B)
        requires
            window.wf(),
            self.ready(&combine, window),
        ensures
            self.yields(&combine, window, result),
    ;
}

/// Both functions may be shared between workers, and results may be sent
/// from one to another: the partitioner runs.
impl<B, F, G> Fold<B, Shared<G>> for Shared<F> where
    F: Fn(Window<'_>) -> B + Sync,
    G: Fn(B, B) -> B + Sync,
    B: Send,
 {
    open spec fn ready(&self, combine: &Shared<G>, window: Window<'_>) -> bool {
        callable(&self.0, &combine.0)
    }

    open spec fn yields(&self, combine: &Shared<G>, window: Window<'_>, result: B) -> bool {
        reduces(window, &self.0, &combine.0, result)
    }

    fn fold(self, combine: Shared<G>, window: Window<'_>) -> (result: B) {
        fold_helper(window, &self.0, &combine.0)
    }
}

/// The combiner has to stay with the caller: the leaf function is called on
/// the whole window, whatever its size.
impl<B, F, G> Fold<B, Local<G>> for Shared<F> where F: Fn(Window<'_>) -> B, G: Fn(B, B) -> B {
    open spec fn ready(&self, combine: &Local<G>, window: Window<'_>) -> bool {
        call_requires(self.0, (window,))
    }

    open spec fn yields(&self, combine: &Local<G>, window: Window<'_>, result: B) -> bool {
        call_ensures(self.0, (window,), result)
    }

    fn fold(self, combine: Local<G>, window: Window<'_>) -> (result: B) {
        fold_whole(window, &self.0)
    }
}

/// The leaf function has to stay with the caller: it is called on the whole
/// window, whatever its size.
impl<B, F, G> Fold<B, Shared<G>> for Local<F> where F: Fn(Window<'_>) -> B, G: Fn(B, B) -> B {
    open spec fn ready(&self, combine: &Shared<G>, window: Window<'_>) -> bool {
        call_requires(self.0, (window,))
    }

    open spec fn yields(&self, combine: &Shared<G>, window: Window<'_>, result: B) -> bool {
        call_ensures(self.0, (window,), result)
    }

    fn fold(self, combine: Shared<G>, window: Window<'_>) -> (result: B) {
        fold_whole(window, &self.0)
    }
}

/// Both functions have to stay with the caller: the leaf function is called
/// on the whole window, whatever its size.
impl<B, F, G> Fold<B, Local<G>> for Local<F> where F: Fn(Window<'_>) -> B, G: Fn(B, B) -> B {
    open spec fn ready(&self, combine: &Local<G>, window: Window<'_>) -> bool {
        call_requires(self.0, (window,))
    }

    open spec fn yields(&self, combine: &Local<G>, window: Window<'_>, result: B) -> bool {
        call_ensures(self.0, (window,), result)
    }

    fn fold(self, combine: Local<G>, window: Window<'_>) -> (result: B) {
        fold_whole(window, &self.0)
    }
}

/// Reduces `window` to one value with the leaf function `leaf` and the
/// combiner `combine`, each wrapped in its capability. Where both are
/// `Shared`, a window of more than `SPLIT_SIZE` elements is cut in two again
/// and again, the parts are reduced concurrently by `leaf`, and `combine`
/// merges the results, that of the lower half first. Where one is `Local`,
/// `leaf` is called once, on the whole window.
pub fn fold<B, L, C>(window: Window<'_>, leaf: L, combine: C) -> (result: B) where L: Fold<B, C>
    requires
        window.wf(),
        leaf.ready(&combine, window),
    ensures
        leaf.yields(&combine, window, result),
{
    leaf.fold(combine, window)
}

/// With two `Shared` functions `fold` returns what the partitioner returns.
pub proof fn lemma_shared_fold<B, F, G>(f: F, g: G, window: Window<'_>, result: B) where
    F: Fn(Window<'_>) -> B + Sync,
    G: Fn(B, B) -> B + Sync,
    B: Send,

    ensures
        Shared(f).ready(&Shared(g), window) == callable(&f, &g),
        Shared(f).yields(&Shared(g), window, result) == reduces(window, &f, &g, result),
{
}

/// A function that lacks the capability to cross to other workers forces the
/// sequential executor: where the leaf function, the combiner or both are
/// `Local`, `fold` returns what the leaf function returns for the whole
/// window, whatever the size of the window, and asks no more than that the
/// leaf function can be called on it.
pub proof fn lemma_local_fold<B, F, G>(f: F, g: G, window: Window<'_>, result: B) where
    F: Fn(Window<'_>) -> B,
    G: Fn(B, B) -> B,

    ensures
        Local(f).yields(&Local(g), window, result) == call_ensures(f, (window,), result),
        Local(f).yields(&Shared(g), window, result) == call_ensures(f, (window,), result),
        Shared(f).yields(&Local(g), window, result) == call_ensures(f, (window,), result),
        Local(f).ready(&Local(g), window) == call_requires(f, (window,)),
        Local(f).ready(&Shared(g), window) == call_requires(f, (window,)),
        Shared(f).ready(&Local(g), window) == call_requires(f, (window,)),
{
}

/// The threshold is a boundary for `fold`: a window of at most `SPLIT_SIZE`
/// elements is reduced by one call of the leaf function on the whole window;
/// a window with more is cut, and its result is the combiner's, for a result
/// of each half.
pub proof fn lemma_reduces_at_threshold<B, F, G>(window: Window<'_>, f: &F, g: &G, result: B) where
    F: Fn(Window<'_>) -> B,
    G: Fn(B, B) -> B,

    requires
        window.wf(),
    ensures
        count(window_shape(window)) <= SPLIT_SIZE ==> reduces(window, f, g, result) == call_ensures(
            *f,
            (window,),
            result,
        ),
        count(window_shape(window)) > SPLIT_SIZE && reduces(window, f, g, result) ==> exists|
            below: B,
            above: B,
        | #[trigger]
            call_ensures(*g, (below, above), result),
{
}

/// `measure` of a window is `merge` of the measures of its two halves, for
/// this cut.
pub open spec fn splits<B>(
    measure: spec_fn(Seq<usize>, Map<Seq<int>, i64>) -> B,
    merge: spec_fn(B, B) -> B,
    shape: Seq<usize>,
    cells: Map<Seq<int>, i64>,
    axis: int,
    mid: int,
) -> bool {
    measure(shape, cells) == merge(
        measure(lower_shape(shape, axis, mid), lower_cells(cells, shape, axis, mid)),
        measure(upper_shape(shape, axis, mid), upper_cells(cells, shape, axis, mid)),
    )
}

/// `f` and `g` together are a reduction: `f` computes `measure` of what a
/// window holds, `g` computes `merge`, and `measure` of a window is `merge`
/// of the measures of its halves, wherever the window is cut.
pub open spec fn reduction<B, F, G>(
    f: &F,
    g: &G,
    measure: spec_fn(Seq<usize>, Map<Seq<int>, i64>) -> B,
    merge: spec_fn(B, B) -> B,
) -> bool where F: Fn(Window<'_>) -> B, G: Fn(B, B) -> B {
    &&& forall|window: Window<'_>, result: B|
        window.wf() && #[trigger] call_ensures(*f, (window,), result) ==> result == measure(
            window_shape(window),
            window_cells(window),
        )
    &&& forall|below: B, above: B, result: B| #[trigger]
        call_ensures(*g, (below, above), result) ==> result == merge(below, above)
    &&& forall|shape: Seq<usize>, cells: Map<Seq<int>, i64>, axis: int, mid: int|
        cut_fits(shape, axis, mid) && cells.dom() == indices(shape) ==> #[trigger] splits(
            measure,
            merge,
            shape,
            cells,
            axis,
            mid,
        )
}

/// Whatever way the partitioner cuts a window, a reduction comes to the
/// measure of the whole window.
pub proof fn lemma_reduces_measure<B, F, G>(
    window: Window<'_>,
    f: &F,
    g: &G,
    measure: spec_fn(Seq<usize>, Map<Seq<int>, i64>) -> B,
    merge: spec_fn(B, B) -> B,
    result: B,
) where F: Fn(Window<'_>) -> B, G: Fn(B, B) -> B
    requires
        window.wf(),
        reduction(f, g, measure, merge),
        reduces(window, f, g, result),
    ensures
        result == measure(window_shape(window), window_cells(window)),
    decreases count(window_shape(window)),
{
    let shape = window_shape(window);
    let cells = window_cells(window);
    match step_for(shape, window_strides(window)) {
        Step::Whole => {},
        Step::Cut { axis, mid } => {
            lemma_cut_inside(shape, window_strides(window));
            let (lower, upper, below, above) = choose|
                lower: Window<'_>,
                upper: Window<'_>,
                below: B,
                above: B,
            |
                #![trigger window.cut_into(axis as int, mid as int, lower, upper), call_ensures(*g, (below, above), result)]
                {
                    &&& window.cut_into(axis as int, mid as int, lower, upper)
                    &&& reduces(lower, f, g, below)
                    &&& reduces(upper, f, g, above)
                    &&& call_ensures(*g, (below, above), result)
                };
            lemma_reduces_measure(lower, f, g, measure, merge, below);
            lemma_reduces_measure(upper, f, g, measure, merge, above);
            assert(splits(measure, merge, shape, cells, axis as int, mid as int));
        },
    }
}

/// The parallel fold agrees with the sequential one: for a leaf function and
/// a combiner that together are a reduction, what the partitioner returns for
/// a window is what the leaf function returns for the whole window.
pub proof fn lemma_fold_matches_sequential<B, F, G>(
    window: Window<'_>,
    f: &F,
    g: &G,
    measure: spec_fn(Seq<usize>, Map<Seq<int>, i64>) -> B,
    merge: spec_fn(B, B) -> B,
    parallel: B,
    sequential: B,
) where F: Fn(Window<'_>) -> B, G: Fn(B, B) -> B
    requires
        window.wf(),
        reduction(f, g, measure, merge),
        reduces(window, f, g, parallel),
        call_ensures(*f, (window,), sequential),
    ensures
        parallel == sequential,
{
    lemma_reduces_measure(window, f, g, measure, merge, parallel);
}

} // verus!
