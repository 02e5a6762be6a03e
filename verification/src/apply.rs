//! Element-wise transformation of a window in place.

use crate::capability::Local;
use crate::capability::Shared;
use crate::index::count;
use crate::index::cut_fits;
use crate::index::in_bounds;
use crate::index::indices;
use crate::index::lemma_halves_cover;
use crate::index::lemma_halves_unaliased;
use crate::index::lower_cells;
use crate::index::lowered;
use crate::index::offset;
use crate::index::reached;
use crate::index::upper_cells;
use crate::partition::lemma_cut_inside;
use crate::partition::plan;
use crate::partition::Step;
use crate::window::exclusive_cells;
use crate::window::exclusive_shape;
use crate::window::exclusive_strides;
use crate::window::remapped;
use crate::window::total;
use crate::window::view_map;
use crate::window::view_mut_on_halves;
use crate::window::view_of;
use crate::window::WindowMut;
use vstd::prelude::*;

verus! {

/// A window whose two halves were each transformed by `f` was transformed by
/// `f`.
proof fn lemma_halves_remapped<F: Fn(i64) -> i64>(
    f: &F,
    shape: Seq<usize>,
    axis: int,
    mid: int,
    before: Map<Seq<int>, i64>,
    after: Map<Seq<int>, i64>,
)
    requires
        cut_fits(shape, axis, mid),
        before.dom() == indices(shape),
        after.dom() == before.dom(),
        remapped(f, lower_cells(before, shape, axis, mid), lower_cells(after, shape, axis, mid)),
        remapped(f, upper_cells(before, shape, axis, mid), upper_cells(after, shape, axis, mid)),
    ensures
        remapped(f, before, after),
{
    assert forall|index: Seq<int>| before.dom().contains(index) implies call_ensures(
        *f,
        (before[index],),
        #[trigger] after[index],
    ) by {
        assert(in_bounds(index, shape));
        lemma_halves_cover(shape, axis, mid, index);
        if index[axis] < mid {
            let below = lower_cells(before, shape, axis, mid);
            assert(below.dom().contains(index));
            assert(lower_cells(after, shape, axis, mid)[index] == after[index]);
        } else {
            let down = lowered(index, axis, mid);
            let above = upper_cells(before, shape, axis, mid);
            assert(above.dom().contains(down));
            assert(upper_cells(after, shape, axis, mid)[down] == after[index]);
        }
    }
}

/// The partitioner for `apply`: a window of at most `SPLIT_SIZE` elements is
/// transformed by the sequential executor; a larger one is cut in two and
/// both halves are transformed concurrently, each by the partitioner again.
fn apply_helper<F>(window: &mut WindowMut<'_>, f: &F) where F: Fn(i64) -> i64 + Sync
    requires
        old(window).wf(),
        total(f),
    ensures
        exclusive_shape(*final(window)) == exclusive_shape(*old(window)),
        exclusive_strides(*final(window)) == exclusive_strides(*old(window)),
        remapped(f, exclusive_cells(*old(window)), exclusive_cells(*final(window))),
    decreases count(exclusive_shape(*old(window))),
{
    let ghost shape = exclusive_shape(*window);
    let ghost strides = exclusive_strides(*window);
    let ghost before = exclusive_cells(*window);
    let ghost size = count(shape);
    let step = plan(&view_of(window));
    match step {
        Step::Whole => view_map(window, f),
        Step::Cut { axis, mid } => {
            proof {
                lemma_cut_inside(shape, strides);
                lemma_halves_unaliased(shape, strides, axis as int, mid as int);
            }
            let work = |half: &mut WindowMut<'_>|
                requires
                    old(half).wf(),
                    count(exclusive_shape(*old(half))) < size,
                ensures
                    remapped(f, exclusive_cells(*old(half)), exclusive_cells(*final(half)))
                { apply_helper(half, f) };
            view_mut_on_halves(window, axis, mid, &work);
            proof {
                let ghost after = exclusive_cells(*window);
                let (lower, upper) = choose|lower: &mut WindowMut<'_>, upper: &mut WindowMut<'_>| #[trigger]
                    old(window).worked(*window, axis as int, mid as int, &work, lower, upper, *final(lower), *final(upper));
                lemma_halves_remapped(f, shape, axis as int, mid as int, before, after);
            }
        },
    }
}

/// An element function with its capability, that `apply` can run: the
/// implementations decide, from the capability alone, between the
/// partitioner and the sequential executor.
pub trait Apply: Sized {
    /// The function may be called on every element.
    spec fn ready(&self) -> bool;

    /// One call of the function may turn `before` into `after`.
    spec fn maps(&self, before: i64, after: i64) -> bool;

    /// Replaces each element of `window` by what the function makes of it.
    fn apply(self, window: &mut WindowMut<'_>)
        requires
            old(window).wf(),
            self.ready(),
        ensures
            final(window).wf(),
            exclusive_shape(*final(window)) == exclusive_shape(*old(window)),
            exclusive_strides(*final(window)) == exclusive_strides(*old(window)),
            exclusive_cells(*final(window)).dom() == exclusive_cells(*old(window)).dom(),
            forall|index: Seq<int>|
                exclusive_cells(*old(window)).dom().contains(index) ==> self.maps(
                    exclusive_cells(*old(window))[index],
                    #[trigger] exclusive_cells(*final(window))[index],
                ),
    ;
}

/// `after` has the indices of `before`, and at each of them what one call of
/// the function made of the element that `before` has there: every element
/// was visited, and visited once.
pub open spec fn applied<K: Apply>(kernel: &K, before: Map<Seq<int>, i64>, after: Map<Seq<int>, i64>) -> bool {
    &&& after.dom() == before.dom()
    &&& forall|index: Seq<int>|
        before.dom().contains(index) ==> kernel.maps(before[index], #[trigger] after[index])
}

/// The function may be shared between workers: the partitioner runs.
impl<F> Apply for Shared<F> where F: Fn(i64) -> i64 + Sync {
    open spec fn ready(&self) -> bool {
        total(&self.0)
    }

    open spec fn maps(&self, before: i64, after: i64) -> bool {
        call_ensures(self.0, (before,), after)
    }

    fn apply(self, window: &mut WindowMut<'_>) {
        apply_helper(window, &self.0)
    }
}

/// The function has to stay with the caller: the sequential executor
/// transforms the whole window, whatever its size.
impl<F> Apply for Local<F> where F: Fn(i64) -> i64 {
    open spec fn ready(&self) -> bool {
        total(&self.0)
    }

    open spec fn maps(&self, before: i64, after: i64) -> bool {
        call_ensures(self.0, (before,), after)
    }

    fn apply(self, window: &mut WindowMut<'_>) {
        view_map(window, &self.0)
    }
}

/// Replaces each element of `window` by what `kernel`, an element function
/// wrapped in its capability, makes of it. With a `Shared` function a window
/// of more than `SPLIT_SIZE` elements is cut in two again and again and the
/// parts are transformed concurrently; with a `Local` one the whole window is
/// transformed by the caller.
pub fn apply<K: Apply>(window: &mut WindowMut<'_>, kernel: K)
    requires
        old(window).wf(),
        kernel.ready(),
    ensures
        final(window).wf(),
        exclusive_shape(*final(window)) == exclusive_shape(*old(window)),
        exclusive_strides(*final(window)) == exclusive_strides(*old(window)),
        applied(&kernel, exclusive_cells(*old(window)), exclusive_cells(*final(window))),
{
    kernel.apply(window)
}

/// What `apply` ensures is the same for both capabilities, and is stated by
/// `remapped` over the function itself: the capability decides who runs the
/// function, never what becomes of the elements.
pub proof fn lemma_applied<F: Fn(i64) -> i64 + Sync>(f: F, before: Map<Seq<int>, i64>, after: Map<Seq<int>, i64>)
    ensures
        Shared(f).ready() == total(&f),
        Local(f).ready() == total(&f),
        applied(&Shared(f), before, after) == remapped(&f, before, after),
        applied(&Local(f), before, after) == remapped(&f, before, after),
{
    let shared = Shared(f);
    let local = Local(f);
    assert forall|index: Seq<int>| before.dom().contains(index) implies (shared.maps(before[index], after[index])
        == call_ensures(f, (before[index],), after[index])) && (local.maps(before[index], after[index])
        == call_ensures(f, (before[index],), after[index])) by {}
}

/// What `apply` does to a window that was lent onto storage, it does to the
/// storage: each place that an index of the window reaches holds what one
/// call of `f` made of what it held, and every other place holds what it
/// held.
pub proof fn lemma_storage_remapped<W, F>(
    window: &mut WindowMut<'_>,
    left: WindowMut<'_>,
    work: W,
    f: &F,
    shape: Seq<usize>,
    strides: Seq<isize>,
    before: Seq<i64>,
    after: Seq<i64>,
) where W: FnOnce(&mut WindowMut<'_>), F: Fn(i64) -> i64
    requires
        WindowMut::lent(window, left, work, shape, strides, before, after),
        remapped(f, exclusive_cells(*window), exclusive_cells(left)),
    ensures
        after.len() == before.len(),
        forall|index: Seq<int>|
            in_bounds(index, shape) ==> call_ensures(
                *f,
                (before[offset(index, strides)],),
                #[trigger] after[offset(index, strides)],
            ),
        forall|place: int|
            0 <= place < before.len() && !reached(shape, strides, place) ==> #[trigger] after[place]
                == before[place],
{
    assert forall|index: Seq<int>| in_bounds(index, shape) implies call_ensures(
        *f,
        (before[offset(index, strides)],),
        #[trigger] after[offset(index, strides)],
    ) by {
        assert(exclusive_cells(*window).dom().contains(index));
        assert(exclusive_cells(*window)[index] == before[offset(index, strides)]);
        assert(exclusive_cells(left)[index] == after[offset(index, strides)]);
    }
}

/// The parallel apply agrees with the sequential one: where what the element
/// function returns depends on the element alone, a window transformed by the
/// partitioner and the same window transformed by the sequential executor
/// hold the same elements.
pub proof fn lemma_apply_matches_sequential<F: Fn(i64) -> i64 + Sync>(
    f: F,
    value: spec_fn(i64) -> i64,
    before: Map<Seq<int>, i64>,
    parallel: Map<Seq<int>, i64>,
    sequential: Map<Seq<int>, i64>,
)
    requires
        forall|x: i64, y: i64| #[trigger] call_ensures(f, (x,), y) ==> y == value(x),
        applied(&Shared(f), before, parallel),
        applied(&Local(f), before, sequential),
    ensures
        parallel == sequential,
        parallel == before.map_values(value),
{
    assert forall|index: Seq<int>| before.dom().contains(index) implies parallel[index] == value(
        before[index],
    ) && sequential[index] == value(before[index]) by {
        assert(Shared(f).maps(before[index], parallel[index]));
        assert(Local(f).maps(before[index], sequential[index]));
    }
    assert(parallel =~= before.map_values(value));
    assert(sequential =~= before.map_values(value));
}

} // verus!
