//! The partitioner's decisions: whether a window is worked on whole or cut in
//! two, along which axis, and where.

use crate::index::count;
use crate::index::lemma_count_needs_axis;
use crate::index::lemma_halves_count;
use crate::index::lower_shape;
use crate::index::upper_shape;
use crate::window::view_len;
use crate::window::view_shape;
use crate::window::view_strides;
use crate::window::window_shape;
use crate::window::window_strides;
use crate::window::Window;
use ndarray::Dimension;
use ndarray::IxDyn;
use vstd::pervasive::unreached;
use vstd::prelude::*;

verus! {

/// A window of at most this many elements is worked on whole.
pub const SPLIT_SIZE: usize = 1000;

/// What is done with a window: it is handed whole to the sequential
/// executor, or cut before index `mid` of `axis` into two halves that are
/// worked on concurrently.
#[derive(Clone, Copy, Debug, PartialEq, Eq)]
pub enum Step {
    Whole,
    Cut { axis: usize, mid: usize },
}

/// How far apart two neighbours along an axis lie in storage, whatever the
/// direction. The one stride whose distance no `isize` holds counts as the
/// largest that one does.
pub open spec fn magnitude(stride: isize) -> int {
    if stride == isize::MIN {
        isize::MAX as int
    } else if stride < 0 {
        -(stride as int)
    } else {
        stride as int
    }
}

/// `axis` can be cut in two non-empty parts.
pub open spec fn can_cut(shape: Seq<usize>, axis: int) -> bool {
    0 <= axis < shape.len() && shape[axis] > 1
}

/// Axis `a` is cut rather than axis `b`: it has the larger stride, or the
/// same and the higher number.
pub open spec fn preferred(strides: Seq<isize>, a: int, b: int) -> bool {
    magnitude(strides[a]) > magnitude(strides[b]) || (magnitude(strides[a]) == magnitude(strides[b]) && a
        > b)
}

/// `axis` is the one to cut: it can be cut, and is preferred to every other
/// axis that can.
pub open spec fn best_axis(shape: Seq<usize>, strides: Seq<isize>, axis: int) -> bool {
    &&& can_cut(shape, axis)
    &&& forall|other: int| can_cut(shape, other) && other != axis ==> preferred(strides, axis, other)
}

/// The axis to cut, where there is one.
pub open spec fn cut_axis(shape: Seq<usize>, strides: Seq<isize>) -> int {
    choose|axis: int| best_axis(shape, strides, axis)
}

/// The step for a window with the given shape and strides: whole up to
/// `SPLIT_SIZE` elements, and beyond that a cut through the middle of the
/// axis with the largest stride among those longer than one.
pub open spec fn step_for(shape: Seq<usize>, strides: Seq<isize>) -> Step {
    if count(shape) <= SPLIT_SIZE {
        Step::Whole
    } else {
        let axis = cut_axis(shape, strides);
        Step::Cut { axis: axis as usize, mid: (shape[axis] / 2) as usize }
    }
}

/// Among the first `n` axes, one that can be cut and is preferred to the
/// others that can.
proof fn lemma_best_among(shape: Seq<usize>, strides: Seq<isize>, n: int) -> (best: int)
    requires
        0 <= n <= shape.len(),
        exists|axis: int| 0 <= axis < n && can_cut(shape, axis),
    ensures
        0 <= best < n,
        can_cut(shape, best),
        forall|other: int|
            0 <= other < n && can_cut(shape, other) && other != best ==> preferred(strides, best, other),
    decreases n,
{
    let last = n - 1;
    if exists|axis: int| 0 <= axis < last && can_cut(shape, axis) {
        let before = lemma_best_among(shape, strides, last);
        if can_cut(shape, last) && preferred(strides, last, before) {
            last
        } else {
            before
        }
    } else {
        last
    }
}

/// A shape with an axis longer than one has exactly one axis to cut.
pub proof fn lemma_cut_axis(shape: Seq<usize>, strides: Seq<isize>)
    requires
        exists|axis: int| can_cut(shape, axis),
    ensures
        best_axis(shape, strides, cut_axis(shape, strides)),
        forall|axis: int| best_axis(shape, strides, axis) ==> axis == cut_axis(shape, strides),
{
    let witness = choose|axis: int| can_cut(shape, axis);
    assert(0 <= witness < shape.len() && can_cut(shape, witness));
    let best = lemma_best_among(shape, strides, shape.len() as int);
    assert(best_axis(shape, strides, best));
    let chosen = cut_axis(shape, strides);
    assert forall|axis: int| best_axis(shape, strides, axis) implies axis == chosen by {
        if axis != chosen {
            assert(preferred(strides, axis, chosen));
            assert(preferred(strides, chosen, axis));
        }
    }
}

/// A window with more than `SPLIT_SIZE` elements is cut, through the middle
/// of the axis to cut: the two parts of the axis are equal or differ by one,
/// and both halves have elements, and fewer than the window.
pub proof fn lemma_cut_inside(shape: Seq<usize>, strides: Seq<isize>)
    requires
        count(shape) > SPLIT_SIZE,
        shape.len() <= usize::MAX,
    ensures
        step_for(shape, strides) matches Step::Cut { axis, mid } && {
            &&& best_axis(shape, strides, axis as int)
            &&& mid == shape[axis as int] / 2
            &&& 0 < mid < shape[axis as int]
            &&& 0 <= (shape[axis as int] - mid) - mid <= 1
            &&& 0 < count(lower_shape(shape, axis as int, mid as int)) < count(shape)
            &&& 0 < count(upper_shape(shape, axis as int, mid as int)) < count(shape)
        },
{
    lemma_count_needs_axis(shape);
    let long = choose|k: int| 0 <= k < shape.len() && #[trigger] shape[k] > 1;
    assert(can_cut(shape, long));
    lemma_cut_axis(shape, strides);
    let axis = cut_axis(shape, strides);
    let mid = shape[axis] / 2;
    lemma_halves_count(shape, axis, mid as int);
    assert(step_for(shape, strides) == Step::Cut { axis: axis as usize, mid: mid as usize });
}

/// The threshold is a boundary: a window is worked on whole if and only if
/// it has at most `SPLIT_SIZE` elements, so one of exactly that many is not
/// cut and one with a single element more is.
pub proof fn lemma_threshold(shape: Seq<usize>, strides: Seq<isize>)
    ensures
        step_for(shape, strides) is Whole <==> count(shape) <= SPLIT_SIZE,
        count(shape) == SPLIT_SIZE ==> step_for(shape, strides) is Whole,
        count(shape) == SPLIT_SIZE + 1 ==> step_for(shape, strides) is Cut,
{
}

/// The strides with the one value that has no absolute value replaced by the
/// largest stride.
fn sortable(strides: &Vec<isize>) -> (keys: Vec<isize>)
    ensures
        keys.len() == strides.len(),
        forall|k: int|
            0 <= k < keys.len() ==> #[trigger] keys[k] != isize::MIN && magnitude(keys[k]) == magnitude(
                strides[k],
            ),
{
    let mut keys: Vec<isize> = Vec::new();
    let mut k: usize = 0;
    while k < strides.len()
        invariant
            k <= strides.len(),
            keys.len() == k,
            forall|j: int|
                0 <= j < k ==> #[trigger] keys[j] != isize::MIN && magnitude(keys[j]) == magnitude(
                    strides[j],
                ),
        decreases strides.len() - k,
    {
        let stride = strides[k];
        keys.push(if stride == isize::MIN { isize::MAX } else { stride });
        k += 1;
    }
    keys
}

/// `Dimension::_fastest_varying_stride_order` on a dynamic dimension that
/// holds the strides. Trusted: the result lists every axis once, by rising
/// absolute stride, and axes of equal absolute stride by rising number (it is
/// a stable sort of the axis numbers by that key).
#[verifier::external_body]
fn stride_order(strides: &Vec<isize>) -> (order: Vec<usize>)
    requires
        forall|k: int| 0 <= k < strides.len() ==> #[trigger] strides[k] != isize::MIN,
    ensures
        order.len() == strides.len(),
        forall|i: int| 0 <= i < order.len() ==> #[trigger] order[i] < strides.len(),
        forall|axis: usize| axis < strides.len() ==> #[trigger] order@.contains(axis),
        forall|i: int, j: int|
            0 <= i < j < order.len() ==> preferred(strides@, #[trigger] order[j] as int, #[trigger] order[i] as int),
{
    let keys: Vec<usize> = strides.iter().map(|s| *s as usize).collect();
    IxDyn(&keys)._fastest_varying_stride_order().slice().to_vec()
}

/// The axis to cut: of the axes longer than one, the one with the largest
/// stride, and of several such the one with the highest number; `None` where
/// no axis is longer than one.
#[verifier::loop_isolation(false)]
pub fn choose_axis(shape: &Vec<usize>, strides: &Vec<isize>) -> (found: Option<usize>)
    requires
        shape.len() == strides.len(),
    ensures
        match found {
            Some(axis) => best_axis(shape@, strides@, axis as int),
            None => forall|axis: int| !can_cut(shape@, axis),
        },
{
    let keys = sortable(strides);
    let order = stride_order(&keys);
    let mut i: usize = order.len();
    while i > 0
        invariant
            i <= order.len(),
            order.len() == shape.len(),
            forall|j: int| i <= j < order.len() ==> !can_cut(shape@, #[trigger] order[j] as int),
        decreases i,
    {
        i -= 1;
        let axis = order[i];
        if shape[axis] > 1 {
            proof {
                assert forall|other: int| can_cut(shape@, other) && other != axis implies preferred(
                    strides@,
                    axis as int,
                    other,
                ) by {
                    assert(order@.contains(other as usize));
                    let j = choose|j: int| 0 <= j < order.len() && order[j] == other as usize;
                    assert(j < i);
                    assert(preferred(keys@, order[i as int] as int, order[j] as int));
                }
            }
            return Some(axis);
        }
    }
    proof {
        assert forall|axis: int| !can_cut(shape@, axis) by {
            if 0 <= axis < shape.len() {
                assert(order@.contains(axis as usize));
                let j = choose|j: int| 0 <= j < order.len() && order[j] == axis as usize;
                assert(!can_cut(shape@, order[j] as int));
            }
        }
    }
    None
}

/// The step for `window`: see `step_for`. A cut lies strictly inside its
/// axis.
pub fn plan(window: &Window<'_>) -> (step: Step)
    requires
        window.wf(),
    ensures
        step == step_for(window_shape(*window), window_strides(*window)),
{
    let len = view_len(window);
    if len <= SPLIT_SIZE {
        Step::Whole
    } else {
        let shape = view_shape(window);
        let strides = view_strides(window);
        proof {
            lemma_cut_inside(shape@, strides@);
            lemma_cut_axis(shape@, strides@);
        }
        match choose_axis(&shape, &strides) {
            Some(axis) => Step::Cut { axis, mid: shape[axis] / 2 },
            None => unreached(),
        }
    }
}

} // verus!
