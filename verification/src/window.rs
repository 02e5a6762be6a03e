//! Windows over array storage.
//!
//! A window is a non-owning, shaped and strided view of `i64` elements, kept
//! by `ndarray`. The verifier does not look inside one: its shape, its strides
//! and what it holds are named here, and each operation on a window states
//! over those names what `ndarray` does.

use crate::index::count;
use crate::index::cut_fits;
use crate::index::fits;
use crate::index::fits_exclusive;
use crate::index::in_bounds;
use crate::index::indices;
use crate::index::lower_cells;
use crate::index::lower_shape;
use crate::index::offset;
use crate::index::reached;
use crate::index::unaliased;
use crate::index::upper_cells;
use crate::index::upper_shape;
use ndarray::ArrayView;
use ndarray::ArrayViewMut;
use ndarray::Axis;
use ndarray::IxDyn;
use ndarray::ShapeBuilder;
use vstd::prelude::*;

verus! {

/// A read-only window: an `ndarray::ArrayView` of `i64` with a dynamic number
/// of axes. Nothing of its representation is visible to proofs.
#[verifier::external_body]
pub struct Window<'a> {
    inner: ArrayView<'a, i64, IxDyn>,
}

/// A read-write window: an `ndarray::ArrayViewMut` of `i64` with a dynamic
/// number of axes. Nothing of its representation is visible to proofs.
///
/// No function returns a `WindowMut`: one is only ever lent, as a
/// `&mut WindowMut`, to the function that works on it. Whoever is lent a
/// window can change what it holds, and cannot put another window onto other
/// storage in its place.
#[verifier::external_body]
pub struct WindowMut<'a> {
    inner: ArrayViewMut<'a, i64, IxDyn>,
}

/// The extent of each axis of a read-only window (`ArrayBase::shape`).
pub uninterp spec fn window_shape(window: Window<'_>) -> Seq<usize>;

/// The stride of each axis of a read-only window (`ArrayBase::strides`).
pub uninterp spec fn window_strides(window: Window<'_>) -> Seq<isize>;

/// The element that a read-only window has at each of its indices.
pub uninterp spec fn window_cells(window: Window<'_>) -> Map<Seq<int>, i64>;

/// The extent of each axis of a read-write window (`ArrayBase::shape`).
pub uninterp spec fn exclusive_shape(window: WindowMut<'_>) -> Seq<usize>;

/// The stride of each axis of a read-write window (`ArrayBase::strides`).
pub uninterp spec fn exclusive_strides(window: WindowMut<'_>) -> Seq<isize>;

/// The element that a read-write window has at each of its indices.
pub uninterp spec fn exclusive_cells(window: WindowMut<'_>) -> Map<Seq<int>, i64>;

/// An index given as machine integers, as a mathematical index.
pub open spec fn as_index(index: Seq<usize>) -> Seq<int> {
    index.map_values(|k: usize| k as int)
}

/// Each element of `after` is what one call of `f` made of the element that
/// `before` has at the same index, and the two have the same indices.
pub open spec fn remapped<F: Fn(i64) -> i64>(
    f: &F,
    before: Map<Seq<int>, i64>,
    after: Map<Seq<int>, i64>,
) -> bool {
    &&& after.dom() == before.dom()
    &&& forall|index: Seq<int>|
        before.dom().contains(index) ==> call_ensures(*f, (before[index],), #[trigger] after[index])
}

/// `f` may be called on every element.
pub open spec fn total<F: Fn(i64) -> i64>(f: &F) -> bool {
    forall|x: i64| call_requires(*f, (x,))
}

/// All strides step forwards through storage, or not at all.
pub open spec fn forward(strides: Seq<isize>) -> bool {
    forall|k: int| 0 <= k < strides.len() ==> #[trigger] strides[k] >= 0
}

impl<'a> Window<'a> {
    /// The window has as many axes as a machine can count, one stride for
    /// each, and an element at each index that its shape admits, and at no
    /// other.
    pub open spec fn wf(self) -> bool {
        &&& window_shape(self).len() <= usize::MAX
        &&& window_strides(self).len() == window_shape(self).len()
        &&& window_cells(self).dom() == indices(window_shape(self))
    }

    /// The window shows `data` through the given shape and strides: the
    /// element at an index is the one that lies `offset` elements into `data`.
    pub open spec fn shows(self, shape: Seq<usize>, strides: Seq<isize>, data: Seq<i64>) -> bool {
        &&& self.wf()
        &&& window_shape(self) == shape
        &&& window_strides(self) == strides
        &&& forall|index: Seq<int>|
            in_bounds(index, shape) ==> 0 <= offset(index, strides) < data.len() && #[trigger] window_cells(
                self,
            )[index] == data[offset(index, strides)]
    }

    /// `lower` and `upper` are the two halves of this window cut at `mid`
    /// along `axis`: they keep its strides, divide the extent of `axis`
    /// between them, and hold its elements below and from the cut on.
    pub open spec fn cut_into(self, axis: int, mid: int, lower: Window<'_>, upper: Window<'_>) -> bool {
        let shape = window_shape(self);
        let cells = window_cells(self);
        &&& lower.wf()
        &&& upper.wf()
        &&& window_shape(lower) == lower_shape(shape, axis, mid)
        &&& window_shape(upper) == upper_shape(shape, axis, mid)
        &&& window_strides(lower) == window_strides(self)
        &&& window_strides(upper) == window_strides(self)
        &&& window_cells(lower) == lower_cells(cells, shape, axis, mid)
        &&& window_cells(upper) == upper_cells(cells, shape, axis, mid)
    }

    /// A read-only window can be laid over `len` elements with the given
    /// extents and strides: there is one stride for each extent, no stride is
    /// negative, and the layout fits.
    pub open spec fn admits(shape: Seq<usize>, strides: Seq<isize>, len: nat) -> bool {
        &&& shape.len() == strides.len()
        &&& forward(strides)
        &&& fits(shape, strides, len)
    }

    /// A read-only window onto `data` with the given extents and strides,
    /// where one can be laid over `data`, and `None` where none can.
    pub fn new(shape: &[usize], strides: &[isize], data: &'a [i64]) -> (made: Option<Window<'a>>)
        ensures
            made is Some <==> Window::admits(shape@, strides@, data@.len()),
            made matches Some(window) ==> window.shows(shape@, strides@, data@),
    {
        if shape.len() != strides.len() || !all_forward(strides) {
            None
        } else {
            view_from_shape(shape, strides, data)
        }
    }

    /// The extent of each axis.
    pub fn shape(&self) -> (shape: Vec<usize>)
        ensures
            shape@ == window_shape(*self),
    {
        view_shape(self)
    }

    /// The element at `index`, or `None` where `index` is not one of the
    /// window's indices.
    pub fn get(&self, index: &[usize]) -> (found: Option<i64>)
        ensures
            found == if in_bounds(as_index(index@), window_shape(*self)) {
                Some(window_cells(*self)[as_index(index@)])
            } else {
                None
            },
    {
        view_get(self, index)
    }
}

impl<'a> WindowMut<'a> {
    /// The window has as many axes as a machine can count, one stride for
    /// each, and an element at each index that its shape admits, and at no
    /// other; and no two of its indices lie at the same place in storage.
    pub open spec fn wf(self) -> bool {
        &&& exclusive_shape(self).len() <= usize::MAX
        &&& exclusive_strides(self).len() == exclusive_shape(self).len()
        &&& exclusive_cells(self).dom() == indices(exclusive_shape(self))
        &&& unaliased(exclusive_shape(self), exclusive_strides(self))
    }

    /// The window shows `data` through the given shape and strides: the
    /// element at an index is the one that lies `offset` elements into `data`.
    pub open spec fn shows(self, shape: Seq<usize>, strides: Seq<isize>, data: Seq<i64>) -> bool {
        &&& self.wf()
        &&& exclusive_shape(self) == shape
        &&& exclusive_strides(self) == strides
        &&& forall|index: Seq<int>|
            in_bounds(index, shape) ==> 0 <= offset(index, strides) < data.len()
                && #[trigger] exclusive_cells(self)[index] == data[offset(index, strides)]
    }

    /// `frozen` is a read-only window onto the same elements.
    pub open spec fn seen_as(self, frozen: Window<'_>) -> bool {
        &&& window_shape(frozen) == exclusive_shape(self)
        &&& window_strides(frozen) == exclusive_strides(self)
        &&& window_cells(frozen) == exclusive_cells(self)
    }

    /// `half` is this window below a cut at `mid` along `axis`: it keeps the
    /// strides, has extent `mid` along `axis`, and holds the elements whose
    /// index along `axis` is below `mid`.
    pub open spec fn lower_half(self, axis: int, mid: int, half: WindowMut<'_>) -> bool {
        &&& exclusive_shape(half) == lower_shape(exclusive_shape(self), axis, mid)
        &&& exclusive_strides(half) == exclusive_strides(self)
        &&& exclusive_cells(half) == lower_cells(exclusive_cells(self), exclusive_shape(self), axis, mid)
    }

    /// `half` is this window from a cut at `mid` along `axis` on: it keeps
    /// the strides, has the rest of the extent of `axis`, and holds the
    /// elements whose index along `axis` is `mid` or more, at that index less
    /// `mid`.
    pub open spec fn upper_half(self, axis: int, mid: int, half: WindowMut<'_>) -> bool {
        &&& exclusive_shape(half) == upper_shape(exclusive_shape(self), axis, mid)
        &&& exclusive_strides(half) == exclusive_strides(self)
        &&& exclusive_cells(half) == upper_cells(exclusive_cells(self), exclusive_shape(self), axis, mid)
    }

    /// `work` was run on the two halves of this window, cut at `mid` along
    /// `axis`, and left the window as `after`: it was called on `lower` and on
    /// `upper`, which were the halves of this window, and what they had
    /// become when it returned is what `after` holds below the cut and from
    /// the cut on.
    pub open spec fn worked<W: Fn(&mut WindowMut<'_>)>(
        self,
        after: WindowMut<'_>,
        axis: int,
        mid: int,
        work: &W,
        lower: &mut WindowMut<'_>,
        upper: &mut WindowMut<'_>,
        lower_after: WindowMut<'_>,
        upper_after: WindowMut<'_>,
    ) -> bool {
        &&& self.lower_half(axis, mid, *lower)
        &&& self.upper_half(axis, mid, *upper)
        &&& call_ensures(*work, (lower,), ())
        &&& call_ensures(*work, (upper,), ())
        &&& exclusive_cells(lower_after) == lower_cells(exclusive_cells(after), exclusive_shape(self), axis, mid)
        &&& exclusive_cells(upper_after) == upper_cells(exclusive_cells(after), exclusive_shape(self), axis, mid)
    }

    /// `work` was lent `window`, which showed `before` through `shape` and
    /// `strides`, and when `work` returned `window` had become `left` and
    /// storage `after`: `after` holds at each place that an index reaches
    /// what `left` holds at that index, and elsewhere what `before` held.
    pub open spec fn lent<W: FnOnce(&mut WindowMut<'_>)>(
        window: &mut WindowMut<'_>,
        left: WindowMut<'_>,
        work: W,
        shape: Seq<usize>,
        strides: Seq<isize>,
        before: Seq<i64>,
        after: Seq<i64>,
    ) -> bool {
        &&& window.shows(shape, strides, before)
        &&& call_ensures(work, (window,), ())
        &&& after.len() == before.len()
        &&& forall|index: Seq<int>|
            in_bounds(index, shape) ==> after[offset(index, strides)] == #[trigger] exclusive_cells(left)[index]
        &&& forall|place: int|
            0 <= place < before.len() && !reached(shape, strides, place) ==> #[trigger] after[place]
                == before[place]
    }

    /// A read-write window can be laid over `len` elements with the given
    /// extents and strides: there is one stride for each extent, no stride is
    /// negative, the layout fits, and no two indices reach the same element.
    pub open spec fn admits(shape: Seq<usize>, strides: Seq<isize>, len: nat) -> bool {
        &&& shape.len() == strides.len()
        &&& forward(strides)
        &&& fits_exclusive(shape, strides, len)
    }

    /// Where a read-write window can be laid over `data` with the given
    /// extents and strides, lends `work` that window and returns `true`;
    /// where none can, leaves `data` as it is and returns `false`.
    pub fn enter<W>(shape: &[usize], strides: &[isize], data: &mut [i64], work: W) -> (entered: bool) where
        W: FnOnce(&mut WindowMut<'_>),

        requires
            forall|window: &mut WindowMut<'_>|
                window.shows(shape@, strides@, old(data)@) ==> call_requires(work, (window,)),
        ensures
            entered <==> WindowMut::admits(shape@, strides@, old(data)@.len()),
            !entered ==> final(data)@ == old(data)@,
            entered ==> exists|window: &mut WindowMut<'_>| #[trigger]
                WindowMut::lent(window, *final(window), work, shape@, strides@, old(data)@, final(data)@),
    {
        if shape.len() != strides.len() || !all_forward(strides) {
            false
        } else {
            view_mut_enter(shape, strides, data, work)
        }
    }
}

/// Whether no stride is negative.
fn all_forward(strides: &[isize]) -> (yes: bool)
    ensures
        yes == forward(strides@),
{
    let mut k: usize = 0;
    while k < strides.len()
        invariant
            k <= strides.len(),
            forall|j: int| 0 <= j < k ==> #[trigger] strides@[j] >= 0,
        decreases strides.len() - k,
    {
        if strides[k] < 0 {
            return false;
        }
        k += 1;
    }
    true
}

/// `ArrayView::from_shape` with custom strides. Trusted: `ndarray` accepts
/// the layout exactly where it fits (the product of the extents that are not
/// zero and the bytes between the first and the last element are at most
/// `isize::MAX`, and the last element lies inside `data`, or for a view
/// without elements no further than its end). The view then has the shape and
/// strides it was given, and its element at an index is the one of `data`
/// that lies, from the start of `data`, as many elements on as the index
/// times the strides come to. With no negative stride the first element of
/// the view is the first of `data`.
#[verifier::external_body]
fn view_from_shape<'a>(shape: &[usize], strides: &[isize], data: &'a [i64]) -> (made: Option<Window<'a>>)
    requires
        shape@.len() == strides@.len(),
        forward(strides@),
    ensures
        made is Some <==> fits(shape@, strides@, data@.len()),
        made matches Some(window) ==> window.shows(shape@, strides@, data@),
{
    let steps: Vec<usize> = strides.iter().map(|s| *s as usize).collect();
    let layout = IxDyn(shape).strides(IxDyn(&steps));
    ArrayView::from_shape(layout, data).ok().map(|inner| Window { inner })
}

/// `ArrayViewMut::from_shape` with custom strides. Trusted: `ndarray` accepts
/// the layout exactly where it fits, as for the read-only view, and, if the
/// view has elements, where its axes do not run into each other: going
/// through the axes longer than one by rising stride, each stride is larger
/// than the axes before it reach together. Where it turns the layout down,
/// nothing happens. Where it accepts, the view has the shape and strides it
/// was given, no two of its indices reach the same element, and its element
/// at an index is the one of `data` that lies, from the start of `data`, as
/// many elements on as the index times the strides come to; `work` is called
/// once, on that view; and what the view holds when `work` returns is what
/// `data` then holds at those places, the rest of `data` being as it was.
#[verifier::external_body]
fn view_mut_enter<W>(shape: &[usize], strides: &[isize], data: &mut [i64], work: W) -> (entered: bool) where
    W: FnOnce(&mut WindowMut<'_>),

    requires
        shape@.len() == strides@.len(),
        forward(strides@),
        forall|window: &mut WindowMut<'_>|
            window.shows(shape@, strides@, old(data)@) ==> call_requires(work, (window,)),
    ensures
        entered <==> fits_exclusive(shape@, strides@, old(data)@.len()),
        !entered ==> final(data)@ == old(data)@,
        entered ==> exists|window: &mut WindowMut<'_>| #[trigger]
            WindowMut::lent(window, *final(window), work, shape@, strides@, old(data)@, final(data)@),
{
    let steps: Vec<usize> = strides.iter().map(|s| *s as usize).collect();
    let layout = IxDyn(shape).strides(IxDyn(&steps));
    ArrayViewMut::from_shape(layout, data).map(|inner| work(&mut WindowMut { inner })).is_ok()
}

/// `ArrayBase::len`. Trusted: the number of elements is the product of the
/// extents.
#[verifier::external_body]
pub(crate) fn view_len(window: &Window<'_>) -> (len: usize)
    ensures
        len == count(window_shape(*window)),
{
    window.inner.len()
}

/// `ArrayBase::shape`. Trusted: it returns the extents, one for each axis.
#[verifier::external_body]
pub(crate) fn view_shape(window: &Window<'_>) -> (shape: Vec<usize>)
    ensures
        shape@ == window_shape(*window),
{
    window.inner.shape().to_vec()
}

/// `ArrayBase::strides`. Trusted: it returns the strides, one for each axis.
#[verifier::external_body]
pub(crate) fn view_strides(window: &Window<'_>) -> (strides: Vec<isize>)
    ensures
        strides@ == window_strides(*window),
{
    window.inner.strides().to_vec()
}

/// `ArrayBase::get` with a slice as index. Trusted: it returns the element at
/// the index where the index has one entry for each axis, each below the
/// extent of its axis, and `None` else.
#[verifier::external_body]
fn view_get(window: &Window<'_>, index: &[usize]) -> (found: Option<i64>)
    ensures
        found == if in_bounds(as_index(index@), window_shape(*window)) {
            Some(window_cells(*window)[as_index(index@)])
        } else {
            None
        },
{
    window.inner.get(index).copied()
}

/// `ArrayView::split_at`. Trusted: the two views keep the strides; the first
/// has extent `mid` along `axis` and starts where the window starts, the
/// second has the rest of that extent and starts `mid` steps further along
/// `axis`; so the first holds the elements whose index along `axis` is below
/// `mid` and the second the others, at that index less `mid`.
#[verifier::external_body]
pub(crate) fn view_split_at<'a>(window: Window<'a>, axis: usize, mid: usize) -> (halves: (
    Window<'a>,
    Window<'a>,
))
    requires
        window.wf(),
        cut_fits(window_shape(window), axis as int, mid as int),
    ensures
        window.cut_into(axis as int, mid as int, halves.0, halves.1),
{
    let (lower, upper) = window.inner.split_at(Axis(axis), mid);
    (Window { inner: lower }, Window { inner: upper })
}

/// `ArrayBase::view` on a read-write view. Trusted: the read-only view has
/// the same shape, strides and elements.
#[verifier::external_body]
pub(crate) fn view_of<'s>(window: &'s WindowMut<'_>) -> (frozen: Window<'s>)
    ensures
        window.seen_as(frozen),
{
    Window { inner: window.inner.view() }
}

/// `ArrayBase::mapv_inplace`. Trusted: it calls `f` once on each element, in
/// an order of its choosing, and puts what `f` returns in the element's
/// place; shape and strides stay.
#[verifier::external_body]
pub(crate) fn view_map<F: Fn(i64) -> i64>(window: &mut WindowMut<'_>, f: &F)
    requires
        total(f),
    ensures
        exclusive_shape(*final(window)) == exclusive_shape(*old(window)),
        exclusive_strides(*final(window)) == exclusive_strides(*old(window)),
        remapped(f, exclusive_cells(*old(window)), exclusive_cells(*final(window))),
{
    window.inner.mapv_inplace(f)
}

/// `ArrayBase::view_mut`, `ArrayViewMut::split_at` and `rayon::join`.
/// Trusted: the window is cut at `mid` along `axis` into two views that share
/// no element; `work` is called once on each, possibly on two workers, and
/// both calls have returned when this returns. The window keeps its shape and
/// strides, and what it then holds below the cut and from the cut on is what
/// the two views held when `work` returned.
#[verifier::external_body]
pub(crate) fn view_mut_on_halves<W>(window: &mut WindowMut<'_>, axis: usize, mid: usize, work: &W) where
    W: Fn(&mut WindowMut<'_>) + Sync,

    requires
        cut_fits(exclusive_shape(*old(window)), axis as int, mid as int),
        forall|half: &mut WindowMut<'_>|
            old(window).lower_half(axis as int, mid as int, *half) || old(window).upper_half(
                axis as int,
                mid as int,
                *half,
            ) ==> call_requires(*work, (half,)),
    ensures
        exclusive_shape(*final(window)) == exclusive_shape(*old(window)),
        exclusive_strides(*final(window)) == exclusive_strides(*old(window)),
        exclusive_cells(*final(window)).dom() == exclusive_cells(*old(window)).dom(),
        exists|lower: &mut WindowMut<'_>, upper: &mut WindowMut<'_>| #[trigger]
            old(window).worked(*final(window), axis as int, mid as int, work, lower, upper, *final(lower), *final(upper)),
{
    let (lower, upper) = window.inner.view_mut().split_at(Axis(axis), mid);
    let (mut lower, mut upper) = (WindowMut { inner: lower }, WindowMut { inner: upper });
    rayon::join(move || work(&mut lower), move || work(&mut upper));
}

} // verus!
