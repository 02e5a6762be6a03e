//! Multi-indices into a shaped, strided window: which indices a shape admits,
//! how many there are, where each one lies in storage, and how cutting one
//! axis in two divides them.

use vstd::prelude::*;

verus! {

/// `index` names one element of a window with the given `shape`.
pub open spec fn in_bounds(index: Seq<int>, shape: Seq<usize>) -> bool {
    &&& index.len() == shape.len()
    &&& forall|k: int| 0 <= k < shape.len() ==> 0 <= #[trigger] index[k] < shape[k]
}

/// All the indices that `shape` admits.
pub open spec fn indices(shape: Seq<usize>) -> Set<Seq<int>> {
    Set::new(|index: Seq<int>| in_bounds(index, shape))
}

/// The number of elements of a window with the given `shape`: the product of
/// its extents, which is 1 for a window without axes.
pub open spec fn count(shape: Seq<usize>) -> nat
    decreases shape.len(),
{
    if shape.len() == 0 {
        1
    } else {
        count(shape.drop_last()) * (shape.last() as nat)
    }
}

/// The distance in elements from the first element of a window to the one at
/// `index`, for the given per-axis `strides`.
pub open spec fn offset(index: Seq<int>, strides: Seq<isize>) -> int
    decreases index.len(),
{
    if index.len() == 0 {
        0
    } else {
        offset(index.drop_last(), strides) + index.last() * (strides[index.len() - 1] as int)
    }
}

/// No two indices of the window lie at the same place in storage.
pub open spec fn unaliased(shape: Seq<usize>, strides: Seq<isize>) -> bool {
    forall|a: Seq<int>, b: Seq<int>|
        in_bounds(a, shape) && in_bounds(b, shape) && #[trigger] offset(a, strides) == #[trigger] offset(
            b,
            strides,
        ) ==> a == b
}

/// Some index of the window lies `place` elements after its first element.
pub open spec fn reached(shape: Seq<usize>, strides: Seq<isize>, place: int) -> bool {
    exists|index: Seq<int>| in_bounds(index, shape) && #[trigger] offset(index, strides) == place
}

/// The number of elements of a window with the given `shape` if its axes
/// without elements are left out: the product of the extents that are not
/// zero.
pub open spec fn solid(shape: Seq<usize>) -> nat
    decreases shape.len(),
{
    if shape.len() == 0 {
        1
    } else if shape.last() == 0 {
        solid(shape.drop_last())
    } else {
        solid(shape.drop_last()) * (shape.last() as nat)
    }
}

/// Some axis has no elements, so the window has none.
pub open spec fn hollow(shape: Seq<usize>) -> bool {
    exists|k: int| 0 <= k < shape.len() && #[trigger] shape[k] == 0
}

/// How far the last element along an axis lies from the first, for a stride
/// that is not negative: nothing on an axis of no or one element.
pub open spec fn reach(extent: usize, stride: isize) -> int {
    if extent == 0 {
        0
    } else {
        (extent - 1) * (stride as int)
    }
}

/// How far the last element of a window lies from its first, for strides that
/// are not negative: the reaches of its axes, added up.
pub open spec fn span(shape: Seq<usize>, strides: Seq<isize>) -> int
    decreases shape.len(),
{
    if shape.len() == 0 {
        0
    } else {
        span(shape.drop_last(), strides) + reach(shape.last(), strides[shape.len() - 1])
    }
}

/// A window with the given extents and strides, none of them negative, can be
/// laid over `len` elements of eight bytes each: its elements, counted
/// without the empty axes, and the bytes that it spans are no more than an
/// `isize` holds, and its last element lies among the `len`. (A window
/// without elements may end right behind them.)
pub open spec fn fits(shape: Seq<usize>, strides: Seq<isize>, len: nat) -> bool {
    &&& solid(shape) <= isize::MAX
    &&& span(shape, strides) * 8 <= isize::MAX
    &&& if hollow(shape) {
        span(shape, strides) <= len
    } else {
        span(shape, strides) < len
    }
}

/// Axis `j` varies faster than axis `k`: it has the smaller stride, or the
/// same and the lower number.
pub open spec fn faster(strides: Seq<isize>, j: int, k: int) -> bool {
    strides[j] < strides[k] || (strides[j] == strides[k] && j < k)
}

/// The reaches, added up, of those of the first `n` axes that are longer than
/// one and vary faster than axis `k`.
pub open spec fn span_below(shape: Seq<usize>, strides: Seq<isize>, k: int, n: int) -> int
    decreases n,
{
    if n <= 0 {
        0
    } else if shape[n - 1] > 1 && faster(strides, n - 1, k) {
        span_below(shape, strides, k, n - 1) + reach(shape[n - 1], strides[n - 1])
    } else {
        span_below(shape, strides, k, n - 1)
    }
}

/// The axes do not run into each other: one step along an axis longer than
/// one leads farther than all the axes that vary faster reach together.
pub open spec fn packed(shape: Seq<usize>, strides: Seq<isize>) -> bool {
    forall|k: int|
        0 <= k < shape.len() && #[trigger] shape[k] > 1 ==> strides[k] > span_below(
            shape,
            strides,
            k,
            shape.len() as int,
        )
}

/// A window with the given extents and strides can be laid over `len`
/// elements for writing: it fits, and if it has elements its axes do not run
/// into each other.
pub open spec fn fits_exclusive(shape: Seq<usize>, strides: Seq<isize>, len: nat) -> bool {
    fits(shape, strides, len) && (hollow(shape) || packed(shape, strides))
}

/// A cut of `axis` at `mid` leaves both halves inside the window.
pub open spec fn cut_fits(shape: Seq<usize>, axis: int, mid: int) -> bool {
    0 <= axis < shape.len() && 0 <= mid <= shape[axis]
}

/// The shape of the half below the cut: `mid` along `axis`.
pub open spec fn lower_shape(shape: Seq<usize>, axis: int, mid: int) -> Seq<usize> {
    shape.update(axis, mid as usize)
}

/// The shape of the half above the cut: what is left of `axis` after `mid`.
pub open spec fn upper_shape(shape: Seq<usize>, axis: int, mid: int) -> Seq<usize> {
    shape.update(axis, (shape[axis] - mid) as usize)
}

/// The index in the whole window of the element that the upper half has at
/// `index`.
pub open spec fn raised(index: Seq<int>, axis: int, mid: int) -> Seq<int> {
    index.update(axis, index[axis] + mid)
}

/// The index in the upper half of the element that the whole window has at
/// `index`.
pub open spec fn lowered(index: Seq<int>, axis: int, mid: int) -> Seq<int> {
    index.update(axis, index[axis] - mid)
}

/// What the half below the cut holds, given what the whole window holds.
pub open spec fn lower_cells(
    cells: Map<Seq<int>, i64>,
    shape: Seq<usize>,
    axis: int,
    mid: int,
) -> Map<Seq<int>, i64> {
    Map::new(|index: Seq<int>| in_bounds(index, lower_shape(shape, axis, mid)), |index: Seq<int>| cells[index])
}

/// What the half above the cut holds, given what the whole window holds.
pub open spec fn upper_cells(
    cells: Map<Seq<int>, i64>,
    shape: Seq<usize>,
    axis: int,
    mid: int,
) -> Map<Seq<int>, i64> {
    Map::new(
        |index: Seq<int>| in_bounds(index, upper_shape(shape, axis, mid)),
        |index: Seq<int>| cells[raised(index, axis, mid)],
    )
}

/// Replacing one extent scales the element count in proportion.
pub proof fn lemma_count_update(shape: Seq<usize>, axis: int, extent: usize)
    requires
        0 <= axis < shape.len(),
    ensures
        count(shape.update(axis, extent)) * shape[axis] == count(shape) * extent,
    decreases shape.len(),
{
    let changed = shape.update(axis, extent);
    let rest = count(shape.drop_last()) as int;
    if axis == shape.len() - 1 {
        assert(changed.drop_last() =~= shape.drop_last());
        assert(rest * extent * shape[axis] == rest * shape[axis] * extent) by (nonlinear_arith);
    } else {
        assert(changed.drop_last() =~= shape.drop_last().update(axis, extent));
        assert(shape.drop_last()[axis] == shape[axis]);
        lemma_count_update(shape.drop_last(), axis, extent);
        let inner = count(changed.drop_last()) as int;
        let last = shape.last() as int;
        let old = shape[axis] as int;
        let new = extent as int;
        assert(inner * old == rest * new);
        assert((inner * last) * old == (rest * last) * new) by (nonlinear_arith)
            requires
                inner * old == rest * new,
        ;
    }
}

/// A window of more than one element has an axis longer than one.
pub proof fn lemma_count_needs_axis(shape: Seq<usize>)
    requires
        count(shape) > 1,
    ensures
        exists|k: int| 0 <= k < shape.len() && #[trigger] shape[k] > 1,
    decreases shape.len(),
{
    if shape.len() > 0 {
        let front = shape.drop_last();
        let a = count(front) as int;
        let b = shape.last() as int;
        if b > 1 {
            assert(shape[shape.len() - 1] > 1);
        } else {
            assert(a * b > 1 ==> a > 1) by (nonlinear_arith)
                requires
                    a >= 0,
                    0 <= b <= 1,
            ;
            lemma_count_needs_axis(front);
            let k = choose|k: int| 0 <= k < front.len() && #[trigger] front[k] > 1;
            assert(shape[k] == front[k]);
        }
    }
}

/// A cut strictly inside an axis of a window that has elements leaves two
/// halves, each with fewer elements than the window, that share its elements
/// between them.
pub proof fn lemma_halves_count(shape: Seq<usize>, axis: int, mid: int)
    requires
        0 <= axis < shape.len(),
        0 < mid < shape[axis],
        count(shape) > 0,
    ensures
        0 < count(lower_shape(shape, axis, mid)) < count(shape),
        0 < count(upper_shape(shape, axis, mid)) < count(shape),
        count(lower_shape(shape, axis, mid)) + count(upper_shape(shape, axis, mid)) == count(shape),
{
    let whole = count(shape) as int;
    let extent = shape[axis] as int;
    let lo = count(lower_shape(shape, axis, mid)) as int;
    let hi = count(upper_shape(shape, axis, mid)) as int;
    lemma_count_update(shape, axis, mid as usize);
    lemma_count_update(shape, axis, (extent - mid) as usize);
    assert(lo * extent == whole * mid);
    assert(hi * extent == whole * (extent - mid));
    assert(0 < lo < whole && 0 < hi < whole && lo + hi == whole) by (nonlinear_arith)
        requires
            lo * extent == whole * mid,
            hi * extent == whole * (extent - mid),
            0 < mid < extent,
            whole > 0,
            lo >= 0,
            hi >= 0,
    ;
}

/// Moving an index up along one axis moves its place in storage by that many
/// strides.
pub proof fn lemma_offset_raised(index: Seq<int>, strides: Seq<isize>, axis: int, mid: int)
    requires
        0 <= axis < index.len(),
    ensures
        offset(raised(index, axis, mid), strides) == offset(index, strides) + mid * (strides[axis] as int),
    decreases index.len(),
{
    let moved = raised(index, axis, mid);
    let stride = strides[index.len() - 1] as int;
    if axis == index.len() - 1 {
        assert(moved.drop_last() =~= index.drop_last());
        assert((index.last() + mid) * stride == index.last() * stride + mid * stride) by (nonlinear_arith);
    } else {
        assert(moved.drop_last() =~= raised(index.drop_last(), axis, mid));
        lemma_offset_raised(index.drop_last(), strides, axis, mid);
    }
}

/// Every index of the lower half is an index of the whole window.
pub proof fn lemma_lower_in_bounds(shape: Seq<usize>, axis: int, mid: int, index: Seq<int>)
    requires
        cut_fits(shape, axis, mid),
        in_bounds(index, lower_shape(shape, axis, mid)),
    ensures
        in_bounds(index, shape),
        index[axis] < mid,
{
    let half = lower_shape(shape, axis, mid);
    assert forall|k: int| 0 <= k < shape.len() implies 0 <= #[trigger] index[k] < shape[k] by {
        assert(0 <= index[k] < half[k]);
    }
    assert(0 <= index[axis] < half[axis]);
}

/// Every index of the upper half, raised by the cut, is an index of the
/// whole window at or above the cut.
pub proof fn lemma_upper_in_bounds(shape: Seq<usize>, axis: int, mid: int, index: Seq<int>)
    requires
        cut_fits(shape, axis, mid),
        in_bounds(index, upper_shape(shape, axis, mid)),
    ensures
        in_bounds(raised(index, axis, mid), shape),
        raised(index, axis, mid)[axis] >= mid,
        lowered(raised(index, axis, mid), axis, mid) == index,
{
    let half = upper_shape(shape, axis, mid);
    let up = raised(index, axis, mid);
    assert forall|k: int| 0 <= k < shape.len() implies 0 <= #[trigger] up[k] < shape[k] by {
        assert(0 <= index[k] < half[k]);
    }
    assert(0 <= index[axis] < half[axis]);
    assert(lowered(up, axis, mid) =~= index);
}

/// Every index of the whole window belongs to one of the halves: to the lower
/// one as it is, if it lies below the cut, and else to the upper one, lowered
/// by the cut.
pub proof fn lemma_halves_cover(shape: Seq<usize>, axis: int, mid: int, index: Seq<int>)
    requires
        cut_fits(shape, axis, mid),
        in_bounds(index, shape),
    ensures
        index[axis] < mid ==> in_bounds(index, lower_shape(shape, axis, mid)),
        index[axis] >= mid ==> in_bounds(lowered(index, axis, mid), upper_shape(shape, axis, mid)),
        raised(lowered(index, axis, mid), axis, mid) == index,
{
    let lo = lower_shape(shape, axis, mid);
    let hi = upper_shape(shape, axis, mid);
    let down = lowered(index, axis, mid);
    if index[axis] < mid {
        assert forall|k: int| 0 <= k < lo.len() implies 0 <= #[trigger] index[k] < lo[k] by {
            assert(0 <= index[k] < shape[k]);
        }
    } else {
        assert forall|k: int| 0 <= k < hi.len() implies 0 <= #[trigger] down[k] < hi[k] by {
            assert(0 <= index[k] < shape[k]);
        }
    }
    assert(raised(down, axis, mid) =~= index);
}

/// The halves of a window that does not alias itself do not alias
/// themselves.
pub proof fn lemma_halves_unaliased(shape: Seq<usize>, strides: Seq<isize>, axis: int, mid: int)
    requires
        cut_fits(shape, axis, mid),
        unaliased(shape, strides),
    ensures
        unaliased(lower_shape(shape, axis, mid), strides),
        unaliased(upper_shape(shape, axis, mid), strides),
{
    let lo = lower_shape(shape, axis, mid);
    let hi = upper_shape(shape, axis, mid);
    assert forall|a: Seq<int>, b: Seq<int>|
        in_bounds(a, lo) && in_bounds(b, lo) && #[trigger] offset(a, strides) == #[trigger] offset(
            b,
            strides,
        ) implies a == b by {
        lemma_lower_in_bounds(shape, axis, mid, a);
        lemma_lower_in_bounds(shape, axis, mid, b);
    }
    assert forall|a: Seq<int>, b: Seq<int>|
        in_bounds(a, hi) && in_bounds(b, hi) && #[trigger] offset(a, strides) == #[trigger] offset(
            b,
            strides,
        ) implies a == b by {
        lemma_upper_in_bounds(shape, axis, mid, a);
        lemma_upper_in_bounds(shape, axis, mid, b);
        lemma_offset_raised(a, strides, axis, mid);
        lemma_offset_raised(b, strides, axis, mid);
        assert(raised(a, axis, mid) == raised(b, axis, mid));
    }
}

/// The two halves of a cut have no element in common: an index of the lower
/// half and an index of the upper half never name the same index of the whole
/// window, and in a window that does not alias itself they never lie at the
/// same place in storage, the upper half starting `mid` strides after the
/// lower one.
pub proof fn lemma_halves_disjoint(
    shape: Seq<usize>,
    strides: Seq<isize>,
    axis: int,
    mid: int,
    below: Seq<int>,
    above: Seq<int>,
)
    requires
        cut_fits(shape, axis, mid),
        in_bounds(below, lower_shape(shape, axis, mid)),
        in_bounds(above, upper_shape(shape, axis, mid)),
    ensures
        below != raised(above, axis, mid),
        unaliased(shape, strides) ==> offset(below, strides) != mid * (strides[axis] as int) + offset(
            above,
            strides,
        ),
{
    lemma_lower_in_bounds(shape, axis, mid, below);
    lemma_upper_in_bounds(shape, axis, mid, above);
    lemma_offset_raised(above, strides, axis, mid);
}

} // verus!
