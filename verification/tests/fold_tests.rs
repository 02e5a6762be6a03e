use ndarray::Array;
use parview::fold;
use parview::Local;
use parview::Shared;
use parview::Window;
use std::cell::Cell;
use std::rc::Rc;
use std::sync::atomic::AtomicUsize;
use std::sync::atomic::Ordering;

/// The sum of what a window of one or two axes holds.
fn region_sum(window: Window) -> i64 {
    let shape = window.shape();
    let mut sum = 0i64;
    if shape.len() == 1 {
        for i in 0..shape[0] {
            sum += window.get(&[i]).unwrap();
        }
    } else {
        for i in 0..shape[0] {
            for j in 0..shape[1] {
                sum += window.get(&[i, j]).unwrap();
            }
        }
    }
    sum
}

/// The sum of the floating-point values whose bit patterns a window of two
/// axes holds.
fn region_sum_of_values(window: Window) -> f64 {
    let shape = window.shape();
    let mut sum = 0f64;
    for i in 0..shape[0] {
        for j in 0..shape[1] {
            sum += f64::from_bits(window.get(&[i, j]).unwrap() as u64);
        }
    }
    sum
}

fn element_count(window: Window) -> usize {
    window.shape().iter().product()
}

#[test]
fn fold_parallel() {
    let (m, n) = (10000, 1000);
    // the points of a linear spacing between 0 and 1, in steps of 1 / (m n - 1)
    let spacing = Array::linspace(0f64, 1f64, m * n);
    let data: Vec<i64> = spacing.iter().map(|v| (v * ((m * n - 1) as f64)).round() as i64).collect();
    assert_eq!(data[0], 0);
    assert_eq!(data[m * n - 1], (m * n - 1) as i64);
    let window = Window::new(&[m, n], &[n as isize, 1], &data).unwrap();
    let total = fold(window, Shared(region_sum), Shared(|x: i64, y: i64| x + y));
    let expected: i64 = data.iter().sum();
    assert_eq!(total, expected);
    assert_eq!(total, 49_999_995_000_000);
}

#[test]
fn fold_not_parallel() {
    let (m, n) = (10000, 1000);
    let data: Vec<i64> = (0..(m * n) as i64).collect();
    let merges = Rc::new(Cell::new(0usize));
    let leaves = Rc::new(Cell::new(0usize));
    let (merged, called) = (merges.clone(), leaves.clone());
    let window = Window::new(&[m, n], &[n as isize, 1], &data).unwrap();
    let total = fold(
        window,
        Shared(region_sum),
        Local(move |x: i64, y: i64| {
            merged.set(merged.get() + 1);
            x + y
        }),
    );
    assert_eq!(total, 49_999_995_000_000);
    assert_eq!(merges.get(), 0);
    let window = Window::new(&[m, n], &[n as isize, 1], &data).unwrap();
    let count = fold(
        window,
        Local(move |w: Window| {
            called.set(called.get() + 1);
            element_count(w)
        }),
        Shared(|x: usize, y: usize| x + y),
    );
    assert_eq!(count, m * n);
    assert_eq!(leaves.get(), 1);
}

#[test]
fn fold_with_two_local_functions_calls_the_leaf_once() {
    let data: Vec<i64> = vec![2; 5000];
    let window = Window::new(&[5000], &[1], &data).unwrap();
    let sizes = fold(
        window,
        Local(|w: Window| vec![element_count(w)]),
        Local(|mut a: Vec<usize>, b: Vec<usize>| {
            a.extend(b);
            a
        }),
    );
    assert_eq!(sizes, vec![5000]);
}

#[test]
fn fold_keeps_a_window_of_threshold_size_whole() {
    let data: Vec<i64> = vec![1; 1001];
    let leaves = AtomicUsize::new(0);
    let at = Window::new(&[1000], &[1], &data).unwrap();
    let sizes = fold(
        at,
        Shared(|w: Window| {
            leaves.fetch_add(1, Ordering::Relaxed);
            vec![element_count(w)]
        }),
        Shared(|mut a: Vec<usize>, b: Vec<usize>| {
            a.extend(b);
            a
        }),
    );
    assert_eq!(sizes, vec![1000]);
    assert_eq!(leaves.load(Ordering::Relaxed), 1);
}

#[test]
fn fold_cuts_a_window_one_above_the_threshold() {
    let data: Vec<i64> = vec![1; 1001];
    let leaves = AtomicUsize::new(0);
    let above = Window::new(&[1001], &[1], &data).unwrap();
    let sizes = fold(
        above,
        Shared(|w: Window| {
            leaves.fetch_add(1, Ordering::Relaxed);
            vec![element_count(w)]
        }),
        Shared(|mut a: Vec<usize>, b: Vec<usize>| {
            a.extend(b);
            a
        }),
    );
    assert_eq!(sizes, vec![500, 501]);
    assert_eq!(leaves.load(Ordering::Relaxed), 2);
}

#[test]
fn fold_hands_the_lower_result_to_the_combiner_first() {
    let data: Vec<i64> = (0..4000).collect();
    let window = Window::new(&[4000], &[1], &data).unwrap();
    let firsts = fold(
        window,
        Shared(|w: Window| vec![(w.get(&[0]).unwrap(), element_count(w))]),
        Shared(|mut a: Vec<(i64, usize)>, b: Vec<(i64, usize)>| {
            a.extend(b);
            a
        }),
    );
    assert_eq!(firsts, vec![(0, 1000), (1000, 1000), (2000, 1000), (3000, 1000)]);
}

#[test]
fn fold_cuts_the_axis_with_the_largest_stride() {
    // 4 x 600 elements, the second axis lying farther apart in storage
    let data: Vec<i64> = (0..2400).collect();
    let window = Window::new(&[4, 600], &[1, 4], &data).unwrap();
    let parts = fold(
        window,
        Shared(|w: Window| vec![(w.shape(), w.get(&[0, 0]).unwrap())]),
        Shared(|mut a: Vec<(Vec<usize>, i64)>, b: Vec<(Vec<usize>, i64)>| {
            a.extend(b);
            a
        }),
    );
    assert_eq!(parts, vec![(vec![4, 150], 0), (vec![4, 150], 600), (vec![4, 150], 1200), (vec![4, 150], 1800)]);
    // the same elements in row-major order: now the first axis is cut
    let window = Window::new(&[4, 600], &[600, 1], &data).unwrap();
    let parts = fold(
        window,
        Shared(|w: Window| vec![(w.shape(), w.get(&[0, 0]).unwrap())]),
        Shared(|mut a: Vec<(Vec<usize>, i64)>, b: Vec<(Vec<usize>, i64)>| {
            a.extend(b);
            a
        }),
    );
    assert_eq!(parts, vec![(vec![1, 600], 0), (vec![1, 600], 600), (vec![1, 600], 1200), (vec![1, 600], 1800)]);
}

#[test]
fn fold_matches_a_single_pass() {
    let data: Vec<i64> = (0..123_457).map(|i| (i * 7919) % 10_007 - 5000).collect();
    let expected: i64 = data.iter().sum();
    for (shape, strides) in [
        (vec![123_457usize], vec![1isize]),
        (vec![1, 123_457], vec![123_457, 1]),
        (vec![411, 300], vec![300, 1]),
        (vec![300, 411], vec![1, 300]),
    ] {
        let window = Window::new(&shape, &strides, &data).unwrap();
        let in_window = region_sum(window);
        let window = Window::new(&shape, &strides, &data).unwrap();
        let total = fold(window, Shared(region_sum), Shared(|x: i64, y: i64| x + y));
        assert_eq!(total, in_window);
        if shape.iter().product::<usize>() == data.len() {
            assert_eq!(total, expected);
        }
    }
}

#[test]
fn fold_of_an_empty_window_is_the_leaf_of_it() {
    let data: Vec<i64> = vec![];
    let window = Window::new(&[0], &[1], &data).unwrap();
    let total = fold(window, Shared(region_sum), Shared(|x: i64, y: i64| x + y));
    assert_eq!(total, 0);
}

#[test]
fn fold_parallel_of_spaced_values() {
    let (m, n) = (10000, 1000);
    let spacing = Array::linspace(0f64, 1f64, m * n);
    let data: Vec<i64> = spacing.iter().map(|v| v.to_bits() as i64).collect();
    let window = Window::new(&[m, n], &[n as isize, 1], &data).unwrap();
    let total = fold(window, Shared(region_sum_of_values), Shared(|x: f64, y: f64| x + y));
    let expected: f64 = spacing.iter().sum();
    // the sums add the same values in another order: they agree up to rounding
    assert!((total - expected).abs() < 1e-6, "{} and {}", total, expected);
    assert!((total - 5_000_000.0).abs() < 1e-6, "{}", total);
    let window = Window::new(&[m, n], &[n as isize, 1], &data).unwrap();
    let whole = fold(window, Local(region_sum_of_values), Local(|x: f64, y: f64| x + y));
    assert_eq!(whole, expected);
}
