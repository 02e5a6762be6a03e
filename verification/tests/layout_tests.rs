use parview::apply;
use parview::Shared;
use parview::Window;
use parview::WindowMut;

const MAX: i128 = isize::MAX as i128;

fn span(shape: &[usize], strides: &[isize]) -> i128 {
    let mut sum = 0i128;
    for k in 0..shape.len() {
        if shape[k] > 0 {
            sum += (shape[k] as i128 - 1) * strides[k] as i128;
        }
    }
    sum
}

fn hollow(shape: &[usize]) -> bool {
    shape.iter().any(|d| *d == 0)
}

fn fits(shape: &[usize], strides: &[isize], len: usize) -> bool {
    let mut solid = 1i128;
    for d in shape {
        if *d != 0 {
            solid *= *d as i128;
            if solid > MAX {
                return false;
            }
        }
    }
    let span = span(shape, strides);
    span * 8 <= MAX && if hollow(shape) { span <= len as i128 } else { span < len as i128 }
}

fn packed(shape: &[usize], strides: &[isize]) -> bool {
    for k in 0..shape.len() {
        if shape[k] > 1 {
            let mut below = 0i128;
            for j in 0..shape.len() {
                let faster = strides[j] < strides[k] || (strides[j] == strides[k] && j < k);
                if shape[j] > 1 && faster {
                    below += (shape[j] as i128 - 1) * strides[j] as i128;
                }
            }
            if strides[k] as i128 <= below {
                return false;
            }
        }
    }
    true
}

fn readable(shape: &[usize], strides: &[isize], len: usize) -> bool {
    shape.len() == strides.len() && strides.iter().all(|s| *s >= 0) && fits(shape, strides, len)
}

fn writable(shape: &[usize], strides: &[isize], len: usize) -> bool {
    readable(shape, strides, len) && (hollow(shape) || packed(shape, strides))
}

/// Every list of `rank` values below `bound`.
fn lists(rank: usize, bound: usize) -> Vec<Vec<usize>> {
    let mut all = vec![vec![]];
    for _ in 0..rank {
        let mut longer = Vec::new();
        for list in &all {
            for value in 0..bound {
                let mut next = list.clone();
                next.push(value);
                longer.push(next);
            }
        }
        all = longer;
    }
    all
}

#[test]
fn window_new_accepts_exactly_the_layouts_that_fit() {
    let data: Vec<i64> = (0..9).collect();
    let mut accepted = 0;
    for rank in 0..=3 {
        for shape in lists(rank, 4) {
            for steps in lists(rank, 5) {
                let strides: Vec<isize> = steps.iter().map(|s| *s as isize).collect();
                for len in 0..=data.len() {
                    let made = Window::new(&shape, &strides, &data[..len]);
                    assert_eq!(made.is_some(), readable(&shape, &strides, len), "{:?} {:?} {}", shape, strides, len);
                    if made.is_some() {
                        accepted += 1;
                    }
                }
            }
        }
    }
    assert!(accepted > 1000);
}

#[test]
fn window_new_shows_the_data_wherever_it_accepts() {
    let data: Vec<i64> = (100..109).collect();
    for shape in lists(2, 4) {
        for steps in lists(2, 5) {
            let strides: Vec<isize> = steps.iter().map(|s| *s as isize).collect();
            if let Some(window) = Window::new(&shape, &strides, &data) {
                assert_eq!(window.shape(), shape);
                for i in 0..shape[0] {
                    for j in 0..shape[1] {
                        assert_eq!(window.get(&[i, j]), Some(data[i * steps[0] + j * steps[1]]));
                    }
                }
            }
        }
    }
}

#[test]
fn enter_accepts_exactly_the_layouts_that_fit_without_overlap() {
    let start: Vec<i64> = (0..9).collect();
    let mut accepted = 0;
    for rank in 0..=3 {
        for shape in lists(rank, 4) {
            for steps in lists(rank, 5) {
                let strides: Vec<isize> = steps.iter().map(|s| *s as isize).collect();
                for len in 0..=start.len() {
                    let mut data = start.clone();
                    let entered = WindowMut::enter(&shape, &strides, &mut data[..len], |window| {
                        apply(window, Shared(|x: i64| x + 100))
                    });
                    let expected = writable(&shape, &strides, len);
                    assert_eq!(entered, expected, "{:?} {:?} {}", shape, strides, len);
                    // each place that an index reaches was bumped once, the others are as they were
                    let mut reached = vec![false; start.len()];
                    if entered && !hollow(&shape) {
                        for index in lists(rank, 4) {
                            if (0..rank).all(|k| index[k] < shape[k]) {
                                reached[(0..rank).map(|k| index[k] * steps[k]).sum::<usize>()] = true;
                            }
                        }
                        accepted += 1;
                    }
                    for place in 0..start.len() {
                        let bump = if reached[place] { 100 } else { 0 };
                        assert_eq!(data[place], start[place] + bump, "{:?} {:?} {}", shape, strides, len);
                    }
                }
            }
        }
    }
    assert!(accepted > 500);
}

#[test]
fn window_new_refuses_what_is_no_layout() {
    let data: Vec<i64> = (0..12).collect();
    assert!(Window::new(&[3, 4], &[4], &data).is_none());
    assert!(Window::new(&[3], &[4, 1], &data).is_none());
    assert!(Window::new(&[3, 4], &[4, -1], &data).is_none());
    assert!(Window::new(&[3, 4], &[-4, 1], &data).is_none());
    assert!(Window::new(&[1], &[-1], &data).is_none());
}

#[test]
fn window_new_goes_by_the_last_element() {
    let data: Vec<i64> = (0..12).collect();
    // the last element lies 2 * 4 + 3 * 1 = 11 after the first
    assert!(Window::new(&[3, 4], &[4, 1], &data).is_some());
    assert!(Window::new(&[3, 4], &[4, 1], &data[..11]).is_none());
    // a window without elements may end right behind the data
    assert!(Window::new(&[0, 5], &[5, 1], &data[..4]).is_some());
    assert!(Window::new(&[0, 5], &[5, 1], &data[..3]).is_none());
    // a window without axes has one element
    assert!(Window::new(&[], &[], &data[..1]).is_some());
    assert!(Window::new(&[], &[], &data[..0]).is_none());
}

#[test]
fn window_new_counts_the_extents_that_are_not_zero() {
    let data: Vec<i64> = vec![];
    let most = isize::MAX as usize;
    assert!(Window::new(&[most, 0], &[0, 0], &data).is_some());
    assert!(Window::new(&[most + 1, 0], &[0, 0], &data).is_none());
    assert!(Window::new(&[0, most / 2, 2], &[0, 0, 0], &data).is_some());
    assert!(Window::new(&[0, most / 2 + 1, 2], &[0, 0, 0], &data).is_none());
    assert!(Window::new(&[usize::MAX, usize::MAX, 0], &[0, 0, 0], &data).is_none());
}

#[test]
fn enter_goes_by_the_axes_in_order_of_their_strides() {
    let bump = |window: &mut WindowMut| apply(window, Shared(|x: i64| x + 1));
    let mut data: Vec<i64> = vec![0; 12];
    assert!(WindowMut::enter(&[2, 2], &[1, 2], &mut data, bump));
    assert!(WindowMut::enter(&[2, 2], &[2, 1], &mut data, bump));
    // two axes of equal stride run into each other
    assert!(!WindowMut::enter(&[2, 2], &[1, 1], &mut data, bump));
    assert!(!WindowMut::enter(&[2, 2], &[3, 3], &mut data, bump));
    // an axis of one element has no stride to speak of
    assert!(WindowMut::enter(&[1, 3], &[0, 1], &mut data, bump));
    assert!(WindowMut::enter(&[3, 1, 1], &[1, 1, 1], &mut data, bump));
    // an axis longer than one cannot stand still
    assert!(!WindowMut::enter(&[3], &[0], &mut data, bump));
    // one step along the slower axis has to pass the faster one
    assert!(WindowMut::enter(&[3, 4], &[4, 1], &mut data, bump));
    assert!(!WindowMut::enter(&[3, 4], &[3, 1], &mut data, bump));
    assert!(!WindowMut::enter(&[3, 4], &[2, 1], &mut data, bump));
    assert!(WindowMut::enter(&[3, 2], &[1, 3], &mut data, bump));
    assert!(!WindowMut::enter(&[3, 2], &[1, 2], &mut data, bump));
    // a window without elements is empty whatever its strides
    assert!(WindowMut::enter(&[0, 3], &[0, 0], &mut data, bump));
}
