use parview::choose_axis;
use parview::plan;
use parview::Step;
use parview::Window;
use parview::SPLIT_SIZE;

#[test]
fn threshold_is_one_thousand() {
    assert_eq!(SPLIT_SIZE, 1000);
}

#[test]
fn choose_axis_prefers_the_largest_stride() {
    assert_eq!(choose_axis(&vec![1000, 1000], &vec![1000, 1]), Some(0));
    assert_eq!(choose_axis(&vec![1000, 1000], &vec![1, 1000]), Some(1));
    assert_eq!(choose_axis(&vec![2, 3, 4], &vec![12, 4, 1]), Some(0));
    assert_eq!(choose_axis(&vec![2, 3, 4], &vec![1, 8, 2]), Some(1));
}

#[test]
fn choose_axis_goes_by_absolute_stride() {
    assert_eq!(choose_axis(&vec![5, 5], &vec![-10, 3]), Some(0));
    assert_eq!(choose_axis(&vec![5, 5], &vec![3, -10]), Some(1));
    assert_eq!(choose_axis(&vec![5, 5, 5], &vec![7, isize::MIN, -8]), Some(1));
    assert_eq!(choose_axis(&vec![5, 5], &vec![isize::MIN, isize::MAX]), Some(1));
    assert_eq!(choose_axis(&vec![5, 5], &vec![isize::MAX, isize::MIN]), Some(1));
}

#[test]
fn choose_axis_skips_axes_of_length_one() {
    assert_eq!(choose_axis(&vec![1, 1000], &vec![1000, 1]), Some(1));
    assert_eq!(choose_axis(&vec![1, 7, 1], &vec![100, 1, 50]), Some(1));
    assert_eq!(choose_axis(&vec![0, 2], &vec![9, 1]), Some(1));
}

#[test]
fn choose_axis_takes_the_higher_axis_of_equal_strides() {
    assert_eq!(choose_axis(&vec![3, 3], &vec![5, 5]), Some(1));
    assert_eq!(choose_axis(&vec![3, 3, 1], &vec![5, -5, 5]), Some(1));
}

#[test]
fn choose_axis_finds_none_without_a_long_axis() {
    assert_eq!(choose_axis(&vec![], &vec![]), None);
    assert_eq!(choose_axis(&vec![1], &vec![1]), None);
    assert_eq!(choose_axis(&vec![1, 0, 1], &vec![3, 2, 1]), None);
}

#[test]
fn plan_keeps_small_windows_whole() {
    let data: Vec<i64> = vec![0; 1000];
    for (shape, strides) in [
        (vec![1000usize], vec![1isize]),
        (vec![10, 100], vec![100, 1]),
        (vec![10, 10, 10], vec![100, 10, 1]),
        (vec![1], vec![1]),
        (vec![0, 7], vec![7, 1]),
        (vec![], vec![]),
    ] {
        let window = Window::new(&shape, &strides, &data).unwrap();
        assert_eq!(plan(&window), Step::Whole);
    }
}

#[test]
fn plan_cuts_large_windows_in_the_middle() {
    let data: Vec<i64> = vec![0; 3003];
    let window = Window::new(&[1001], &[1], &data).unwrap();
    assert_eq!(plan(&window), Step::Cut { axis: 0, mid: 500 });
    let window = Window::new(&[3, 1001], &[1001, 1], &data).unwrap();
    assert_eq!(plan(&window), Step::Cut { axis: 0, mid: 1 });
    let window = Window::new(&[3, 1001], &[1, 3], &data).unwrap();
    assert_eq!(plan(&window), Step::Cut { axis: 1, mid: 500 });
    let window = Window::new(&[1, 1001, 1], &[1001, 1, 1], &data).unwrap();
    assert_eq!(plan(&window), Step::Cut { axis: 1, mid: 500 });
}

#[test]
fn window_shows_its_data_through_shape_and_strides() {
    let data: Vec<i64> = (0..12).collect();
    let window = Window::new(&[3, 4], &[4, 1], &data).unwrap();
    assert_eq!(window.shape(), vec![3, 4]);
    assert_eq!(window.get(&[0, 0]), Some(0));
    assert_eq!(window.get(&[1, 2]), Some(6));
    assert_eq!(window.get(&[2, 3]), Some(11));
    let turned = Window::new(&[4, 3], &[1, 4], &data).unwrap();
    assert_eq!(turned.shape(), vec![4, 3]);
    assert_eq!(turned.get(&[2, 1]), Some(6));
    assert_eq!(turned.get(&[3, 2]), Some(11));
    let sparse = Window::new(&[2, 2], &[8, 2], &data).unwrap();
    assert_eq!(sparse.get(&[1, 1]), Some(10));
}

#[test]
fn window_get_refuses_what_is_not_an_index() {
    let data: Vec<i64> = (0..12).collect();
    let window = Window::new(&[3, 4], &[4, 1], &data).unwrap();
    assert_eq!(window.get(&[3, 0]), None);
    assert_eq!(window.get(&[0, 4]), None);
    assert_eq!(window.get(&[1]), None);
    assert_eq!(window.get(&[1, 1, 0]), None);
    assert_eq!(window.get(&[]), None);
    let point = Window::new(&[], &[], &data).unwrap();
    assert_eq!(point.get(&[]), Some(0));
}
