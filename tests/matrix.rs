use mat2::matrix::Mat2;

fn three_by_three() -> Mat2<i64> {
    Mat2::from_vec(vec![vec![1i64, 2, 3], vec![4, 5, 6], vec![7, 8, 9]]).unwrap()
}

#[test]
fn test_cons() {
    let x: Mat2<i64> = Mat2::new(3, 2);

    let y: Option<Mat2<i64>> = Mat2::from_vec(vec![]);
    assert_eq!(y, None);

    let z: Mat2<i64> = Mat2::new_with(3, 2, |_, _| 0);
    assert_eq!(x, z);
}

#[test]
fn test_get_dimension() {
    let x: Mat2<i64> = Mat2::from_vec(vec![vec![1, 2], vec![3, 4]]).unwrap();
    assert_eq!(x.get_dimension(), (2, 2));
}

#[test]
fn test_swap_rows() {
    let mut x = three_by_three();
    x.swap_rows(0, 1);
    assert!(x.get_row(0) == &[4, 5, 6]);
    assert!(x.get_row(1) == &[1, 2, 3]);
    assert!(x.get_row(2) == &[7, 8, 9]);
}

#[test]
fn test_get_row() {
    let x = three_by_three();
    assert!(x.get_row(0) == &[1, 2, 3]);
    assert!(x.get_row_opt(3) == None);
}

#[test]
fn test_add_column() {
    let mut x = three_by_three();
    x.add_column(vec![0, 0, 0]);
    assert!(x.get_row(0) == &[1, 2, 3, 0]);
}

#[test]
fn test_row_iter() {
    let x = three_by_three();
    let mut it = x.row_iter();
    assert_eq!(it.next().unwrap(), &[1, 2, 3]);
    assert_eq!(it.next().unwrap(), &[4, 5, 6]);
    assert_eq!(it.next().unwrap(), &[7, 8, 9]);
    assert_eq!(it.next(), None);
}

#[test]
fn test_scale_row() {
    let mut x = Mat2::from_vec(vec![vec![1i64, 1, 1]]).unwrap();
    x.scale_row(0, 3);
    assert!(x.get_row(0) == &[3, 3, 3]);
}

#[test]
fn test_add_scaled() {
    let mut x = three_by_three();
    x.add_scaled(0, 1, 1);
    assert!(x.get_row(0) == &[1, 2, 3]);
    assert!(x.get_row(1) == &[5, 7, 9]);
}

#[test]
fn new_has_dimensions_and_default_elements() {
    let x: Mat2<i64> = Mat2::new(4, 3);
    assert_eq!(x.get_dimension(), (3, 4));
    for i in 0..4 {
        assert_eq!(x.get_row(i), &[0, 0, 0]);
    }
    let b: Mat2<bool> = Mat2::new(2, 5);
    assert_eq!(b.get_dimension(), (5, 2));
    assert_eq!(b.get_row(1), &[false; 5]);
}

#[test]
fn new_with_degenerate_dimensions() {
    let x: Mat2<i64> = Mat2::new(0, 3);
    assert_eq!(x.get_dimension(), (3, 0));
    assert_eq!(x.get_row_opt(0), None);
    let y: Mat2<i64> = Mat2::new(2, 0);
    assert_eq!(y.get_dimension(), (0, 2));
    assert_eq!(y.get_row(1), &[] as &[i64]);
}

#[test]
fn new_with_passes_row_then_column() {
    let x: Mat2<usize> = Mat2::new_with(2, 3, |i, j| 10 * i + j);
    assert_eq!(x.get_dimension(), (3, 2));
    assert_eq!(x.get_row(0), &[0, 1, 2]);
    assert_eq!(x.get_row(1), &[10, 11, 12]);
}

#[test]
fn from_vec_rejects_ragged_rows() {
    let x: Option<Mat2<i64>> = Mat2::from_vec(vec![vec![1, 2], vec![3, 4, 5]]);
    assert_eq!(x, None);
    let y: Option<Mat2<i64>> = Mat2::from_vec(vec![vec![1, 2, 3], vec![4, 5, 6], vec![7]]);
    assert_eq!(y, None);
}

#[test]
fn from_vec_equals_new_with_on_same_values() {
    let a = three_by_three();
    let b: Mat2<i64> = Mat2::new_with(3, 3, |i, j| (3 * i + j + 1) as i64);
    assert_eq!(a, b);
    assert_eq!(a.get_dimension(), (3, 3));
}

#[test]
fn from_vec_of_empty_rows() {
    let x: Mat2<i64> = Mat2::from_vec(vec![vec![], vec![]]).unwrap();
    assert_eq!(x.get_dimension(), (0, 2));
}

#[test]
fn swap_rows_twice_restores() {
    let original = three_by_three();
    let mut x = three_by_three();
    x.swap_rows(0, 2);
    assert_ne!(x, original);
    x.swap_rows(0, 2);
    assert_eq!(x, original);
    x.swap_rows(1, 1);
    assert_eq!(x, original);
}

#[test]
fn get_row_opt_matches_get_row() {
    let x = three_by_three();
    for i in 0..3 {
        assert_eq!(x.get_row_opt(i), Some(x.get_row(i)));
    }
    assert_eq!(x.get_row_opt(3), None);
    assert_eq!(x.get_row_opt(usize::MAX), None);
}

#[test]
fn add_column_grows_every_row() {
    let mut x = three_by_three();
    x.add_column(vec![10, 11, 12]);
    assert_eq!(x.get_dimension(), (4, 3));
    assert_eq!(x.get_row(0), &[1, 2, 3, 10]);
    assert_eq!(x.get_row(1), &[4, 5, 6, 11]);
    assert_eq!(x.get_row(2), &[7, 8, 9, 12]);
}

#[test]
fn set_row_replaces_one_row() {
    let mut x = three_by_three();
    x.set_row(1, vec![0, -1, -2]);
    assert_eq!(x.get_row(0), &[1, 2, 3]);
    assert_eq!(x.get_row(1), &[0, -1, -2]);
    assert_eq!(x.get_row(2), &[7, 8, 9]);
    assert_eq!(x.get_dimension(), (3, 3));
}

#[test]
fn row_iter_restarts_from_new_iterator() {
    let x = three_by_three();
    let mut first = Vec::new();
    let mut it = x.row_iter();
    while let Some(r) = it.next() {
        first.push(r.to_vec());
    }
    assert_eq!(it.next(), None);
    let mut second = Vec::new();
    let mut it2 = x.row_iter();
    while let Some(r) = it2.next() {
        second.push(r.to_vec());
    }
    assert_eq!(first, vec![vec![1, 2, 3], vec![4, 5, 6], vec![7, 8, 9]]);
    assert_eq!(first, second);
}

#[test]
fn row_iter_on_no_rows() {
    let x: Mat2<i64> = Mat2::new(0, 4);
    let mut it = x.row_iter();
    assert_eq!(it.next(), None);
}

#[test]
fn scale_row_leaves_other_rows() {
    let mut x = three_by_three();
    x.scale_row(2, -2);
    assert_eq!(x.get_row(0), &[1, 2, 3]);
    assert_eq!(x.get_row(1), &[4, 5, 6]);
    assert_eq!(x.get_row(2), &[-14, -16, -18]);
}

#[test]
fn add_scaled_with_factor() {
    let mut x = three_by_three();
    x.add_scaled(2, 0, -2);
    assert_eq!(x.get_row(0), &[-13, -14, -15]);
    assert_eq!(x.get_row(2), &[7, 8, 9]);
    let mut y = three_by_three();
    y.add_scaled(1, 1, 2);
    assert_eq!(y.get_row(1), &[12, 15, 18]);
}

#[test]
fn equality_laws() {
    let a = three_by_three();
    let b = three_by_three();
    let c: Mat2<i64> = Mat2::new_with(3, 3, |i, j| (3 * i + j + 1) as i64);
    assert!(a == a);
    assert!(a == b && b == a);
    assert!(a == b && b == c && a == c);
}

#[test]
fn equality_fails_on_any_difference() {
    let a = three_by_three();
    let mut b = three_by_three();
    b.set_row(2, vec![7, 8, 10]);
    assert!(a != b);
    let c: Mat2<i64> = Mat2::from_vec(vec![vec![1, 2, 3], vec![4, 5, 6]]).unwrap();
    assert!(a != c);
    let d: Mat2<i64> = Mat2::new(0, 3);
    let e: Mat2<i64> = Mat2::new(0, 2);
    assert!(d != e);
    let f: Mat2<i64> = Mat2::new(2, 0);
    let g: Mat2<i64> = Mat2::new(3, 0);
    assert!(f != g);
}
