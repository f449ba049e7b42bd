use screenmix::matrix::Matrix;

#[test]
fn gen_test() {
    let m = Matrix::generate(2, 3, |i, j| (i, j));
    assert_eq!(m.data, vec![(0, 0), (1, 0), (0, 1), (1, 1), (0, 2), (1, 2)]);
}

#[test]
fn get_test() {
    let m = Matrix::generate(2, 3, |i, j| (i, j));
    assert_eq!(m.get(1, 1), Some((1, 1)));
    assert_eq!(m.get(2, 1), None);
    assert_eq!(m.get(0, 3), None);
}

#[test]
fn get_ref_test() {
    let m = Matrix::generate(2, 3, |i, j| (i, j));
    assert_eq!(m.get_ref(1, 1), Some(&(1, 1)));
    assert_eq!(m.get_ref(2, 1), None);
    assert_eq!(m.get_ref(0, 3), None);
}

#[test]
fn put_test() {
    let mut m = Matrix::generate(2, 3, |i, j| (i, j));
    assert_eq!(m.put(1, 1, (5, 5)), true);
    assert_eq!(m.get(1, 1), Some((5, 5)));
}

#[test]
fn fill_test() {
    let m = Matrix::fill(1, 2, true);
    assert_eq!(m.data, vec![true, true]);
}

#[test]
fn get_column_test() {
    let m = Matrix::generate(2, 3, |i, j| (i, j));
    let v = m.get_column(1);
    assert_eq!(v, vec![(1, 0), (1, 1), (1, 2)]);
}

#[test]
fn put_out_of_range_is_noop() {
    let mut m = Matrix::fill(2, 2, 7u8);
    assert_eq!(m.put(2, 0, 9), false);
    assert_eq!(m.put(0, 2, 9), false);
    assert_eq!(m.data, vec![7, 7, 7, 7]);
}

#[test]
fn valid_checks_both_axes() {
    let m = Matrix::fill(2, 3, 0u8);
    assert!(m.valid(1, 2));
    assert!(!m.valid(2, 0));
    assert!(!m.valid(0, 3));
}

#[test]
fn new_and_get_row() {
    let m = Matrix::new(3, 2, vec![1, 2, 3, 4, 5, 6]);
    assert_eq!(m.get_row(0), vec![1, 2, 3]);
    assert_eq!(m.get_row(1), vec![4, 5, 6]);
}
