use vj_kernel::init::init_matrix_sequential;
use vj_kernel::matrix::{matrices_equal, Matrix};

#[test]
fn zeros_is_all_zero() {
    let m = Matrix::zeros(6);
    assert_eq!(m.dim(), 6);
    for p in 0..36 {
        assert_eq!(m.flat(p), 0);
    }
}

#[test]
fn get_reads_row_major() {
    let m = Matrix::from_flat(3, vec![1, 2, 3, 4, 5, 6, 7, 8, 9]);
    assert_eq!(m.get(0, 0), 1);
    assert_eq!(m.get(0, 2), 3);
    assert_eq!(m.get(1, 0), 4);
    assert_eq!(m.get(2, 1), 8);
}

#[test]
fn set_flat_overwrites_one_cell() {
    let mut m = Matrix::zeros(2);
    m.set_flat(2, -5);
    assert_eq!(m.flat(0), 0);
    assert_eq!(m.flat(1), 0);
    assert_eq!(m.flat(2), -5);
    assert_eq!(m.flat(3), 0);
}

#[test]
fn matrices_equal_detects_equality_and_difference() {
    let a = Matrix::from_flat(2, vec![1, 2, 3, 4]);
    let b = Matrix::from_flat(2, vec![1, 2, 3, 4]);
    let c = Matrix::from_flat(2, vec![1, 2, 9, 4]);
    assert!(matrices_equal(&a, &b));
    assert!(!matrices_equal(&a, &c));
    let d = Matrix::zeros(3);
    let e = Matrix::zeros(2);
    assert!(!matrices_equal(&d, &e));
}

#[test]
fn init_matrix_sequential_respects_bounds() {
    // Every drawn entry lies in [0, 1000), whatever the generator returned.
    let m = init_matrix_sequential(9);
    assert_eq!(m.dim(), 9);
    for p in 0..81 {
        let v = m.flat(p);
        assert!((0..1000).contains(&v));
    }
}

#[test]
fn init_matrix_sequential_empty_dimension() {
    let m = init_matrix_sequential(0);
    assert_eq!(m.dim(), 0);
}
