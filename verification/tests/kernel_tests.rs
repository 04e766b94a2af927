use vj_kernel::kernel::{dm_ij, row_partitioned_calculate, sequential_calculate};
use vj_kernel::matrix::{matrices_equal, Matrix};

fn matrix_of(n: usize, data: Vec<i64>) -> Matrix {
    assert_eq!(data.len(), n * n);
    Matrix::from_flat(n, data)
}

#[test]
fn scenario_small_grid_sequential() {
    // N = 4, K = 2, DM has a leading 2x2 block [[1,2],[3,4]], weights all one:
    // dm(0,0) = 2, dm(0,1) = dm(1,0) = 5, dm(1,1) = 8, so every cell gains 20.
    let dm = matrix_of(4, vec![1, 2, 0, 0, 3, 4, 0, 0, 0, 0, 0, 0, 0, 0, 0, 0]);
    let w = matrix_of(4, vec![1; 16]);
    let mut vj = Matrix::zeros(4);
    sequential_calculate(&mut vj, &dm, &w, 2);
    for p in 0..16 {
        assert_eq!(vj.flat(p), 20);
    }
}

#[test]
fn scenario_small_grid_row_partitioned() {
    let dm = matrix_of(4, vec![1, 2, 0, 0, 3, 4, 0, 0, 0, 0, 0, 0, 0, 0, 0, 0]);
    let w = matrix_of(4, vec![1; 16]);
    let mut vj = Matrix::zeros(4);
    row_partitioned_calculate(&mut vj, &dm, &w, 2);
    for p in 0..16 {
        assert_eq!(vj.flat(p), 20);
    }
}

#[test]
fn kernels_agree_exactly() {
    // Same initial accumulator, density and weights: the two strategies must
    // return bit-identical matrices.
    let n = 5;
    let dm = matrix_of(
        n,
        (0..25).map(|i| (i * 37 - 311) % 900).collect::<Vec<i64>>(),
    );
    let w = matrix_of(
        n,
        (0..25).map(|i| (i * 101 - 473) % 800).collect::<Vec<i64>>(),
    );
    let vj_init: Vec<i64> = (0..25).map(|i| (i * 13 - 59) % 700).collect();
    let mut a = matrix_of(n, vj_init.clone());
    let mut b = matrix_of(n, vj_init);
    sequential_calculate(&mut a, &dm, &w, 3);
    row_partitioned_calculate(&mut b, &dm, &w, 3);
    assert!(matrices_equal(&a, &b));
}

#[test]
fn exact_update_formula() {
    // N = 2, K = 1: the single pair (0, 0) has dm_ij = dm[0] + dm[0] = 6, so
    // every cell p becomes vj0[p] + w[p] * 6.
    let dm = matrix_of(2, vec![3, 11, -7, 2]);
    let w = matrix_of(2, vec![5, 6, 7, 8]);
    let mut vj = matrix_of(2, vec![1, 2, 3, 4]);
    sequential_calculate(&mut vj, &dm, &w, 1);
    assert_eq!(vj.flat(0), 31);
    assert_eq!(vj.flat(1), 38);
    assert_eq!(vj.flat(2), 45);
    assert_eq!(vj.flat(3), 52);
}

#[test]
fn full_grid_with_negatives() {
    // N = K = 2, DM = [[1,2],[3,4]]: the four dm_ij values are 2, 5, 5, 8,
    // summing to 20; weights scale it per cell, on top of a nonzero start.
    let dm = matrix_of(2, vec![1, 2, 3, 4]);
    let w = matrix_of(2, vec![1, -1, 0, 2]);
    let mut vj = matrix_of(2, vec![10, 10, 10, 10]);
    sequential_calculate(&mut vj, &dm, &w, 2);
    assert_eq!(vj.flat(0), 30);
    assert_eq!(vj.flat(1), -10);
    assert_eq!(vj.flat(2), 10);
    assert_eq!(vj.flat(3), 50);
}

#[test]
fn empty_grid_is_noop() {
    // K = 0 must leave the accumulator unchanged, under either strategy.
    let dm = matrix_of(3, vec![4, 8, 15, 16, 23, 42, -1, -2, -3]);
    let w = matrix_of(3, vec![2; 9]);
    let start: Vec<i64> = vec![9, -7, 5, 0, 3, -2, 8, 1, 6];
    let mut a = matrix_of(3, start.clone());
    let mut b = matrix_of(3, start.clone());
    sequential_calculate(&mut a, &dm, &w, 0);
    row_partitioned_calculate(&mut b, &dm, &w, 0);
    for p in 0..9 {
        assert_eq!(a.flat(p), start[p]);
        assert_eq!(b.flat(p), start[p]);
    }
}

#[test]
fn dm_ij_is_symmetric() {
    let dm = matrix_of(3, vec![1, -4, 9, 2, 0, -6, 7, 5, 3]);
    for ic in 0..3 {
        for jc in 0..3 {
            assert_eq!(dm_ij(&dm, ic, jc), dm_ij(&dm, jc, ic));
        }
    }
    // One value pinned by hand: ic = 0, jc = 1 reads dm[0*3+1] + dm[1*3+0].
    assert_eq!(dm_ij(&dm, 0, 1), -4 + 2);
}

#[test]
fn dm_ij_uses_row_major_indexing() {
    let dm = matrix_of(2, vec![10, 20, 30, 40]);
    // ic = 1, jc = 0: dm[1*2+0] + dm[0*2+1] = 30 + 20.
    assert_eq!(dm_ij(&dm, 1, 0), 50);
    // Diagonal: dm[1*2+1] twice.
    assert_eq!(dm_ij(&dm, 1, 1), 80);
}
