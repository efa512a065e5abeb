use linxal::{Matrix, MatrixPermutation};

fn rows_of(m: &Matrix<f64>) -> Vec<Vec<f64>> {
    (0..m.rows()).map(|i| (0..m.cols()).map(|j| m.get(i, j)).collect()).collect()
}

fn four_rows() -> Matrix<f64> {
    Matrix::from_row_major(4, 2, vec![0.0, 1.0, 10.0, 11.0, 20.0, 21.0, 30.0, 31.0]).unwrap()
}

#[test]
fn pivots_2233_replayed_then_undone_give_back_the_matrix() {
    let m = four_rows();
    let p = MatrixPermutation::from_ipiv(vec![2, 2, 3, 3]);
    let permuted = p.permute(&m).unwrap();
    let back = p.unpermute_into(permuted).unwrap();
    assert_eq!(rows_of(&back), rows_of(&m));
}

#[test]
fn exchanges_are_applied_in_order() {
    let m = four_rows();
    let p = MatrixPermutation::from_ipiv(vec![2, 2, 3, 3]);
    let permuted = p.permute_into(m).unwrap();
    assert_eq!(
        rows_of(&permuted),
        vec![vec![20.0, 21.0], vec![0.0, 1.0], vec![30.0, 31.0], vec![10.0, 11.0]]
    );
}

#[test]
fn undoing_replays_last_exchange_first() {
    let m = four_rows();
    let p = MatrixPermutation::from_ipiv(vec![2, 2, 3, 3]);
    let undone = p.unpermute(&m).unwrap();
    // Exchanges (3,3), (2,3), (1,2), (0,2) in that order.
    assert_eq!(
        rows_of(&undone),
        vec![vec![10.0, 11.0], vec![30.0, 31.0], vec![0.0, 1.0], vec![20.0, 21.0]]
    );
    let again = p.permute(&undone).unwrap();
    assert_eq!(rows_of(&again), rows_of(&m));
}

#[test]
fn pivots_outside_the_matrix_are_refused() {
    let m = four_rows();
    assert!(MatrixPermutation::from_ipiv(vec![4]).permute(&m).is_none());
    assert!(MatrixPermutation::from_ipiv(vec![0, 1, 2, 3, 0]).permute(&m).is_none());
    assert!(!MatrixPermutation::from_ipiv(vec![0, 9]).fits(4));
    assert!(MatrixPermutation::from_ipiv(vec![3, 3]).fits(4));
}

#[test]
fn empty_permutation_is_the_identity() {
    let m = four_rows();
    let p = MatrixPermutation::from_ipiv(vec![]);
    assert_eq!(p.len(), 0);
    assert_eq!(rows_of(&p.permute(&m).unwrap()), rows_of(&m));
}

#[test]
fn lapack_pivots_are_one_based() {
    let p = MatrixPermutation::from_lapack_ipiv(&vec![1, 3, 3, 4]).unwrap();
    assert_eq!(p.ipiv(), &[0, 2, 2, 3]);
    assert_eq!(p.lapack_ipiv().unwrap(), vec![1, 3, 3, 4]);
    assert!(MatrixPermutation::from_lapack_ipiv(&vec![1, 0]).is_none());
    assert!(MatrixPermutation::from_lapack_ipiv(&vec![-2]).is_none());
}
