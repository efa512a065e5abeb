use linxal::triangular::{lower, upper};
use linxal::{make_triangular, make_triangular_into, Matrix, Symmetric};

fn rows_of(m: &Matrix<f64>) -> Vec<Vec<f64>> {
    (0..m.rows()).map(|i| (0..m.cols()).map(|j| m.get(i, j)).collect()).collect()
}

fn packed() -> Matrix<f64> {
    Matrix::from_row_major(3, 4, vec![
        1.0, 2.0, 3.0, 4.0,
        5.0, 6.0, 7.0, 8.0,
        9.0, 10.0, 11.0, 12.0,
    ]).unwrap()
}

#[test]
fn lower_with_unit_diagonal() {
    let l = lower(&packed(), 3, true, 0.0, 1.0).unwrap();
    assert_eq!(
        rows_of(&l),
        vec![vec![1.0, 0.0, 0.0], vec![5.0, 1.0, 0.0], vec![9.0, 10.0, 1.0]]
    );
    let kept = lower(&packed(), 2, false, 0.0, 1.0).unwrap();
    assert_eq!(rows_of(&kept), vec![vec![1.0, 0.0], vec![5.0, 6.0], vec![9.0, 10.0]]);
}

#[test]
fn upper_keeps_the_leading_rows() {
    let u = upper(&packed(), 2, 0.0).unwrap();
    assert_eq!(
        rows_of(&u),
        vec![vec![1.0, 2.0, 3.0, 4.0], vec![0.0, 6.0, 7.0, 8.0]]
    );
}

#[test]
fn too_large_a_factor_is_refused() {
    assert!(lower(&packed(), 4, true, 0.0, 1.0).is_none());
    assert!(upper(&packed(), 4, 0.0).is_none());
}

#[test]
fn empty_factors() {
    let l = lower(&packed(), 0, true, 0.0, 1.0).unwrap();
    assert_eq!((l.rows(), l.cols()), (3, 0));
    let u = upper(&packed(), 0, 0.0).unwrap();
    assert_eq!((u.rows(), u.cols()), (0, 4));
}

#[test]
fn make_triangular_zeroes_the_other_side() {
    let up = make_triangular(&packed(), Symmetric::Upper, 0.0);
    assert_eq!(
        rows_of(&up),
        vec![vec![1.0, 2.0, 3.0, 4.0], vec![0.0, 6.0, 7.0, 8.0], vec![0.0, 0.0, 11.0, 12.0]]
    );
    let low = make_triangular_into(packed(), Symmetric::Lower, 0.0);
    assert_eq!(
        rows_of(&low),
        vec![vec![1.0, 0.0, 0.0, 0.0], vec![5.0, 6.0, 0.0, 0.0], vec![9.0, 10.0, 11.0, 0.0]]
    );
}
