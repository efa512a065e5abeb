use linxal::{Matrix, QRError, QRFactors};

fn rows_of(m: &Matrix<f64>) -> Vec<Vec<f64>> {
    (0..m.rows()).map(|i| (0..m.cols()).map(|j| m.get(i, j)).collect()).collect()
}

fn tall() -> QRFactors<f64> {
    let packed = Matrix::from_row_major(6, 2, vec![
        3.0, 2.0,
        0.5, -1.5,
        0.25, 0.75,
        -0.5, 0.5,
        0.125, -0.25,
        1.0, 2.0,
    ]).unwrap();
    QRFactors::from_geqrf(0, packed, vec![1.5, 1.25]).unwrap()
}

#[test]
fn r_has_zeros_below_the_diagonal() {
    let qr = tall();
    for k in 0..3 {
        let r = qr.rk(Some(k), 0.0).unwrap();
        assert_eq!((r.rows(), r.cols()), (k, 2));
        for i in 0..k {
            for j in 0..i {
                assert_eq!(r.get(i, j), 0.0);
            }
        }
    }
    assert_eq!(rows_of(&qr.r(0.0)), vec![vec![3.0, 2.0], vec![0.0, -1.5]]);
    assert_eq!(qr.rk(Some(3), 0.0).err(), Some(QRError::InconsistentDimensions));
}

#[test]
fn q_workspace_holds_the_leading_columns() {
    let qr = tall();
    assert_eq!((qr.rows(), qr.cols(), qr.p()), (6, 2, 2));
    let w = qr.q_workspace(None).unwrap();
    assert_eq!((w.rows(), w.cols()), (6, 2));
    assert_eq!(w.strides(), (1, 6));
    assert_eq!(w.get(3, 1), 0.5);
    let w1 = qr.q_workspace(Some(1)).unwrap();
    assert_eq!(rows_of(&w1), vec![vec![3.0], vec![0.5], vec![0.25], vec![-0.5], vec![0.125], vec![1.0]]);
    assert_eq!(qr.q_workspace(Some(3)).err(), Some(QRError::InconsistentDimensions));
    assert_eq!(qr.tau(), &[1.5, 1.25]);
}

#[test]
fn wide_r_is_trapezoidal() {
    let packed = Matrix::from_col_major(2, 3, vec![1.0, 9.0, 2.0, 3.0, 4.0, 5.0]).unwrap();
    let qr = QRFactors::from_raw(packed, vec![0.5, 0.0]).unwrap();
    assert_eq!(rows_of(&qr.r(0.0)), vec![vec![1.0, 2.0, 4.0], vec![0.0, 3.0, 5.0]]);
}

#[test]
fn qr_refuses_inconsistent_input() {
    let m = || Matrix::from_row_major(3, 2, vec![0.0; 6]).unwrap();
    assert_eq!(QRFactors::from_raw(m(), vec![0.0]).err(), Some(QRError::InconsistentDimensions));
    let skewed = Matrix::from_strided(vec![0.0; 20], 0, 3, 2, 2, 3).unwrap();
    assert_eq!(QRFactors::from_raw(skewed, vec![0.0, 0.0]).err(), Some(QRError::BadLayout));
    assert_eq!(QRFactors::from_geqrf(-5, m(), vec![0.0, 0.0]).err(), Some(QRError::IllegalParameter(5)));
    let q = Matrix::from_row_major(1, 1, vec![1.0]).unwrap();
    assert!(QRFactors::<f64>::finish_q(0, q).is_ok());
    let q2 = Matrix::from_row_major(1, 1, vec![1.0]).unwrap();
    assert_eq!(QRFactors::<f64>::finish_q(-7, q2).err(), Some(QRError::IllegalParameter(7)));
}
