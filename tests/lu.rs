use linxal::{LUError, LUFactors, Matrix};

fn rows_of(m: &Matrix<f64>) -> Vec<Vec<f64>> {
    (0..m.rows()).map(|i| (0..m.cols()).map(|j| m.get(i, j)).collect()).collect()
}

fn product(a: &Matrix<f64>, b: &Matrix<f64>) -> Matrix<f64> {
    let mut out = Vec::new();
    for i in 0..a.rows() {
        for j in 0..b.cols() {
            let mut s = 0.0;
            for k in 0..a.cols() {
                s += a.get(i, k) * b.get(k, j);
            }
            out.push(s);
        }
    }
    Matrix::from_row_major(a.rows(), b.cols(), out).unwrap()
}

fn reconstruct(lu: &LUFactors<f64>) -> Matrix<f64> {
    let prod = product(&lu.l(0.0, 1.0), &lu.u(0.0));
    lu.perm().unpermute_into(prod).unwrap()
}

#[test]
fn lu_factors_of_a_diagonal_matrix() {
    // A diagonal matrix needs no elimination: the packed matrix is the
    // matrix itself and no row is exchanged.
    let d = vec![
        1.0, 0.0, 0.0, 0.0,
        0.0, 2.0, 0.0, 0.0,
        0.0, 0.0, 3.0, 0.0,
        0.0, 0.0, 0.0, 4.0,
    ];
    let lu = LUFactors::from_raw(Matrix::from_col_major(4, 4, d.clone()).unwrap(), vec![1, 2, 3, 4])
        .unwrap();
    let identity: Vec<Vec<f64>> = (0..4)
        .map(|i| (0..4).map(|j| if i == j { 1.0 } else { 0.0 }).collect())
        .collect();
    assert_eq!(rows_of(&lu.l(0.0, 1.0)), identity);
    let a = reconstruct(&lu);
    assert_eq!(rows_of(&a), rows_of(&Matrix::from_row_major(4, 4, d).unwrap()));
}

#[test]
fn lu_scenario_without_row_exchange() {
    // A = [[1,0,0],[2,2,2],[0,0,3]] = L * U with L = [[1,0,0],[2,1,0],[0,0,1]].
    let packed = Matrix::from_row_major(3, 3, vec![1.0, 0.0, 0.0, 2.0, 2.0, 2.0, 0.0, 0.0, 3.0])
        .unwrap();
    let lu = LUFactors::from_getrf(0, packed, vec![1, 2, 3]).unwrap();
    let u = lu.u(0.0);
    assert_eq!((u.get(0, 0), u.get(1, 1), u.get(2, 2)), (1.0, 2.0, 3.0));
    assert_eq!(
        rows_of(&reconstruct(&lu)),
        vec![vec![1.0, 0.0, 0.0], vec![2.0, 2.0, 2.0], vec![0.0, 0.0, 3.0]]
    );
}

#[test]
fn lu_with_a_row_exchange() {
    // A = [[1,0,0,0],[0,0,2,0],[0,3,0,0],[0,0,0,4]]: elimination exchanges
    // rows 1 and 2 and needs no multipliers.
    let packed = Matrix::from_row_major(4, 4, vec![
        1.0, 0.0, 0.0, 0.0,
        0.0, 3.0, 0.0, 0.0,
        0.0, 0.0, 2.0, 0.0,
        0.0, 0.0, 0.0, 4.0,
    ]).unwrap();
    let lu = LUFactors::from_raw(packed, vec![1, 3, 3, 4]).unwrap();
    assert_eq!(lu.perm().ipiv(), &[0, 2, 2, 3]);
    assert_eq!(
        rows_of(&reconstruct(&lu)),
        vec![
            vec![1.0, 0.0, 0.0, 0.0],
            vec![0.0, 0.0, 2.0, 0.0],
            vec![0.0, 3.0, 0.0, 0.0],
            vec![0.0, 0.0, 0.0, 4.0],
        ]
    );
}

#[test]
fn lu_factor_shapes_for_a_wide_matrix() {
    let packed = Matrix::from_row_major(3, 4, (0..12).map(|x| (x * x) as f64).collect()).unwrap();
    let lu = LUFactors::from_raw(packed, vec![3, 3, 3]).unwrap();
    assert_eq!((lu.rows(), lu.cols(), lu.k()), (3, 4, 3));
    let l = lu.l(0.0, 1.0);
    let u = lu.u(0.0);
    assert_eq!((l.rows(), l.cols()), (3, 3));
    assert_eq!((u.rows(), u.cols()), (3, 4));
    for i in 0..3 {
        assert_eq!(l.get(i, i), 1.0);
        for j in i + 1..3 {
            assert_eq!(l.get(i, j), 0.0);
        }
        for j in 0..i {
            assert_eq!(u.get(i, j), 0.0);
            assert_eq!(l.get(i, j), ((i * 4 + j) * (i * 4 + j)) as f64);
        }
    }
    assert_eq!(u.get(1, 3), 49.0);
}

#[test]
fn lu_refuses_inconsistent_input() {
    let m = || Matrix::from_row_major(3, 3, vec![0.0; 9]).unwrap();
    assert_eq!(LUFactors::from_raw(m(), vec![1, 2]).err(), Some(LUError::InconsistentDimensions));
    assert_eq!(LUFactors::from_raw(m(), vec![1, 0, 3]).err(), Some(LUError::InconsistentDimensions));
    assert_eq!(LUFactors::from_raw(m(), vec![1, 4, 3]).err(), Some(LUError::InconsistentDimensions));
    let flipped = Matrix::from_strided(vec![0.0; 9], 8, 3, 3, -3, -1).unwrap();
    assert_eq!(LUFactors::from_raw(flipped, vec![1, 2, 3]).err(), Some(LUError::BadLayout));
    assert_eq!(LUFactors::from_getrf(-4, m(), vec![1, 2, 3]).err(), Some(LUError::IllegalParameter(4)));
    assert_eq!(LUFactors::from_getrf(2, m(), vec![1, 2, 3]).err(), Some(LUError::Singular));
}

#[test]
fn lu_inverse_workspace() {
    let wide = LUFactors::from_raw(Matrix::from_row_major(2, 3, vec![1.0; 6]).unwrap(), vec![1, 2])
        .unwrap();
    assert_eq!(wide.inverse_workspace().err(), Some(LUError::NotSquare));
    let sq = LUFactors::from_raw(
        Matrix::from_row_major(2, 2, vec![1.0, 2.0, 3.0, 4.0]).unwrap(),
        vec![2, 2],
    ).unwrap();
    let (w, piv) = sq.inverse_workspace().unwrap();
    assert_eq!(piv, vec![2, 2]);
    assert_eq!(w.strides(), (1, 2));
    assert_eq!(rows_of(&w), vec![vec![1.0, 2.0], vec![3.0, 4.0]]);
    let done = LUFactors::<f64>::finish_inverse(0, w);
    assert!(done.is_ok());
    let w2 = Matrix::from_row_major(1, 1, vec![0.0]).unwrap();
    assert_eq!(LUFactors::<f64>::finish_inverse(1, w2).err(), Some(LUError::Singular));
    let w3 = Matrix::from_row_major(1, 1, vec![0.0]).unwrap();
    assert_eq!(LUFactors::<f64>::finish_inverse(-3, w3).err(), Some(LUError::IllegalParameter(3)));
}
