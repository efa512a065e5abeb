use linxal::{resize_solution, select_svd_method, Matrix, SVDComputeVectors, SVDMethod};

fn rows_of(m: &Matrix<f64>) -> Vec<Vec<f64>> {
    (0..m.rows()).map(|i| (0..m.cols()).map(|j| m.get(i, j)).collect()).collect()
}

#[test]
fn singular_vector_shapes() {
    assert_eq!(SVDComputeVectors::Full.u_size(5, 3), (5, 5));
    assert_eq!(SVDComputeVectors::Full.vt_size(5, 3), (3, 3));
    assert_eq!(SVDComputeVectors::Economic.u_size(5, 3), (5, 3));
    assert_eq!(SVDComputeVectors::Economic.vt_size(5, 3), (3, 3));
    assert_eq!(SVDComputeVectors::Economic.vt_size(2, 7), (2, 7));
    assert_eq!(SVDComputeVectors::NoVectors.u_size(5, 3), (0, 0));
    assert_eq!(SVDComputeVectors::NoVectors.vt_size(5, 3), (0, 0));
}

#[test]
fn job_letters() {
    assert_eq!(SVDComputeVectors::Full.job_desc(), b'A');
    assert_eq!(SVDComputeVectors::Economic.job_desc(), b'S');
    assert_eq!(SVDComputeVectors::NoVectors.job_desc(), b'N');
}

#[test]
fn method_choice() {
    assert_eq!(select_svd_method(&(200, 10), SVDComputeVectors::Full), SVDMethod::DivideAndConquer);
    assert_eq!(select_svd_method(&(10, 201), SVDComputeVectors::Economic), SVDMethod::Normal);
    assert_eq!(select_svd_method(&(500, 500), SVDComputeVectors::NoVectors), SVDMethod::DivideAndConquer);
}

#[test]
fn solution_is_truncated_or_padded() {
    let b = Matrix::from_row_major(3, 2, vec![1.0, 2.0, 3.0, 4.0, 5.0, 6.0]).unwrap();
    let cut = resize_solution(b, 2, 0.0);
    assert_eq!(rows_of(&cut), vec![vec![1.0, 2.0], vec![3.0, 4.0]]);
    let b = Matrix::from_row_major(2, 2, vec![1.0, 2.0, 3.0, 4.0]).unwrap();
    let grown = resize_solution(b, 3, 0.0);
    assert_eq!(rows_of(&grown), vec![vec![1.0, 2.0], vec![3.0, 4.0], vec![0.0, 0.0]]);
}
