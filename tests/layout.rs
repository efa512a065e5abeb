use linxal::layout::{leading_dim, slice_and_layout_matching_mut, slice_and_layout_mut};
use linxal::{resolve_layout, slice_and_layout, Layout, Matrix};

fn numbered(n: usize) -> Vec<f64> {
    (0..n).map(|x| x as f64).collect()
}

#[test]
fn row_major_matrix_resolves_to_row_major() {
    let m = Matrix::from_row_major(3, 4, numbered(12)).unwrap();
    let (s, layout, ld) = slice_and_layout(&m).unwrap();
    assert_eq!(layout, Layout::RowMajor);
    assert_eq!(ld, 4);
    assert_eq!(s.len(), 12);
    assert_eq!(s[2 * 4 + 1], m.get(2, 1));
}

#[test]
fn column_major_matrix_resolves_to_column_major() {
    let m = Matrix::from_col_major(3, 4, numbered(12)).unwrap();
    assert_eq!(m.strides(), (1, 3));
    let (s, layout, ld) = slice_and_layout(&m).unwrap();
    assert_eq!(layout, Layout::ColumnMajor);
    assert_eq!(ld, 3);
    assert_eq!(s.len(), 12);
    assert_eq!(m.get(2, 1), 5.0);
    assert_eq!(s[1 * 3 + 2], m.get(2, 1));
}

#[test]
fn strides_two_two_are_rejected() {
    let m = Matrix::from_strided(numbered(20), 0, 3, 3, 2, 2).unwrap();
    assert!(slice_and_layout(&m).is_none());
    assert_eq!(resolve_layout(3, 3, (2, 2)), None);
}

#[test]
fn negative_strides_are_rejected() {
    let m = Matrix::from_strided(numbered(12), 8, 3, 4, -4, 1).unwrap();
    assert_eq!(m.get(0, 0), 8.0);
    assert_eq!(m.get(2, 3), 3.0);
    assert!(slice_and_layout(&m).is_none());
    assert_eq!(resolve_layout(3, 4, (4, -1)), None);
}

#[test]
fn out_of_bounds_view_is_refused() {
    assert!(Matrix::from_strided(numbered(11), 0, 3, 4, 4, 1).is_none());
    assert!(Matrix::from_strided(numbered(12), 1, 3, 4, 4, 1).is_none());
    assert!(Matrix::from_row_major(3, 4, numbered(11)).is_none());
}

#[test]
fn padded_rows_span_only_what_is_used() {
    // Rows are 5 apart but only 2 entries of each are used.
    let m = Matrix::from_strided(numbered(30), 3, 3, 2, 5, 1).unwrap();
    let (s, layout, ld) = slice_and_layout(&m).unwrap();
    assert_eq!(layout, Layout::RowMajor);
    assert_eq!(ld, 5);
    assert_eq!(s.len(), 12);
    assert_eq!(s[0], 3.0);
    assert_eq!(s[2 * 5 + 1], m.get(2, 1));
    assert_eq!(m.get(2, 1), 14.0);
}

#[test]
fn single_row_defaults_to_row_major() {
    let m = Matrix::from_col_major(1, 4, numbered(4)).unwrap();
    assert_eq!(resolve_layout(1, 4, m.strides()), Some((Layout::RowMajor, 4)));
    let spread = Matrix::from_strided(numbered(12), 0, 1, 4, 7, 3).unwrap();
    let (s, layout, ld) = slice_and_layout(&spread).unwrap();
    assert_eq!(layout, Layout::ColumnMajor);
    assert_eq!(ld, 3);
    assert_eq!(s.len(), 10);
    assert_eq!(s[3 * 3], 9.0);
}

#[test]
fn leading_dimension_per_layout() {
    assert_eq!(leading_dim(Layout::RowMajor, 3, 4, (4, 1)), Some(4));
    assert_eq!(leading_dim(Layout::ColumnMajor, 3, 4, (4, 1)), None);
    assert_eq!(leading_dim(Layout::ColumnMajor, 5, 1, (1, 9)), Some(5));
    assert_eq!(leading_dim(Layout::RowMajor, 5, 1, (2, 9)), Some(2));
    assert_eq!(leading_dim(Layout::RowMajor, 5, 1, (-2, 9)), None);
}

#[test]
fn writes_through_the_slice_reach_the_matrix() {
    let mut m = Matrix::from_col_major(2, 3, numbered(6)).unwrap();
    {
        let (s, layout, ld) = slice_and_layout_mut(&mut m).unwrap();
        assert_eq!(layout, Layout::ColumnMajor);
        assert_eq!(ld, 2);
        s[2 * 2 + 1] = 42.0;
    }
    assert_eq!(m.get(1, 2), 42.0);
    assert_eq!(m.get(0, 2), 4.0);
}

#[test]
fn matching_layout_for_a_column_vector() {
    let mut v = Matrix::from_row_major(4, 1, numbered(4)).unwrap();
    {
        let (s, ld) = slice_and_layout_matching_mut(&mut v, Layout::ColumnMajor).unwrap();
        assert_eq!(ld, 4);
        assert_eq!(s.len(), 4);
        s[3] = -1.0;
    }
    assert_eq!(v.get(3, 0), -1.0);
    let mut m = Matrix::from_row_major(3, 4, numbered(12)).unwrap();
    assert!(slice_and_layout_matching_mut(&mut m, Layout::ColumnMajor).is_none());
    let (_, ld) = slice_and_layout_matching_mut(&mut m, Layout::RowMajor).unwrap();
    assert_eq!(ld, 4);
}

#[test]
fn matrix_with_layout_fills_and_lays_out() {
    let r = linxal::layout::matrix_with_layout(3, 2, Layout::RowMajor, 7.5);
    assert_eq!(r.strides(), (2, 1));
    assert_eq!(r.get(2, 1), 7.5);
    let c = linxal::layout::matrix_with_layout(3, 2, Layout::ColumnMajor, 0.0);
    assert_eq!(c.strides(), (1, 3));
    assert_eq!(resolve_layout(3, 2, c.strides()), Some((Layout::ColumnMajor, 3)));
}

#[test]
fn copies_keep_the_entries() {
    let m = Matrix::from_strided(numbered(30), 3, 3, 2, 5, 1).unwrap();
    let owned = m.to_owned();
    assert_eq!(owned.strides(), (2, 1));
    let cm = m.to_col_major();
    assert_eq!(cm.strides(), (1, 3));
    for i in 0..3 {
        for j in 0..2 {
            assert_eq!(owned.get(i, j), m.get(i, j));
            assert_eq!(cm.get(i, j), m.get(i, j));
        }
    }
    assert!(linxal::is_square_size(&(3, 3)));
    assert!(!linxal::is_square_size(&(3, 2)));
}
