//! Deciding, from a matrix's strides, whether its buffer can be handed to a
//! solver that reads row-major or column-major storage with a leading
//! dimension, and exposing exactly the buffer elements it spans.
use vstd::prelude::*;
use crate::matrix::{flat_index, lemma_row_major_index, span_len, Layout, Matrix};

verus! {

/// Leading dimension with which a `rows` x `cols` matrix with row stride
/// `s0` and column stride `s1` can be read in `layout`, if it can.
///
/// A layout needs unit stride along its contiguous dimension; a dimension
/// of length at most one imposes nothing, and then the leading dimension is
/// the smallest legal one.
pub open spec fn spec_leading_dim(layout: Layout, rows: int, cols: int, s0: int, s1: int) -> Option<
    int,
> {
    if s0 < 0 || s1 < 0 {
        None
    } else {
        match layout {
            Layout::RowMajor => if s1 == 1 || cols <= 1 {
                Some(
                    if rows <= 1 {
                        if cols > 1 {
                            cols
                        } else {
                            1
                        }
                    } else {
                        s0
                    },
                )
            } else {
                None
            },
            Layout::ColumnMajor => if s0 == 1 || rows <= 1 {
                Some(
                    if cols <= 1 {
                        if rows > 1 {
                            rows
                        } else {
                            1
                        }
                    } else {
                        s1
                    },
                )
            } else {
                None
            },
        }
    }
}

/// The layout and leading dimension that the resolver picks: row-major
/// when the strides allow it, else column-major, else none.
pub open spec fn spec_resolve(rows: int, cols: int, s0: int, s1: int) -> Option<(Layout, int)> {
    match spec_leading_dim(Layout::RowMajor, rows, cols, s0, s1) {
        Some(ld) => Some((Layout::RowMajor, ld)),
        None => match spec_leading_dim(Layout::ColumnMajor, rows, cols, s0, s1) {
            Some(ld) => Some((Layout::ColumnMajor, ld)),
            None => None,
        },
    }
}

/// `buf`, read with `layout` and leading dimension `ld`, holds the
/// entries of `m`.
pub open spec fn reads_as<T>(buf: Seq<T>, m: Seq<Seq<T>>, rows: int, cols: int, layout: Layout, ld: int) -> bool {
    &&& m.len() == rows
    &&& forall|i: int, j: int|
        0 <= i < rows && 0 <= j < cols ==> 0 <= #[trigger] flat_index(layout, ld, i, j) < buf.len()
            && buf[flat_index(layout, ld, i, j)] == m[i][j]
}

/// Leading dimension with which a `rows` x `cols` matrix with the given
/// strides can be read in `layout`; `None` when it cannot.
pub fn leading_dim(layout: Layout, rows: usize, cols: usize, strides: (isize, isize)) -> (r: Option<
    usize,
>)
    ensures
        r.is_some() <==> spec_leading_dim(layout, rows as int, cols as int, strides.0 as int, strides.1 as int).is_some(),
        r.is_some() ==> r.unwrap() as int == spec_leading_dim(
            layout,
            rows as int,
            cols as int,
            strides.0 as int,
            strides.1 as int,
        ).unwrap(),
{
    let (s0, s1) = strides;
    if s0 < 0 || s1 < 0 {
        return None;
    }
    match layout {
        Layout::RowMajor => {
            if s1 == 1 || cols <= 1 {
                if rows <= 1 {
                    Some(
                        if cols > 1 {
                            cols
                        } else {
                            1
                        },
                    )
                } else {
                    Some(s0 as usize)
                }
            } else {
                None
            }
        },
        Layout::ColumnMajor => {
            if s0 == 1 || rows <= 1 {
                if cols <= 1 {
                    Some(
                        if rows > 1 {
                            rows
                        } else {
                            1
                        },
                    )
                } else {
                    Some(s1 as usize)
                }
            } else {
                None
            }
        },
    }
}

/// Resolves the layout of a `rows` x `cols` matrix from its strides.
///
/// Negative strides are refused. A matrix whose rows are contiguous is
/// row-major, with the row stride as leading dimension; otherwise one whose
/// columns are contiguous is column-major, with the column stride as
/// leading dimension; otherwise no layout fits.
pub fn resolve_layout(rows: usize, cols: usize, strides: (isize, isize)) -> (r: Option<
    (Layout, usize),
>)
    ensures
        r.is_some() <==> spec_resolve(rows as int, cols as int, strides.0 as int, strides.1 as int).is_some(),
        r.is_some() ==> r.unwrap().0 == spec_resolve(
            rows as int,
            cols as int,
            strides.0 as int,
            strides.1 as int,
        ).unwrap().0 && r.unwrap().1 as int == spec_resolve(
            rows as int,
            cols as int,
            strides.0 as int,
            strides.1 as int,
        ).unwrap().1,
        strides.0 < 0 || strides.1 < 0 ==> r.is_none(),
{
    match leading_dim(Layout::RowMajor, rows, cols, strides) {
        Some(ld) => Some((Layout::RowMajor, ld)),
        None => match leading_dim(Layout::ColumnMajor, rows, cols, strides) {
            Some(ld) => Some((Layout::ColumnMajor, ld)),
            None => None,
        },
    }
}

proof fn lemma_flat_bounds(layout: Layout, ld: int, i: int, j: int, r: int, c: int)
    requires
        ld >= 0,
        0 <= i <= r,
        0 <= j <= c,
    ensures
        0 <= flat_index(layout, ld, i, j) <= flat_index(layout, ld, r, c),
{
    match layout {
        Layout::RowMajor => {
            assert(0 <= i * ld <= r * ld) by (nonlinear_arith)
                requires
                    ld >= 0,
                    0 <= i <= r,
            ;
        },
        Layout::ColumnMajor => {
            assert(0 <= j * ld <= c * ld) by (nonlinear_arith)
                requires
                    ld >= 0,
                    0 <= j <= c,
            ;
        },
    }
}

/// Where a layout fits, the entry positions of `m` are its first
/// position plus the layout's flat indices, and the last entry ends the span.
proof fn lemma_layout_positions<T>(m: &Matrix<T>, layout: Layout, ld: int)
    requires
        m.wf(),
        m.nrows() > 0,
        m.ncols() > 0,
        spec_leading_dim(layout, m.nrows() as int, m.ncols() as int, m.row_step(), m.col_step())
            == Some(ld),
    ensures
        ld >= 0,
        forall|i: int, j: int|
            0 <= i < m.nrows() && 0 <= j < m.ncols() ==> #[trigger] m.position(i, j) == m.start()
                + flat_index(layout, ld, i, j) && 0 <= flat_index(layout, ld, i, j) < span_len(
                layout,
                ld,
                m.nrows() as int,
                m.ncols() as int,
            ),
        m.start() + span_len(layout, ld, m.nrows() as int, m.ncols() as int) <= m.buffer().len(),
{
    let r = m.nrows() - 1;
    let c = m.ncols() - 1;
    let s0 = m.row_step();
    let s1 = m.col_step();
    assert forall|i: int, j: int| 0 <= i < m.nrows() && 0 <= j < m.ncols() implies #[trigger] m.position(i, j)
        == m.start() + flat_index(layout, ld, i, j) by {
        assert(m.position(i, j) == m.start() + i * s0 + j * s1);
        match layout {
            Layout::RowMajor => {
                if m.nrows() <= 1 {
                    assert(i == 0);
                    assert(i * s0 == 0 && i * ld == 0);
                } else {
                    assert(ld == s0);
                }
                if s1 != 1 {
                    assert(j == 0);
                    assert(j * s1 == 0);
                } else {
                    assert(j * s1 == j);
                }
            },
            Layout::ColumnMajor => {
                if m.ncols() <= 1 {
                    assert(j == 0);
                    assert(j * s1 == 0 && j * ld == 0);
                } else {
                    assert(ld == s1);
                }
                if s0 != 1 {
                    assert(i == 0);
                    assert(i * s0 == 0);
                } else {
                    assert(i * s0 == i);
                }
            },
        }
    }
    assert(m.position(r, c) == m.start() + flat_index(layout, ld, r, c));
    assert(span_len(layout, ld, m.nrows() as int, m.ncols() as int) == flat_index(layout, ld, r, c) + 1);
    assert forall|i: int, j: int| 0 <= i < m.nrows() && 0 <= j < m.ncols() implies 0 <= #[trigger] flat_index(
        layout,
        ld,
        i,
        j,
    ) < span_len(layout, ld, m.nrows() as int, m.ncols() as int) by {
        lemma_flat_bounds(layout, ld, i, j, r, c);
    }
}

/// Number of buffer elements spanned by `m` read with `layout` and `ld`.
fn span_of<T: Copy>(m: &Matrix<T>, layout: Layout, ld: usize) -> (r: usize)
    requires
        m.wf(),
        spec_leading_dim(layout, m.nrows() as int, m.ncols() as int, m.row_step(), m.col_step())
            == Some(ld as int),
    ensures
        r == span_len(layout, ld as int, m.nrows() as int, m.ncols() as int),
        m.start() + r <= m.buffer().len(),
{
    let (rows, cols) = m.dim();
    if rows == 0 || cols == 0 {
        return 0;
    }
    proof {
        lemma_layout_positions(m, layout, ld as int);
        lemma_flat_bounds(layout, ld as int, 0, 0, rows - 1, cols - 1);
    }
    let ghost total = span_len(layout, ld as int, rows as int, cols as int);
    assert(total <= m.buffer().len());
    let _len = m.buffer_len();
    match layout {
        Layout::RowMajor => {
            assert((rows - 1) * ld <= total);
            (rows - 1) * ld + cols
        },
        Layout::ColumnMajor => {
            assert((cols - 1) * ld <= total);
            (cols - 1) * ld + rows
        },
    }
}

/// Returns the buffer elements that `mat` spans, its layout and leading
/// dimension, or `None` when no layout fits its strides.
///
/// The slice starts at the first entry and holds exactly the elements up
/// to the last one; read with the returned layout and leading dimension it
/// gives the matrix's entries.
pub fn slice_and_layout<T: Copy>(mat: &Matrix<T>) -> (r: Option<(&[T], Layout, usize)>)
    requires
        mat.wf(),
    ensures
        r.is_some() <==> spec_resolve(mat.nrows() as int, mat.ncols() as int, mat.row_step(), mat.col_step()).is_some(),
        r.is_some() ==> {
            let (s, layout, ld) = r.unwrap();
            &&& spec_resolve(mat.nrows() as int, mat.ncols() as int, mat.row_step(), mat.col_step())
                == Some((layout, ld as int))
            &&& s@.len() == span_len(layout, ld as int, mat.nrows() as int, mat.ncols() as int)
            &&& reads_as(s@, mat@, mat.nrows() as int, mat.ncols() as int, layout, ld as int)
        },
{
    let (rows, cols) = mat.dim();
    match resolve_layout(rows, cols, mat.strides()) {
        None => None,
        Some((layout, ld)) => {
            let n = span_of(mat, layout, ld);
            let s = mat.buffer_from_start(n);
            proof {
                if rows > 0 && cols > 0 {
                    lemma_layout_positions(mat, layout, ld as int);
                    assert forall|i: int, j: int| 0 <= i < rows && 0 <= j < cols implies 0
                        <= #[trigger] flat_index(layout, ld as int, i, j) < s@.len() && s@[flat_index(
                        layout,
                        ld as int,
                        i,
                        j,
                    )] == mat@[i][j] by {
                        assert(mat.position(i, j) == mat.start() + flat_index(layout, ld as int, i, j));
                    }
                }
            }
            Some((s, layout, ld))
        },
    }
}

} // verus!

verus! {

/// After `written` was written through a slice taken from `before` by the
/// layout resolver, `after` holds, read with `layout` and `ld`, what the
/// slice holds.
pub proof fn lemma_written_back<T>(
    before: Matrix<T>,
    after: Matrix<T>,
    written: Seq<T>,
    layout: Layout,
    ld: int,
)
    requires
        before.wf(),
        spec_leading_dim(
            layout,
            before.nrows() as int,
            before.ncols() as int,
            before.row_step(),
            before.col_step(),
        ) == Some(ld),
        written.len() == span_len(layout, ld, before.nrows() as int, before.ncols() as int),
        before.start() + written.len() <= before.buffer().len(),
        after.buffer() == before.buffer().subrange(0, before.start()) + written
            + before.buffer().subrange(before.start() + written.len(), before.buffer().len() as int),
        after.nrows() == before.nrows(),
        after.ncols() == before.ncols(),
        after.row_step() == before.row_step(),
        after.col_step() == before.col_step(),
        after.start() == before.start(),
    ensures
        after.wf(),
        reads_as(written, after@, after.nrows() as int, after.ncols() as int, layout, ld),
{
    let rows = before.nrows() as int;
    let cols = before.ncols() as int;
    assert(after.buffer().len() == before.buffer().len());
    if rows > 0 && cols > 0 {
        lemma_layout_positions(&before, layout, ld);
        assert forall|i: int, j: int| 0 <= i < rows && 0 <= j < cols implies 0
            <= #[trigger] flat_index(layout, ld, i, j) < written.len() && written[flat_index(
            layout,
            ld,
            i,
            j,
        )] == after@[i][j] by {
            assert(before.position(i, j) == before.start() + flat_index(layout, ld, i, j));
            assert(after.position(i, j) == before.position(i, j));
        }
        assert forall|i: int, j: int| 0 <= i < rows && 0 <= j < cols implies 0
            <= #[trigger] after.position(i, j) < after.buffer().len() by {
            assert(after.position(i, j) == before.position(i, j));
        }
    }
}

/// Returns the buffer elements that `mat` spans, for writing, with its
/// layout and leading dimension, or `None` when no layout fits its
/// strides.
///
/// The slice starts at the first entry and holds exactly the elements up
/// to the last one. Whatever is written through it is, read with the
/// returned layout and leading dimension, the new content of `mat`
/// (see `lemma_written_back`).
pub fn slice_and_layout_mut<T: Copy>(mat: &mut Matrix<T>) -> (r: Option<(&mut [T], Layout, usize)>)
    requires
        old(mat).wf(),
    ensures
        r.is_some() <==> spec_resolve(
            old(mat).nrows() as int,
            old(mat).ncols() as int,
            old(mat).row_step(),
            old(mat).col_step(),
        ).is_some(),
        r.is_none() ==> *final(mat) == *old(mat),
        r.is_some() ==> {
            let (s, layout, ld) = r.unwrap();
            &&& spec_resolve(
                old(mat).nrows() as int,
                old(mat).ncols() as int,
                old(mat).row_step(),
                old(mat).col_step(),
            ) == Some((layout, ld as int))
            &&& s@.len() == span_len(layout, ld as int, old(mat).nrows() as int, old(mat).ncols() as int)
            &&& reads_as(s@, old(mat)@, old(mat).nrows() as int, old(mat).ncols() as int, layout, ld as int)
            &&& final(mat).buffer() == old(mat).buffer().subrange(0, old(mat).start()) + final(s)@
                + old(mat).buffer().subrange(old(mat).start() + s@.len(), old(mat).buffer().len() as int)
            &&& final(mat).nrows() == old(mat).nrows()
            &&& final(mat).ncols() == old(mat).ncols()
            &&& final(mat).row_step() == old(mat).row_step()
            &&& final(mat).col_step() == old(mat).col_step()
            &&& final(mat).start() == old(mat).start()
        },
{
    let (rows, cols) = mat.dim();
    match resolve_layout(rows, cols, mat.strides()) {
        None => None,
        Some((layout, ld)) => {
            let n = span_of(mat, layout, ld);
            proof {
                if rows > 0 && cols > 0 {
                    lemma_layout_positions(mat, layout, ld as int);
                    assert forall|i: int, j: int| 0 <= i < rows && 0 <= j < cols implies 0
                        <= #[trigger] flat_index(layout, ld as int, i, j) < n && mat.buffer()[mat.start() + flat_index(
                        layout,
                        ld as int,
                        i,
                        j,
                    )] == mat@[i][j] by {
                        assert(mat.position(i, j) == mat.start() + flat_index(layout, ld as int, i, j));
                    }
                }
            }
            let s = mat.buffer_from_start_mut(n);
            Some((s, layout, ld))
        },
    }
}

} // verus!

verus! {

/// Returns the buffer elements that `mat` spans, for writing, with the
/// leading dimension under which they read as `mat` in the requested
/// `layout`; `None` when `mat` cannot be read in that layout.
///
/// A matrix with a single column (or row) can be read in either layout
/// as long as that column (or row) is contiguous where the layout needs it.
pub fn slice_and_layout_matching_mut<T: Copy>(mat: &mut Matrix<T>, layout: Layout) -> (r: Option<
    (&mut [T], usize),
>)
    requires
        old(mat).wf(),
    ensures
        r.is_some() <==> spec_leading_dim(
            layout,
            old(mat).nrows() as int,
            old(mat).ncols() as int,
            old(mat).row_step(),
            old(mat).col_step(),
        ).is_some(),
        r.is_none() ==> *final(mat) == *old(mat),
        r.is_some() ==> {
            let (s, ld) = r.unwrap();
            &&& spec_leading_dim(
                layout,
                old(mat).nrows() as int,
                old(mat).ncols() as int,
                old(mat).row_step(),
                old(mat).col_step(),
            ) == Some(ld as int)
            &&& s@.len() == span_len(layout, ld as int, old(mat).nrows() as int, old(mat).ncols() as int)
            &&& reads_as(s@, old(mat)@, old(mat).nrows() as int, old(mat).ncols() as int, layout, ld as int)
            &&& final(mat).buffer() == old(mat).buffer().subrange(0, old(mat).start()) + final(s)@
                + old(mat).buffer().subrange(old(mat).start() + s@.len(), old(mat).buffer().len() as int)
            &&& final(mat).nrows() == old(mat).nrows()
            &&& final(mat).ncols() == old(mat).ncols()
            &&& final(mat).row_step() == old(mat).row_step()
            &&& final(mat).col_step() == old(mat).col_step()
            &&& final(mat).start() == old(mat).start()
        },
{
    let (rows, cols) = mat.dim();
    match leading_dim(layout, rows, cols, mat.strides()) {
        None => None,
        Some(ld) => {
            let n = span_of(mat, layout, ld);
            proof {
                if rows > 0 && cols > 0 {
                    lemma_layout_positions(mat, layout, ld as int);
                    assert forall|i: int, j: int| 0 <= i < rows && 0 <= j < cols implies 0
                        <= #[trigger] flat_index(layout, ld as int, i, j) < n && mat.buffer()[mat.start() + flat_index(
                        layout,
                        ld as int,
                        i,
                        j,
                    )] == mat@[i][j] by {
                        assert(mat.position(i, j) == mat.start() + flat_index(layout, ld as int, i, j));
                    }
                }
            }
            let s = mat.buffer_from_start_mut(n);
            Some((s, ld))
        },
    }
}

/// A `rows` x `cols` matrix with every entry `value`, stored in `layout`
/// without gaps.
pub fn matrix_with_layout<T: Copy>(rows: usize, cols: usize, layout: Layout, value: T) -> (r: Matrix<T>)
    requires
        rows <= isize::MAX,
        cols <= isize::MAX,
        rows * cols <= usize::MAX,
    ensures
        r.wf(),
        r.nrows() == rows,
        r.ncols() == cols,
        r@ == Seq::new(rows as nat, |i: int| Seq::new(cols as nat, |j: int| value)),
        rows > 1 && cols > 1 ==> spec_resolve(rows as int, cols as int, r.row_step(), r.col_step())
            == Some((layout, match layout {
            Layout::RowMajor => cols as int,
            Layout::ColumnMajor => rows as int,
        })),
{
    let n = rows * cols;
    let mut data: Vec<T> = Vec::new();
    let mut k: usize = 0;
    while k < n
        invariant
            k <= n,
            data@.len() == k,
            forall|p: int| 0 <= p < k ==> data@[p] == value,
        decreases n - k,
    {
        data.push(value);
        k = k + 1;
    }
    let m = match layout {
        Layout::RowMajor => Matrix::from_row_major(rows, cols, data),
        Layout::ColumnMajor => Matrix::from_col_major(rows, cols, data),
    };
    let m = m.unwrap();
    assert forall|i: int, j: int| 0 <= i < rows && 0 <= j < cols implies #[trigger] m.entry(i, j)
        == value by {
        lemma_row_major_index(i, j, rows as int, cols as int);
        lemma_row_major_index(j, i, cols as int, rows as int);
        assert(cols * rows == rows * cols) by (nonlinear_arith);
    }
    assert(m@ =~~= Seq::new(rows as nat, |i: int| Seq::new(cols as nat, |j: int| value)));
    m
}

} // verus!
