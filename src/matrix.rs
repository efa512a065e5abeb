//! A dense two-dimensional matrix over a flat buffer, addressed through
//! independent row and column strides.
use vstd::prelude::*;

verus! {

/// Memory order in which a flat matrix buffer is read.
#[derive(Clone, Copy, Debug, PartialEq, Eq, Structural)]
pub enum Layout {
    /// Entries of one row are adjacent; rows are `ld` elements apart.
    RowMajor,
    /// Entries of one column are adjacent; columns are `ld` elements apart.
    ColumnMajor,
}

/// Position of entry `(i, j)` in a flat buffer read with `layout` and
/// leading dimension `ld`.
pub open spec fn flat_index(layout: Layout, ld: int, i: int, j: int) -> int {
    match layout {
        Layout::RowMajor => i * ld + j,
        Layout::ColumnMajor => j * ld + i,
    }
}

/// Number of buffer elements that a `rows` x `cols` matrix read with
/// `layout` and leading dimension `ld` spans, from its first entry to its
/// last one.
pub open spec fn span_len(layout: Layout, ld: int, rows: int, cols: int) -> int {
    if rows == 0 || cols == 0 {
        0
    } else {
        match layout {
            Layout::RowMajor => (rows - 1) * ld + cols,
            Layout::ColumnMajor => (cols - 1) * ld + rows,
        }
    }
}

/// Buffer position of entry `(i, j)` of a matrix whose first entry is at
/// `offset`, with row stride `rs` and column stride `cs`.
pub open spec fn strided_pos(offset: int, rs: int, cs: int, i: int, j: int) -> int {
    offset + i * rs + j * cs
}

/// The rows of a vector of row vectors, as sequences.
pub open spec fn rows_view<T>(rows: Seq<Vec<T>>) -> Seq<Seq<T>> {
    rows.map_values(|r: Vec<T>| r@)
}

/// The leading `rows` x `cols` block of `a`.
pub open spec fn leading_block<T>(a: Seq<Seq<T>>, rows: nat, cols: nat) -> Seq<Seq<T>> {
    Seq::new(rows, |i: int| Seq::new(cols, |j: int| a[i][j]))
}

/// A matrix of `rows` x `cols` entries of type `T`.
///
/// Entry `(i, j)` is stored at `offset + i * row_stride + j * col_stride`
/// in `data`. Strides may be zero or negative; every entry lies inside
/// the buffer.
#[derive(Debug)]
pub struct Matrix<T> {
    data: Vec<T>,
    offset: usize,
    rows: usize,
    cols: usize,
    row_stride: isize,
    col_stride: isize,
}

impl<T> Matrix<T> {
    /// Number of rows.
    pub closed spec fn nrows(&self) -> nat {
        self.rows as nat
    }

    /// Number of columns.
    pub closed spec fn ncols(&self) -> nat {
        self.cols as nat
    }

    /// Distance in the buffer between two vertically adjacent entries.
    pub closed spec fn row_step(&self) -> int {
        self.row_stride as int
    }

    /// Distance in the buffer between two horizontally adjacent entries.
    pub closed spec fn col_step(&self) -> int {
        self.col_stride as int
    }

    /// Buffer position of the first entry.
    pub closed spec fn start(&self) -> int {
        self.offset as int
    }

    /// The whole buffer that the entries are read from.
    pub closed spec fn buffer(&self) -> Seq<T> {
        self.data@
    }

    /// Buffer position of entry `(i, j)`.
    pub open spec fn position(&self, i: int, j: int) -> int {
        strided_pos(self.start(), self.row_step(), self.col_step(), i, j)
    }

    /// Entry `(i, j)`.
    pub open spec fn entry(&self, i: int, j: int) -> T {
        self.buffer()[self.position(i, j)]
    }

    /// The dimensions fit in `isize` and every entry lies inside the buffer.
    pub open spec fn wf(&self) -> bool {
        &&& self.nrows() <= isize::MAX
        &&& self.ncols() <= isize::MAX
        &&& 0 <= self.start() <= self.buffer().len()
        &&& forall|i: int, j: int|
            0 <= i < self.nrows() && 0 <= j < self.ncols() ==> 0 <= #[trigger] self.position(i, j)
                < self.buffer().len()
    }

    /// The matrix stores its entries row by row, without gaps, from the
    /// start of its buffer.
    pub open spec fn is_standard(&self) -> bool {
        &&& self.start() == 0
        &&& self.row_step() == self.ncols()
        &&& self.col_step() == 1
        &&& self.buffer().len() == self.nrows() * self.ncols()
    }
}

impl<T> View for Matrix<T> {
    type V = Seq<Seq<T>>;

    open spec fn view(&self) -> Seq<Seq<T>> {
        Seq::new(self.nrows(), |i: int| Seq::new(self.ncols(), |j: int| self.entry(i, j)))
    }
}

proof fn lemma_scaled_between(i: int, n: int, s: int)
    requires
        0 <= i <= n,
    ensures
        s >= 0 ==> 0 <= i * s <= n * s,
        s < 0 ==> n * s <= i * s <= 0,
{
    if s >= 0 {
        assert(0 <= i * s <= n * s) by (nonlinear_arith)
            requires
                0 <= i <= n,
                s >= 0,
        ;
    } else {
        assert(n * s <= i * s <= 0) by (nonlinear_arith)
            requires
                0 <= i <= n,
                s < 0,
        ;
    }
}

proof fn lemma_product_fits(i: int, s: int)
    requires
        0 <= i <= isize::MAX,
        isize::MIN <= s <= isize::MAX,
    ensures
        -0x4000_0000_0000_0000_0000_0000_0000_0000 <= i * s <= 0x4000_0000_0000_0000_0000_0000_0000_0000,
{
    assert(-0x4000_0000_0000_0000_0000_0000_0000_0000 <= i * s
        <= 0x4000_0000_0000_0000_0000_0000_0000_0000) by (nonlinear_arith)
        requires
            0 <= i <= 0x7fff_ffff_ffff_ffff,
            -0x8000_0000_0000_0000 <= s <= 0x7fff_ffff_ffff_ffff,
    ;
}

/// `i * cols + j` stays below `rows * cols` for an entry of a
/// `rows` x `cols` matrix stored row by row.
pub proof fn lemma_row_major_index(i: int, j: int, rows: int, cols: int)
    requires
        0 <= i < rows,
        0 <= j < cols,
    ensures
        0 <= i * cols + j < rows * cols,
        i * cols + j + 1 <= (i + 1) * cols,
{
    assert(0 <= i * cols + j < rows * cols && i * cols + j + 1 <= (i + 1) * cols)
        by (nonlinear_arith)
        requires
            0 <= i < rows,
            0 <= j < cols,
    ;
}

impl<T: Copy> Matrix<T> {
    /// Builds a matrix over `data` whose entry `(i, j)` is
    /// `data[offset + i * row_stride + j * col_stride]`.
    ///
    /// Returns `None` when a dimension exceeds `isize::MAX` or some entry
    /// would fall outside `data`.
    pub fn from_strided(
        data: Vec<T>,
        offset: usize,
        rows: usize,
        cols: usize,
        row_stride: isize,
        col_stride: isize,
    ) -> (r: Option<Matrix<T>>)
        ensures
            r.is_some() <==> (rows <= isize::MAX && cols <= isize::MAX && offset <= data@.len() && (
            forall|i: int, j: int|
                0 <= i < rows && 0 <= j < cols ==> 0 <= #[trigger] strided_pos(
                    offset as int,
                    row_stride as int,
                    col_stride as int,
                    i,
                    j,
                ) < data@.len())),
            r.is_some() ==> {
                let m = r.unwrap();
                &&& m.wf()
                &&& m.nrows() == rows
                &&& m.ncols() == cols
                &&& m.row_step() == row_stride
                &&& m.col_step() == col_stride
                &&& forall|i: int, j: int|
                    0 <= i < rows && 0 <= j < cols ==> #[trigger] m.entry(i, j) == data@[strided_pos(
                        offset as int,
                        row_stride as int,
                        col_stride as int,
                        i,
                        j,
                    )]
            },
    {
        let len = data.len();
        if rows > isize::MAX as usize || cols > isize::MAX as usize || offset > len {
            return None;
        }
        if rows == 0 || cols == 0 {
            let m = Matrix { data, offset, rows, cols, row_stride, col_stride };
            return Some(m);
        }
        let last_r = (rows - 1) as i128;
        let last_c = (cols - 1) as i128;
        proof {
            lemma_product_fits(last_r as int, row_stride as int);
            lemma_product_fits(last_c as int, col_stride as int);
        }
        if offset >= len {
            assert(strided_pos(offset as int, row_stride as int, col_stride as int, 0, 0) == offset);
            return None;
        }
        let down: i128 = offset as i128 + last_r * (row_stride as i128);
        if down < 0 || down >= len as i128 {
            assert(strided_pos(offset as int, row_stride as int, col_stride as int, last_r as int, 0)
                == down);
            return None;
        }
        let right: i128 = offset as i128 + last_c * (col_stride as i128);
        if right < 0 || right >= len as i128 {
            assert(strided_pos(offset as int, row_stride as int, col_stride as int, 0, last_c as int)
                == right);
            return None;
        }
        let far: i128 = down + last_c * (col_stride as i128);
        if far < 0 || far >= len as i128 {
            assert(strided_pos(
                offset as int,
                row_stride as int,
                col_stride as int,
                last_r as int,
                last_c as int,
            ) == far);
            return None;
        }
        let ghost rr = last_r as int;
        let ghost cc = last_c as int;
        let ghost rs = row_stride as int;
        let ghost cs = col_stride as int;
        assert forall|i: int, j: int| 0 <= i < rows && 0 <= j < cols implies 0 <= #[trigger] strided_pos(
            offset as int,
            rs,
            cs,
            i,
            j,
        ) < len by {
            lemma_scaled_between(i, rr, rs);
            lemma_scaled_between(j, cc, cs);
        }
        let m = Matrix { data, offset, rows, cols, row_stride, col_stride };
        assert forall|i: int, j: int| 0 <= i < m.rows && 0 <= j < m.cols implies 0
            <= #[trigger] m.position(i, j) < m.data@.len() by {}
        Some(m)
    }

    /// Builds a `rows` x `cols` matrix from its entries listed row by row.
    ///
    /// Returns `None` when `data` does not hold exactly `rows * cols`
    /// entries, or a dimension exceeds `isize::MAX`.
    pub fn from_row_major(rows: usize, cols: usize, data: Vec<T>) -> (r: Option<Matrix<T>>)
        ensures
            r.is_some() <==> (rows <= isize::MAX && cols <= isize::MAX && data@.len() == rows
                * cols),
            r.is_some() ==> {
                let m = r.unwrap();
                &&& m.wf()
                &&& m.nrows() == rows
                &&& m.ncols() == cols
                &&& m.row_step() == cols
                &&& m.col_step() == 1
                &&& forall|i: int, j: int|
                    0 <= i < rows && 0 <= j < cols ==> #[trigger] m.entry(i, j) == data@[i * cols
                        + j]
            },
    {
        if rows > isize::MAX as usize || cols > isize::MAX as usize {
            return None;
        }
        let ghost d = data@;
        assert(rows as u128 * cols as u128 <= u128::MAX) by (nonlinear_arith)
            requires
                rows <= usize::MAX,
                cols <= usize::MAX,
        ;
        let n = rows as u128 * cols as u128;
        if n != data.len() as u128 {
            return None;
        }
        assert forall|i: int, j: int| 0 <= i < rows && 0 <= j < cols implies 0 <= #[trigger] strided_pos(
            0,
            cols as int,
            1,
            i,
            j,
        ) < d.len() by {
            lemma_row_major_index(i, j, rows as int, cols as int);
        }
        let r = Self::from_strided(data, 0, rows, cols, cols as isize, 1);
        r
    }

    /// Builds a `rows` x `cols` matrix from its entries listed column by
    /// column.
    ///
    /// Returns `None` when `data` does not hold exactly `rows * cols`
    /// entries, or a dimension exceeds `isize::MAX`.
    pub fn from_col_major(rows: usize, cols: usize, data: Vec<T>) -> (r: Option<Matrix<T>>)
        ensures
            r.is_some() <==> (rows <= isize::MAX && cols <= isize::MAX && data@.len() == rows
                * cols),
            r.is_some() ==> {
                let m = r.unwrap();
                &&& m.wf()
                &&& m.nrows() == rows
                &&& m.ncols() == cols
                &&& m.row_step() == 1
                &&& m.col_step() == rows
                &&& forall|i: int, j: int|
                    0 <= i < rows && 0 <= j < cols ==> #[trigger] m.entry(i, j) == data@[j * rows
                        + i]
            },
    {
        if rows > isize::MAX as usize || cols > isize::MAX as usize {
            return None;
        }
        let ghost d = data@;
        assert(rows as u128 * cols as u128 <= u128::MAX) by (nonlinear_arith)
            requires
                rows <= usize::MAX,
                cols <= usize::MAX,
        ;
        let n = rows as u128 * cols as u128;
        if n != data.len() as u128 {
            return None;
        }
        assert forall|i: int, j: int| 0 <= i < rows && 0 <= j < cols implies 0 <= #[trigger] strided_pos(
            0,
            1,
            rows as int,
            i,
            j,
        ) < d.len() by {
            lemma_row_major_index(j, i, cols as int, rows as int);
            assert(j * rows + i < rows * cols) by (nonlinear_arith)
                requires
                    j * rows + i < cols * rows,
            ;
        }
        Self::from_strided(data, 0, rows, cols, 1, rows as isize)
    }

    /// Number of rows.
    pub fn rows(&self) -> (r: usize)
        ensures
            r == self.nrows(),
    {
        self.rows
    }

    /// Number of columns.
    pub fn cols(&self) -> (r: usize)
        ensures
            r == self.ncols(),
    {
        self.cols
    }

    /// The shape `(rows, cols)`.
    pub fn dim(&self) -> (r: (usize, usize))
        ensures
            r.0 == self.nrows(),
            r.1 == self.ncols(),
    {
        (self.rows, self.cols)
    }

    /// The strides `(row_stride, col_stride)`, in elements.
    pub fn strides(&self) -> (r: (isize, isize))
        ensures
            r.0 == self.row_step(),
            r.1 == self.col_step(),
    {
        (self.row_stride, self.col_stride)
    }

    /// Length of the whole buffer.
    pub fn buffer_len(&self) -> (r: usize)
        ensures
            r == self.buffer().len(),
    {
        self.data.len()
    }

    /// The `n` buffer elements that begin at the first entry.
    pub fn buffer_from_start(&self, n: usize) -> (r: &[T])
        requires
            0 <= self.start() <= self.start() + n <= self.buffer().len(),
        ensures
            r@ == self.buffer().subrange(self.start(), self.start() + n),
    {
        let _len = self.data.len();
        vstd::slice::slice_subrange(self.data.as_slice(), self.offset, self.offset + n)
    }

    /// The `n` buffer elements that begin at the first entry, for writing.
    ///
    /// What is written through the result becomes the matrix's buffer;
    /// shape and strides stay as they are.
    pub fn buffer_from_start_mut(&mut self, n: usize) -> (r: &mut [T])
        requires
            0 <= old(self).start() <= old(self).start() + n <= old(self).buffer().len(),
        ensures
            r@ == old(self).buffer().subrange(old(self).start(), old(self).start() + n),
            final(self).buffer() == old(self).buffer().subrange(0, old(self).start()) + final(r)@
                + old(self).buffer().subrange(old(self).start() + n, old(self).buffer().len() as int),
            final(self).nrows() == old(self).nrows(),
            final(self).ncols() == old(self).ncols(),
            final(self).row_step() == old(self).row_step(),
            final(self).col_step() == old(self).col_step(),
            final(self).start() == old(self).start(),
    {
        let offset = self.offset;
        let whole = self.data.as_mut_slice();
        let (_, tail) = whole.split_at_mut(offset);
        let (head, _) = tail.split_at_mut(n);
        head
    }

    /// Entry `(i, j)`.
    pub fn get(&self, i: usize, j: usize) -> (r: T)
        requires
            self.wf(),
            i < self.nrows(),
            j < self.ncols(),
        ensures
            r == self.entry(i as int, j as int),
            r == self@[i as int][j as int],
    {
        proof {
            lemma_product_fits(i as int, self.row_stride as int);
            lemma_product_fits(j as int, self.col_stride as int);
            assert(0 <= self.position(i as int, 0) < self.data@.len());
            assert(0 <= self.position(i as int, j as int) < self.data@.len());
        }
        let len = self.data.len();
        let first: i128 = self.offset as i128 + (i as i128) * (self.row_stride as i128);
        assert(first == self.position(i as int, 0));
        let step: i128 = (j as i128) * (self.col_stride as i128);
        assert(first + step == self.position(i as int, j as int));
        assert(0 <= first + step < len);
        let p: i128 = first + step;
        self.data[p as usize]
    }

    /// A copy of row `i`.
    pub fn row(&self, i: usize) -> (r: Vec<T>)
        requires
            self.wf(),
            i < self.nrows(),
        ensures
            r@ == self@[i as int],
    {
        let mut out: Vec<T> = Vec::new();
        let mut j: usize = 0;
        while j < self.cols
            invariant
                self.wf(),
                i < self.nrows(),
                j <= self.cols,
                out@.len() == j,
                forall|jj: int| 0 <= jj < j ==> out@[jj] == self.entry(i as int, jj),
            decreases self.cols - j,
        {
            let x = self.get(i, j);
            out.push(x);
            j = j + 1;
        }
        assert(out@ =~= self@[i as int]);
        out
    }

    /// Builds a matrix with `cols` columns from its rows.
    pub fn from_rows(rows: Vec<Vec<T>>, cols: usize) -> (r: Matrix<T>)
        requires
            rows@.len() <= isize::MAX,
            cols <= isize::MAX,
            forall|i: int| 0 <= i < rows@.len() ==> (#[trigger] rows@[i])@.len() == cols,
        ensures
            r.wf(),
            r.is_standard(),
            r.nrows() == rows@.len(),
            r.ncols() == cols,
            r@ == rows_view(rows@),
    {
        let n = rows.len();
        let mut data: Vec<T> = Vec::new();
        let mut i: usize = 0;
        while i < n
            invariant
                n == rows@.len(),
                i <= n,
                forall|k: int| 0 <= k < rows@.len() ==> (#[trigger] rows@[k])@.len() == cols,
                data@.len() == i * cols,
                forall|a: int, b: int|
                    0 <= a < i && 0 <= b < cols ==> data@[a * cols + b] == #[trigger] rows@[a]@[b],
            decreases n - i,
        {
            let row = &rows[i];
            let mut j: usize = 0;
            while j < cols
                invariant
                    n == rows@.len(),
                    i < n,
                    j <= cols,
                    row@.len() == cols,
                    *row == rows@[i as int],
                    data@.len() == i * cols + j,
                    forall|a: int, b: int|
                        0 <= a < i && 0 <= b < cols ==> data@[a * cols + b]
                            == #[trigger] rows@[a]@[b],
                    forall|b: int| 0 <= b < j ==> data@[i * cols + b] == rows@[i as int]@[b],
                decreases cols - j,
            {
                let ghost before = data@;
                data.push(row[j]);
                proof {
                    assert forall|a: int, b: int| 0 <= a < i && 0 <= b < cols implies data@[a * cols
                        + b] == #[trigger] rows@[a]@[b] by {
                        lemma_row_major_index(a, b, i as int, cols as int);
                        assert(before[a * cols + b] == rows@[a]@[b]);
                    }
                }
                j = j + 1;
            }
            proof {
                assert((i + 1) * cols == i * cols + cols) by (nonlinear_arith);
                assert forall|a: int, b: int| 0 <= a < i + 1 && 0 <= b < cols implies data@[a
                    * cols + b] == #[trigger] rows@[a]@[b] by {
                    if a < i {
                    } else {
                        assert(a == i);
                    }
                }
            }
            i = i + 1;
        }
        let m = Matrix { data, offset: 0, rows: n, cols, row_stride: cols as isize, col_stride: 1 };
        assert forall|a: int, b: int| 0 <= a < m.rows && 0 <= b < m.cols implies 0
            <= #[trigger] m.position(a, b) < m.data@.len() by {
            lemma_row_major_index(a, b, n as int, cols as int);
        }
        assert forall|a: int| 0 <= a < n implies (#[trigger] m@[a]) =~= rows_view(rows@)[a] by {
            assert forall|b: int| 0 <= b < cols implies m.entry(a, b) == rows@[a]@[b] by {
                lemma_row_major_index(a, b, n as int, cols as int);
            }
        }
        assert(m@ =~= rows_view(rows@));
        m
    }

    /// A freshly allocated copy of the leading `rows` x `cols` block,
    /// stored row by row.
    pub fn block(&self, rows: usize, cols: usize) -> (r: Matrix<T>)
        requires
            self.wf(),
            rows <= self.nrows(),
            cols <= self.ncols(),
        ensures
            r.wf(),
            r.is_standard(),
            r.nrows() == rows,
            r.ncols() == cols,
            r@ == leading_block(self@, rows as nat, cols as nat),
    {
        let mut out: Vec<Vec<T>> = Vec::new();
        let mut i: usize = 0;
        while i < rows
            invariant
                self.wf(),
                rows <= self.nrows(),
                cols <= self.ncols(),
                i <= rows,
                out@.len() == i,
                forall|a: int| 0 <= a < i ==> (#[trigger] out@[a])@ == leading_block(self@, rows as nat, cols as nat)[a],
            decreases rows - i,
        {
            let mut line: Vec<T> = Vec::new();
            let mut j: usize = 0;
            while j < cols
                invariant
                    self.wf(),
                    i < rows <= self.nrows(),
                    cols <= self.ncols(),
                    j <= cols,
                    line@.len() == j,
                    forall|b: int| 0 <= b < j ==> line@[b] == self@[i as int][b],
                decreases cols - j,
            {
                let x = self.get(i, j);
                line.push(x);
                j = j + 1;
            }
            assert(line@ =~= leading_block(self@, rows as nat, cols as nat)[i as int]);
            out.push(line);
            i = i + 1;
        }
        let r = Self::from_rows(out, cols);
        assert(r@ =~= leading_block(self@, rows as nat, cols as nat));
        r
    }

    /// A copy that stores its entries column by column, without gaps.
    pub fn to_col_major(&self) -> (r: Matrix<T>)
        requires
            self.wf(),
        ensures
            r.wf(),
            r.nrows() == self.nrows(),
            r.ncols() == self.ncols(),
            r.row_step() == 1,
            r.col_step() == self.nrows(),
            r@ == self@,
    {
        let (rows, cols) = self.dim();
        let mut data: Vec<T> = Vec::new();
        let mut j: usize = 0;
        while j < cols
            invariant
                self.wf(),
                rows == self.nrows(),
                cols == self.ncols(),
                j <= cols,
                data@.len() == j * rows,
                forall|a: int, b: int|
                    0 <= a < rows && 0 <= b < j ==> #[trigger] data@[b * rows + a] == self.entry(a, b),
            decreases cols - j,
        {
            let mut i: usize = 0;
            while i < rows
                invariant
                    self.wf(),
                    rows == self.nrows(),
                    cols == self.ncols(),
                    j < cols,
                    i <= rows,
                    data@.len() == j * rows + i,
                    forall|a: int, b: int|
                        0 <= a < rows && 0 <= b < j ==> #[trigger] data@[b * rows + a] == self.entry(
                            a,
                            b,
                        ),
                    forall|a: int| 0 <= a < i ==> #[trigger] data@[j * rows + a] == self.entry(a, j as int),
                decreases rows - i,
            {
                let x = self.get(i, j);
                let ghost before = data@;
                data.push(x);
                proof {
                    assert forall|a: int, b: int| 0 <= a < rows && 0 <= b < j implies #[trigger] data@[b
                        * rows + a] == self.entry(a, b) by {
                        lemma_row_major_index(b, a, j as int, rows as int);
                        assert(before[b * rows + a] == self.entry(a, b));
                    }
                }
                i = i + 1;
            }
            proof {
                assert((j + 1) * rows == j * rows + rows) by (nonlinear_arith);
                assert forall|a: int, b: int| 0 <= a < rows && 0 <= b < j + 1 implies #[trigger] data@[b
                    * rows + a] == self.entry(a, b) by {
                    if b == j {
                        assert(data@[j * rows + a] == self.entry(a, j as int));
                    }
                }
            }
            j = j + 1;
        }
        let _total = data.len();
        proof {
            assert(cols * rows == rows * cols) by (nonlinear_arith);
        }
        let r = Self::from_col_major(rows, cols, data);
        let r = r.unwrap();
        assert forall|a: int| 0 <= a < rows implies (#[trigger] r@[a]) =~= self@[a] by {
            assert forall|b: int| 0 <= b < cols implies r.entry(a, b) == self.entry(a, b) by {
                assert(r.entry(a, b) == data@[b * rows + a]);
            }
        }
        assert(r@ =~= self@);
        r
    }

    /// A copy that stores its entries row by row, without gaps.
    pub fn to_owned(&self) -> (r: Matrix<T>)
        requires
            self.wf(),
        ensures
            r.wf(),
            r.is_standard(),
            r.nrows() == self.nrows(),
            r.ncols() == self.ncols(),
            r@ == self@,
    {
        let r = self.block(self.rows, self.cols);
        assert(r@ =~~= self@);
        r
    }
}

/// Returns true iff the shape `(rows, cols)` is that of a square matrix.
pub fn is_square_size(d: &(usize, usize)) -> (r: bool)
    ensures
        r == (d.0 == d.1),
{
    d.0 == d.1
}

} // verus!
