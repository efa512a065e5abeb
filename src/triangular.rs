//! Carving triangular and trapezoidal factors out of a packed matrix.
use vstd::prelude::*;
use crate::matrix::Matrix;

verus! {

/// Which triangle of a matrix is kept.
#[derive(Clone, Copy, Debug, PartialEq, Eq, Structural)]
pub enum Symmetric {
    /// The entries on and above the diagonal.
    Upper,
    /// The entries on and below the diagonal.
    Lower,
}

/// The leading `rows` x `cols` block of `a` with every entry strictly
/// above the diagonal set to `zero`, and, when `diag` holds a value, every
/// diagonal entry set to it.
pub open spec fn lower_model<T>(a: Seq<Seq<T>>, rows: nat, cols: nat, zero: T, diag: Option<T>) -> Seq<Seq<T>> {
    Seq::new(
        rows,
        |i: int|
            Seq::new(
                cols,
                |j: int|
                    if j > i {
                        zero
                    } else if j == i && diag is Some {
                        diag->0
                    } else {
                        a[i][j]
                    },
            ),
    )
}

/// The leading `rows` x `cols` block of `a` with every entry strictly
/// below the diagonal set to `zero`.
pub open spec fn upper_model<T>(a: Seq<Seq<T>>, rows: nat, cols: nat, zero: T) -> Seq<Seq<T>> {
    Seq::new(rows, |i: int| Seq::new(cols, |j: int| if j < i { zero } else { a[i][j] }))
}

/// The `rows` x `cols` matrix with `one` on the diagonal and `zero`
/// elsewhere.
pub open spec fn identity_model<T>(rows: nat, cols: nat, zero: T, one: T) -> Seq<Seq<T>> {
    Seq::new(rows, |i: int| Seq::new(cols, |j: int| if i == j { one } else { zero }))
}

/// When nothing but `zero` is stored below the diagonal of a packed
/// matrix, its unit lower factor is the identity.
pub proof fn lemma_unit_lower_of_upper_is_identity<T>(
    a: Seq<Seq<T>>,
    rows: nat,
    cols: nat,
    zero: T,
    one: T,
)
    requires
        a.len() >= rows,
        forall|i: int| 0 <= i < rows ==> #[trigger] a[i].len() >= cols,
        forall|i: int, j: int| 0 <= j < i < rows && j < cols ==> #[trigger] a[i][j] == zero,
    ensures
        lower_model(a, rows, cols, zero, Some(one)) == identity_model(rows, cols, zero, one),
{
    assert forall|i: int| 0 <= i < rows implies #[trigger] lower_model(a, rows, cols, zero, Some(one))[i]
        =~= identity_model(rows, cols, zero, one)[i] by {
        assert forall|j: int| 0 <= j < cols implies lower_model(a, rows, cols, zero, Some(one))[i][j]
            == identity_model(rows, cols, zero, one)[i][j] by {
            if j < i {
                assert(a[i][j] == zero);
            }
        }
    }
    assert(lower_model(a, rows, cols, zero, Some(one)) =~= identity_model(rows, cols, zero, one));
}

/// The leading `rows` x `cols` block of `a`, lower trapezoidal, freshly
/// allocated and stored row by row.
pub fn lower_block<T: Copy>(a: &Matrix<T>, rows: usize, cols: usize, zero: T, diag: Option<T>) -> (r: Matrix<T>)
    requires
        a.wf(),
        rows <= a.nrows(),
        cols <= a.ncols(),
    ensures
        r.wf(),
        r.is_standard(),
        r.nrows() == rows,
        r.ncols() == cols,
        r@ == lower_model(a@, rows as nat, cols as nat, zero, diag),
{
    let ghost model = lower_model(a@, rows as nat, cols as nat, zero, diag);
    let mut out: Vec<Vec<T>> = Vec::new();
    let mut i: usize = 0;
    while i < rows
        invariant
            a.wf(),
            rows <= a.nrows(),
            cols <= a.ncols(),
            model == lower_model(a@, rows as nat, cols as nat, zero, diag),
            i <= rows,
            out@.len() == i,
            forall|p: int| 0 <= p < i ==> (#[trigger] out@[p])@ == model[p],
        decreases rows - i,
    {
        let mut line: Vec<T> = Vec::new();
        let mut j: usize = 0;
        while j < cols
            invariant
                a.wf(),
                i < rows <= a.nrows(),
                cols <= a.ncols(),
                model == lower_model(a@, rows as nat, cols as nat, zero, diag),
                j <= cols,
                line@.len() == j,
                forall|q: int| 0 <= q < j ==> #[trigger] line@[q] == model[i as int][q],
            decreases cols - j,
        {
            let x = if j > i {
                zero
            } else if j == i && diag.is_some() {
                diag.unwrap()
            } else {
                a.get(i, j)
            };
            line.push(x);
            j = j + 1;
        }
        assert(line@ =~= model[i as int]);
        out.push(line);
        i = i + 1;
    }
    let r = Matrix::from_rows(out, cols);
    assert(r@ =~= model);
    r
}

/// The leading `rows` x `cols` block of `a`, upper trapezoidal, freshly
/// allocated and stored row by row.
pub fn upper_block<T: Copy>(a: &Matrix<T>, rows: usize, cols: usize, zero: T) -> (r: Matrix<T>)
    requires
        a.wf(),
        rows <= a.nrows(),
        cols <= a.ncols(),
    ensures
        r.wf(),
        r.is_standard(),
        r.nrows() == rows,
        r.ncols() == cols,
        r@ == upper_model(a@, rows as nat, cols as nat, zero),
{
    let ghost model = upper_model(a@, rows as nat, cols as nat, zero);
    let mut out: Vec<Vec<T>> = Vec::new();
    let mut i: usize = 0;
    while i < rows
        invariant
            a.wf(),
            rows <= a.nrows(),
            cols <= a.ncols(),
            model == upper_model(a@, rows as nat, cols as nat, zero),
            i <= rows,
            out@.len() == i,
            forall|p: int| 0 <= p < i ==> (#[trigger] out@[p])@ == model[p],
        decreases rows - i,
    {
        let mut line: Vec<T> = Vec::new();
        let mut j: usize = 0;
        while j < cols
            invariant
                a.wf(),
                i < rows <= a.nrows(),
                cols <= a.ncols(),
                model == upper_model(a@, rows as nat, cols as nat, zero),
                j <= cols,
                line@.len() == j,
                forall|q: int| 0 <= q < j ==> #[trigger] line@[q] == model[i as int][q],
            decreases cols - j,
        {
            let x = if j < i {
                zero
            } else {
                a.get(i, j)
            };
            line.push(x);
            j = j + 1;
        }
        assert(line@ =~= model[i as int]);
        out.push(line);
        i = i + 1;
    }
    let r = Matrix::from_rows(out, cols);
    assert(r@ =~= model);
    r
}

/// Forces `a` to be triangular or trapezoidal by setting the entries
/// outside the triangle `uplo` to `zero`.
pub fn make_triangular_into<T: Copy>(a: Matrix<T>, uplo: Symmetric, zero: T) -> (r: Matrix<T>)
    requires
        a.wf(),
    ensures
        r.wf(),
        r.nrows() == a.nrows(),
        r.ncols() == a.ncols(),
        r@ == match uplo {
            Symmetric::Upper => upper_model(a@, a.nrows(), a.ncols(), zero),
            Symmetric::Lower => lower_model(a@, a.nrows(), a.ncols(), zero, None),
        },
{
    make_triangular(&a, uplo, zero)
}

/// A copy of `a` with the entries outside the triangle `uplo` set to
/// `zero`.
pub fn make_triangular<T: Copy>(a: &Matrix<T>, uplo: Symmetric, zero: T) -> (r: Matrix<T>)
    requires
        a.wf(),
    ensures
        r.wf(),
        r.nrows() == a.nrows(),
        r.ncols() == a.ncols(),
        r@ == match uplo {
            Symmetric::Upper => upper_model(a@, a.nrows(), a.ncols(), zero),
            Symmetric::Lower => lower_model(a@, a.nrows(), a.ncols(), zero, None),
        },
{
    let (m, n) = a.dim();
    match uplo {
        Symmetric::Upper => upper_block(a, m, n, zero),
        Symmetric::Lower => lower_block(a, m, n, zero, None),
    }
}

/// The lower factor held in the first `k` columns of a packed matrix:
/// all its rows, entries above the diagonal set to `zero`, and the
/// diagonal set to `one` when `unit_diagonal` holds.
///
/// `None` when `k` exceeds the smaller dimension of `packed`.
pub fn lower<T: Copy>(packed: &Matrix<T>, k: usize, unit_diagonal: bool, zero: T, one: T) -> (r: Option<Matrix<T>>)
    requires
        packed.wf(),
    ensures
        r.is_some() <==> k <= packed.nrows() && k <= packed.ncols(),
        r.is_some() ==> {
            let l = r.unwrap();
            &&& l.wf()
            &&& l.nrows() == packed.nrows()
            &&& l.ncols() == k
            &&& l@ == lower_model(
                packed@,
                packed.nrows(),
                k as nat,
                zero,
                if unit_diagonal {
                    Some(one)
                } else {
                    None
                },
            )
        },
{
    let (m, n) = packed.dim();
    if k > m || k > n {
        return None;
    }
    let diag = if unit_diagonal {
        Some(one)
    } else {
        None
    };
    Some(lower_block(packed, m, k, zero, diag))
}

/// The upper factor held in the first `k` rows of a packed matrix: all
/// its columns, entries below the diagonal set to `zero`.
///
/// `None` when `k` exceeds the smaller dimension of `packed`.
pub fn upper<T: Copy>(packed: &Matrix<T>, k: usize, zero: T) -> (r: Option<Matrix<T>>)
    requires
        packed.wf(),
    ensures
        r.is_some() <==> k <= packed.nrows() && k <= packed.ncols(),
        r.is_some() ==> {
            let u = r.unwrap();
            &&& u.wf()
            &&& u.nrows() == k
            &&& u.ncols() == packed.ncols()
            &&& u@ == upper_model(packed@, k as nat, packed.ncols(), zero)
        },
{
    let (m, n) = packed.dim();
    if k > m || k > n {
        return None;
    }
    Some(upper_block(packed, k, n, zero))
}

} // verus!
