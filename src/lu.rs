//! The factors `P`, `L`, `U` of an LU factorization `A = P * L * U`, kept
//! in the packed form a pivoted elimination leaves behind.
//!
//! - `P` is a permutation, recorded as row exchanges.
//! - `L` is `m` x `min(m, n)`, lower triangular or trapezoidal, with unit
//!   diagonal; its strictly lower part is stored below the packed diagonal.
//! - `U` is `min(m, n)` x `n`, upper triangular or trapezoidal; it is
//!   stored on and above the packed diagonal.
use vstd::prelude::*;
use crate::layout::{spec_resolve, slice_and_layout};
use crate::matrix::Matrix;
use crate::permute::{valid_pivots, MatrixPermutation};
use crate::triangular::{lower_block, lower_model, upper_block, upper_model};

verus! {

/// Error of an LU-based computation.
#[derive(Clone, Copy, Debug, PartialEq, Eq, Structural)]
pub enum LUError {
    /// The layout of the matrix is not compatible.
    BadLayout,
    /// The operation needs a square matrix.
    NotSquare,
    /// The matrix is not invertible.
    Singular,
    /// The packed matrix and the pivots do not agree in size.
    InconsistentDimensions,
    /// The solver refused its argument at this position.
    IllegalParameter(i32),
}

/// The error for a negative solver status: the position of the refused
/// argument.
pub open spec fn illegal_position(info: i32) -> i32 {
    if info == i32::MIN {
        i32::MAX
    } else {
        (-info) as i32
    }
}

/// The smaller of two dimensions.
pub open spec fn min_dim(m: nat, n: nat) -> nat {
    if m <= n {
        m
    } else {
        n
    }
}

/// Pivots as LAPACK writes them: 1-based row indices of a matrix with
/// `rows` rows.
pub open spec fn lapack_pivots_fit(ipiv: Seq<i32>, rows: nat) -> bool {
    forall|k: int| 0 <= k < ipiv.len() ==> 1 <= #[trigger] ipiv[k] <= rows
}

fn illegal_parameter(info: i32) -> (r: i32)
    requires
        info < 0,
    ensures
        r == illegal_position(info),
{
    if info == i32::MIN {
        i32::MAX
    } else {
        -info
    }
}

/// The components of the LU factorization of a matrix `A`.
#[derive(Debug)]
pub struct LUFactors<T> {
    mat: Matrix<T>,
    perm: MatrixPermutation,
}

impl<T> LUFactors<T> {
    /// The packed matrix: `L` below the diagonal, `U` on and above it.
    pub closed spec fn packed(&self) -> Matrix<T> {
        self.mat
    }

    /// The row exchanges of `P`, 0-based.
    pub closed spec fn pivots(&self) -> Seq<usize> {
        self.perm@
    }

    /// The packed matrix has a layout a solver can read, and there is one
    /// valid row exchange per column of `L`.
    pub open spec fn wf(&self) -> bool {
        &&& self.packed().wf()
        &&& spec_resolve(
            self.packed().nrows() as int,
            self.packed().ncols() as int,
            self.packed().row_step(),
            self.packed().col_step(),
        ) is Some
        &&& self.pivots().len() == min_dim(self.packed().nrows(), self.packed().ncols())
        &&& valid_pivots(self.pivots(), self.packed().nrows())
    }
}

impl<T: Copy> LUFactors<T> {
    /// Builds the factors from what LAPACK's `getrf` leaves behind: the
    /// packed matrix and the 1-based pivots.
    ///
    /// Fails with `BadLayout` when no layout fits the packed matrix, and
    /// with `InconsistentDimensions` when there is not one pivot per column
    /// of `L` or a pivot names a row the matrix does not have.
    pub fn from_raw(mat: Matrix<T>, perm: Vec<i32>) -> (r: Result<LUFactors<T>, LUError>)
        requires
            mat.wf(),
        ensures
            spec_resolve(mat.nrows() as int, mat.ncols() as int, mat.row_step(), mat.col_step())
                is None ==> r == Err::<LUFactors<T>, LUError>(LUError::BadLayout),
            spec_resolve(mat.nrows() as int, mat.ncols() as int, mat.row_step(), mat.col_step())
                is Some ==> (r is Err ==> r == Err::<LUFactors<T>, LUError>(
                LUError::InconsistentDimensions)),
            r is Ok <==> (spec_resolve(mat.nrows() as int, mat.ncols() as int, mat.row_step(), mat.col_step()) is Some
                && perm@.len() == min_dim(mat.nrows(), mat.ncols()) && lapack_pivots_fit(
                perm@,
                mat.nrows(),
            )),
            r is Ok ==> {
                let f = r->Ok_0;
                &&& f.wf()
                &&& f.packed() == mat
                &&& forall|k: int| 0 <= k < perm@.len() ==> #[trigger] f.pivots()[k] == perm@[k] - 1
            },
    {
        if slice_and_layout(&mat).is_none() {
            return Err(LUError::BadLayout);
        }
        let (m, n) = mat.dim();
        let k = if m <= n {
            m
        } else {
            n
        };
        if perm.len() != k {
            return Err(LUError::InconsistentDimensions);
        }
        let p = match MatrixPermutation::from_lapack_ipiv(&perm) {
            Some(p) => p,
            None => {
                return Err(LUError::InconsistentDimensions);
            },
        };
        if !p.fits(m) {
            proof {
                let q = choose|q: int| 0 <= q < p@.len() && !(p@[q] < m);
                assert(!(perm@[q] <= m));
            }
            return Err(LUError::InconsistentDimensions);
        }
        proof {
            assert forall|q: int| 0 <= q < perm@.len() implies 1 <= #[trigger] perm@[q] <= m by {
                assert(p@[q] < m);
            }
        }
        Ok(LUFactors { mat, perm: p })
    }

    /// Builds the factors from a call of LAPACK's `getrf`: its status
    /// `info`, the packed matrix it left and the 1-based pivots.
    ///
    /// A negative status names a refused argument; a positive one a zero
    /// pivot, that is a singular matrix.
    pub fn from_getrf(info: i32, mat: Matrix<T>, perm: Vec<i32>) -> (r: Result<LUFactors<T>, LUError>)
        requires
            mat.wf(),
        ensures
            info < 0 ==> r == Err::<LUFactors<T>, LUError>(LUError::IllegalParameter(illegal_position(info))),
            info > 0 ==> r == Err::<LUFactors<T>, LUError>(LUError::Singular),
            info == 0 ==> (r is Ok <==> (spec_resolve(mat.nrows() as int, mat.ncols() as int, mat.row_step(), mat.col_step()) is Some
                && perm@.len() == min_dim(mat.nrows(), mat.ncols()) && lapack_pivots_fit(
                perm@,
                mat.nrows(),
            ))),
            info == 0 && r is Ok ==> {
                let f = r->Ok_0;
                &&& f.wf()
                &&& f.packed() == mat
                &&& forall|k: int| 0 <= k < perm@.len() ==> #[trigger] f.pivots()[k] == perm@[k] - 1
            },
    {
        if info < 0 {
            Err(LUError::IllegalParameter(illegal_parameter(info)))
        } else if info > 0 {
            Err(LUError::Singular)
        } else {
            Self::from_raw(mat, perm)
        }
    }

    /// Number of rows of the original matrix.
    pub fn rows(&self) -> (r: usize)
        ensures
            r == self.packed().nrows(),
    {
        self.mat.rows()
    }

    /// Number of columns of the original matrix.
    pub fn cols(&self) -> (r: usize)
        ensures
            r == self.packed().ncols(),
    {
        self.mat.cols()
    }

    /// The permutation `P` of the factorization.
    pub fn perm(&self) -> (r: &MatrixPermutation)
        ensures
            r@ == self.pivots(),
    {
        &self.perm
    }

    /// `min(rows, cols)`: the columns of `L` and the rows of `U`.
    pub fn k(&self) -> (r: usize)
        ensures
            r == min_dim(self.packed().nrows(), self.packed().ncols()),
    {
        let (m, n) = self.mat.dim();
        if m <= n {
            m
        } else {
            n
        }
    }

    /// The `m` x `min(m, n)` matrix `L`: lower triangular or trapezoidal,
    /// with `one` on the diagonal and `zero` above it.
    pub fn l(&self, zero: T, one: T) -> (r: Matrix<T>)
        requires
            self.wf(),
        ensures
            r.wf(),
            r.nrows() == self.packed().nrows(),
            r.ncols() == min_dim(self.packed().nrows(), self.packed().ncols()),
            r@ == lower_model(self.packed()@, r.nrows(), r.ncols(), zero, Some(one)),
            forall|i: int, j: int|
                0 <= i < r.nrows() && 0 <= j < r.ncols() ==> (i == j ==> #[trigger] r@[i][j] == one)
                    && (j > i ==> r@[i][j] == zero) && (j < i ==> r@[i][j] == self.packed()@[i][j]),
    {
        let k = self.k();
        lower_block(&self.mat, self.mat.rows(), k, zero, Some(one))
    }

    /// The `min(m, n)` x `n` matrix `U`: upper triangular or trapezoidal,
    /// with `zero` below the diagonal.
    pub fn u(&self, zero: T) -> (r: Matrix<T>)
        requires
            self.wf(),
        ensures
            r.wf(),
            r.nrows() == min_dim(self.packed().nrows(), self.packed().ncols()),
            r.ncols() == self.packed().ncols(),
            r@ == upper_model(self.packed()@, r.nrows(), r.ncols(), zero),
            forall|i: int, j: int|
                0 <= i < r.nrows() && 0 <= j < r.ncols() ==> (j < i ==> #[trigger] r@[i][j] == zero)
                    && (j >= i ==> r@[i][j] == self.packed()@[i][j]),
    {
        let k = self.k();
        upper_block(&self.mat, k, self.mat.cols(), zero)
    }

    /// The matrix LAPACK's `getri` inverts in place, stored column by
    /// column, and the pivots it reads, 1-based.
    ///
    /// Fails with `NotSquare` unless the original matrix is square.
    pub fn inverse_workspace(&self) -> (r: Result<(Matrix<T>, Vec<i32>), LUError>)
        requires
            self.wf(),
        ensures
            self.packed().nrows() != self.packed().ncols() ==> r == Err::<(Matrix<T>, Vec<i32>), LUError>(LUError::NotSquare),
            self.packed().nrows() == self.packed().ncols() && self.packed().nrows() < i32::MAX ==> r is Ok,
            r is Ok ==> {
                let (w, piv) = r->Ok_0;
                &&& w.wf()
                &&& w@ == self.packed()@
                &&& w.nrows() == self.packed().nrows()
                &&& w.ncols() == self.packed().ncols()
                &&& w.row_step() == 1
                &&& w.col_step() == w.nrows()
                &&& piv@.len() == self.pivots().len()
                &&& forall|k: int| 0 <= k < piv@.len() ==> #[trigger] piv@[k] == self.pivots()[k] + 1
            },
            r is Err ==> r == Err::<(Matrix<T>, Vec<i32>), LUError>(LUError::NotSquare) || r == Err::<(Matrix<T>, Vec<i32>), LUError>(LUError::InconsistentDimensions),
    {
        let (m, n) = self.mat.dim();
        if m != n {
            return Err(LUError::NotSquare);
        }
        match self.perm.lapack_ipiv() {
            Some(piv) => Ok((self.mat.to_col_major(), piv)),
            None => {
                proof {
                    if m < i32::MAX {
                        assert forall|k: int| 0 <= k < self.pivots().len() implies #[trigger] self.pivots()[k]
                            < i32::MAX by {
                            assert(self.pivots()[k] < m);
                        }
                    }
                }
                Err(LUError::InconsistentDimensions)
            },
        }
    }

    /// The inverse after a call of LAPACK's `getri` with status `info` on
    /// the workspace, which it overwrote with `inv`.
    ///
    /// A negative status names a refused argument; a positive one a zero
    /// pivot, that is a singular matrix.
    pub fn finish_inverse(info: i32, inv: Matrix<T>) -> (r: Result<Matrix<T>, LUError>)
        ensures
            info == 0 ==> r == Ok::<Matrix<T>, LUError>(inv),
            info < 0 ==> r == Err::<Matrix<T>, LUError>(LUError::IllegalParameter(illegal_position(info))),
            info > 0 ==> r == Err::<Matrix<T>, LUError>(LUError::Singular),
    {
        if info == 0 {
            Ok(inv)
        } else if info < 0 {
            Err(LUError::IllegalParameter(illegal_parameter(info)))
        } else {
            Err(LUError::Singular)
        }
    }
}

} // verus!
