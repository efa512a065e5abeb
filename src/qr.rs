//! The factors `Q`, `R` of a QR factorization `A = Q * R` of an `m` x `n`
//! matrix, kept in the packed form a Householder reduction leaves behind.
//!
//! - The columns of `Q` are orthonormal; `Q` is formed by the solver from
//!   the reflectors stored below the packed diagonal and their scalars.
//! - `R` is upper triangular or trapezoidal; it is stored on and above the
//!   packed diagonal.
use vstd::prelude::*;
use crate::layout::{slice_and_layout, spec_resolve};
use crate::lu::{illegal_position, min_dim};
use crate::matrix::{leading_block, Matrix};
use crate::triangular::{upper_block, upper_model};

verus! {

/// Error of a QR-based computation.
#[derive(Clone, Copy, Debug, PartialEq, Eq, Structural)]
pub enum QRError {
    /// The layout of the matrix is not compatible.
    BadLayout,
    /// A requested size does not fit the factorization.
    InconsistentDimensions,
    /// The solver refused its argument at this position.
    IllegalParameter(i32),
}

fn illegal_parameter(info: i32) -> (r: i32)
    requires
        info != 0,
    ensures
        r == illegal_position(info),
{
    if info == i32::MIN {
        i32::MAX
    } else {
        -info
    }
}

/// The components of the QR factorization of a matrix `A`.
#[derive(Debug)]
pub struct QRFactors<T> {
    mat: Matrix<T>,
    tau: Vec<T>,
}

impl<T> QRFactors<T> {
    /// The packed matrix: `R` on and above the diagonal, the reflectors
    /// below it.
    pub closed spec fn packed(&self) -> Matrix<T> {
        self.mat
    }

    /// The scalars of the reflectors.
    pub closed spec fn scalars(&self) -> Seq<T> {
        self.tau@
    }

    /// The packed matrix has a layout a solver can read, and there is one
    /// scalar per reflector.
    pub open spec fn wf(&self) -> bool {
        &&& self.packed().wf()
        &&& spec_resolve(
            self.packed().nrows() as int,
            self.packed().ncols() as int,
            self.packed().row_step(),
            self.packed().col_step(),
        ) is Some
        &&& self.scalars().len() == min_dim(self.packed().nrows(), self.packed().ncols())
    }
}

impl<T: Copy> QRFactors<T> {
    /// Builds the factors from what LAPACK's `geqrf` leaves behind: the
    /// packed matrix and the reflector scalars.
    ///
    /// Fails with `BadLayout` when no layout fits the packed matrix, and
    /// with `InconsistentDimensions` when there is not one scalar per
    /// reflector.
    pub fn from_raw(mat: Matrix<T>, tau: Vec<T>) -> (r: Result<QRFactors<T>, QRError>)
        requires
            mat.wf(),
        ensures
            spec_resolve(mat.nrows() as int, mat.ncols() as int, mat.row_step(), mat.col_step())
                is None ==> r == Err::<QRFactors<T>, QRError>(QRError::BadLayout),
            spec_resolve(mat.nrows() as int, mat.ncols() as int, mat.row_step(), mat.col_step())
                is Some ==> (if tau@.len() == min_dim(mat.nrows(), mat.ncols()) {
                r is Ok
            } else {
                r == Err::<QRFactors<T>, QRError>(QRError::InconsistentDimensions)
            }),
            r is Ok ==> {
                let f = r->Ok_0;
                &&& f.wf()
                &&& f.packed() == mat
                &&& f.scalars() == tau@
            },
    {
        if slice_and_layout(&mat).is_none() {
            return Err(QRError::BadLayout);
        }
        let (m, n) = mat.dim();
        let k = if m <= n {
            m
        } else {
            n
        };
        if tau.len() != k {
            return Err(QRError::InconsistentDimensions);
        }
        Ok(QRFactors { mat, tau })
    }

    /// Builds the factors from a call of LAPACK's `geqrf`: its status
    /// `info`, which is never positive, the packed matrix it left and the
    /// reflector scalars.
    pub fn from_geqrf(info: i32, mat: Matrix<T>, tau: Vec<T>) -> (r: Result<QRFactors<T>, QRError>)
        requires
            mat.wf(),
            info <= 0,
        ensures
            info < 0 ==> r == Err::<QRFactors<T>, QRError>(QRError::IllegalParameter(illegal_position(info))),
            info == 0 ==> spec_resolve(mat.nrows() as int, mat.ncols() as int, mat.row_step(), mat.col_step())
                is None ==> r == Err::<QRFactors<T>, QRError>(QRError::BadLayout),
            info == 0 ==> spec_resolve(mat.nrows() as int, mat.ncols() as int, mat.row_step(), mat.col_step())
                is Some ==> (if tau@.len() == min_dim(mat.nrows(), mat.ncols()) {
                r is Ok
            } else {
                r == Err::<QRFactors<T>, QRError>(QRError::InconsistentDimensions)
            }),
            r is Ok ==> {
                let f = r->Ok_0;
                &&& f.wf()
                &&& f.packed() == mat
                &&& f.scalars() == tau@
            },
    {
        if info < 0 {
            Err(QRError::IllegalParameter(illegal_parameter(info)))
        } else {
            Self::from_raw(mat, tau)
        }
    }

    /// Number of rows of the original matrix.
    pub fn rows(&self) -> (r: usize)
        ensures
            r == self.packed().nrows(),
    {
        self.mat.rows()
    }

    /// Number of columns of the original matrix.
    pub fn cols(&self) -> (r: usize)
        ensures
            r == self.packed().ncols(),
    {
        self.mat.cols()
    }

    /// `min(rows, cols)`: the columns of `Q` and the rows of `R` that
    /// reproduce the original matrix.
    pub fn p(&self) -> (r: usize)
        ensures
            r == min_dim(self.packed().nrows(), self.packed().ncols()),
    {
        let (m, n) = self.mat.dim();
        if m <= n {
            m
        } else {
            n
        }
    }

    /// The scalars of the reflectors.
    pub fn tau(&self) -> (r: &[T])
        ensures
            r@ == self.scalars(),
    {
        self.tau.as_slice()
    }

    /// The first `k` rows of `R` (`min(m, n)` when `k` is `None`): upper
    /// triangular or trapezoidal, with `zero` below the diagonal.
    ///
    /// Fails with `InconsistentDimensions` when `k` exceeds `min(m, n)`.
    pub fn rk(&self, k: Option<usize>, zero: T) -> (r: Result<Matrix<T>, QRError>)
        requires
            self.wf(),
        ensures
            ({
                let kk = match k {
                    Some(v) => v as nat,
                    None => min_dim(self.packed().nrows(), self.packed().ncols()),
                };
                &&& kk > min_dim(self.packed().nrows(), self.packed().ncols()) ==> r == Err::<
                    Matrix<T>,
                    QRError,
                >(QRError::InconsistentDimensions)
                &&& kk <= min_dim(self.packed().nrows(), self.packed().ncols()) ==> r is Ok
                &&& r is Ok ==> {
                    let m = r->Ok_0;
                    &&& m.wf()
                    &&& m.nrows() == kk
                    &&& m.ncols() == self.packed().ncols()
                    &&& m@ == upper_model(self.packed()@, kk, self.packed().ncols(), zero)
                    &&& forall|i: int, j: int|
                        0 <= i < m.nrows() && 0 <= j < m.ncols() ==> (j < i ==> #[trigger] m@[i][j]
                            == zero) && (j >= i ==> m@[i][j] == self.packed()@[i][j])
                }
            }),
    {
        let p = self.p();
        let k = match k {
            Some(v) => v,
            None => p,
        };
        if k > p {
            return Err(QRError::InconsistentDimensions);
        }
        Ok(upper_block(&self.mat, k, self.mat.cols(), zero))
    }

    /// The `min(m, n)` x `n` matrix `R`.
    pub fn r(&self, zero: T) -> (r: Matrix<T>)
        requires
            self.wf(),
        ensures
            r.wf(),
            r.nrows() == min_dim(self.packed().nrows(), self.packed().ncols()),
            r.ncols() == self.packed().ncols(),
            r@ == upper_model(self.packed()@, r.nrows(), r.ncols(), zero),
    {
        let r = self.rk(None, zero);
        r.unwrap()
    }

    /// What LAPACK's `orgqr` turns into the first `k` columns of `Q`
    /// (`min(m, n)` when `k` is `None`): the first `k` columns of the packed
    /// matrix, which hold the first `k` reflectors, stored column by column.
    ///
    /// Fails with `InconsistentDimensions` when `k` exceeds `m` or the
    /// packed matrix has fewer than `k` columns.
    pub fn q_workspace(&self, k: Option<usize>) -> (r: Result<Matrix<T>, QRError>)
        requires
            self.wf(),
        ensures
            ({
                let kk = match k {
                    Some(v) => v as nat,
                    None => min_dim(self.packed().nrows(), self.packed().ncols()),
                };
                &&& kk > min_dim(self.packed().nrows(), self.packed().ncols()) ==> r == Err::<
                    Matrix<T>,
                    QRError,
                >(QRError::InconsistentDimensions)
                &&& kk <= min_dim(self.packed().nrows(), self.packed().ncols()) ==> r is Ok
                &&& r is Ok ==> {
                    let w = r->Ok_0;
                    &&& w.wf()
                    &&& w.nrows() == self.packed().nrows()
                    &&& w.ncols() == kk
                    &&& w.row_step() == 1
                    &&& w.col_step() == w.nrows()
                    &&& w@ == leading_block(self.packed()@, self.packed().nrows(), kk)
                }
            }),
    {
        let (m, n) = self.mat.dim();
        let k = match k {
            Some(v) => v,
            None => self.p(),
        };
        if k > m || k > n {
            return Err(QRError::InconsistentDimensions);
        }
        let head = self.mat.block(m, k);
        Ok(head.to_col_major())
    }

    /// The first `k` columns of `Q` after a call of LAPACK's `orgqr` with
    /// status `info` on the workspace, which it overwrote with `q`.
    pub fn finish_q(info: i32, q: Matrix<T>) -> (r: Result<Matrix<T>, QRError>)
        ensures
            info == 0 ==> r == Ok::<Matrix<T>, QRError>(q),
            info != 0 ==> r == Err::<Matrix<T>, QRError>(QRError::IllegalParameter(illegal_position(info))),
    {
        if info == 0 {
            Ok(q)
        } else {
            Err(QRError::IllegalParameter(illegal_parameter(info)))
        }
    }
}

} // verus!
