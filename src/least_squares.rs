//! Result types of least-squares problems `min ||A x - b||`, and the
//! resizing of the solver's right-hand side into the solution.
use vstd::prelude::*;
use crate::matrix::Matrix;

verus! {

/// Solution of a least-squares problem, with the rank of `A` the solver
/// found.
pub struct LeastSquaresSolution<T> {
    /// The solution, one column per right-hand side.
    pub solution: Matrix<T>,
    /// The rank of the coefficient matrix.
    pub rank: usize,
}

/// Error of a least-squares problem.
#[derive(Clone, Copy, Debug, PartialEq, Eq, Structural)]
pub enum LeastSquaresError {
    /// One of the matrices has no layout a solver can read.
    BadLayout,
    /// `a` and `b` do not share a layout.
    InconsistentLayout,
    /// `a` and `b` have different numbers of rows.
    InconsistentDimensions(usize, usize),
    /// `a` is not of full rank.
    Degenerate,
    /// The solver refused its argument at this position.
    IllegalParameter(i32),
}

/// The first `n` rows of `b`, padded with rows of `fill` when `b` has
/// fewer.
pub open spec fn resized<T>(b: Seq<Seq<T>>, n: nat, cols: nat, fill: T) -> Seq<Seq<T>> {
    Seq::new(n, |i: int| Seq::new(cols, |j: int| if i < b.len() { b[i][j] } else { fill }))
}

/// Turns the right-hand side a solver overwrote into the `n`-row
/// solution: truncated when the system is overdetermined, padded with
/// `fill` when it is underdetermined.
pub fn resize_solution<T: Copy>(b_sol: Matrix<T>, n: usize, fill: T) -> (r: Matrix<T>)
    requires
        b_sol.wf(),
        n <= isize::MAX,
    ensures
        r.wf(),
        r.nrows() == n,
        r.ncols() == b_sol.ncols(),
        r@ == resized(b_sol@, n as nat, b_sol.ncols(), fill),
{
    let (m, cols) = b_sol.dim();
    let mut out: Vec<Vec<T>> = Vec::new();
    let mut i: usize = 0;
    while i < n
        invariant
            b_sol.wf(),
            m == b_sol.nrows(),
            cols == b_sol.ncols(),
            i <= n,
            out@.len() == i,
            forall|p: int| 0 <= p < i ==> (#[trigger] out@[p])@ == resized(b_sol@, n as nat, cols as nat, fill)[p],
        decreases n - i,
    {
        let line = if i < m {
            b_sol.row(i)
        } else {
            let mut pad: Vec<T> = Vec::new();
            let mut j: usize = 0;
            while j < cols
                invariant
                    j <= cols,
                    pad@.len() == j,
                    forall|q: int| 0 <= q < j ==> #[trigger] pad@[q] == fill,
                decreases cols - j,
            {
                pad.push(fill);
                j = j + 1;
            }
            pad
        };
        assert(line@ =~= resized(b_sol@, n as nat, cols as nat, fill)[i as int]);
        out.push(line);
        i = i + 1;
    }
    let r = Matrix::from_rows(out, cols);
    assert(r@ =~= resized(b_sol@, n as nat, cols as nat, fill));
    r
}

} // verus!
