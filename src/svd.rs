//! Shapes and method choice for singular value decompositions.
use vstd::prelude::*;
use crate::lu::min_dim;

verus! {

/// Largest matrix dimension for which the divide-and-conquer method is
/// used when singular vectors are wanted.
pub const SVD_NORMAL_LIMIT: usize = 200;

/// Which singular vectors a decomposition computes.
#[derive(Clone, Copy, Debug, PartialEq, Eq, Structural)]
pub enum SVDComputeVectors {
    /// All `m` left and all `n` right singular vectors.
    Full,
    /// The first `min(m, n)` left and right singular vectors.
    Economic,
    /// No singular vectors.
    NoVectors,
}

/// The algorithm used for a decomposition.
#[derive(Clone, Copy, Debug, PartialEq, Eq, Structural)]
pub enum SVDMethod {
    /// One-sided QR iteration.
    Normal,
    /// Divide and conquer.
    DivideAndConquer,
}

/// Error of a singular value decomposition.
#[derive(Clone, Copy, Debug, PartialEq, Eq, Structural)]
pub enum SVDError {
    /// The decomposition algorithm failed to converge.
    Unconverged,
    /// The solver refused its argument at this position.
    IllegalParameter(i32),
    /// The input matrix has no layout a solver can read.
    BadLayout,
}

impl SVDComputeVectors {
    /// Shape of the matrix `U` of left singular vectors for an `m` x `n`
    /// input.
    pub fn u_size(&self, m: usize, n: usize) -> (r: (usize, usize))
        ensures
            *self == SVDComputeVectors::Full ==> r == (m, m),
            *self == SVDComputeVectors::Economic ==> r.0 == m && r.1 == min_dim(m as nat, n as nat),
            *self == SVDComputeVectors::NoVectors ==> r == (0usize, 0usize),
    {
        match *self {
            SVDComputeVectors::Full => (m, m),
            SVDComputeVectors::Economic => (
                m,
                if m <= n {
                    m
                } else {
                    n
                },
            ),
            SVDComputeVectors::NoVectors => (0, 0),
        }
    }

    /// Shape of the matrix `V^H` of right singular vectors for an `m` x
    /// `n` input.
    pub fn vt_size(&self, m: usize, n: usize) -> (r: (usize, usize))
        ensures
            *self == SVDComputeVectors::Full ==> r == (n, n),
            *self == SVDComputeVectors::Economic ==> r.0 == min_dim(m as nat, n as nat) && r.1 == n,
            *self == SVDComputeVectors::NoVectors ==> r == (0usize, 0usize),
    {
        match *self {
            SVDComputeVectors::Full => (n, n),
            SVDComputeVectors::Economic => (
                if m <= n {
                    m
                } else {
                    n
                },
                n,
            ),
            SVDComputeVectors::NoVectors => (0, 0),
        }
    }

    /// The job letter LAPACK reads, as an ASCII code: `A` (65) for all
    /// vectors, `S` (83) for the economic set, `N` (78) for none.
    pub fn job_desc(&self) -> (r: u8)
        ensures
            *self == SVDComputeVectors::Full ==> r == 65,
            *self == SVDComputeVectors::Economic ==> r == 83,
            *self == SVDComputeVectors::NoVectors ==> r == 78,
    {
        match *self {
            SVDComputeVectors::Full => 65u8,
            SVDComputeVectors::Economic => 83u8,
            SVDComputeVectors::NoVectors => 78u8,
        }
    }
}

/// Chooses the algorithm for a decomposition of a matrix of shape `d`:
/// divide and conquer, except when singular vectors are wanted of a matrix
/// with a dimension above `SVD_NORMAL_LIMIT`.
pub fn select_svd_method(d: &(usize, usize), compute_vectors: SVDComputeVectors) -> (r: SVDMethod)
    ensures
        r == if compute_vectors != SVDComputeVectors::NoVectors && (d.0 > SVD_NORMAL_LIMIT || d.1
            > SVD_NORMAL_LIMIT) {
            SVDMethod::Normal
        } else {
            SVDMethod::DivideAndConquer
        },
{
    let mx = if d.0 >= d.1 {
        d.0
    } else {
        d.1
    };
    match compute_vectors {
        SVDComputeVectors::NoVectors => SVDMethod::DivideAndConquer,
        _ => {
            if mx > SVD_NORMAL_LIMIT {
                SVDMethod::Normal
            } else {
                SVDMethod::DivideAndConquer
            }
        },
    }
}

} // verus!
