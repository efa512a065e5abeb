//! Structured factors of dense matrices: memory-layout resolution for
//! strided matrix views, row permutations recorded as pivot sequences,
//! triangular factor extraction, and the LU and QR factor sets built on
//! top of them.
pub mod layout;
pub mod least_squares;
pub mod lu;
pub mod matrix;
pub mod permute;
pub mod qr;
pub mod svd;
pub mod triangular;

pub use layout::{resolve_layout, slice_and_layout};
pub use least_squares::{resize_solution, LeastSquaresError, LeastSquaresSolution};
pub use lu::{LUError, LUFactors};
pub use matrix::{is_square_size, Layout, Matrix};
pub use permute::MatrixPermutation;
pub use qr::{QRError, QRFactors};
pub use svd::{select_svd_method, SVDComputeVectors, SVDError, SVDMethod};
pub use triangular::{make_triangular, make_triangular_into, Symmetric};
