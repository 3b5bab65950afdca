//! Dense linear-algebra kernels of fixed dimensions over an abstract scalar:
//! matrices and vectors, triangular solvers, Gaussian elimination and LU
//! decomposition with partial pivoting, power iteration, and a harness that
//! measures a solver against a reference on random inputs.

pub mod error;
pub mod scalar;
pub mod fixed;
pub mod matrix;
pub mod triangular;
pub mod elimination;
pub mod lu;
pub mod power;
pub mod harness;
pub mod exact;
pub mod exact_elimination;
pub mod exact_lu;
