//! Gaussian and Gauss-Jordan elimination on dense row-major matrices,
//! generic over an exact scalar type.

pub mod scalar;
pub mod matrix;
pub mod forward;
pub mod backward;
pub mod laws;
pub mod gf2;

pub use scalar::Scalar;
pub use gf2::Gf2;
pub use matrix::EliminationError;
pub use forward::{GaussEliminationOption, gauss_elimination_generic};
pub use backward::gauss_jordan_elimination_generic;

