//! Exact integer kernels of a scalar numerics library.
//!
//! The library approximates special functions (Gamma, Beta, the error
//! function, polygamma) and offers quadrature and root finding on `f64`
//! scalars.  Floating-point evaluation is outside what the verifier reasons
//! about, so those routines live in the surrounding application crate; what
//! stands here, fully verified, is everything the numerics rest on that is
//! exact: the combinatorial primitives (factorial, permutation, combination,
//! Pochhammer's rising factorial, the falling factorial) and the finite
//! summation and product kernels over integer index ranges.

mod func;

/// Combinatorics on plain integers.
pub mod prob;

/// Special functions (Gamma, Beta, Error, etc.) and their exact primitives.
pub mod special;

/// Statistical distributions and list statistics.
pub mod stats;

pub use func::functions::Constant;
pub use func::functions::Functions;
pub use func::functions::ScalarMapping;
pub use func::functions::Square;
pub use func::functions::series_product;
pub use func::functions::series_sum;
pub use func::integration::Integration;
