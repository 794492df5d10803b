use vstd::prelude::*;

verus! {

/// The digamma and polygamma functions: a finite-difference derivative of
/// `Gamma` for order zero, and a truncated series with an `n!` prefactor for
/// positive orders.
///
/// All of it evaluates on `f64` scalars, which the verifier does not reason
/// about, so the evaluation layer lives in the application crate.
pub struct Polygamma;

} // verus!
