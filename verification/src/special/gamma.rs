use vstd::prelude::*;

verus! {

/// Gamma-function approximations: Stirling's formula and the Lanczos series
/// for `ln Gamma` and `Gamma`, with the incomplete and regularized variants.
///
/// Every routine on this type evaluates on `f64` scalars, which the verifier
/// does not reason about, so the evaluation layer lives in the application
/// crate.  At non-negative integer arguments the function reduces to the
/// factorial, `Gamma(n + 1) == n!`, and that exact kernel is verified here as
/// [`crate::special::Probability::factorial`].
pub struct Gamma;

} // verus!
