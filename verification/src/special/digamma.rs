use vstd::prelude::*;

verus! {

/// The digamma function alone: `Gamma'(z) / Gamma(z)` via a finite-difference
/// derivative of the Lanczos approximation.
///
/// It evaluates on `f64` scalars, which the verifier does not reason about,
/// so the evaluation layer lives in the application crate.
pub struct Digamma;

} // verus!
