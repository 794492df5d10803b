use vstd::prelude::*;

verus! {

/// The Beta function and its incomplete, regularized and inverse forms,
/// built on `ln Gamma`, a continued fraction evaluated by Lentz's algorithm,
/// and the Newton-Raphson root finder.
///
/// All of it evaluates on `f64` scalars, which the verifier does not reason
/// about, so the evaluation layer lives in the application crate.
pub struct Beta;

} // verus!
