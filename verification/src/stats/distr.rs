//! Markers for the probability distributions.
//!
//! Each distribution is a thin layer of closed-form `f64` formulas over the
//! special-function core (Gamma, Beta, the error function and their
//! incomplete and inverse forms).  Floating-point evaluation is outside what
//! the verifier reasons about, so every density, distribution function and
//! moment lives in the application crate; the combinatorial weights they are
//! built from (factorials, combinations, Pochhammer symbols) are verified in
//! [`crate::special::probability`].

use vstd::prelude::*;

verus! {

/// The binomial distribution: counts of successes in `n` independent trials.
/// Its mass function weighs outcomes by the combination count.
pub struct Binomial;

/// The Cauchy distribution, by its closed-form density and quantile.
pub struct Cauchy;

/// The chi distribution, built on Gamma and the regularized incomplete Gamma.
pub struct Chi;

/// The chi-squared distribution, built on Gamma and the regularized
/// incomplete Gamma.
pub struct Chi2;

/// The Fisher-Snedecor distribution, built on the regularized incomplete
/// Beta function.
pub struct Fisher;

/// The Gaussian distribution, built on the error function and its inverse.
pub struct Gaussian;

/// The geometric distribution counting trials up to the first success.
pub struct GeometricTrials;

/// The geometric distribution counting failures before the first success.
pub struct GeometricFailure;

/// The hypergeometric distribution: draws without replacement, weighed by
/// ratios of combination counts.
pub struct Hypergeometric;

/// The Poisson distribution, with factorial weights and a regularized
/// incomplete Gamma distribution function.
pub struct Poisson;

/// Student's t distribution, built on the regularized incomplete Beta
/// function and its inverse.
pub struct Student;

} // verus!
