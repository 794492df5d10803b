use vstd::prelude::*;

verus! {

/// The quadrature rules: left, right and midpoint Riemann sums, the
/// trapezoid rule, composite Simpson, Boole's five-point rule, and the
/// recursive adaptive bisection driven by a Simpson error estimate.
///
/// All of them evaluate on `f64` scalars, which the verifier does not reason
/// about, so the evaluation layer lives in the application crate.  The exact
/// summation kernel the fixed rules are shaped around is verified here as
/// [`crate::Functions::summation`].
pub struct Integration;

} // verus!
