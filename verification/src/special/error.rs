use vstd::prelude::*;

verus! {

/// The error function (by its Maclaurin series), its complement, and the
/// inverse error function (a rational-polynomial seed refined by one Halley
/// step).
///
/// All of it evaluates on `f64` scalars, which the verifier does not reason
/// about, so the evaluation layer lives in the application crate.  The series
/// coefficients divide by `k!`, and that exact kernel is verified here as
/// [`crate::special::Probability::factorial`].
pub struct Error;

} // verus!
