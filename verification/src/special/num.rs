use vstd::prelude::*;

verus! {

/// A small numerical toolbox: a finite-difference derivative, a fixed
/// composite Simpson integral with divergence detection, and an indexed
/// summation.
///
/// All of it evaluates on `f64` scalars, which the verifier does not reason
/// about, so the evaluation layer lives in the application crate.  The exact
/// summation kernel over integer indices is verified here as
/// [`crate::Functions::summation`].
pub struct Num;

} // verus!
