use vstd::prelude::*;

verus! {

/// The Gaussian, Kummer and Whittaker hypergeometric functions, as truncated
/// series over Pochhammer symbols and factorials.
///
/// All of it evaluates on `f64` scalars, which the verifier does not reason
/// about, so the evaluation layer lives in the application crate.  The exact
/// integer Pochhammer kernel the series terms are built from is verified here
/// as [`crate::special::Probability::pochhammer`].
pub struct Hypergeometric;

} // verus!
