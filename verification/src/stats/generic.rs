use vstd::prelude::*;

verus! {

/// List statistics: sum, mean, variance, standard deviation and the
/// five-number summary of a slice of scalars.
///
/// All of them evaluate on `f64` scalars, which the verifier does not reason
/// about, so the evaluation layer lives in the application crate.
pub struct Generic;

} // verus!
