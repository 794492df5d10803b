use vstd::prelude::*;
use crate::special::probability;
use crate::special::probability::Probability;

verus! {

/// The special-function toolbox: the error function and its inverse, a
/// derivative, a fixed composite Simpson integral, Newton-Raphson root
/// finding, and the factorial family.
///
/// The routines that evaluate on `f64` scalars are outside what the verifier
/// reasons about and live in the application crate.  The factorial family is
/// exact at integer arguments and is verified here.
pub struct Functions;

impl Functions {
    /// The factorial of `n`, exactly.
    pub fn factorial(n: u64) -> (r: u64)
        requires
            probability::fact(n as nat) <= u64::MAX,
        ensures
            r as nat == probability::fact(n as nat),
    {
        Probability::factorial(n)
    }

    /// Pochhammer's rising factorial `x * (x+1) * ... * (x+n-1)`, exactly.
    pub fn pochhammer(x: u64, n: u64) -> (p: u64)
        requires
            probability::rising(x as nat, n as nat) <= u64::MAX,
        ensures
            p as nat == probability::rising(x as nat, n as nat),
    {
        Probability::pochhammer(x, n)
    }

    /// The falling factorial `x * (x-1) * ... * (x-n+1)`, exactly.
    pub fn fallfactorial(x: u64, n: u64) -> (f: u64)
        requires
            n <= x,
            probability::falling(x as nat, n as nat) <= u64::MAX,
        ensures
            f as nat == probability::falling(x as nat, n as nat),
    {
        Probability::falling_factorial(x, n)
    }
}

} // verus!
