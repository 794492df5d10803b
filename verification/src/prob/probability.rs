use vstd::prelude::*;
use crate::special::probability;

verus! {

/// Ordered and unordered selection counts on plain integers, as ratios of
/// factorials.  Both agree with [`crate::special::Probability`], which they
/// delegate to.
pub struct Probability;

impl Probability {
    /// The number of ordered arrangements of `r` items out of `n`, exactly,
    /// and `0` when `r > n`.
    pub fn permutation(n: u64, r: u64) -> (p: u64)
        requires
            probability::perm(n as nat, r as nat) <= u64::MAX,
        ensures
            p as nat == probability::perm(n as nat, r as nat),
    {
        probability::Probability::permutation(n, r)
    }

    /// The number of ways to choose `r` items out of `n`, exactly, and `0`
    /// when `r > n`.
    pub fn combination(n: u64, r: u64) -> (c: u64)
        requires
            probability::fact(n as nat) <= u64::MAX,
        ensures
            c as nat == probability::binom(n as nat, r as nat),
    {
        probability::Probability::combination(n, r)
    }
}

} // verus!
