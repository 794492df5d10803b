use vstd::prelude::*;

verus! {

/// The factorial `n! == 1 * 2 * ... * n`.
pub open spec fn fact(n: nat) -> nat
    decreases n,
{
    if n == 0 {
        1
    } else {
        n * fact((n - 1) as nat)
    }
}

/// The rising factorial (Pochhammer's symbol) `x * (x+1) * ... * (x+n-1)`.
pub open spec fn rising(x: nat, n: nat) -> nat
    decreases n,
{
    if n == 0 {
        1
    } else {
        x * rising(x + 1, (n - 1) as nat)
    }
}

/// The falling factorial `x * (x-1) * ... * (x-n+1)`; zero once the terms
/// run past zero.
pub open spec fn falling(x: nat, n: nat) -> nat
    decreases n,
{
    if n == 0 {
        1
    } else if x == 0 {
        0
    } else {
        x * falling((x - 1) as nat, (n - 1) as nat)
    }
}

/// The binomial coefficient, by Pascal's rule; zero when `r > n`.
pub open spec fn binom(n: nat, r: nat) -> nat
    decreases n,
{
    if r == 0 {
        1
    } else if r > n {
        0
    } else {
        binom((n - 1) as nat, (r - 1) as nat) + binom((n - 1) as nat, r)
    }
}

/// The number of ordered arrangements of `r` items out of `n`: the falling
/// factorial of `n`, and zero when `r > n`.
pub open spec fn perm(n: nat, r: nat) -> nat {
    if r > n {
        0
    } else {
        falling(n, r)
    }
}

/// A factorial is at least one.
pub proof fn lemma_fact_pos(n: nat)
    ensures
        fact(n) >= 1,
    decreases n,
{
    if n > 0 {
        lemma_fact_pos((n - 1) as nat);
        assert(n * fact((n - 1) as nat) >= fact((n - 1) as nat)) by (nonlinear_arith)
            requires
                n >= 1,
                fact((n - 1) as nat) >= 1,
        ;
    }
}

/// The factorial grows with its argument.
pub proof fn lemma_fact_monotonic(i: nat, j: nat)
    requires
        i <= j,
    ensures
        fact(i) <= fact(j),
    decreases j,
{
    if i < j {
        lemma_fact_monotonic(i, (j - 1) as nat);
        lemma_fact_pos((j - 1) as nat);
        assert(j * fact((j - 1) as nat) >= fact((j - 1) as nat)) by (nonlinear_arith)
            requires
                j >= 1,
                fact((j - 1) as nat) >= 1,
        ;
    }
}

/// Peeling the last term off a falling factorial: one more term multiplies
/// by `x - j`.
pub proof fn lemma_falling_step(x: nat, j: nat)
    requires
        j <= x,
    ensures
        falling(x, j + 1) == falling(x, j) * (x - j),
    decreases j,
{
    if j == 0 {
        assert(falling(x, 0) == 1);
        if x == 0 {
            assert(falling(x, 1) == 0);
            assert(falling(x, 0) * (x - 0) == 0);
        } else {
            assert(falling((x - 1) as nat, 0) == 1);
            assert(falling(x, 1) == x * falling((x - 1) as nat, 0));
            assert(falling(x, 0) * (x - 0) == x);
        }
    } else {
        let xr = (x - 1) as nat;
        let jr = (j - 1) as nat;
        lemma_falling_step(xr, jr);
        assert(falling(xr, jr + 1) == falling(xr, jr) * (x - j));
        assert(falling(x, j + 1) == x * falling(xr, (j + 1 - 1) as nat));
        assert(falling(x, j + 1) == x * (falling(xr, jr) * (x - j)));
        assert(x * (falling(xr, jr) * (x - j)) == (x * falling(xr, jr)) * (x - j))
            by (nonlinear_arith);
        assert(falling(x, j) == x * falling(xr, jr));
        assert(falling(x, j + 1) == falling(x, j) * (x - j));
    }
}

/// A falling factorial grows as terms are added, as long as no term has
/// reached zero.
pub proof fn lemma_falling_monotonic(x: nat, j: nat, k: nat)
    requires
        j <= k <= x,
    ensures
        falling(x, j) <= falling(x, k),
    decreases k - j,
{
    if j < k {
        lemma_falling_monotonic(x, j, (k - 1) as nat);
        lemma_falling_step(x, (k - 1) as nat);
        assert(falling(x, (k - 1) as nat) * (x - (k - 1)) >= falling(x, (k - 1) as nat))
            by (nonlinear_arith)
            requires
                x - (k - 1) >= 1,
                falling(x, (k - 1) as nat) >= 0,
        ;
    }
}

/// The falling factorial is a ratio of factorials:
/// `falling(x, n) == x! / (x - n)!` for `n <= x`, stated multiplicatively.
pub proof fn lemma_falling_fact(x: nat, n: nat)
    requires
        n <= x,
    ensures
        falling(x, n) * fact((x - n) as nat) == fact(x),
    decreases n,
{
    if n == 0 {
        assert(falling(x, 0) == 1);
        assert(1 * fact((x - 0) as nat) == fact(x));
    } else {
        let xr = (x - 1) as nat;
        let nr = (n - 1) as nat;
        lemma_falling_fact(xr, nr);
        assert(falling(xr, nr) * fact((x - n) as nat) == fact(xr));
        assert(falling(x, n) == x * falling(xr, nr));
        assert(fact(x) == x * fact(xr));
        assert((x * falling(xr, nr)) * fact((x - n) as nat) == x * (falling(xr, nr) * fact(
            (x - n) as nat,
        ))) by (nonlinear_arith);
        assert(falling(x, n) * fact((x - n) as nat) == fact(x));
    }
}

/// Peeling the last term off a rising factorial: one more term multiplies
/// by `x + j`.
pub proof fn lemma_rising_step(x: nat, j: nat)
    ensures
        rising(x, j + 1) == rising(x, j) * (x + j),
    decreases j,
{
    if j == 0 {
        assert(rising(x, 0) == 1);
        assert(rising(x + 1, 0) == 1);
        assert(rising(x, 1) == x * rising(x + 1, 0));
        assert(rising(x, 0) * (x + 0) == x);
    } else {
        let jr = (j - 1) as nat;
        lemma_rising_step(x + 1, jr);
        assert(rising(x + 1, jr + 1) == rising(x + 1, jr) * (x + j));
        assert(rising(x, j + 1) == x * rising(x + 1, (j + 1 - 1) as nat));
        assert(rising(x, j + 1) == x * (rising(x + 1, jr) * (x + j)));
        assert(x * (rising(x + 1, jr) * (x + j)) == (x * rising(x + 1, jr)) * (x + j))
            by (nonlinear_arith);
        assert(rising(x, j) == x * rising(x + 1, jr));
        assert(rising(x, j + 1) == rising(x, j) * (x + j));
    }
}

/// A rising factorial with a positive base is at least one and grows as
/// terms are added.
pub proof fn lemma_rising_monotonic(x: nat, j: nat, k: nat)
    requires
        x >= 1,
        j <= k,
    ensures
        1 <= rising(x, j) <= rising(x, k),
    decreases k,
{
    if j == k {
        if j > 0 {
            lemma_rising_monotonic(x, (j - 1) as nat, (j - 1) as nat);
            lemma_rising_step(x, (j - 1) as nat);
            assert(rising(x, (j - 1) as nat) * (x + (j - 1)) >= rising(x, (j - 1) as nat))
                by (nonlinear_arith)
                requires
                    x + (j - 1) >= 1,
                    rising(x, (j - 1) as nat) >= 1,
            ;
        }
    } else {
        lemma_rising_monotonic(x, j, (k - 1) as nat);
        lemma_rising_step(x, (k - 1) as nat);
        assert(rising(x, (k - 1) as nat) * (x + (k - 1)) >= rising(x, (k - 1) as nat))
            by (nonlinear_arith)
            requires
                x + (k - 1) >= 1,
                rising(x, (k - 1) as nat) >= 1,
        ;
    }
}

/// The rising factorial is a ratio of factorials:
/// `rising(x, n) == (x + n - 1)! / (x - 1)!` for `x >= 1`, stated
/// multiplicatively.  It mirrors the Gamma-function identity
/// `Pochhammer(x, n) == Gamma(x + n) / Gamma(x)` at integer arguments.
pub proof fn lemma_rising_fact(x: nat, n: nat)
    requires
        x >= 1,
    ensures
        rising(x, n) * fact((x - 1) as nat) == fact((x + n - 1) as nat),
    decreases n,
{
    if n == 0 {
        assert(rising(x, 0) == 1);
        assert(1 * fact((x - 1) as nat) == fact((x + 0 - 1) as nat));
    } else {
        let nr = (n - 1) as nat;
        lemma_rising_fact(x + 1, nr);
        assert(rising(x + 1, nr) * fact(((x + 1) - 1) as nat) == fact(((x + 1) + nr - 1) as nat));
        assert(rising(x + 1, nr) * fact(x as nat) == fact((x + n - 1) as nat));
        assert(rising(x, n) == x * rising(x + 1, nr));
        assert(fact(x as nat) == x * fact((x - 1) as nat));
        assert((x * rising(x + 1, nr)) * fact((x - 1) as nat) == rising(x + 1, nr) * (x * fact(
            (x - 1) as nat,
        ))) by (nonlinear_arith);
        assert(rising(x, n) * fact((x - 1) as nat) == fact((x + n - 1) as nat));
    }
}

/// A binomial coefficient with `r <= n` is at least one.
pub proof fn lemma_binom_pos(n: nat, r: nat)
    requires
        r <= n,
    ensures
        binom(n, r) >= 1,
    decreases n,
{
    if r > 0 {
        lemma_binom_pos((n - 1) as nat, (r - 1) as nat);
    }
}

/// Ordered arrangements count selections times orderings:
/// `perm(n, r) == binom(n, r) * r!`.
pub proof fn lemma_perm_binom(n: nat, r: nat)
    requires
        r <= n,
    ensures
        perm(n, r) == binom(n, r) * fact(r),
{
    lemma_falling_fact(n, r);
    lemma_binom_fact(n, r);
    lemma_fact_pos((n - r) as nat);
    let b = binom(n, r);
    let f_r = fact(r);
    let f_nr = fact((n - r) as nat);
    assert(falling(n, r) * f_nr == (b * f_r) * f_nr) by (nonlinear_arith)
        requires
            falling(n, r) * f_nr == fact(n),
            b * (f_r * f_nr) == fact(n),
    ;
    assert(falling(n, r) == b * f_r) by (nonlinear_arith)
        requires
            falling(n, r) * f_nr == (b * f_r) * f_nr,
            f_nr >= 1,
    ;
}

/// The binomial coefficient is a ratio of factorials:
/// `binom(n, r) == n! / (r! * (n - r)!)` for `r <= n`, stated
/// multiplicatively.
pub proof fn lemma_binom_fact(n: nat, r: nat)
    requires
        r <= n,
    ensures
        binom(n, r) * (fact(r) * fact((n - r) as nat)) == fact(n),
    decreases n,
{
    if r == 0 {
        lemma_fact_pos(n);
        assert(binom(n, 0) == 1);
        assert(fact(0) == 1);
        assert(1 * (1 * fact((n - 0) as nat)) == fact(n)) by (nonlinear_arith);
    } else if r == n {
        lemma_binom_fact((n - 1) as nat, (r - 1) as nat);
        let b1 = binom((n - 1) as nat, (r - 1) as nat);
        assert(binom((n - 1) as nat, n) == 0);
        assert(binom(n, n) == b1);
        assert(b1 * (fact((r - 1) as nat) * fact(0)) == fact((n - 1) as nat));
        assert(b1 * (fact(r) * fact(0)) == fact(n)) by (nonlinear_arith)
            requires
                b1 * (fact((r - 1) as nat) * 1) == fact((n - 1) as nat),
                fact(r) == r * fact((r - 1) as nat),
                fact(n) == n * fact((n - 1) as nat),
                fact(0) == 1nat,
                r == n,
        ;
        assert(binom(n, r) * (fact(r) * fact((n - r) as nat)) == fact(n));
    } else {
        let b1 = binom((n - 1) as nat, (r - 1) as nat);
        let b2 = binom((n - 1) as nat, r);
        let f_r = fact(r);
        let f_r1 = fact((r - 1) as nat);
        let f_nr = fact((n - r) as nat);
        let f_nr1 = fact((n - 1 - r) as nat);
        let f_n1 = fact((n - 1) as nat);
        lemma_binom_fact((n - 1) as nat, (r - 1) as nat);
        lemma_binom_fact((n - 1) as nat, r);
        assert(b1 * (f_r1 * f_nr) == f_n1);
        assert(b2 * (f_r * f_nr1) == f_n1);
        assert(f_r == r * f_r1);
        assert(f_nr == (n - r) * f_nr1);
        assert(b1 * (f_r * f_nr) == r * f_n1) by (nonlinear_arith)
            requires
                f_r == r * f_r1,
                b1 * (f_r1 * f_nr) == f_n1,
        ;
        assert(b2 * (f_r * f_nr) == (n - r) * f_n1) by (nonlinear_arith)
            requires
                f_nr == (n - r) * f_nr1,
                b2 * (f_r * f_nr1) == f_n1,
        ;
        assert((b1 + b2) * (f_r * f_nr) == b1 * (f_r * f_nr) + b2 * (f_r * f_nr))
            by (nonlinear_arith);
        assert(r * f_n1 + (n - r) * f_n1 == n * f_n1) by (nonlinear_arith);
        assert(binom(n, r) == b1 + b2);
        assert(fact(n) == n * f_n1);
        assert(binom(n, r) * (fact(r) * fact((n - r) as nat)) == fact(n));
    }
}

/// Exact integer combinatorics.  The floating-point layer reaches for these
/// whenever an argument is a small non-negative integer; everything else goes
/// through the Gamma approximation, which no contract here speaks of.
pub struct Probability;

impl Probability {
    /// The factorial of `n`, exactly.
    pub fn factorial(n: u64) -> (r: u64)
        requires
            fact(n as nat) <= u64::MAX,
        ensures
            r as nat == fact(n as nat),
    {
        let mut acc: u64 = 1;
        let mut i: u64 = 0;
        while i < n
            invariant
                i <= n,
                acc as nat == fact(i as nat),
                fact(n as nat) <= u64::MAX,
            decreases n - i,
        {
            i = i + 1;
            proof {
                lemma_fact_monotonic(i as nat, n as nat);
                assert(fact(i as nat) == i * fact((i - 1) as nat));
            }
            acc = i * acc;
        }
        acc
    }

    /// The number of ordered arrangements of `r` items out of `n`, exactly:
    /// `n! / (n - r)!`, and `0` when `r > n`.
    pub fn permutation(n: u64, r: u64) -> (p: u64)
        requires
            perm(n as nat, r as nat) <= u64::MAX,
        ensures
            p as nat == perm(n as nat, r as nat),
            r <= n ==> p as nat * fact((n - r) as nat) == fact(n as nat),
            r <= n ==> p as nat == binom(n as nat, r as nat) * fact(r as nat),
    {
        if r > n {
            return 0;
        }
        let mut acc: u64 = 1;
        let mut k: u64 = 0;
        while k < r
            invariant
                k <= r <= n,
                acc as nat == falling(n as nat, k as nat),
                falling(n as nat, r as nat) <= u64::MAX,
            decreases r - k,
        {
            proof {
                lemma_falling_step(n as nat, k as nat);
                lemma_falling_monotonic(n as nat, (k + 1) as nat, r as nat);
            }
            acc = acc * (n - k);
            k = k + 1;
        }
        proof {
            lemma_falling_fact(n as nat, r as nat);
            lemma_perm_binom(n as nat, r as nat);
        }
        acc
    }

    /// The number of ways to choose `r` items out of `n`, exactly:
    /// `n! / (r! * (n - r)!)`, and `0` when `r > n`.
    pub fn combination(n: u64, r: u64) -> (c: u64)
        requires
            fact(n as nat) <= u64::MAX,
        ensures
            c as nat == binom(n as nat, r as nat),
            r <= n ==> c as nat * (fact(r as nat) * fact((n - r) as nat)) == fact(n as nat),
    {
        if r > n {
            return 0;
        }
        proof {
            lemma_fact_monotonic(r as nat, n as nat);
            lemma_fact_monotonic((n - r) as nat, n as nat);
        }
        let f_all = Self::factorial(n);
        let f_chosen = Self::factorial(r);
        let f_rest = Self::factorial(n - r);
        proof {
            lemma_binom_fact(n as nat, r as nat);
            lemma_binom_pos(n as nat, r as nat);
            lemma_fact_pos(r as nat);
            lemma_fact_pos((n - r) as nat);
            assert(f_chosen as nat * f_rest as nat >= 1) by (nonlinear_arith)
                requires
                    f_chosen as nat >= 1,
                    f_rest as nat >= 1,
            ;
            assert(f_chosen as nat * f_rest as nat <= fact(n as nat)) by (nonlinear_arith)
                requires
                    binom(n as nat, r as nat) * (f_chosen as nat * f_rest as nat) == fact(n as nat),
                    binom(n as nat, r as nat) >= 1,
                    f_chosen as nat * f_rest as nat >= 1,
            ;
        }
        let denom = f_chosen * f_rest;
        proof {
            let b = binom(n as nat, r as nat) as int;
            vstd::arithmetic::div_mod::lemma_div_multiples_vanish(b, denom as int);
            assert(denom as int * b == b * denom as int) by (nonlinear_arith);
            assert(f_all as int == denom as int * b);
        }
        f_all / denom
    }

    /// Pochhammer's rising factorial `x * (x+1) * ... * (x+n-1)`, exactly.
    /// For `x >= 1` the result is `(x + n - 1)! / (x - 1)!`, the integer form
    /// of `Gamma(x + n) / Gamma(x)`.
    pub fn pochhammer(x: u64, n: u64) -> (p: u64)
        requires
            rising(x as nat, n as nat) <= u64::MAX,
        ensures
            p as nat == rising(x as nat, n as nat),
            x >= 1 ==> p as nat * fact((x - 1) as nat) == fact((x + n - 1) as nat),
    {
        if x == 0 {
            if n == 0 {
                return 1;
            }
            assert(rising(0, n as nat) == 0 * rising(1, (n - 1) as nat));
            return 0;
        }
        let mut acc: u64 = 1;
        let mut k: u64 = 0;
        while k < n
            invariant
                k <= n,
                x >= 1,
                acc as nat == rising(x as nat, k as nat),
                rising(x as nat, n as nat) <= u64::MAX,
            decreases n - k,
        {
            proof {
                lemma_rising_step(x as nat, k as nat);
                lemma_rising_monotonic(x as nat, (k + 1) as nat, n as nat);
                lemma_rising_monotonic(x as nat, k as nat, n as nat);
                assert(rising(x as nat, (k + 1) as nat) >= x as nat + k as nat) by (nonlinear_arith)
                    requires
                        rising(x as nat, (k + 1) as nat) == rising(x as nat, k as nat) * (
                        x as nat + k as nat),
                        rising(x as nat, k as nat) >= 1,
                        x as nat + k as nat >= 1,
                ;
            }
            acc = acc * (x + k);
            k = k + 1;
        }
        proof {
            lemma_rising_fact(x as nat, n as nat);
        }
        acc
    }

    /// The falling factorial `x * (x-1) * ... * (x-n+1)`, exactly.  For
    /// `n <= x` the result is `x! / (x - n)!`, the integer form of
    /// `Gamma(x + 1) / Gamma(x - n + 1)`.
    pub fn falling_factorial(x: u64, n: u64) -> (f: u64)
        requires
            n <= x,
            falling(x as nat, n as nat) <= u64::MAX,
        ensures
            f as nat == falling(x as nat, n as nat),
            f as nat * fact((x - n) as nat) == fact(x as nat),
    {
        let mut acc: u64 = 1;
        let mut k: u64 = 0;
        while k < n
            invariant
                k <= n <= x,
                acc as nat == falling(x as nat, k as nat),
                falling(x as nat, n as nat) <= u64::MAX,
            decreases n - k,
        {
            proof {
                lemma_falling_step(x as nat, k as nat);
                lemma_falling_monotonic(x as nat, (k + 1) as nat, n as nat);
            }
            acc = acc * (x - k);
            k = k + 1;
        }
        proof {
            lemma_falling_fact(x as nat, n as nat);
        }
        acc
    }
}

} // verus!
