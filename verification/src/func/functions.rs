use vstd::prelude::*;

verus! {

/// A pure mapping from one integer scalar to another: the exact counterpart
/// of the callable scalar mappings that summation, products, quadrature and
/// root finding all take.  `at` is the mathematical value of the mapping,
/// `dom` bounds the arguments it may be evaluated at (so that `eval` cannot
/// overflow), and `eval` computes it.
pub trait ScalarMapping {
    /// Whether the mapping may be evaluated at `x`.
    spec fn dom(&self, x: int) -> bool;

    /// The value of the mapping at `x`.
    spec fn at(&self, x: int) -> int;

    /// Evaluates the mapping at `x`.
    fn eval(&self, x: i64) -> (r: i64)
        requires
            self.dom(x as int),
        ensures
            r as int == self.at(x as int),
    ;
}

/// The finite series `f(a) + f(a+1) + ... + f(b)`; zero when the range is
/// empty.
pub open spec fn series_sum<F: ScalarMapping>(f: &F, a: int, b: int) -> int
    decreases b - a + 1,
{
    if a > b {
        0
    } else {
        series_sum(f, a, b - 1) + f.at(b)
    }
}

/// The finite product `f(a) * f(a+1) * ... * f(b)`; one when the range is
/// empty.
pub open spec fn series_product<F: ScalarMapping>(f: &F, a: int, b: int) -> int
    decreases b - a + 1,
{
    if a > b {
        1
    } else {
        series_product(f, a, b - 1) * f.at(b)
    }
}

/// The square mapping `x * x`, bounded so that the square fits in an `i64`.
pub struct Square;

impl ScalarMapping for Square {
    open spec fn dom(&self, x: int) -> bool {
        -3037000499 <= x <= 3037000499
    }

    open spec fn at(&self, x: int) -> int {
        x * x
    }

    fn eval(&self, x: i64) -> (r: i64) {
        proof {
            assert(x * x <= i64::MAX && x * x >= 0) by (nonlinear_arith)
                requires
                    -3037000499 <= x <= 3037000499,
            ;
        }
        x * x
    }
}

/// The constant mapping that returns `value` everywhere.
pub struct Constant {
    pub value: i64,
}

impl ScalarMapping for Constant {
    open spec fn dom(&self, x: int) -> bool {
        true
    }

    open spec fn at(&self, x: int) -> int {
        self.value as int
    }

    fn eval(&self, x: i64) -> (r: i64) {
        self.value
    }
}

/// The scalar toolbox: exact summation and product over an inclusive integer
/// index range.  The companions that work on `f64` scalars (the numerical
/// derivative, the quadrature rules and the Newton-Raphson iteration) are
/// outside what the verifier reasons about and live in the application crate.
pub struct Functions;

impl Functions {
    /// Sums `f` over the inclusive range `start ..= limit`; the sum of an
    /// empty range is zero.
    pub fn summation<F: ScalarMapping>(f: &F, start: i64, limit: i64) -> (total: i64)
        requires
            limit < i64::MAX,
            forall|x: int| start <= x <= limit ==> f.dom(x),
            forall|b: int|
                start <= b <= limit ==> i64::MIN <= #[trigger] series_sum(f, start as int, b)
                    <= i64::MAX,
        ensures
            total as int == series_sum(f, start as int, limit as int),
    {
        let mut total: i64 = 0;
        let mut i: i64 = start;
        while i <= limit
            invariant
                start <= i,
                i <= limit + 1 || i == start,
                limit < i64::MAX,
                total as int == series_sum(f, start as int, i - 1),
                forall|x: int| start <= x <= limit ==> f.dom(x),
                forall|b: int|
                    start <= b <= limit ==> i64::MIN <= #[trigger] series_sum(f, start as int, b)
                        <= i64::MAX,
            decreases limit + 1 - i,
        {
            let v = f.eval(i);
            proof {
                assert(series_sum(f, start as int, i as int) == series_sum(f, start as int, i - 1)
                    + f.at(i as int));
            }
            total = total + v;
            i = i + 1;
        }
        total
    }

    /// Multiplies `f` over the inclusive range `start ..= limit`; the product
    /// of an empty range is one.
    pub fn product<F: ScalarMapping>(f: &F, start: i64, limit: i64) -> (total: i64)
        requires
            limit < i64::MAX,
            forall|x: int| start <= x <= limit ==> f.dom(x),
            forall|b: int|
                start <= b <= limit ==> i64::MIN <= #[trigger] series_product(f, start as int, b)
                    <= i64::MAX,
        ensures
            total as int == series_product(f, start as int, limit as int),
    {
        let mut total: i64 = 1;
        let mut i: i64 = start;
        while i <= limit
            invariant
                start <= i,
                i <= limit + 1 || i == start,
                limit < i64::MAX,
                total as int == series_product(f, start as int, i - 1),
                forall|x: int| start <= x <= limit ==> f.dom(x),
                forall|b: int|
                    start <= b <= limit ==> i64::MIN <= #[trigger] series_product(
                        f,
                        start as int,
                        b,
                    ) <= i64::MAX,
            decreases limit + 1 - i,
        {
            let v = f.eval(i);
            proof {
                assert(series_product(f, start as int, i as int) == series_product(
                    f,
                    start as int,
                    i - 1,
                ) * f.at(i as int));
            }
            total = total * v;
            i = i + 1;
        }
        total
    }
}

} // verus!
