use numerilib::prob;
use numerilib::special::Functions;
use numerilib::special::Probability;

#[test]
fn factorial_matches_exact_products() {
    let expected: [u64; 16] = [
        1,
        1,
        2,
        6,
        24,
        120,
        720,
        5040,
        40320,
        362880,
        3628800,
        39916800,
        479001600,
        6227020800,
        87178291200,
        1307674368000,
    ];
    let mut product: u64 = 1;
    for n in 0..16u64 {
        if n > 0 {
            product *= n;
        }
        assert_eq!(Probability::factorial(n), product);
        assert_eq!(Probability::factorial(n), expected[n as usize]);
    }
}

#[test]
fn factorial_of_twenty() {
    assert_eq!(Probability::factorial(20), 2432902008176640000);
}

#[test]
fn factorials_test1() {
    let n = 5;
    let factorial = Probability::factorial(n);
    assert_eq!(120, factorial);
}

#[test]
fn factorials_test2() {
    let n = 10;
    let factorial = Probability::factorial(n);
    assert_eq!(3628800, factorial);
}

#[test]
fn combination_test1() {
    let n = 5;
    let k = 2;
    let combination = Probability::combination(n, k);
    assert_eq!(10, combination);
}

#[test]
fn combination_test2() {
    let n = 10;
    let k = 3;
    let combination = Probability::combination(n, k);
    assert_eq!(120, combination);
}

#[test]
fn combination_test3() {
    let n = 15;
    let k = 4;
    let combination = Probability::combination(n, k);
    assert_eq!(1365, combination);
}

#[test]
fn combination_test4() {
    let n = 20;
    let k = 5;
    let combination = Probability::combination(n, k);
    assert_eq!(15504, combination);
}

#[test]
fn combination_of_more_than_available_is_zero() {
    assert_eq!(Probability::combination(2, 3), 0);
}

#[test]
fn combination_is_symmetric() {
    for r in 0..=12u64 {
        assert_eq!(
            Probability::combination(12, r),
            Probability::combination(12, 12 - r)
        );
    }
}

#[test]
fn permutation_test1() {
    let n = 5;
    let k = 2;
    let permutation = Probability::permutation(n, k);
    assert_eq!(20, permutation);
}

#[test]
fn permutation_test2() {
    let n = 10;
    let k = 3;
    let permutation = Probability::permutation(n, k);
    assert_eq!(720, permutation);
}

#[test]
fn permutation_test3() {
    let n = 15;
    let k = 4;
    let permutation = Probability::permutation(n, k);
    assert_eq!(32760, permutation);
}

#[test]
fn permutation_test4() {
    let n = 20;
    let k = 5;
    let permutation = Probability::permutation(n, k);
    assert_eq!(1860480, permutation);
}

#[test]
fn permutation_of_more_than_available_is_zero() {
    assert_eq!(Probability::permutation(2, 3), 0);
}

#[test]
fn pochhammer_symbol_test1() {
    let x = 5;
    let n = 2;
    let pochhammer_symbol = Probability::pochhammer(x, n);
    assert_eq!(30, pochhammer_symbol);
}

#[test]
fn pochhammer_symbol_test2() {
    let x = 10;
    let n = 3;
    let pochhammer_symbol = Probability::pochhammer(x, n);
    assert_eq!(1320, pochhammer_symbol);
}

#[test]
fn pochhammer_symbol_test3() {
    let x = 15;
    let n = 4;
    let pochhammer_symbol = Probability::pochhammer(x, n);
    assert_eq!(73440, pochhammer_symbol);
}

#[test]
fn pochhammer_symbol_test4() {
    let x = 20;
    let n = 5;
    let pochhammer_symbol = Probability::pochhammer(x, n);
    assert_eq!(5100480, pochhammer_symbol);
}

#[test]
fn pochhammer_of_one_is_the_factorial() {
    for n in 0..=15u64 {
        assert_eq!(Probability::pochhammer(1, n), Probability::factorial(n));
    }
}

#[test]
fn pochhammer_with_no_terms_is_one() {
    assert_eq!(Probability::pochhammer(0, 0), 1);
    assert_eq!(Probability::pochhammer(9, 0), 1);
}

#[test]
fn pochhammer_of_zero_base_is_zero() {
    assert_eq!(Probability::pochhammer(0, 4), 0);
}

#[test]
fn falling_factorial_test1() {
    let x = 5;
    let n = 2;
    let falling_factorial = Probability::falling_factorial(x, n);
    assert_eq!(20, falling_factorial);
}

#[test]
fn falling_factorial_test2() {
    let x = 10;
    let n = 3;
    let falling_factorial = Probability::falling_factorial(x, n);
    assert_eq!(720, falling_factorial);
}

#[test]
fn falling_factorial_test3() {
    let x = 15;
    let n = 4;
    let falling_factorial = Probability::falling_factorial(x, n);
    assert_eq!(32760, falling_factorial);
}

#[test]
fn falling_factorial_test4() {
    let x = 20;
    let n = 5;
    let falling_factorial = Probability::falling_factorial(x, n);
    assert_eq!(1860480, falling_factorial);
}

#[test]
fn falling_factorial_of_all_terms_is_the_factorial() {
    assert_eq!(Probability::falling_factorial(5, 5), 120);
    assert_eq!(
        Probability::falling_factorial(12, 12),
        Probability::factorial(12)
    );
}

#[test]
fn plain_probability_agrees_with_the_special_kernel() {
    assert_eq!(prob::Probability::permutation(4, 3), 24);
    assert_eq!(prob::Probability::permutation(2, 3), 0);
    assert_eq!(prob::Probability::combination(4, 3), 4);
    assert_eq!(prob::Probability::combination(2, 3), 0);
}

#[test]
fn factorial_whole() {
    let x = 6;

    let fact = Functions::factorial(x);

    assert_eq!(720, fact);
}

#[test]
fn pochhammer_test() {
    let x = 10;
    let n = 6;
    let poch = Functions::pochhammer(x, n);

    assert_eq!(3603600, poch);
}

#[test]
fn fallfactorial_test() {
    let x = 3;
    let n = 2;
    let fall = Functions::fallfactorial(x, n);

    assert_eq!(6, fall);
}

#[test]
fn functions_pochhammer_agrees_with_the_kernel() {
    assert_eq!(Functions::pochhammer(2, 3), 24);
}
